//! `build/` directories of Flutter projects.

use vstd::prelude::*;
use crate::scanner::{ArtifactKind, Probe};

verus! {

/// A `build` directory is Flutter output when a `pubspec.yaml` stands
/// beside it.
pub open spec fn flutter_kind(p: Probe) -> Option<ArtifactKind> {
    match p.parent {
        Some(m) => if m.pubspec_yaml {
            Some(ArtifactKind::FlutterBuild)
        } else {
            None
        },
        None => None,
    }
}

/// Classifies a `build` directory.
pub fn classify(p: &Probe) -> (k: Option<ArtifactKind>)
    ensures
        k == flutter_kind(*p),
{
    match p.parent {
        Some(m) => if m.pubspec_yaml {
            Some(ArtifactKind::FlutterBuild)
        } else {
            None
        },
        None => None,
    }
}

} // verus!
