//! `target/` directories of Cargo and Maven projects.

use vstd::prelude::*;
use crate::scanner::{ArtifactKind, Probe, builds_target};

verus! {

/// A `target` directory is build output when a `Cargo.toml` or `pom.xml`
/// stands beside it.
pub open spec fn target_kind(p: Probe) -> Option<ArtifactKind> {
    if builds_target(p) {
        Some(ArtifactKind::BuildTarget)
    } else {
        None
    }
}

/// Classifies a `target` directory.
pub fn classify(p: &Probe) -> (k: Option<ArtifactKind>)
    ensures
        k == target_kind(*p),
{
    match p.parent {
        Some(m) => if m.cargo_toml || m.pom_xml {
            Some(ArtifactKind::BuildTarget)
        } else {
            None
        },
        None => None,
    }
}

} // verus!
