//! `_build/` directories of Elixir (Mix) projects.

use vstd::prelude::*;
use crate::scanner::{ArtifactKind, Probe};

verus! {

/// A `_build` directory is Mix output when a `mix.exs` stands beside it.
pub open spec fn elixir_kind(p: Probe) -> Option<ArtifactKind> {
    match p.parent {
        Some(m) => if m.mix_exs {
            Some(ArtifactKind::ElixirBuild)
        } else {
            None
        },
        None => None,
    }
}

/// Classifies a `_build` directory.
pub fn classify(p: &Probe) -> (k: Option<ArtifactKind>)
    ensures
        k == elixir_kind(*p),
{
    match p.parent {
        Some(m) => if m.mix_exs {
            Some(ArtifactKind::ElixirBuild)
        } else {
            None
        },
        None => None,
    }
}

} // verus!
