//! The Python ecosystem: bytecode caches, pytest caches, virtual
//! environments and tox environments.

use vstd::prelude::*;
use crate::scanner::{ArtifactKind, Probe};
use crate::scanner::walker::{git_within, has_git_ancestor_from};
use crate::text::str_eq;

verus! {

/// A tox, setuptools or pyproject configuration stands beside the
/// directory, and a `.git` lies in its parent or one of the four
/// directories above that.
pub open spec fn in_tox_project(p: Probe) -> bool {
    match p.parent {
        Some(m) => (m.tox_ini || m.setup_cfg || m.pyproject_toml) && git_within(p.git_levels@, 1, 4),
        None => false,
    }
}

/// The Python rules: `__pycache__` always; `.pytest_cache` with a `.git` in
/// it or up to four directories above; `.venv` and `venv` when they hold
/// `pyvenv.cfg`; `.tox` inside a configured project under version control.
pub open spec fn python_kind(name: Seq<char>, p: Probe) -> Option<ArtifactKind> {
    if name == "__pycache__"@ {
        Some(ArtifactKind::Pycache)
    } else if name == ".pytest_cache"@ {
        if git_within(p.git_levels@, 0, 4) {
            Some(ArtifactKind::PytestCache)
        } else {
            None
        }
    } else if name == ".venv"@ || name == "venv"@ {
        if p.has_pyvenv_cfg {
            Some(ArtifactKind::PythonVenv)
        } else {
            None
        }
    } else if name == ".tox"@ {
        if in_tox_project(p) {
            Some(ArtifactKind::ToxEnv)
        } else {
            None
        }
    } else {
        None
    }
}

/// Classifies a directory of the Python ecosystem.
pub fn classify(name: &str, p: &Probe) -> (k: Option<ArtifactKind>)
    ensures
        k == python_kind(name@, *p),
{
    if str_eq(name, "__pycache__") {
        Some(ArtifactKind::Pycache)
    } else if str_eq(name, ".pytest_cache") {
        if has_git_ancestor_from(&p.git_levels, 0, 4) {
            Some(ArtifactKind::PytestCache)
        } else {
            None
        }
    } else if str_eq(name, ".venv") || str_eq(name, "venv") {
        if p.has_pyvenv_cfg {
            Some(ArtifactKind::PythonVenv)
        } else {
            None
        }
    } else if str_eq(name, ".tox") {
        let ok = match p.parent {
            Some(m) => (m.tox_ini || m.setup_cfg || m.pyproject_toml) && has_git_ancestor_from(
                &p.git_levels,
                1,
                4,
            ),
            None => false,
        };
        if ok {
            Some(ArtifactKind::ToxEnv)
        } else {
            None
        }
    } else {
        None
    }
}

} // verus!
