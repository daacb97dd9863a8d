//! The JavaScript ecosystem: `node_modules`, and the caches of Next.js,
//! Nuxt, Turborepo and Parcel.

use vstd::prelude::*;
use crate::scanner::{ArtifactKind, Probe};
use crate::scanner::walker::{git_within, has_git_ancestor_from};
use crate::text::str_eq;

verus! {

/// A `package.json` stands beside the directory, and a `.git` lies in its
/// parent or one of the four directories above that.
pub open spec fn in_js_project(p: Probe) -> bool {
    match p.parent {
        Some(m) => m.package_json && git_within(p.git_levels@, 1, 4),
        None => false,
    }
}

/// The JavaScript rules: `node_modules`, `.next` and `.nuxt` inside a
/// JavaScript project under version control; `.turbo` with a `.git` in it or
/// up to four directories above; `.parcel-cache` with one up to three above.
pub open spec fn node_kind(name: Seq<char>, p: Probe) -> Option<ArtifactKind> {
    if name == "node_modules"@ || name == ".next"@ || name == ".nuxt"@ {
        if in_js_project(p) {
            Some(
                if name == "node_modules"@ {
                    ArtifactKind::NodeModules
                } else if name == ".next"@ {
                    ArtifactKind::NextCache
                } else {
                    ArtifactKind::NuxtCache
                },
            )
        } else {
            None
        }
    } else if name == ".turbo"@ {
        if git_within(p.git_levels@, 0, 4) {
            Some(ArtifactKind::TurboCache)
        } else {
            None
        }
    } else if name == ".parcel-cache"@ {
        if git_within(p.git_levels@, 0, 3) {
            Some(ArtifactKind::ParcelCache)
        } else {
            None
        }
    } else {
        None
    }
}

/// Classifies a directory of the JavaScript ecosystem.
pub fn classify(name: &str, p: &Probe) -> (k: Option<ArtifactKind>)
    ensures
        k == node_kind(name@, *p),
{
    if str_eq(name, "node_modules") || str_eq(name, ".next") || str_eq(name, ".nuxt") {
        let in_project = match p.parent {
            Some(m) => m.package_json && has_git_ancestor_from(&p.git_levels, 1, 4),
            None => false,
        };
        if in_project {
            if str_eq(name, "node_modules") {
                Some(ArtifactKind::NodeModules)
            } else if str_eq(name, ".next") {
                Some(ArtifactKind::NextCache)
            } else {
                Some(ArtifactKind::NuxtCache)
            }
        } else {
            None
        }
    } else if str_eq(name, ".turbo") {
        if has_git_ancestor_from(&p.git_levels, 0, 4) {
            Some(ArtifactKind::TurboCache)
        } else {
            None
        }
    } else if str_eq(name, ".parcel-cache") {
        if has_git_ancestor_from(&p.git_levels, 0, 3) {
            Some(ArtifactKind::ParcelCache)
        } else {
            None
        }
    } else {
        None
    }
}

} // verus!
