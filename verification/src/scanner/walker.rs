//! The walk over a subtree: which directories are never entered, which
//! names mark the edge of an artefact, whether a `.git` lies close above,
//! and the dispatch of classification to each ecosystem.

use vstd::prelude::*;
use crate::scanner::{ArtifactKind, Platform, Probe, probe_name, WalkAction};
use crate::scanner::{build_output, elixir, flutter, node, python};
use crate::text::str_eq;

verus! {

/// Directory names that the walk never enters: version-control internals,
/// and on Windows the app sandbox and browser backups, which cannot be read.
pub open spec fn skip_name_spec(name: Seq<char>, platform: Platform) -> bool {
    name == ".git"@ || name == ".hg"@ || name == ".svn"@ || (platform == Platform::Windows && (
    name == "WindowsApps"@ || name == "MicrosoftEdgeBackups"@))
}

/// Whether a directory of this name is never entered.
pub fn should_skip_name(name: &str, platform: Platform) -> (r: bool)
    ensures
        r == skip_name_spec(name@, platform),
{
    if str_eq(name, ".git") || str_eq(name, ".hg") || str_eq(name, ".svn") {
        return true;
    }
    match platform {
        Platform::Windows => str_eq(name, "WindowsApps") || str_eq(name, "MicrosoftEdgeBackups"),
        _ => false,
    }
}

/// Names that the walk never enters, whether or not the entry turned out
/// to be an artefact.
pub open spec fn boundary_spec(name: Seq<char>) -> bool {
    name == "node_modules"@ || name == ".venv"@ || name == "venv"@ || name == "__pycache__"@
        || name == ".gradle"@ || name == "target"@ || name == ".next"@ || name == ".nuxt"@
        || name == ".turbo"@ || name == ".parcel-cache"@ || name == ".pytest_cache"@ || name
        == ".tox"@ || name == "_build"@
}

/// Whether the name marks the edge of an artefact.
pub fn is_artefact_boundary(name: &str) -> (r: bool)
    ensures
        r == boundary_spec(name@),
{
    str_eq(name, "node_modules") || str_eq(name, ".venv") || str_eq(name, "venv") || str_eq(
        name,
        "__pycache__",
    ) || str_eq(name, ".gradle") || str_eq(name, "target") || str_eq(name, ".next") || str_eq(
        name,
        ".nuxt",
    ) || str_eq(name, ".turbo") || str_eq(name, ".parcel-cache") || str_eq(name, ".pytest_cache")
        || str_eq(name, ".tox") || str_eq(name, "_build")
}

/// A `.git` entry sits in one of the ancestors `from ..= from + max_depth`
/// of the chain (index 0 being where the chain starts).
pub open spec fn git_within(levels: Seq<bool>, from: int, max_depth: int) -> bool {
    exists|k: int| from <= k <= from + max_depth && k < levels.len() && #[trigger] levels[k]
}

/// How far up the rules look for a `.git`: the entry and its first five
/// ancestors.
pub const GIT_LEVELS: usize = 6;

/// The rules look no further up than `GIT_LEVELS` directories: a chain cut
/// there answers every question that they ask of it.
pub proof fn law_git_levels_suffice(levels: Seq<bool>, from: int, max_depth: int)
    requires
        0 <= from,
        0 <= max_depth,
        from + max_depth < GIT_LEVELS,
    ensures
        git_within(
            levels.subrange(0, if levels.len() < GIT_LEVELS { levels.len() as int } else { GIT_LEVELS as int }),
            from,
            max_depth,
        ) == git_within(levels, from, max_depth),
{
    let cut = levels.subrange(0, if levels.len() < GIT_LEVELS { levels.len() as int } else { GIT_LEVELS as int });
    if git_within(levels, from, max_depth) {
        let k = choose|k: int| from <= k <= from + max_depth && k < levels.len() && #[trigger] levels[k];
        assert(cut[k] == levels[k]);
    }
    if git_within(cut, from, max_depth) {
        let k = choose|k: int| from <= k <= from + max_depth && k < cut.len() && #[trigger] cut[k];
        assert(cut[k] == levels[k]);
    }
}

/// Whether one of the first `max_depth + 1` directories of the chain,
/// starting at index `from`, holds a `.git` entry.
pub fn has_git_ancestor_from(levels: &Vec<bool>, from: usize, max_depth: usize) -> (r: bool)
    ensures
        r == git_within(levels@, from as int, max_depth as int),
{
    let mut k: usize = from;
    while k < levels.len() && k - from <= max_depth
        invariant
            from <= k,
            k <= from + max_depth + 1,
            forall|j: int| from <= j < k ==> j < levels@.len() ==> !levels@[j],
        decreases levels@.len() - k,
    {
        if levels[k] {
            return true;
        }
        k = k + 1;
    }
    assert(!git_within(levels@, from as int, max_depth as int));
    false
}

/// Whether the directory at the start of the chain, or one of its first
/// `max_depth` ancestors, holds a `.git` entry. `levels[k]` tells whether
/// the `k`-th directory up from the start holds one; the chain ends at the
/// root of the file system.
pub fn has_git_ancestor(levels: &Vec<bool>, max_depth: usize) -> (r: bool)
    ensures
        r == git_within(levels@, 0, max_depth as int),
{
    has_git_ancestor_from(levels, 0, max_depth)
}

/// How the walk classifies an entry: each name goes to the rules of its
/// ecosystem.
pub open spec fn walk_kind(p: Probe) -> Option<ArtifactKind> {
    if !p.is_dir {
        None
    } else {
        match probe_name(p) {
            None => None,
            Some(n) => if n == "node_modules"@ || n == ".next"@ || n == ".nuxt"@ || n == ".turbo"@
                || n == ".parcel-cache"@ {
                node::node_kind(n, p)
            } else if n == "__pycache__"@ || n == ".pytest_cache"@ || n == ".venv"@ || n
                == "venv"@ || n == ".tox"@ {
                python::python_kind(n, p)
            } else if n == ".gradle"@ {
                Some(ArtifactKind::GradleCache)
            } else if n == "target"@ {
                build_output::target_kind(p)
            } else if n == "build"@ {
                flutter::flutter_kind(p)
            } else if n == "_build"@ {
                elixir::elixir_kind(p)
            } else {
                None
            },
        }
    }
}

/// Classifies an entry met by the walk.
pub fn classify(p: &Probe) -> (k: Option<ArtifactKind>)
    ensures
        k == walk_kind(*p),
{
    if !p.is_dir {
        return None;
    }
    let name: &str = match &p.name {
        Some(n) => n.as_str(),
        None => return None,
    };
    if str_eq(name, "node_modules") || str_eq(name, ".next") || str_eq(name, ".nuxt") || str_eq(
        name,
        ".turbo",
    ) || str_eq(name, ".parcel-cache") {
        node::classify(name, p)
    } else if str_eq(name, "__pycache__") || str_eq(name, ".pytest_cache") || str_eq(name, ".venv")
        || str_eq(name, "venv") || str_eq(name, ".tox") {
        python::classify(name, p)
    } else if str_eq(name, ".gradle") {
        Some(ArtifactKind::GradleCache)
    } else if str_eq(name, "target") {
        build_output::classify(p)
    } else if str_eq(name, "build") {
        flutter::classify(p)
    } else if str_eq(name, "_build") {
        elixir::classify(p)
    } else {
        None
    }
}

/// The name used for the boundary test: the file name, or the empty text
/// when it is not valid UTF-8.
pub open spec fn name_or_empty(p: Probe) -> Seq<char> {
    match probe_name(p) {
        Some(n) => n,
        None => Seq::empty(),
    }
}

/// What the walk does with an entry: never-entered directories are
/// skipped; artefacts are recorded and not entered; other directories whose
/// name marks an artefact's edge are not entered; anything else (files
/// among it) is entered.
pub open spec fn walk_action_spec(p: Probe, platform: Platform) -> WalkAction {
    if crate::scanner::skipped(p, platform) {
        WalkAction::Skip
    } else {
        match walk_kind(p) {
            Some(k) => WalkAction::Collect(k),
            None => if p.is_dir && boundary_spec(name_or_empty(p)) {
                WalkAction::Skip
            } else {
                WalkAction::Descend
            },
        }
    }
}

/// Decides what the walk does with one entry.
pub fn walk_action(p: &Probe, platform: Platform) -> (a: WalkAction)
    ensures
        a == walk_action_spec(*p, platform),
{
    if crate::scanner::should_skip(p, platform) {
        return WalkAction::Skip;
    }
    match classify(p) {
        Some(k) => WalkAction::Collect(k),
        None => {
            let boundary = p.is_dir && match &p.name {
                Some(n) => is_artefact_boundary(n.as_str()),
                None => {
                    proof {
                        reveal_strlit("");
                        assert(""@ =~= Seq::<char>::empty());
                    }
                    is_artefact_boundary("")
                },
            };
            if boundary {
                WalkAction::Skip
            } else {
                WalkAction::Descend
            }
        },
    }
}


/// The names whose classification looks at more than the name: beside the
/// edges of artefacts, `build` and `_build`.
pub open spec fn detailed_name(name: Seq<char>) -> bool {
    boundary_spec(name) || name == "build"@ || name == "_build"@
}

/// Whether the walk needs to learn more of a directory of this name (its
/// neighbours, its contents, the `.git` directories above it) before
/// classifying it. For any other name no artefact is found, whatever else
/// is known.
pub fn needs_details(name: &str) -> (r: bool)
    ensures
        r == detailed_name(name@),
        !r ==> forall|p: Probe|
            probe_name(p) == Some(name@) ==> (#[trigger] walk_kind(p)) is None,
        !r ==> forall|p: Probe|
            probe_name(p) == Some(name@) ==> (#[trigger] crate::scanner::scan_kind(p)) is None,
{
    is_artefact_boundary(name) || str_eq(name, "build") || str_eq(name, "_build")
}

/// What an entry meets: the scan's rules when `scan` holds, otherwise the
/// walk's.
pub open spec fn entry_action(p: Probe, platform: Platform, scan: bool) -> WalkAction {
    if scan {
        crate::scanner::scan_action_spec(p, platform)
    } else {
        walk_action_spec(p, platform)
    }
}

/// An entry at `depth` lies inside the directory at depth `cut` whose
/// contents are being passed over.
pub open spec fn hidden(cut: Option<nat>, depth: nat) -> bool {
    match cut {
        Some(c) => depth > c,
        None => false,
    }
}

/// A walk over the entries of a tree met in pre-order, each with its depth
/// under the root, after its first `n` entries: the depth of the directory
/// whose contents are being passed over, if any, and the entries collected
/// so far, by position and kind. An entry inside a directory that was
/// skipped or collected is passed over; any other entry is skipped,
/// collected or entered as `entry_action` says.
pub open spec fn walk_upto(entries: Seq<(Probe, nat)>, platform: Platform, scan: bool, n: nat) -> (
    Option<nat>,
    Seq<(nat, ArtifactKind)>,
)
    decreases n,
{
    if n == 0 || n > entries.len() {
        (None, Seq::empty())
    } else {
        let before = walk_upto(entries, platform, scan, (n - 1) as nat);
        let e = entries[n - 1];
        if hidden(before.0, e.1) {
            before
        } else {
            match entry_action(e.0, platform, scan) {
                WalkAction::Descend => (None, before.1),
                WalkAction::Skip => (Some(e.1), before.1),
                WalkAction::Collect(k) => (Some(e.1), before.1.push(((n - 1) as nat, k))),
            }
        }
    }
}

/// What a whole walk over the entries collects, by position and kind.
pub open spec fn walk_found(entries: Seq<(Probe, nat)>, platform: Platform, scan: bool) -> Seq<
    (nat, ArtifactKind),
> {
    walk_upto(entries, platform, scan, entries.len()).1
}

proof fn lemma_found_inv(entries: Seq<(Probe, nat)>, platform: Platform, scan: bool, n: nat)
    requires
        n <= entries.len(),
    ensures
        forall|m: int|
            0 <= m < walk_upto(entries, platform, scan, n).1.len() ==> {
                let f = #[trigger] walk_upto(entries, platform, scan, n).1[m];
                &&& f.0 < n
                &&& !hidden(walk_upto(entries, platform, scan, f.0).0, entries[f.0 as int].1)
                &&& entry_action(entries[f.0 as int].0, platform, scan) == WalkAction::Collect(f.1)
            },
        forall|m1: int, m2: int|
            0 <= m1 < m2 < walk_upto(entries, platform, scan, n).1.len() ==> (#[trigger] walk_upto(
                entries,
                platform,
                scan,
                n,
            ).1[m1]).0 < (#[trigger] walk_upto(entries, platform, scan, n).1[m2]).0,
    decreases n,
{
    if n > 0 {
        lemma_found_inv(entries, platform, scan, (n - 1) as nat);
    }
}

proof fn lemma_cut_covers(entries: Seq<(Probe, nat)>, platform: Platform, scan: bool, j: nat, n: nat)
    requires
        j < n <= entries.len(),
        entry_action(entries[j as int].0, platform, scan) != WalkAction::Descend,
        forall|l: int| j < l < n ==> (#[trigger] entries[l]).1 > entries[j as int].1,
    ensures
        walk_upto(entries, platform, scan, n).0 matches Some(c) && c <= entries[j as int].1,
    decreases n,
{
    if n > j + 1 {
        lemma_cut_covers(entries, platform, scan, j, (n - 1) as nat);
        assert(entries[n - 1].1 > entries[j as int].1);
    }
}

/// A walk over a tree (its entries in pre-order, each with its depth)
/// collects only directories, each as the kind that the rules give it, in
/// the order met and each once; and it collects nothing inside a directory
/// that it skipped or collected.
pub proof fn law_walk_collects(entries: Seq<(Probe, nat)>, platform: Platform, scan: bool)
    ensures
        forall|m: int|
            0 <= m < walk_found(entries, platform, scan).len() ==> {
                let f = #[trigger] walk_found(entries, platform, scan)[m];
                let p = entries[f.0 as int].0;
                &&& f.0 < entries.len()
                &&& p.is_dir
                &&& entry_action(p, platform, scan) == WalkAction::Collect(f.1)
                &&& scan ==> crate::scanner::scan_kind(p) == Some(f.1)
                &&& !scan ==> walk_kind(p) == Some(f.1)
            },
        forall|m1: int, m2: int|
            0 <= m1 < m2 < walk_found(entries, platform, scan).len() ==> (#[trigger] walk_found(
                entries,
                platform,
                scan,
            )[m1]).0 < (#[trigger] walk_found(entries, platform, scan)[m2]).0,
        forall|j: int, i: int, m: int|
            #![trigger entries[j], entries[i], walk_found(entries, platform, scan)[m]]
            0 <= j < i < entries.len() && entry_action(entries[j].0, platform, scan)
                != WalkAction::Descend && (forall|l: int| j < l <= i ==> (#[trigger] entries[l]).1
                > entries[j].1) && 0 <= m < walk_found(entries, platform, scan).len()
                ==> walk_found(entries, platform, scan)[m].0 != i,
{
    let n = entries.len();
    lemma_found_inv(entries, platform, scan, n);
    assert forall|j: int, i: int, m: int|
        #![trigger entries[j], entries[i], walk_found(entries, platform, scan)[m]]
        0 <= j < i < entries.len() && entry_action(entries[j].0, platform, scan)
            != WalkAction::Descend && (forall|l: int| j < l <= i ==> (#[trigger] entries[l]).1
            > entries[j].1) && 0 <= m < walk_found(entries, platform, scan).len()
            implies walk_found(entries, platform, scan)[m].0 != i by {
        let f = walk_found(entries, platform, scan)[m];
        if f.0 == i {
            lemma_cut_covers(entries, platform, scan, j as nat, i as nat);
            assert(entries[i].1 > entries[j].1);
        }
    }
}

/// Version-control internals are never entered on any platform; on
/// Windows the app sandbox and the browser backups are not entered either,
/// and elsewhere those names are ordinary.
pub proof fn law_skip_names(platform: Platform)
    ensures
        skip_name_spec(".git"@, platform),
        skip_name_spec(".hg"@, platform),
        skip_name_spec(".svn"@, platform),
        skip_name_spec("WindowsApps"@, platform) <==> platform == Platform::Windows,
        skip_name_spec("MicrosoftEdgeBackups"@, platform) <==> platform == Platform::Windows,
{
    reveal_strlit(".git");
    reveal_strlit(".hg");
    reveal_strlit(".svn");
    reveal_strlit("WindowsApps");
    reveal_strlit("MicrosoftEdgeBackups");
    assert("WindowsApps"@.len() == 11);
    assert("MicrosoftEdgeBackups"@.len() == 20);
}

} // verus!
