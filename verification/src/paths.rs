//! Paths held as text: joining a relative name onto a directory, and the
//! component-wise prefix tests of `std::path::Path`.

use vstd::prelude::*;
use crate::text::{chars_of, push_chars};
use crate::scanner::Platform;

verus! {

/// The separator that `Path::join` puts between two components: `\` on
/// Windows, `/` elsewhere.
pub open spec fn separator(platform: Platform) -> char {
    if platform == Platform::Windows {
        '\\'
    } else {
        '/'
    }
}

/// Whether `c` separates path components: `/`, and on Windows `\` too.
pub open spec fn is_separator(c: char, platform: Platform) -> bool {
    c == '/' || (platform == Platform::Windows && c == '\\')
}

/// `base` with the relative name `name` appended, as `Path::join` does for
/// a name without a root or a drive: a separator is put between them unless
/// `base` is empty or already ends with one. (A `base` that is a bare drive
/// such as `C:`, or a verbatim path, is not covered: `Path::join` treats
/// them apart.)
pub open spec fn join_spec(base: Seq<char>, name: Seq<char>, platform: Platform) -> Seq<char> {
    if base.len() == 0 {
        name
    } else if is_separator(base.last(), platform) {
        base + name
    } else {
        base + seq![separator(platform)] + name
    }
}

/// Appends the relative name `name` to the directory `base`.
pub fn join(base: &str, name: &str, platform: Platform) -> (r: String)
    ensures
        r@ == join_spec(base@, name@, platform),
{
    let b = chars_of(base);
    let n = chars_of(name);
    let windows = match platform {
        Platform::Windows => true,
        _ => false,
    };
    let mut r = String::new();
    push_chars(&mut r, &b);
    if b.len() > 0 {
        let last = b[b.len() - 1];
        let ends_with_separator = last == '/' || (windows && last == '\\');
        if !ends_with_separator {
            if windows {
                r.push('\\');
            } else {
                r.push('/');
            }
        }
    }
    push_chars(&mut r, &n);
    assert(r@ =~= join_spec(base@, name@, platform));
    r
}

/// Whether `base` is a prefix of `path` component by component, as
/// `Path::starts_with` decides it.
pub uninterp spec fn path_starts_with_spec(path: Seq<char>, base: Seq<char>) -> bool;

/// What remains of `path` after the components of `base`, as
/// `Path::strip_prefix` gives it and `Path::display` writes it; `None` when
/// `base` is not a prefix of `path`.
pub uninterp spec fn path_strip_prefix_spec(path: Seq<char>, base: Seq<char>) -> Option<Seq<char>>;

/// Calls `std::path::Path::starts_with`: whether the components of `base`
/// begin the components of `path`. The result is a function of the two
/// texts alone; what that function is (how separators and `.` components
/// are read) is left to the name `path_starts_with_spec`.
#[verifier::external_body]
pub fn path_starts_with(path: &str, base: &str) -> (r: bool)
    ensures
        r == path_starts_with_spec(path@, base@),
{
    std::path::Path::new(path).starts_with(base)
}

/// Calls `std::path::Path::strip_prefix` and writes the rest with
/// `Path::display`: `None` exactly when `base` does not begin `path`. The
/// rest is a function of the two texts alone, named
/// `path_strip_prefix_spec`.
#[verifier::external_body]
pub fn path_strip_prefix(path: &str, base: &str) -> (r: Option<String>)
    ensures
        r.is_some() == path_strip_prefix_spec(path@, base@).is_some(),
        r.is_some() ==> r.unwrap()@ == path_strip_prefix_spec(path@, base@).unwrap(),
{
    match std::path::Path::new(path).strip_prefix(base) {
        Ok(rest) => Some(rest.display().to_string()),
        Err(_) => None,
    }
}

/// The paths whose entry in `present` holds, in their order.
pub open spec fn present_only(paths: Seq<Seq<char>>, present: Seq<bool>) -> Seq<Seq<char>>
    decreases paths.len(),
{
    if paths.len() == 0 || present.len() == 0 {
        Seq::empty()
    } else {
        let before = present_only(paths.drop_last(), present.drop_last());
        if present.last() {
            before.push(paths.last())
        } else {
            before
        }
    }
}

/// Keeps the paths that exist: `present[i]` tells whether `paths[i]` was
/// found on disk. The others are dropped and the order is kept.
pub fn keep_present(paths: &Vec<String>, present: &Vec<bool>) -> (r: Vec<String>)
    requires
        present@.len() == paths@.len(),
    ensures
        r@.map_values(|s: String| s@) == present_only(paths@.map_values(|s: String| s@), present@),
{
    let ghost all = paths@.map_values(|s: String| s@);
    let mut r: Vec<String> = Vec::new();
    let mut i: usize = 0;
    while i < paths.len()
        invariant
            i <= paths@.len(),
            present@.len() == paths@.len(),
            all == paths@.map_values(|s: String| s@),
            r@.map_values(|s: String| s@) == present_only(all.take(i as int), present@.take(i as int)),
        decreases paths@.len() - i,
    {
        proof {
            assert(all.take(i + 1).drop_last() =~= all.take(i as int));
            assert(present@.take(i + 1).drop_last() =~= present@.take(i as int));
        }
        let ghost before = r@;
        if present[i] {
            let p = paths[i].clone();
            r.push(p);
            assert(r@.map_values(|s: String| s@) =~= before.map_values(|s: String| s@).push(all[i as int]));
        }
        i = i + 1;
    }
    assert(all.take(i as int) =~= all);
    assert(present@.take(i as int) =~= present@);
    r
}

} // verus!
