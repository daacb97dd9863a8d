//! The Go module cache.

use vstd::prelude::*;
use crate::text::opt_view;
use crate::paths::{join, join_spec};
use crate::scanner::Platform;

verus! {

/// Where the Go module cache lies: `pkg/mod` under `$GOPATH`, or under
/// `~/go` when `GOPATH` is not set; `None` when neither is known.
pub open spec fn cache_path_spec(gopath: Option<Seq<char>>, home: Option<Seq<char>>, platform: Platform) -> Option<
    Seq<char>,
> {
    let root = match gopath {
        Some(g) => Some(g),
        None => match home {
            Some(h) => Some(join_spec(h, "go"@, platform)),
            None => None,
        },
    };
    match root {
        Some(r) => Some(join_spec(join_spec(r, "pkg"@, platform), "mod"@, platform)),
        None => None,
    }
}

/// The place of the Go module cache, before it is checked that it exists.
pub fn cache_path(gopath: Option<&str>, home: Option<&str>, platform: Platform) -> (r: Option<String>)
    ensures
        match r {
            Some(p) => cache_path_spec(
                opt_view(gopath),
                opt_view(home),
                platform,
            ) == Some(p@),
            None => cache_path_spec(
                opt_view(gopath),
                opt_view(home),
                platform,
            ) is None,
        },
{
    let root: String = match gopath {
        Some(g) => String::from_str(g),
        None => match home {
            Some(h) => join(h, "go", platform),
            None => return None,
        },
    };
    let pkg = join(root.as_str(), "pkg", platform);
    Some(join(pkg.as_str(), "mod", platform))
}

/// The place of the Go module cache when it exists: `cache_path`, kept only when
/// `present` tells that it was found on disk.
pub fn existing_cache_path(gopath: Option<&str>, home: Option<&str>, platform: Platform, present: bool) -> (r: Option<String>)
    ensures
        match r {
            Some(p) => present && cache_path_spec(opt_view(gopath), opt_view(home), platform) == Some(p@),
            None => !present || cache_path_spec(opt_view(gopath), opt_view(home), platform) is None,
        },
{
    if present {
        cache_path(gopath, home, platform)
    } else {
        None
    }
}

} // verus!
