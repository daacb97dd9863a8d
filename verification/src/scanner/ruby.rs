//! Installed Ruby gems.

use vstd::prelude::*;
use crate::text::opt_view;
use crate::paths::{join, join_spec};
use crate::scanner::Platform;

verus! {

/// Where installed gems lie: `~/.gem/ruby`; `None` when the home directory
/// is not known.
pub open spec fn cache_path_spec(home: Option<Seq<char>>, platform: Platform) -> Option<Seq<char>> {
    match home {
        Some(h) => Some(join_spec(join_spec(h, ".gem"@, platform), "ruby"@, platform)),
        None => None,
    }
}

/// The place of installed gems, before it is checked that it exists.
pub fn cache_path(home: Option<&str>, platform: Platform) -> (r: Option<String>)
    ensures
        match r {
            Some(p) => cache_path_spec(
                opt_view(home),
                platform,
            ) == Some(p@),
            None => home is None,
        },
{
    match home {
        Some(h) => {
            let gem = join(h, ".gem", platform);
            Some(join(gem.as_str(), "ruby", platform))
        },
        None => None,
    }
}

/// The place of installed gems when it exists: `cache_path`, kept only when
/// `present` tells that it was found on disk.
pub fn existing_cache_path(home: Option<&str>, platform: Platform, present: bool) -> (r: Option<String>)
    ensures
        match r {
            Some(p) => present && cache_path_spec(opt_view(home), platform) == Some(p@),
            None => !present || cache_path_spec(opt_view(home), platform) is None,
        },
{
    if present {
        cache_path(home, platform)
    } else {
        None
    }
}

} // verus!
