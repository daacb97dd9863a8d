//! Where Docker keeps its data. It lives inside a virtual disk that a walk
//! cannot discover, so its directory is looked up at a fixed place.
//!
//! What is found here is Docker's whole data root: images, used or not,
//! containers, volumes and build cache together. The tool measures and
//! removes that root as one artefact; it does not tell dangling images
//! apart, which only Docker's own tooling could do.

use vstd::prelude::*;
use crate::text::opt_view;
use crate::paths::{join, join_spec, keep_present, present_only};
use crate::scanner::Platform;

verus! {

/// Where Docker data may lie, before it is checked that the directory
/// exists: under `%LOCALAPPDATA%\Docker\wsl` on Windows, in the Docker
/// Desktop container on macOS, and at `/var/lib/docker` and the rootless
/// daemon's `~/.local/share/docker` on Linux.
pub open spec fn data_paths_spec(
    platform: Platform,
    home: Option<Seq<char>>,
    local_app_data: Option<Seq<char>>,
) -> Seq<Seq<char>> {
    match platform {
        Platform::Windows => match local_app_data {
            Some(l) => seq![join_spec(join_spec(l, "Docker"@, platform), "wsl"@, platform)],
            None => seq![],
        },
        Platform::MacOs => match home {
            Some(h) => seq![join_spec(h, "Library/Containers/com.docker.docker/Data/vms"@, platform)],
            None => seq![],
        },
        Platform::Linux => match home {
            Some(h) => seq!["/var/lib/docker"@, join_spec(h, ".local/share/docker"@, platform)],
            None => seq!["/var/lib/docker"@],
        },
        Platform::Other => seq![],
    }
}

/// The places where Docker data may lie on this platform, in the order in
/// which they are looked at.
pub fn data_paths(platform: Platform, home: Option<&str>, local_app_data: Option<&str>) -> (r: Vec<
    String,
>)
    ensures
        r@.map_values(|s: String| s@) == data_paths_spec(
            platform,
            opt_view(home),
            opt_view(local_app_data),
        ),
{
    let mut r: Vec<String> = Vec::new();
    match platform {
        Platform::Windows => {
            if let Some(l) = local_app_data {
                let d = join(l, "Docker", platform);
                r.push(join(d.as_str(), "wsl", platform));
            }
        },
        Platform::MacOs => {
            if let Some(h) = home {
                r.push(join(h, "Library/Containers/com.docker.docker/Data/vms", platform));
            }
        },
        Platform::Linux => {
            r.push(String::from_str("/var/lib/docker"));
            if let Some(h) = home {
                r.push(join(h, ".local/share/docker", platform));
            }
        },
        Platform::Other => {},
    }
    proof {
        let ghost hv = match home {
            Some(h) => Some(h@),
            None => None,
        };
        let ghost lv = match local_app_data {
            Some(l) => Some(l@),
            None => None,
        };
        assert(r@.map_values(|s: String| s@) =~= data_paths_spec(platform, hv, lv));
    }
    r
}

/// The places where Docker data lies on this platform: those of
/// `data_paths` that exist, `present[i]` telling whether the `i`-th was
/// found on disk, in the same order.
pub fn existing_data_paths(
    platform: Platform,
    home: Option<&str>,
    local_app_data: Option<&str>,
    present: &Vec<bool>,
) -> (r: Vec<String>)
    requires
        present@.len() == data_paths_spec(platform, opt_view(home), opt_view(local_app_data)).len(),
    ensures
        r@.map_values(|s: String| s@) == present_only(
            data_paths_spec(platform, opt_view(home), opt_view(local_app_data)),
            present@,
        ),
{
    let all = data_paths(platform, home, local_app_data);
    keep_present(&all, present)
}

/// Where Docker data is looked for on each platform: on macOS the Docker
/// Desktop virtual machines, `~/Library/Containers/com.docker.docker/Data/vms`;
/// on Linux `/var/lib/docker` and then the rootless daemon's
/// `~/.local/share/docker`; on Windows `%LOCALAPPDATA%\Docker\wsl`. Each is
/// the home (or local application data) directory with that relative path
/// put after a separator.
pub proof fn law_docker_places(home: Seq<char>, local: Seq<char>)
    requires
        home.len() > 0 && home.last() != '/' && home.last() != '\\',
        local.len() > 0 && local.last() != '/' && local.last() != '\\',
    ensures
        data_paths_spec(Platform::MacOs, Some(home), None) == seq![
            home + "/Library/Containers/com.docker.docker/Data/vms"@,
        ],
        data_paths_spec(Platform::Linux, Some(home), None) == seq![
            "/var/lib/docker"@,
            home + "/.local/share/docker"@,
        ],
        data_paths_spec(Platform::Linux, None, None) == seq!["/var/lib/docker"@],
        data_paths_spec(Platform::Windows, None, Some(local)) == seq![local + "\\Docker\\wsl"@],
        data_paths_spec(Platform::Windows, Some(home), None) == Seq::<Seq<char>>::empty(),
        data_paths_spec(Platform::Other, Some(home), Some(local)) == Seq::<Seq<char>>::empty(),
{
    reveal_strlit("Library/Containers/com.docker.docker/Data/vms");
    reveal_strlit("/Library/Containers/com.docker.docker/Data/vms");
    reveal_strlit(".local/share/docker");
    reveal_strlit("/.local/share/docker");
    reveal_strlit("Docker");
    reveal_strlit("wsl");
    reveal_strlit("\\Docker\\wsl");
    let m = join_spec(home, "Library/Containers/com.docker.docker/Data/vms"@, Platform::MacOs);
    assert(m =~= home + "/Library/Containers/com.docker.docker/Data/vms"@);
    let l = join_spec(home, ".local/share/docker"@, Platform::Linux);
    assert(l =~= home + "/.local/share/docker"@);
    let d = join_spec(local, "Docker"@, Platform::Windows);
    assert(d =~= local + seq!['\\'] + "Docker"@);
    let w = join_spec(d, "wsl"@, Platform::Windows);
    assert(w =~= local + "\\Docker\\wsl"@);
}

} // verus!
