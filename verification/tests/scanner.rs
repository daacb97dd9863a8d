use gluttony::scanner::walker::{
    classify, has_git_ancestor, is_artefact_boundary, needs_details,
    should_skip_name, walk_action,
};
use gluttony::scanner::{
    admit_fixed, cargo_registry_path, fixed_candidates, progress_message,
    root_encompasses_home, scan_action, scan_classify, sizing_message, ArtifactKind, Candidate,
    FixedCandidate, Markers, Platform, Probe, WalkAction,
};
use gluttony::scanner::{docker, go, ruby};
use gluttony::paths::keep_present;

fn no_markers() -> Markers {
    Markers {
        cargo_toml: false,
        pom_xml: false,
        package_json: false,
        pubspec_yaml: false,
        mix_exs: false,
        tox_ini: false,
        setup_cfg: false,
        pyproject_toml: false,
    }
}

fn dir(name: &str) -> Probe {
    Probe {
        is_dir: true,
        name: Some(name.to_string()),
        parent: Some(no_markers()),
        has_pyvenv_cfg: false,
        git_levels: vec![false, false, false, false, false, false],
    }
}

fn js_project(name: &str) -> Probe {
    let mut p = dir(name);
    p.parent = Some(Markers { package_json: true, ..no_markers() });
    p.git_levels = vec![false, true];
    p
}

fn scan(p: &Probe) -> WalkAction {
    scan_action(p, Platform::Linux)
}

#[test]
fn classifies_node_modules() {
    assert_eq!(scan(&dir("node_modules")), WalkAction::Collect(ArtifactKind::NodeModules));
    assert_eq!(scan_classify(&dir("node_modules")), Some(ArtifactKind::NodeModules));
    assert_eq!(scan(&js_project("node_modules")), WalkAction::Collect(ArtifactKind::NodeModules));
}

#[test]
fn scan_finds_every_listed_target() {
    assert_eq!(scan(&js_project(".next")), WalkAction::Collect(ArtifactKind::NextCache));
    assert_eq!(scan(&js_project(".nuxt")), WalkAction::Collect(ArtifactKind::NuxtCache));
    assert_eq!(scan(&js_project(".turbo")), WalkAction::Collect(ArtifactKind::TurboCache));
    assert_eq!(scan(&js_project(".parcel-cache")), WalkAction::Collect(ArtifactKind::ParcelCache));
    assert_eq!(scan(&in_repo(".pytest_cache", no_markers(), 1)), WalkAction::Collect(ArtifactKind::PytestCache));
    let tox = Markers { tox_ini: true, ..no_markers() };
    assert_eq!(scan(&in_repo(".tox", tox, 1)), WalkAction::Collect(ArtifactKind::ToxEnv));
    let flutter = Markers { pubspec_yaml: true, ..no_markers() };
    assert_eq!(scan(&in_repo("build", flutter, 9)), WalkAction::Collect(ArtifactKind::FlutterBuild));
    let mix = Markers { mix_exs: true, ..no_markers() };
    assert_eq!(scan(&in_repo("_build", mix, 9)), WalkAction::Collect(ArtifactKind::ElixirBuild));
    // Outside a project under version control these are only walked through.
    assert_eq!(scan(&dir(".next")), WalkAction::Descend);
    assert_eq!(scan(&dir("build")), WalkAction::Descend);
}

#[test]
fn classifies_gradle_cache() {
    assert_eq!(scan(&dir(".gradle")), WalkAction::Collect(ArtifactKind::GradleCache));
}

#[test]
fn classifies_pycache() {
    assert_eq!(scan(&dir("__pycache__")), WalkAction::Collect(ArtifactKind::Pycache));
}

#[test]
fn classifies_python_venv_with_cfg() {
    let mut p = dir(".venv");
    p.has_pyvenv_cfg = true;
    assert_eq!(scan(&p), WalkAction::Collect(ArtifactKind::PythonVenv));
}

#[test]
fn ignores_venv_without_cfg() {
    assert_eq!(scan_classify(&dir("venv")), None);
    assert_eq!(scan(&dir("venv")), WalkAction::Descend);
}

#[test]
fn classifies_cargo_target() {
    let mut p = dir("target");
    p.parent = Some(Markers { cargo_toml: true, ..no_markers() });
    assert_eq!(scan(&p), WalkAction::Collect(ArtifactKind::BuildTarget));
}

#[test]
fn classifies_maven_target() {
    let mut p = dir("target");
    p.parent = Some(Markers { pom_xml: true, ..no_markers() });
    assert_eq!(scan(&p), WalkAction::Collect(ArtifactKind::BuildTarget));
}

#[test]
fn ignores_bare_target_dir() {
    assert_eq!(scan_classify(&dir("target")), None);
    assert_eq!(scan(&dir("target")), WalkAction::Descend);
    let mut rootless = dir("target");
    rootless.parent = None;
    assert_eq!(scan_classify(&rootless), None);
}

#[test]
fn does_not_recurse_into_matched_dir() {
    // A found artefact is collected, and collecting means not descending:
    // the node_modules inside it is never met.
    assert_eq!(scan(&dir("node_modules")), WalkAction::Collect(ArtifactKind::NodeModules));
    assert_ne!(scan(&dir("node_modules")), WalkAction::Descend);
}

#[test]
fn skips_git_dirs() {
    assert_eq!(scan(&dir(".git")), WalkAction::Skip);
    assert_eq!(scan_action(&dir(".hg"), Platform::MacOs), WalkAction::Skip);
    assert_eq!(scan_action(&dir(".svn"), Platform::Windows), WalkAction::Skip);
}

#[test]
fn files_are_not_artefacts() {
    let mut f = dir("node_modules");
    f.is_dir = false;
    assert_eq!(scan_classify(&f), None);
    assert_eq!(classify(&f), None);
    assert_eq!(scan(&f), WalkAction::Descend);
    let mut unnamed = dir("x");
    unnamed.name = None;
    assert_eq!(scan_classify(&unnamed), None);
}

#[test]
fn skip_names_by_platform() {
    assert!(should_skip_name(".git", Platform::Linux));
    assert!(!should_skip_name("WindowsApps", Platform::Linux));
    assert!(should_skip_name("WindowsApps", Platform::Windows));
    assert!(should_skip_name("MicrosoftEdgeBackups", Platform::Windows));
    assert!(!should_skip_name("src", Platform::Windows));
}

#[test]
fn boundaries() {
    assert!(is_artefact_boundary("_build"));
    assert!(is_artefact_boundary(".parcel-cache"));
    assert!(!is_artefact_boundary("build"));
    assert!(!is_artefact_boundary(""));
}

#[test]
fn git_ancestry_depth() {
    let levels = vec![false, false, false, true];
    assert!(has_git_ancestor(&levels, 3));
    assert!(!has_git_ancestor(&levels, 2));
    assert!(!has_git_ancestor(&vec![], 4));
    assert!(has_git_ancestor(&vec![true], 0));
}

fn in_repo(name: &str, marker: Markers, git_at: usize) -> Probe {
    let mut p = dir(name);
    p.parent = Some(marker);
    p.git_levels = (0..6).map(|k| k == git_at).collect();
    p
}

#[test]
fn walker_node_rules() {
    let pkg = Markers { package_json: true, ..no_markers() };
    assert_eq!(classify(&in_repo("node_modules", pkg, 1)), Some(ArtifactKind::NodeModules));
    assert_eq!(classify(&in_repo("node_modules", pkg, 5)), Some(ArtifactKind::NodeModules));
    // The entry's own .git does not count: the search starts at the parent.
    assert_eq!(classify(&in_repo("node_modules", pkg, 0)), None);
    assert_eq!(classify(&in_repo("node_modules", no_markers(), 1)), None);
    assert_eq!(classify(&in_repo(".next", pkg, 2)), Some(ArtifactKind::NextCache));
    assert_eq!(classify(&in_repo(".nuxt", pkg, 2)), Some(ArtifactKind::NuxtCache));
    assert_eq!(classify(&in_repo(".turbo", no_markers(), 4)), Some(ArtifactKind::TurboCache));
    assert_eq!(classify(&in_repo(".turbo", no_markers(), 5)), None);
    assert_eq!(classify(&in_repo(".parcel-cache", no_markers(), 3)), Some(ArtifactKind::ParcelCache));
    assert_eq!(classify(&in_repo(".parcel-cache", no_markers(), 4)), None);
}

#[test]
fn walker_python_and_build_rules() {
    assert_eq!(classify(&dir("__pycache__")), Some(ArtifactKind::Pycache));
    assert_eq!(classify(&in_repo(".pytest_cache", no_markers(), 0)), Some(ArtifactKind::PytestCache));
    assert_eq!(classify(&dir(".pytest_cache")), None);
    let tox = Markers { pyproject_toml: true, ..no_markers() };
    assert_eq!(classify(&in_repo(".tox", tox, 2)), Some(ArtifactKind::ToxEnv));
    assert_eq!(classify(&in_repo(".tox", no_markers(), 2)), None);
    let flutter = Markers { pubspec_yaml: true, ..no_markers() };
    assert_eq!(classify(&in_repo("build", flutter, 9)), Some(ArtifactKind::FlutterBuild));
    let mix = Markers { mix_exs: true, ..no_markers() };
    assert_eq!(classify(&in_repo("_build", mix, 9)), Some(ArtifactKind::ElixirBuild));
    assert_eq!(classify(&dir(".gradle")), Some(ArtifactKind::GradleCache));
}

#[test]
fn walker_actions() {
    assert_eq!(walk_action(&dir("target"), Platform::Linux), WalkAction::Skip);
    assert_eq!(walk_action(&dir("src"), Platform::Linux), WalkAction::Descend);
    assert_eq!(walk_action(&dir(".git"), Platform::Linux), WalkAction::Skip);
    assert_eq!(walk_action(&dir("__pycache__"), Platform::Linux), WalkAction::Collect(ArtifactKind::Pycache));
    let mut file = dir("target");
    file.is_dir = false;
    assert_eq!(walk_action(&file, Platform::Linux), WalkAction::Descend);
    assert!(needs_details("build"));
    assert!(!needs_details("src"));
}

#[test]
fn fixed_places() {
    assert_eq!(
        cargo_registry_path(None, Some("/home/ann"), Platform::Linux),
        Some("/home/ann/.cargo/registry".to_string())
    );
    assert_eq!(
        cargo_registry_path(Some("/opt/cargo/"), Some("/home/ann"), Platform::Linux),
        Some("/opt/cargo/registry".to_string())
    );
    assert_eq!(cargo_registry_path(None, None, Platform::Linux), None);
    assert_eq!(go::cache_path(None, Some("/home/ann"), Platform::Linux), Some("/home/ann/go/pkg/mod".to_string()));
    assert_eq!(go::cache_path(Some("/g"), None, Platform::Linux), Some("/g/pkg/mod".to_string()));
    assert_eq!(go::cache_path(None, None, Platform::Linux), None);
    assert_eq!(ruby::cache_path(Some("/home/ann"), Platform::Linux), Some("/home/ann/.gem/ruby".to_string()));
    assert_eq!(ruby::cache_path(None, Platform::Linux), None);
    assert_eq!(
        docker::data_paths(Platform::Linux, Some("/home/ann"), None),
        vec!["/var/lib/docker".to_string(), "/home/ann/.local/share/docker".to_string()]
    );
    assert_eq!(
        docker::data_paths(Platform::Windows, None, Some("C:\\Users\\ann\\AppData\\Local")),
        vec!["C:\\Users\\ann\\AppData\\Local\\Docker\\wsl".to_string()]
    );
    assert!(docker::data_paths(Platform::Other, Some("/h"), Some("/l")).is_empty());
}

#[test]
fn home_gate() {
    assert!(root_encompasses_home("/home", Some("/home/ann")));
    assert!(root_encompasses_home("/home/ann", Some("/home/ann")));
    assert!(!root_encompasses_home("/home/ann/code", Some("/home/ann")));
    assert!(!root_encompasses_home("/home/an", Some("/home/ann")));
    assert!(!root_encompasses_home("/", None));
}

#[test]
fn fixed_candidates_by_platform() {
    let linux_away = fixed_candidates(Platform::Linux, false, None, Some("/h"), None);
    assert_eq!(linux_away.len(), 2);
    assert_eq!(linux_away[0].kind, ArtifactKind::DockerData);
    let linux_home = fixed_candidates(Platform::Linux, true, None, Some("/h"), None);
    assert_eq!(linux_home.len(), 3);
    assert_eq!(linux_home[0].path, "/h/.cargo/registry");
    let mac_away = fixed_candidates(Platform::MacOs, false, None, Some("/h"), None);
    assert!(mac_away.is_empty());
    let mac_home = fixed_candidates(Platform::MacOs, true, None, Some("/h"), None);
    assert_eq!(mac_home.len(), 3);
    assert_eq!(mac_home[1].path, "/h/Library/Developer/Xcode/DerivedData");
    assert!(!mac_home[1].unless_found);
}

#[test]
fn admitting_fixed_places() {
    let mut cands = vec![Candidate { path: "/h/.cargo/registry".to_string(), kind: ArtifactKind::NodeModules }];
    let reg = FixedCandidate { path: "/h/.cargo/registry".to_string(), kind: ArtifactKind::CargoRegistry, unless_found: true };
    admit_fixed(&mut cands, reg, true);
    assert_eq!(cands.len(), 1);
    let xcode = FixedCandidate { path: "/h/.cargo/registry".to_string(), kind: ArtifactKind::XcodeDerivedData, unless_found: false };
    admit_fixed(&mut cands, xcode, true);
    assert_eq!(cands.len(), 2);
    let missing = FixedCandidate { path: "/var/lib/docker".to_string(), kind: ArtifactKind::DockerData, unless_found: true };
    admit_fixed(&mut cands, missing.clone(), false);
    assert_eq!(cands.len(), 2);
    admit_fixed(&mut cands, missing, true);
    assert_eq!(cands.len(), 3);
    assert_eq!(cands[2].kind, ArtifactKind::DockerData);
}

#[test]
fn labels() {
    assert_eq!(ArtifactKind::BuildTarget.label(), "target (build)");
    assert_eq!(ArtifactKind::DockerData.label(), "Docker data");
    assert_eq!(ArtifactKind::XcodeDerivedData.label(), "Xcode DerivedData");
}

#[test]
fn scan_messages() {
    assert_eq!(sizing_message(3), "Computing sizes for 3 artefact(s)...");
    assert_eq!(progress_message(12_500, 7), "Scanning…  12,500 entries checked, 7 found");
}

#[test]
fn every_kind_has_its_own_label() {
    let kinds = [
        ArtifactKind::NodeModules,
        ArtifactKind::GradleCache,
        ArtifactKind::BuildTarget,
        ArtifactKind::Pycache,
        ArtifactKind::PythonVenv,
        ArtifactKind::CargoRegistry,
        ArtifactKind::XcodeDerivedData,
        ArtifactKind::DockerData,
        ArtifactKind::NextCache,
        ArtifactKind::NuxtCache,
        ArtifactKind::TurboCache,
        ArtifactKind::ParcelCache,
        ArtifactKind::PytestCache,
        ArtifactKind::ToxEnv,
        ArtifactKind::FlutterBuild,
        ArtifactKind::ElixirBuild,
    ];
    for (i, a) in kinds.iter().enumerate() {
        for b in &kinds[i + 1..] {
            assert_ne!(a.label(), b.label());
        }
    }
}

#[test]
fn windows_paths_use_backslashes() {
    assert_eq!(
        cargo_registry_path(None, Some("C:\\Users\\ann"), Platform::Windows),
        Some("C:\\Users\\ann\\.cargo\\registry".to_string())
    );
    assert_eq!(
        cargo_registry_path(Some("D:\\cargo\\"), None, Platform::Windows),
        Some("D:\\cargo\\registry".to_string())
    );
}

#[test]
fn only_present_places_are_kept() {
    let paths = vec!["/a".to_string(), "/b".to_string(), "/c".to_string()];
    assert_eq!(keep_present(&paths, &vec![true, false, true]), vec!["/a".to_string(), "/c".to_string()]);
    assert!(keep_present(&paths, &vec![false, false, false]).is_empty());
    assert_eq!(
        docker::existing_data_paths(Platform::Linux, Some("/home/ann"), None, &vec![false, true]),
        vec!["/home/ann/.local/share/docker".to_string()]
    );
    assert_eq!(
        ruby::existing_cache_path(Some("/home/ann"), Platform::Linux, true),
        Some("/home/ann/.gem/ruby".to_string())
    );
    assert_eq!(ruby::existing_cache_path(Some("/home/ann"), Platform::Linux, false), None);
    assert_eq!(go::existing_cache_path(Some("/g"), None, Platform::Linux, true), Some("/g/pkg/mod".to_string()));
    assert_eq!(go::existing_cache_path(Some("/g"), None, Platform::Linux, false), None);
}

/// A walk in pre-order over `(probe, depth)` entries, passing over the
/// contents of what is skipped or collected, as the program walks the disk.
fn walk(entries: &[(Probe, usize)]) -> Vec<(usize, ArtifactKind)> {
    let mut cut: Option<usize> = None;
    let mut found = Vec::new();
    for (i, (p, d)) in entries.iter().enumerate() {
        if cut.is_some_and(|c| *d > c) {
            continue;
        }
        match scan(p) {
            WalkAction::Descend => cut = None,
            WalkAction::Skip => cut = Some(*d),
            WalkAction::Collect(k) => {
                cut = Some(*d);
                found.push((i, k));
            }
        }
    }
    found
}

#[test]
fn a_walk_collects_nothing_inside_what_it_collected_or_skipped() {
    let entries = vec![
        (dir("project"), 1),
        (dir("node_modules"), 2),
        (dir("node_modules"), 3),
        (dir("__pycache__"), 4),
        (dir(".git"), 2),
        (dir("node_modules"), 3),
        (dir("src"), 2),
        (dir("__pycache__"), 3),
    ];
    assert_eq!(walk(&entries), vec![(1, ArtifactKind::NodeModules), (7, ArtifactKind::Pycache)]);
}
