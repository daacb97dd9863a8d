//! The kinds of artefact the tool finds, what a found artefact records, and
//! the rules that decide, from what is known of a directory, whether it is
//! an artefact.

pub mod build_output;
pub mod docker;
pub mod elixir;
pub mod flutter;
pub mod go;
pub mod node;
pub mod python;
pub mod ruby;
pub mod walker;

use vstd::prelude::*;
use crate::sort::Keyed;
use crate::text::{decimal, group_thousands, opt_view, push_decimal, push_grouped, str_eq};
use crate::paths::{join, join_spec, path_starts_with, path_starts_with_spec};
use crate::scanner::walker::should_skip_name;

verus! {

/// The kind of a developer artefact.
#[derive(Debug, Clone, Copy, PartialEq, Eq, Structural)]
pub enum ArtifactKind {
    NodeModules,
    GradleCache,
    BuildTarget,
    Pycache,
    PythonVenv,
    CargoRegistry,
    XcodeDerivedData,
    DockerData,
    NextCache,
    NuxtCache,
    TurboCache,
    ParcelCache,
    PytestCache,
    ToxEnv,
    FlutterBuild,
    ElixirBuild,
}

/// The name under which a kind is shown.
pub open spec fn kind_label(k: ArtifactKind) -> Seq<char> {
    match k {
        ArtifactKind::NodeModules => "node_modules"@,
        ArtifactKind::GradleCache => ".gradle"@,
        ArtifactKind::BuildTarget => "target (build)"@,
        ArtifactKind::Pycache => "__pycache__"@,
        ArtifactKind::PythonVenv => "Python venv"@,
        ArtifactKind::CargoRegistry => "Cargo registry"@,
        ArtifactKind::XcodeDerivedData => "Xcode DerivedData"@,
        ArtifactKind::DockerData => "Docker data"@,
        ArtifactKind::NextCache => ".next"@,
        ArtifactKind::NuxtCache => ".nuxt"@,
        ArtifactKind::TurboCache => ".turbo"@,
        ArtifactKind::ParcelCache => ".parcel-cache"@,
        ArtifactKind::PytestCache => ".pytest_cache"@,
        ArtifactKind::ToxEnv => ".tox"@,
        ArtifactKind::FlutterBuild => "build (Flutter)"@,
        ArtifactKind::ElixirBuild => "_build (Elixir)"@,
    }
}

impl ArtifactKind {
    /// The name under which this kind is shown.
    pub fn label(&self) -> (l: &'static str)
        ensures
            l@ == kind_label(*self),
    {
        match self {
            ArtifactKind::NodeModules => "node_modules",
            ArtifactKind::GradleCache => ".gradle",
            ArtifactKind::BuildTarget => "target (build)",
            ArtifactKind::Pycache => "__pycache__",
            ArtifactKind::PythonVenv => "Python venv",
            ArtifactKind::CargoRegistry => "Cargo registry",
            ArtifactKind::XcodeDerivedData => "Xcode DerivedData",
            ArtifactKind::DockerData => "Docker data",
            ArtifactKind::NextCache => ".next",
            ArtifactKind::NuxtCache => ".nuxt",
            ArtifactKind::TurboCache => ".turbo",
            ArtifactKind::ParcelCache => ".parcel-cache",
            ArtifactKind::PytestCache => ".pytest_cache",
            ArtifactKind::ToxEnv => ".tox",
            ArtifactKind::FlutterBuild => "build (Flutter)",
            ArtifactKind::ElixirBuild => "_build (Elixir)",
        }
    }
}

/// Each kind is shown under its own label, so that grouping by label is
/// grouping by kind.
pub proof fn law_labels_distinct(a: ArtifactKind, b: ArtifactKind)
    ensures
        kind_label(a) == kind_label(b) ==> a == b,
{
    reveal_strlit("node_modules");
    reveal_strlit(".gradle");
    reveal_strlit("target (build)");
    reveal_strlit("__pycache__");
    reveal_strlit("Python venv");
    reveal_strlit("Cargo registry");
    reveal_strlit("Xcode DerivedData");
    reveal_strlit("Docker data");
    reveal_strlit(".next");
    reveal_strlit(".nuxt");
    reveal_strlit(".turbo");
    reveal_strlit(".parcel-cache");
    reveal_strlit(".pytest_cache");
    reveal_strlit(".tox");
    reveal_strlit("build (Flutter)");
    reveal_strlit("_build (Elixir)");
    if kind_label(a) == kind_label(b) {
        let la = kind_label(a);
        let lb = kind_label(b);
        assert(la.len() == lb.len());
        assert(la[0] == lb[0]);
        assert(la[1] == lb[1]);
        assert(la[2] == lb[2]);
        assert(la[3] == lb[3]);
    }
}

/// A found artefact: where it is, what it is, and how many bytes its files
/// hold.
#[derive(Debug, Clone)]
pub struct Artifact {
    pub path: String,
    pub kind: ArtifactKind,
    pub size: u64,
}

impl Keyed for Artifact {
    open spec fn sort_key(&self) -> u64 {
        self.size
    }

    fn key(&self) -> (k: u64) {
        self.size
    }
}

/// The bytes of all the artefacts together.
pub open spec fn total_size(arts: Seq<Artifact>) -> nat
    decreases arts.len(),
{
    if arts.len() == 0 {
        0
    } else {
        total_size(arts.drop_last()) + arts.last().size as nat
    }
}

/// The total of a prefix never exceeds the total of the whole.
pub proof fn lemma_total_size_prefix(arts: Seq<Artifact>, i: int)
    requires
        0 <= i <= arts.len(),
    ensures
        total_size(arts.take(i)) <= total_size(arts),
    decreases arts.len() - i,
{
    if i < arts.len() {
        lemma_total_size_prefix(arts, i + 1);
        assert(arts.take(i + 1).drop_last() == arts.take(i));
    } else {
        assert(arts.take(i) == arts);
    }
}


/// The operating system that the tool runs on, where it changes what is
/// looked at.
#[derive(Debug, Clone, Copy, PartialEq, Eq, Structural)]
pub enum Platform {
    Linux,
    MacOs,
    Windows,
    Other,
}

/// Which project files stand beside a directory (in its parent).
#[derive(Debug, Clone, Copy, PartialEq, Eq, Structural)]
pub struct Markers {
    pub cargo_toml: bool,
    pub pom_xml: bool,
    pub package_json: bool,
    pub pubspec_yaml: bool,
    pub mix_exs: bool,
    pub tox_ini: bool,
    pub setup_cfg: bool,
    pub pyproject_toml: bool,
}

/// What is known of one entry met while walking the disk.
#[derive(Debug, Clone)]
pub struct Probe {
    /// The entry is a directory.
    pub is_dir: bool,
    /// Its file name, when that is valid UTF-8.
    pub name: Option<String>,
    /// The project files beside it; `None` when it has no parent.
    pub parent: Option<Markers>,
    /// It holds a `pyvenv.cfg` file.
    pub has_pyvenv_cfg: bool,
    /// Element `k` tells whether the `k`-th ancestor of the entry (the
    /// entry itself for `k == 0`) holds a `.git` entry; the sequence ends at
    /// the root of the file system.
    pub git_levels: Vec<bool>,
}

/// The name of a probe, when it has one.
pub open spec fn probe_name(p: Probe) -> Option<Seq<char>> {
    match p.name {
        Some(n) => Some(n@),
        None => None,
    }
}

/// A Rust or Maven project stands beside the directory.
pub open spec fn builds_target(p: Probe) -> bool {
    match p.parent {
        Some(m) => m.cargo_toml || m.pom_xml,
        None => false,
    }
}

/// What the walk does with an entry.
#[derive(Debug, Clone, Copy, PartialEq, Eq, Structural)]
pub enum WalkAction {
    /// Go on into the entry.
    Descend,
    /// Do not go into the entry.
    Skip,
    /// Record the entry as an artefact of this kind and do not go into it.
    Collect(ArtifactKind),
}

/// The directory is one the walk never enters (version-control internals).
pub open spec fn skipped(p: Probe, platform: Platform) -> bool {
    p.is_dir && match probe_name(p) {
        Some(n) => crate::scanner::walker::skip_name_spec(n, platform),
        None => false,
    }
}

/// How a directory is known by its name alone, or nearly: `node_modules`,
/// `.gradle` and `__pycache__` always; `.venv` and `venv` when they hold
/// `pyvenv.cfg`; `target` beside `Cargo.toml` or `pom.xml`.
pub open spec fn name_kind(p: Probe) -> Option<ArtifactKind> {
    if !p.is_dir {
        None
    } else {
        match probe_name(p) {
            None => None,
            Some(n) => if n == "node_modules"@ {
                Some(ArtifactKind::NodeModules)
            } else if n == ".gradle"@ {
                Some(ArtifactKind::GradleCache)
            } else if n == "__pycache__"@ {
                Some(ArtifactKind::Pycache)
            } else if n == ".venv"@ || n == "venv"@ {
                if p.has_pyvenv_cfg {
                    Some(ArtifactKind::PythonVenv)
                } else {
                    None
                }
            } else if n == "target"@ {
                if builds_target(p) {
                    Some(ArtifactKind::BuildTarget)
                } else {
                    None
                }
            } else {
                None
            },
        }
    }
}

/// How the scan classifies an entry: by name where that suffices, and
/// otherwise by the rules of each ecosystem (project files beside it, a
/// `.git` close above), so that every target that the tool lists is found:
/// `.next`, `.nuxt`, `.turbo`, `.parcel-cache`, `.pytest_cache`, `.tox`,
/// Flutter's `build` and Mix's `_build` among them.
pub open spec fn scan_kind(p: Probe) -> Option<ArtifactKind> {
    match name_kind(p) {
        Some(k) => Some(k),
        None => crate::scanner::walker::walk_kind(p),
    }
}

/// What the scan does with an entry: version-control internals are
/// skipped, artefacts are recorded and not entered, and anything else is
/// entered.
pub open spec fn scan_action_spec(p: Probe, platform: Platform) -> WalkAction {
    if skipped(p, platform) {
        WalkAction::Skip
    } else {
        match scan_kind(p) {
            Some(k) => WalkAction::Collect(k),
            None => WalkAction::Descend,
        }
    }
}

/// The scan finds everything that the rules of the ecosystems find, as
/// what they find it to be; beyond that it finds `node_modules` anywhere.
pub proof fn law_scan_covers_walk(p: Probe)
    ensures
        crate::scanner::walker::walk_kind(p) is Some ==> scan_kind(p) == crate::scanner::walker::walk_kind(p),
        name_kind(p) is Some ==> scan_kind(p) == name_kind(p),
{
    reveal_strlit("node_modules");
    reveal_strlit(".next");
    reveal_strlit(".nuxt");
    reveal_strlit(".turbo");
    reveal_strlit(".parcel-cache");
    reveal_strlit("__pycache__");
    reveal_strlit(".pytest_cache");
    reveal_strlit(".venv");
    reveal_strlit("venv");
    reveal_strlit(".tox");
    reveal_strlit(".gradle");
    reveal_strlit("target");
    if name_kind(p) is Some {
        let n = probe_name(p)->0;
        let w = crate::scanner::walker::walk_kind(p);
        if n == "node_modules"@ {
            assert(w is Some ==> w == name_kind(p));
        } else if n == ".gradle"@ {
            assert(n.len() == 7);
            assert(n != "node_modules"@ && n != ".next"@ && n != ".nuxt"@ && n != ".turbo"@ && n
                != ".parcel-cache"@);
            assert(n != "__pycache__"@ && n != ".pytest_cache"@ && n != ".venv"@ && n != "venv"@ && n
                != ".tox"@);
            assert(w is Some ==> w == name_kind(p));
        } else if n == "__pycache__"@ {
            assert(n.len() == 11);
            assert(n != "node_modules"@ && n != ".next"@ && n != ".nuxt"@ && n != ".turbo"@ && n
                != ".parcel-cache"@);
            assert(w is Some ==> w == name_kind(p));
        } else if n == ".venv"@ {
            assert(n[1] != ".next"@[1] && n[1] != ".nuxt"@[1]);
            assert(w is Some ==> w == name_kind(p));
        } else if n == "venv"@ {
            assert(n[0] != ".tox"@[0]);
            assert(w is Some ==> w == name_kind(p));
        } else if n == "target"@ {
            assert(n[0] != ".turbo"@[0]);
            assert(w is Some ==> w == name_kind(p));
        }
    }
}

/// The names the scan looks at, with the rules each follows: a `venv` or
/// `.venv` directory that holds `pyvenv.cfg` is a Python environment and one
/// that does not is walked through; `node_modules`, `.gradle` and
/// `__pycache__` directories are always found; a `target` directory beside
/// `Cargo.toml` or `pom.xml` is build output and any other `target` is
/// walked through; `.git`, `.hg` and `.svn` are never entered; and a file is
/// never found, whatever its name.
pub proof fn law_scan_targets(p: Probe, platform: Platform)
    ensures
        p.is_dir && p.has_pyvenv_cfg && (probe_name(p) == Some("venv"@) || probe_name(p) == Some(
            ".venv"@,
        )) ==> scan_action_spec(p, platform) == WalkAction::Collect(ArtifactKind::PythonVenv)
            && crate::scanner::walker::walk_kind(p) == Some(ArtifactKind::PythonVenv),
        p.is_dir && !p.has_pyvenv_cfg && (probe_name(p) == Some("venv"@) || probe_name(p) == Some(
            ".venv"@,
        )) ==> scan_action_spec(p, platform) == WalkAction::Descend,
        p.is_dir && probe_name(p) == Some("node_modules"@) ==> scan_action_spec(p, platform)
            == WalkAction::Collect(ArtifactKind::NodeModules),
        p.is_dir && probe_name(p) == Some(".gradle"@) ==> scan_action_spec(p, platform)
            == WalkAction::Collect(ArtifactKind::GradleCache),
        p.is_dir && probe_name(p) == Some("__pycache__"@) ==> scan_action_spec(p, platform)
            == WalkAction::Collect(ArtifactKind::Pycache),
        p.is_dir && probe_name(p) == Some("target"@) ==> scan_action_spec(p, platform) == (if p.parent
            matches Some(m) && (m.cargo_toml || m.pom_xml) {
            WalkAction::Collect(ArtifactKind::BuildTarget)
        } else {
            WalkAction::Descend
        }),
        p.is_dir && (probe_name(p) == Some(".git"@) || probe_name(p) == Some(".hg"@) || probe_name(p)
            == Some(".svn"@)) ==> scan_action_spec(p, platform) == WalkAction::Skip,
        !p.is_dir ==> scan_action_spec(p, platform) == WalkAction::Descend,
{
    reveal_strlit("node_modules");
    reveal_strlit(".next");
    reveal_strlit(".nuxt");
    reveal_strlit(".turbo");
    reveal_strlit(".parcel-cache");
    reveal_strlit("__pycache__");
    reveal_strlit(".pytest_cache");
    reveal_strlit(".venv");
    reveal_strlit("venv");
    reveal_strlit(".tox");
    reveal_strlit(".gradle");
    reveal_strlit("target");
    reveal_strlit("build");
    reveal_strlit("_build");
    reveal_strlit(".git");
    reveal_strlit(".hg");
    reveal_strlit(".svn");
    reveal_strlit("WindowsApps");
    reveal_strlit("MicrosoftEdgeBackups");
    if p.is_dir && probe_name(p) is Some {
        let n = probe_name(p)->0;
        if n == "venv"@ {
            assert(n[0] != ".tox"@[0] && n[0] != ".git"@[0] && n[0] != ".svn"@[0]);
        } else if n == ".venv"@ {
            assert(n[1] != ".next"@[1] && n[1] != ".nuxt"@[1]);
        } else if n == "target"@ {
            assert(n[0] != ".turbo"@[0]);
        } else if n == ".gradle"@ {
            assert(n.len() == 7);
        } else if n == "__pycache__"@ {
            assert(n.len() == 11);
            assert(n[0] != "WindowsApps"@[0]);
            assert(n != "node_modules"@ && n != ".gradle"@);
        } else if n == "node_modules"@ {
            assert(n.len() == 12);
            assert(n != ".git"@ && n != ".hg"@ && n != ".svn"@ && n != "WindowsApps"@ && n
                != "MicrosoftEdgeBackups"@);
        } else if n == ".git"@ {
            assert(n[1] != ".tox"@[1] && n[0] != "venv"@[0]);
        } else if n == ".svn"@ {
            assert(n[1] != ".tox"@[1] && n[0] != "venv"@[0]);
        }
    }
}

/// Classifies an entry by name where that suffices.
fn name_classify(p: &Probe) -> (k: Option<ArtifactKind>)
    ensures
        k == name_kind(*p),
{
    if !p.is_dir {
        return None;
    }
    let name: &str = match &p.name {
        Some(n) => n.as_str(),
        None => return None,
    };
    if str_eq(name, "node_modules") {
        Some(ArtifactKind::NodeModules)
    } else if str_eq(name, ".gradle") {
        Some(ArtifactKind::GradleCache)
    } else if str_eq(name, "__pycache__") {
        Some(ArtifactKind::Pycache)
    } else if str_eq(name, ".venv") || str_eq(name, "venv") {
        if p.has_pyvenv_cfg {
            Some(ArtifactKind::PythonVenv)
        } else {
            None
        }
    } else if str_eq(name, "target") {
        let beside = match &p.parent {
            Some(m) => m.cargo_toml || m.pom_xml,
            None => false,
        };
        if beside {
            Some(ArtifactKind::BuildTarget)
        } else {
            None
        }
    } else {
        None
    }
}

/// Classifies an entry met by the scan.
pub fn scan_classify(p: &Probe) -> (k: Option<ArtifactKind>)
    ensures
        k == scan_kind(*p),
{
    match name_classify(p) {
        Some(k) => Some(k),
        None => crate::scanner::walker::classify(p),
    }
}

/// Whether the walk leaves this directory out entirely.
pub fn should_skip(p: &Probe, platform: Platform) -> (r: bool)
    ensures
        r == skipped(*p, platform),
{
    if !p.is_dir {
        return false;
    }
    match &p.name {
        Some(n) => should_skip_name(n.as_str(), platform),
        None => false,
    }
}

/// Decides what the scan does with one entry.
pub fn scan_action(p: &Probe, platform: Platform) -> (a: WalkAction)
    ensures
        a == scan_action_spec(*p, platform),
{
    if should_skip(p, platform) {
        return WalkAction::Skip;
    }
    match scan_classify(p) {
        Some(k) => WalkAction::Collect(k),
        None => WalkAction::Descend,
    }
}

/// A directory found by the walk, before its size is known.
#[derive(Debug, Clone)]
pub struct Candidate {
    pub path: String,
    pub kind: ArtifactKind,
}

/// A directory at a fixed place that is an artefact when it exists.
#[derive(Debug, Clone)]
pub struct FixedCandidate {
    pub path: String,
    pub kind: ArtifactKind,
    /// It is left out when the walk already found the same path.
    pub unless_found: bool,
}

/// The scan root holds the home directory, so that the artefacts kept under
/// it (Cargo registry, Xcode data, Docker Desktop data) belong to the scan.
pub open spec fn encompasses_home_spec(root: Seq<char>, home: Option<Seq<char>>) -> bool {
    match home {
        Some(h) => path_starts_with_spec(h, root),
        None => false,
    }
}

/// Whether the scan root holds the home directory.
pub fn root_encompasses_home(root: &str, home: Option<&str>) -> (r: bool)
    ensures
        r == encompasses_home_spec(root@, opt_view(home)),
{
    match home {
        Some(h) => path_starts_with(h, root),
        None => false,
    }
}

/// The Cargo registry: `registry` under `$CARGO_HOME`, or under `~/.cargo`
/// when `CARGO_HOME` is not set.
pub open spec fn cargo_registry_spec(cargo_home: Option<Seq<char>>, home: Option<Seq<char>>, platform: Platform) -> Option<
    Seq<char>,
> {
    match cargo_home {
        Some(c) => Some(join_spec(c, "registry"@, platform)),
        None => match home {
            Some(h) => Some(join_spec(join_spec(h, ".cargo"@, platform), "registry"@, platform)),
            None => None,
        },
    }
}

/// The place of the Cargo registry.
pub fn cargo_registry_path(cargo_home: Option<&str>, home: Option<&str>, platform: Platform) -> (r: Option<String>)
    ensures
        match r {
            Some(p) => cargo_registry_spec(opt_view(cargo_home), opt_view(home), platform) == Some(p@),
            None => cargo_registry_spec(opt_view(cargo_home), opt_view(home), platform) is None,
        },
{
    match cargo_home {
        Some(c) => Some(join(c, "registry", platform)),
        None => match home {
            Some(h) => {
                let cargo = join(h, ".cargo", platform);
                Some(join(cargo.as_str(), "registry", platform))
            },
            None => None,
        },
    }
}

/// The places of the fixed artefacts, in the order in which the scan
/// looks at them: when the root holds the home directory, the Cargo
/// registry and, on macOS, Xcode's DerivedData; then the Docker data
/// places, on Windows and macOS only when the root holds the home
/// directory, on Linux always. Each is `(path, kind, unless_found)`.
pub open spec fn fixed_candidates_spec(
    platform: Platform,
    encompasses_home: bool,
    cargo_home: Option<Seq<char>>,
    home: Option<Seq<char>>,
    local_app_data: Option<Seq<char>>,
) -> Seq<(Seq<char>, ArtifactKind, bool)> {
    let registry = if encompasses_home {
        match cargo_registry_spec(cargo_home, home, platform) {
            Some(r) => seq![(r, ArtifactKind::CargoRegistry, true)],
            None => seq![],
        }
    } else {
        seq![]
    };
    let xcode = if encompasses_home && platform == Platform::MacOs {
        match home {
            Some(h) => seq![
                (join_spec(h, "Library/Developer/Xcode/DerivedData"@, platform), ArtifactKind::XcodeDerivedData, false),
            ],
            None => seq![],
        }
    } else {
        seq![]
    };
    let docker_gated = platform == Platform::Linux || (encompasses_home && (platform
        == Platform::Windows || platform == Platform::MacOs));
    let docker = if docker_gated {
        crate::scanner::docker::data_paths_spec(platform, home, local_app_data).map_values(
            |p: Seq<char>| (p, ArtifactKind::DockerData, true),
        )
    } else {
        seq![]
    };
    registry + xcode + docker
}

/// Unless the scan root holds the home directory, the Cargo registry and
/// Xcode's data are never looked at, and Docker's data only on Linux.
pub proof fn law_home_gate(
    platform: Platform,
    cargo_home: Option<Seq<char>>,
    home: Option<Seq<char>>,
    local_app_data: Option<Seq<char>>,
)
    ensures
        forall|i: int|
            0 <= i < fixed_candidates_spec(platform, false, cargo_home, home, local_app_data).len()
                ==> (#[trigger] fixed_candidates_spec(platform, false, cargo_home, home, local_app_data)[i]).1
                == ArtifactKind::DockerData,
        platform != Platform::Linux ==> fixed_candidates_spec(platform, false, cargo_home, home, local_app_data).len()
            == 0,
{
    let docker = crate::scanner::docker::data_paths_spec(platform, home, local_app_data).map_values(
        |p: Seq<char>| (p, ArtifactKind::DockerData, true),
    );
    let all = fixed_candidates_spec(platform, false, cargo_home, home, local_app_data);
    if platform == Platform::Linux {
        assert(all =~= Seq::<(Seq<char>, ArtifactKind, bool)>::empty() + Seq::empty() + docker);
    } else {
        assert(all =~= Seq::<(Seq<char>, ArtifactKind, bool)>::empty());
    }
}

/// The fixed places, spelled out: the Cargo registry is `registry` under
/// `$CARGO_HOME`, else `~/.cargo/registry`; scanning the home directory of a
/// Mac looks, in this order, at the Cargo registry, at
/// `~/Library/Developer/Xcode/DerivedData` (even when the walk found it) and
/// at Docker Desktop's `~/Library/Containers/com.docker.docker/Data/vms`.
pub proof fn law_fixed_places(home: Seq<char>, cargo: Seq<char>, platform: Platform)
    requires
        home.len() > 0 && home.last() != '/' && home.last() != '\\',
        cargo.len() > 0 && cargo.last() != '/' && cargo.last() != '\\',
        platform != Platform::Windows,
    ensures
        cargo_registry_spec(None, Some(home), platform) == Some(home + "/.cargo/registry"@),
        cargo_registry_spec(Some(cargo), Some(home), platform) == Some(cargo + "/registry"@),
        cargo_registry_spec(None, None, platform) is None,
        fixed_candidates_spec(Platform::MacOs, true, None, Some(home), None) == seq![
            (home + "/.cargo/registry"@, ArtifactKind::CargoRegistry, true),
            (home + "/Library/Developer/Xcode/DerivedData"@, ArtifactKind::XcodeDerivedData, false),
            (home + "/Library/Containers/com.docker.docker/Data/vms"@, ArtifactKind::DockerData, true),
        ],
{
    reveal_strlit(".cargo");
    reveal_strlit("registry");
    reveal_strlit("/.cargo/registry");
    reveal_strlit("/.cargo");
    reveal_strlit("/registry");
    reveal_strlit("Library/Developer/Xcode/DerivedData");
    reveal_strlit("/Library/Developer/Xcode/DerivedData");
    let c1 = join_spec(home, ".cargo"@, platform);
    assert(c1 =~= home + "/.cargo"@);
    assert(join_spec(c1, "registry"@, platform) =~= home + "/.cargo/registry"@);
    assert(join_spec(cargo, "registry"@, platform) =~= cargo + "/registry"@);
    let m1 = join_spec(home, ".cargo"@, Platform::MacOs);
    assert(m1 =~= home + "/.cargo"@);
    assert(join_spec(m1, "registry"@, Platform::MacOs) =~= home + "/.cargo/registry"@);
    assert(join_spec(home, "Library/Developer/Xcode/DerivedData"@, Platform::MacOs)
        =~= home + "/Library/Developer/Xcode/DerivedData"@);
    crate::scanner::docker::law_docker_places(home, home);
    let docker = crate::scanner::docker::data_paths_spec(Platform::MacOs, Some(home), None).map_values(
        |p: Seq<char>| (p, ArtifactKind::DockerData, true),
    );
    assert(docker =~= seq![
        (home + "/Library/Containers/com.docker.docker/Data/vms"@, ArtifactKind::DockerData, true),
    ]);
    assert(fixed_candidates_spec(Platform::MacOs, true, None, Some(home), None) =~= seq![
        (home + "/.cargo/registry"@, ArtifactKind::CargoRegistry, true),
        (home + "/Library/Developer/Xcode/DerivedData"@, ArtifactKind::XcodeDerivedData, false),
        (home + "/Library/Containers/com.docker.docker/Data/vms"@, ArtifactKind::DockerData, true),
    ]);
}

/// The view of a fixed candidate.
pub open spec fn fixed_view(c: FixedCandidate) -> (Seq<char>, ArtifactKind, bool) {
    (c.path@, c.kind, c.unless_found)
}

/// The fixed places that the scan looks at, before it is checked that they
/// exist.
pub fn fixed_candidates(
    platform: Platform,
    encompasses_home: bool,
    cargo_home: Option<&str>,
    home: Option<&str>,
    local_app_data: Option<&str>,
) -> (r: Vec<FixedCandidate>)
    ensures
        r@.map_values(|c: FixedCandidate| fixed_view(c)) == fixed_candidates_spec(
            platform,
            encompasses_home,
            opt_view(cargo_home),
            opt_view(home),
            opt_view(local_app_data),
        ),
{
    let ghost hv = opt_view(home);
    let mut r: Vec<FixedCandidate> = Vec::new();
    if encompasses_home {
        if let Some(reg) = cargo_registry_path(cargo_home, home, platform) {
            r.push(FixedCandidate { path: reg, kind: ArtifactKind::CargoRegistry, unless_found: true });
        }
    }
    let ghost after_registry = r@;
    if encompasses_home && platform == Platform::MacOs {
        if let Some(h) = home {
            r.push(
                FixedCandidate {
                    path: join(h, "Library/Developer/Xcode/DerivedData", platform),
                    kind: ArtifactKind::XcodeDerivedData,
                    unless_found: false,
                },
            );
        }
    }
    let ghost after_xcode = r@;
    let docker_gated = platform == Platform::Linux || (encompasses_home && (platform
        == Platform::Windows || platform == Platform::MacOs));
    if docker_gated {
        let paths = crate::scanner::docker::data_paths(platform, home, local_app_data);
        let mut i: usize = 0;
        while i < paths.len()
            invariant
                i <= paths@.len(),
                r@.len() == after_xcode.len() + i,
                r@.subrange(0, after_xcode.len() as int) == after_xcode,
                forall|j: int|
                    0 <= j < i ==> fixed_view(#[trigger] r@[after_xcode.len() + j]) == (
                        paths@[j]@,
                        ArtifactKind::DockerData,
                        true,
                    ),
            decreases paths@.len() - i,
        {
            r.push(FixedCandidate { path: paths[i].clone(), kind: ArtifactKind::DockerData, unless_found: true });
            i = i + 1;
        }
        proof {
            let f = |c: FixedCandidate| fixed_view(c);
            let docker = crate::scanner::docker::data_paths_spec(
                platform,
                hv,
                opt_view(local_app_data),
            ).map_values(|p: Seq<char>| (p, ArtifactKind::DockerData, true));
            assert(docker.len() == paths@.len());
            assert forall|j: int| 0 <= j < paths@.len() implies #[trigger] docker[j] == (
                paths@[j]@,
                ArtifactKind::DockerData,
                true,
            ) by {
                assert(paths@.map_values(|s: String| s@)[j] == paths@[j]@);
            }
            assert forall|j: int| 0 <= j < r@.len() implies #[trigger] r@.map_values(f)[j] == (
            after_xcode.map_values(f) + docker)[j] by {
                if j < after_xcode.len() {
                    assert(r@.subrange(0, after_xcode.len() as int)[j] == r@[j]);
                } else {
                    assert(r@[after_xcode.len() + (j - after_xcode.len())] == r@[j]);
                }
            }
            assert(r@.map_values(f) =~= after_xcode.map_values(f) + docker);
        }
    }
    proof {
        let cv = opt_view(cargo_home);
        let lv = opt_view(local_app_data);
        let f = |c: FixedCandidate| fixed_view(c);
        let registry = if encompasses_home {
            match cargo_registry_spec(cv, hv, platform) {
                Some(p) => seq![(p, ArtifactKind::CargoRegistry, true)],
                None => seq![],
            }
        } else {
            seq![]
        };
        let xcode = if encompasses_home && platform == Platform::MacOs {
            match hv {
                Some(h) => seq![
                    (join_spec(h, "Library/Developer/Xcode/DerivedData"@, platform), ArtifactKind::XcodeDerivedData, false),
                ],
                None => seq![],
            }
        } else {
            seq![]
        };
        let docker = if docker_gated {
            crate::scanner::docker::data_paths_spec(platform, hv, lv).map_values(
                |p: Seq<char>| (p, ArtifactKind::DockerData, true),
            )
        } else {
            seq![]
        };
        assert(after_registry.map_values(f) =~= registry);
        assert(after_xcode.map_values(f) =~= registry + xcode);
        assert(r@.map_values(f) =~= after_xcode.map_values(f) + docker);
        assert(r@.map_values(f) =~= fixed_candidates_spec(platform, encompasses_home, cv, hv, lv));
    }
    r
}

/// One of the candidates lies at `path`.
pub open spec fn has_path(cands: Seq<Candidate>, path: Seq<char>) -> bool {
    exists|j: int| 0 <= j < cands.len() && (#[trigger] cands[j]).path@ == path
}

/// The walk's findings with one fixed place added: nothing changes when the
/// place does not exist, or when it is to be left out because the walk
/// already found that path; otherwise it is added at the end.
pub fn admit_fixed(cands: &mut Vec<Candidate>, c: FixedCandidate, present: bool)
    ensures
        if !present || (c.unless_found && has_path(old(cands)@, c.path@)) {
            final(cands)@ == old(cands)@
        } else {
            final(cands)@ == old(cands)@.push(Candidate { path: c.path, kind: c.kind })
        },
{
    if !present {
        return;
    }
    if c.unless_found {
        let mut j: usize = 0;
        while j < cands.len()
            invariant
                j <= cands@.len(),
                present,
                c.unless_found,
                cands@ == old(cands)@,
                forall|m: int| 0 <= m < j ==> (#[trigger] cands@[m]).path@ != c.path@,
            decreases cands@.len() - j,
        {
            if str_eq(cands[j].path.as_str(), c.path.as_str()) {
                assert(old(cands)@[j as int].path@ == c.path@);
                return;
            }
            j = j + 1;
        }
    }
    cands.push(Candidate { path: c.path, kind: c.kind });
}


/// The spinner's message while sizes are computed.
pub fn sizing_message(count: usize) -> (r: String)
    ensures
        r@ == "Computing sizes for "@ + decimal(count as nat) + " artefact(s)..."@,
{
    let mut r = String::from_str("Computing sizes for ");
    push_decimal(&mut r, count as u64);
    r.append(" artefact(s)...");
    r
}

/// Entries walked between two updates of the progress message.
pub const PROGRESS_BATCH: u64 = 500;

/// The spinner's message while walking: entries checked so far (with
/// thousands separators) and artefacts found.
pub fn progress_message(checked: u64, found: u64) -> (r: String)
    ensures
        r@ == "Scanning…  "@ + group_thousands(decimal(checked as nat)) + " entries checked, "@
            + decimal(found as nat) + " found"@,
{
    let mut r = String::from_str("Scanning…  ");
    push_grouped(&mut r, checked);
    r.append(" entries checked, ");
    push_decimal(&mut r, found);
    r.append(" found");
    r
}

} // verus!
