//! Preset variables: `${HELIX_CONFIG}`, `${HELIX_RUNTIME}`, `${HELIX_CACHE}` and `${pwd}`.

use vstd::prelude::*;

use crate::text::{str_eq, to_string};

verus! {

/// The values of the preset variables, as found on this machine (`None` where a
/// directory could not be determined).
#[derive(Debug)]
pub struct Presets {
    /// `helix_config_dir`, joined into one path.
    pub helix_config: Option<String>,
    /// `helix_runtime_dir`, joined into one path.
    pub helix_runtime: Option<String>,
    /// `helix_cache_dir`, joined into one path.
    pub helix_cache: Option<String>,
    /// The current directory.
    pub pwd: Option<String>,
}

/// The view of an optional string.
pub open spec fn opt_view(o: Option<String>) -> Option<Seq<char>> {
    match o {
        Some(s) => Some(s@),
        None => None,
    }
}

/// The value of the preset named `name`, if `name` is a preset that has a value.
pub open spec fn preset_value(p: Presets, name: Seq<char>) -> Option<Seq<char>> {
    if name == "HELIX_CONFIG"@ {
        opt_view(p.helix_config)
    } else if name == "HELIX_RUNTIME"@ {
        opt_view(p.helix_runtime)
    } else if name == "HELIX_CACHE"@ {
        opt_view(p.helix_cache)
    } else if name == "pwd"@ {
        opt_view(p.pwd)
    } else {
        None
    }
}

fn copy_opt(o: &Option<String>) -> (r: Option<String>)
    ensures
        opt_view(r) == opt_view(*o),
{
    match o {
        Some(s) => Some(s.clone()),
        None => None,
    }
}

/// Resolves a preset name to its value, if it is a preset and has a value. Names are
/// compared exactly: `HOME` or `helix_config` is no preset.
pub fn resolve(name: &str, presets: &Presets) -> (r: Option<String>)
    ensures
        opt_view(r) == preset_value(*presets, name@),
{
    if str_eq(name, "HELIX_CONFIG") {
        copy_opt(&presets.helix_config)
    } else if str_eq(name, "HELIX_RUNTIME") {
        copy_opt(&presets.helix_runtime)
    } else if str_eq(name, "HELIX_CACHE") {
        copy_opt(&presets.helix_cache)
    } else if str_eq(name, "pwd") {
        copy_opt(&presets.pwd)
    } else {
        None
    }
}

/// The environment variables from which the user's directories are found, as read on
/// this machine (`None` where a variable is not set).
#[derive(Debug)]
pub struct DirVars {
    /// `HOME` (`USERPROFILE` on Windows).
    pub home: Option<String>,
    pub xdg_config_home: Option<String>,
    pub xdg_cache_home: Option<String>,
    /// `APPDATA`.
    pub appdata: Option<String>,
    /// `LOCALAPPDATA`.
    pub local_appdata: Option<String>,
    /// `HELIX_RUNTIME`, which Helix itself reads.
    pub helix_runtime: Option<String>,
}

/// A directory given as a base path and the relative segments to adjoin to it, in
/// order. Joining them is left to the caller, who knows the platform's separator.
#[derive(Debug, PartialEq, Eq)]
pub struct DirPath {
    pub base: String,
    pub segments: Vec<String>,
}

/// A directory as text: its base and its segments.
pub type PathView = (Seq<char>, Seq<Seq<char>>);

/// The texts of a sequence of strings.
pub open spec fn strings_view(v: Seq<String>) -> Seq<Seq<char>> {
    v.map_values(|s: String| s@)
}

/// The view of a directory.
pub open spec fn dir_view(d: DirPath) -> PathView {
    (d.base@, strings_view(d.segments@))
}

/// The view of an optional directory.
pub open spec fn opt_dir_view(o: Option<DirPath>) -> Option<PathView> {
    match o {
        Some(d) => Some(dir_view(d)),
        None => None,
    }
}

/// An optional directory with further segments adjoined.
pub open spec fn adjoin(o: Option<PathView>, segs: Seq<Seq<char>>) -> Option<PathView> {
    match o {
        Some(p) => Some((p.0, p.1 + segs)),
        None => None,
    }
}

/// An optional base with the segments `segs`.
pub open spec fn based(base: Option<String>, segs: Seq<Seq<char>>) -> Option<PathView> {
    match base {
        Some(b) => Some((b@, segs)),
        None => None,
    }
}

/// Whether an optional variable is set to a non-empty value.
pub open spec fn set_nonempty(v: Option<String>) -> bool {
    v matches Some(s) && s@.len() > 0
}

/// The platform's base directory for configuration.
pub open spec fn config_dir_spec(os: Seq<char>, v: DirVars) -> Option<PathView> {
    if os == "windows"@ {
        based(v.appdata, seq![])
    } else if os == "macos"@ {
        based(v.home, seq!["Library"@, "Application Support"@])
    } else if set_nonempty(v.xdg_config_home) {
        based(v.xdg_config_home, seq![])
    } else {
        based(v.home, seq![".config"@])
    }
}

/// The platform's base directory for caches.
pub open spec fn cache_dir_spec(os: Seq<char>, v: DirVars) -> Option<PathView> {
    if os == "windows"@ {
        based(v.local_appdata, seq![])
    } else if os == "macos"@ {
        based(v.home, seq!["Library"@, "Caches"@])
    } else if set_nonempty(v.xdg_cache_home) {
        based(v.xdg_cache_home, seq![])
    } else {
        based(v.home, seq![".cache"@])
    }
}

/// Helix's configuration directory.
pub open spec fn helix_config_dir_spec(os: Seq<char>, v: DirVars) -> Option<PathView> {
    if os == "windows"@ {
        based(v.appdata, seq!["helix"@])
    } else if os != "macos"@ && set_nonempty(v.xdg_config_home) {
        based(v.xdg_config_home, seq!["helix"@])
    } else {
        based(v.home, seq![".config"@, "helix"@])
    }
}

/// Helix's runtime directory.
pub open spec fn helix_runtime_dir_spec(os: Seq<char>, v: DirVars) -> Option<PathView> {
    if set_nonempty(v.helix_runtime) {
        based(v.helix_runtime, seq![])
    } else {
        adjoin(helix_config_dir_spec(os, v), seq!["runtime"@])
    }
}

/// Helix's cache directory.
pub open spec fn helix_cache_dir_spec(os: Seq<char>, v: DirVars) -> Option<PathView> {
    adjoin(cache_dir_spec(os, v), seq!["helix"@])
}

fn nonempty(v: &Option<String>) -> (r: Option<&String>)
    ensures
        set_nonempty(*v) <==> r is Some,
        r matches Some(s) ==> v == Some(*s),
{
    match v {
        Some(s) => if s.as_str().is_empty() {
            None
        } else {
            Some(s)
        },
        None => None,
    }
}

/// The directory `base` with the segments `segs`.
fn dir_at(base: &String, segs: &[&str]) -> (d: DirPath)
    ensures
        dir_view(d) == (base@, segs@.map_values(|t: &str| t@)),
{
    let mut segments: Vec<String> = Vec::new();
    let mut i: usize = 0;
    while i < segs.len()
        invariant
            i <= segs.len(),
            segments@.len() == i,
            forall|j: int| 0 <= j < i ==> #[trigger] segments@[j]@ == segs@[j]@,
        decreases segs.len() - i,
    {
        segments.push(to_string(segs[i]));
        i = i + 1;
    }
    assert(strings_view(segments@) =~= segs@.map_values(|t: &str| t@));
    DirPath { base: base.clone(), segments }
}

/// The optional directory `base` with the segments `segs`.
fn dir_opt(base: &Option<String>, segs: &[&str]) -> (d: Option<DirPath>)
    ensures
        opt_dir_view(d) == based(*base, segs@.map_values(|t: &str| t@)),
{
    match base {
        Some(b) => Some(dir_at(b, segs)),
        None => None,
    }
}

/// An optional directory with one more segment.
fn dir_push(d: Option<DirPath>, seg: &str) -> (r: Option<DirPath>)
    ensures
        opt_dir_view(r) == adjoin(opt_dir_view(d), seq![seg@]),
{
    match d {
        Some(p) => {
            let mut segments = p.segments;
            segments.push(to_string(seg));
            let r = DirPath { base: p.base, segments };
            assert(strings_view(r.segments@) =~= strings_view(p.segments@) + seq![seg@]);
            Some(r)
        },
        None => None,
    }
}

/// The platform's base directory for configuration: `APPDATA` on Windows,
/// `~/Library/Application Support` on macOS, and elsewhere `XDG_CONFIG_HOME` when set
/// and non-empty, else `~/.config`.
pub fn config_dir(os: &str, vars: &DirVars) -> (r: Option<DirPath>)
    ensures
        opt_dir_view(r) == config_dir_spec(os@, *vars),
{
    if str_eq(os, "windows") {
        dir_opt(&vars.appdata, &[])
    } else if str_eq(os, "macos") {
        let segs: [&str; 2] = ["Library", "Application Support"];
        assert(segs@.map_values(|t: &str| t@) =~= seq!["Library"@, "Application Support"@]);
        dir_opt(&vars.home, &segs)
    } else {
        match nonempty(&vars.xdg_config_home) {
            Some(x) => Some(dir_at(x, &[])),
            None => {
                let segs: [&str; 1] = [".config"];
                assert(segs@.map_values(|t: &str| t@) =~= seq![".config"@]);
                dir_opt(&vars.home, &segs)
            },
        }
    }
}

/// The platform's base directory for caches: `LOCALAPPDATA` on Windows,
/// `~/Library/Caches` on macOS, and elsewhere `XDG_CACHE_HOME` when set and non-empty,
/// else `~/.cache`.
pub fn cache_dir(os: &str, vars: &DirVars) -> (r: Option<DirPath>)
    ensures
        opt_dir_view(r) == cache_dir_spec(os@, *vars),
{
    if str_eq(os, "windows") {
        dir_opt(&vars.local_appdata, &[])
    } else if str_eq(os, "macos") {
        let segs: [&str; 2] = ["Library", "Caches"];
        assert(segs@.map_values(|t: &str| t@) =~= seq!["Library"@, "Caches"@]);
        dir_opt(&vars.home, &segs)
    } else {
        match nonempty(&vars.xdg_cache_home) {
            Some(x) => Some(dir_at(x, &[])),
            None => {
                let segs: [&str; 1] = [".cache"];
                assert(segs@.map_values(|t: &str| t@) =~= seq![".cache"@]);
                dir_opt(&vars.home, &segs)
            },
        }
    }
}

/// Helix's configuration directory: `helix` under `APPDATA` on Windows,
/// `~/.config/helix` on macOS (Helix keeps to the XDG layout there), and elsewhere
/// `helix` under `XDG_CONFIG_HOME` when set and non-empty, else `~/.config/helix`. No
/// variable named `HELIX_CONFIG` is read.
pub fn helix_config_dir(os: &str, vars: &DirVars) -> (r: Option<DirPath>)
    ensures
        opt_dir_view(r) == helix_config_dir_spec(os@, *vars),
{
    let helix: [&str; 1] = ["helix"];
    let dot_helix: [&str; 2] = [".config", "helix"];
    assert(helix@.map_values(|t: &str| t@) =~= seq!["helix"@]);
    assert(dot_helix@.map_values(|t: &str| t@) =~= seq![".config"@, "helix"@]);
    if str_eq(os, "windows") {
        dir_opt(&vars.appdata, &helix)
    } else if str_eq(os, "macos") {
        dir_opt(&vars.home, &dot_helix)
    } else {
        match nonempty(&vars.xdg_config_home) {
            Some(x) => Some(dir_at(x, &helix)),
            None => dir_opt(&vars.home, &dot_helix),
        }
    }
}

/// Helix's runtime directory: `HELIX_RUNTIME` when set and non-empty, else `runtime`
/// under Helix's configuration directory.
pub fn helix_runtime_dir(os: &str, vars: &DirVars) -> (r: Option<DirPath>)
    ensures
        opt_dir_view(r) == helix_runtime_dir_spec(os@, *vars),
{
    match nonempty(&vars.helix_runtime) {
        Some(p) => Some(dir_at(p, &[])),
        None => dir_push(helix_config_dir(os, vars), "runtime"),
    }
}

/// Helix's cache directory: `helix` under the platform's cache directory.
pub fn helix_cache_dir(os: &str, vars: &DirVars) -> (r: Option<DirPath>)
    ensures
        opt_dir_view(r) == helix_cache_dir_spec(os@, *vars),
{
    dir_push(cache_dir(os, vars), "helix")
}

} // verus!
