use hx_exec::platform::{normalize_os, os_matches, shell_invocation, validate_shell};
use hx_exec::config::{config_search, first_existing, ConfigSearch};
use hx_exec::presets::{
    cache_dir, config_dir, helix_cache_dir, helix_config_dir, helix_runtime_dir, resolve, DirPath,
    DirVars, Presets,
};

#[test]
fn normalize_os_names() {
    assert_eq!(normalize_os("Windows"), "windows");
    assert_eq!(normalize_os("  win32\t"), "windows");
    assert_eq!(normalize_os("OSX"), "macos");
    assert_eq!(normalize_os("linux"), "linux");
    assert_eq!(normalize_os("UNIX"), "unix");
    assert_eq!(normalize_os("*"), "any");
    assert_eq!(normalize_os("   "), "any");
    assert_eq!(normalize_os(" FreeBSD "), "freebsd");
}

#[test]
fn os_matching_rules() {
    assert!(os_matches("any", "plan9"));
    assert!(os_matches("", "windows"));
    assert!(os_matches("unix", "linux"));
    assert!(os_matches("unix", "freebsd"));
    assert!(!os_matches("unix", "windows"));
    assert!(os_matches("darwin", "macos"));
    assert!(!os_matches("linux", "macos"));
    assert!(os_matches("FreeBSD", "freebsd"));
}

#[test]
fn shell_invocations() {
    let (p, f) = shell_invocation("bash").unwrap();
    assert_eq!(p, "bash");
    assert_eq!(f, vec!["-c".to_string()]);
    let (p, f) = shell_invocation(" PowerShell ").unwrap();
    assert_eq!(p, "powershell");
    assert_eq!(f, vec!["-NoProfile".to_string(), "-Command".to_string()]);
    let (p, f) = shell_invocation("cmd.exe").unwrap();
    assert_eq!(p, "cmd");
    assert_eq!(f, vec!["/C".to_string()]);
    assert!(shell_invocation("tcsh").is_none());
}

#[test]
fn validate_shell_message() {
    assert!(validate_shell("zsh").is_ok());
    assert_eq!(
        validate_shell("ksh").unwrap_err(),
        "unknown shell `ksh` (supported: bash, sh, zsh, fish, dash, pwsh, powershell, cmd)"
    );
}

fn vars() -> DirVars {
    DirVars {
        home: Some("/home/u".to_string()),
        xdg_config_home: None,
        xdg_cache_home: Some(String::new()),
        appdata: Some("C:/Users/u/AppData/Roaming".to_string()),
        local_appdata: Some("C:/Users/u/AppData/Local".to_string()),
        helix_runtime: None,
    }
}

fn dir(base: &str, segments: &[&str]) -> Option<DirPath> {
    Some(DirPath {
        base: base.to_string(),
        segments: segments.iter().map(|s| s.to_string()).collect(),
    })
}

#[test]
fn directories_on_linux() {
    let v = vars();
    assert_eq!(config_dir("linux", &v), dir("/home/u", &[".config"]));
    assert_eq!(cache_dir("linux", &v), dir("/home/u", &[".cache"]));
    assert_eq!(helix_config_dir("linux", &v), dir("/home/u", &[".config", "helix"]));
    assert_eq!(helix_runtime_dir("linux", &v), dir("/home/u", &[".config", "helix", "runtime"]));
    assert_eq!(helix_cache_dir("linux", &v), dir("/home/u", &[".cache", "helix"]));
    let mut w = vars();
    w.xdg_config_home = Some("/xdg".to_string());
    w.xdg_cache_home = Some("/c".to_string());
    w.helix_runtime = Some("/rt".to_string());
    assert_eq!(config_dir("linux", &w), dir("/xdg", &[]));
    assert_eq!(helix_config_dir("linux", &w), dir("/xdg", &["helix"]));
    assert_eq!(helix_runtime_dir("linux", &w), dir("/rt", &[]));
    assert_eq!(helix_cache_dir("linux", &w), dir("/c", &["helix"]));
    let mut n = vars();
    n.home = None;
    assert_eq!(helix_config_dir("linux", &n), None);
    assert_eq!(helix_runtime_dir("linux", &n), None);
    assert_eq!(cache_dir("linux", &n), None);
    assert_eq!(helix_cache_dir("linux", &n), None);
}

#[test]
fn directories_on_windows_and_macos() {
    let v = vars();
    assert_eq!(config_dir("windows", &v), dir("C:/Users/u/AppData/Roaming", &[]));
    assert_eq!(cache_dir("windows", &v), dir("C:/Users/u/AppData/Local", &[]));
    assert_eq!(helix_config_dir("windows", &v), dir("C:/Users/u/AppData/Roaming", &["helix"]));
    assert_eq!(helix_cache_dir("windows", &v), dir("C:/Users/u/AppData/Local", &["helix"]));
    assert_eq!(config_dir("macos", &v), dir("/home/u", &["Library", "Application Support"]));
    assert_eq!(cache_dir("macos", &v), dir("/home/u", &["Library", "Caches"]));
    assert_eq!(helix_cache_dir("macos", &v), dir("/home/u", &["Library", "Caches", "helix"]));
    let mut x = vars();
    x.xdg_config_home = Some("/x".to_string());
    assert_eq!(helix_config_dir("macos", &x), dir("/home/u", &[".config", "helix"]));
    assert_eq!(helix_config_dir("linux", &x), dir("/x", &["helix"]));
}

#[test]
fn config_file_search_order() {
    let v = vars();
    match config_search(Some("/etc/my.toml".to_string()), Some("/w".to_string()), "linux", &v) {
        ConfigSearch::Explicit(p) => assert_eq!(p, "/etc/my.toml"),
        other => panic!("unexpected {:?}", other),
    }
    match config_search(None, Some("/w".to_string()), "linux", &v) {
        ConfigSearch::Candidates(c) => assert_eq!(
            c,
            vec![
                dir("/w", &["hx-exec.toml"]).unwrap(),
                dir("/home/u", &[".config", "helix", "hx-exec.toml"]).unwrap(),
                dir("/home/u", &[".config", "hx-exec", "hx-exec.toml"]).unwrap(),
            ]
        ),
        other => panic!("unexpected {:?}", other),
    }
    let mut n = vars();
    n.home = None;
    match config_search(None, None, "linux", &n) {
        ConfigSearch::Candidates(c) => assert!(c.is_empty()),
        other => panic!("unexpected {:?}", other),
    }
}

#[test]
fn first_existing_candidate() {
    assert_eq!(first_existing(&[false, true, true]), Some(1));
    assert_eq!(first_existing(&[true, false]), Some(0));
    assert_eq!(first_existing(&[false, false]), None);
    assert_eq!(first_existing(&[]), None);
}

#[test]
fn resolve_presets_by_name() {
    let p = Presets {
        helix_config: Some("/c".to_string()),
        helix_runtime: None,
        helix_cache: Some("/k".to_string()),
        pwd: Some("/w".to_string()),
    };
    assert_eq!(resolve("HELIX_CONFIG", &p).as_deref(), Some("/c"));
    assert_eq!(resolve("HELIX_RUNTIME", &p), None);
    assert_eq!(resolve("HELIX_CACHE", &p).as_deref(), Some("/k"));
    assert_eq!(resolve("pwd", &p).as_deref(), Some("/w"));
    assert_eq!(resolve("PWD", &p), None);
    assert_eq!(resolve("HOME", &p), None);
    assert_eq!(resolve("helix_config", &p), None);
}
