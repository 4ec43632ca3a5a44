use hx_exec::config::{Alias, AliasEntry, Config, ConfigError};
use hx_exec::strmap::StrMap;

fn variant(os: Option<&str>, cmd: &str) -> Alias {
    Alias {
        os: os.map(|s| s.to_string()),
        cmd: Some(cmd.to_string()),
        ..Default::default()
    }
}

fn config(name: &str, entry: AliasEntry) -> Config {
    let mut alias = StrMap::new();
    alias.insert(name.to_string(), entry);
    Config { alias }
}

const CURRENT_OS: &str = "linux";

#[test]
fn parses_single_form() {
    let cfg = config("foo", AliasEntry::Single(variant(None, "echo hi")));
    let a = cfg.resolve_alias("foo", CURRENT_OS).unwrap();
    assert_eq!(a.cmd.as_deref(), Some("echo hi"));
}

#[test]
fn parses_multi_form_and_picks_by_os() {
    let cfg = config(
        "t",
        AliasEntry::Multi(vec![
            variant(Some("windows"), "win-thing"),
            variant(Some("linux"), "linux-thing"),
            variant(Some("macos"), "mac-thing"),
        ]),
    );
    for (os, expected) in [
        ("windows", "win-thing"),
        ("linux", "linux-thing"),
        ("macos", "mac-thing"),
    ] {
        let a = cfg.resolve_alias("t", os).unwrap();
        assert_eq!(a.cmd.as_deref(), Some(expected));
    }
}

#[test]
fn falls_back_when_no_os_matches() {
    let cfg = config(
        "t",
        AliasEntry::Multi(vec![variant(Some("plan9"), "nope"), variant(None, "default")]),
    );
    let a = cfg.resolve_alias("t", CURRENT_OS).unwrap();
    assert_eq!(a.cmd.as_deref(), Some("default"));
}

#[test]
fn unix_matcher_matches_non_windows() {
    let cfg = config(
        "t",
        AliasEntry::Multi(vec![variant(Some("unix"), "unix-thing"), variant(None, "fallback")]),
    );
    assert_eq!(cfg.resolve_alias("t", "linux").unwrap().cmd.as_deref(), Some("unix-thing"));
    assert_eq!(cfg.resolve_alias("t", "macos").unwrap().cmd.as_deref(), Some("unix-thing"));
    assert_eq!(cfg.resolve_alias("t", "windows").unwrap().cmd.as_deref(), Some("fallback"));
}

#[test]
fn rejects_shell_with_command() {
    let bad = Alias {
        shell: Some("bash".to_string()),
        command: Some("foo".to_string()),
        ..Default::default()
    };
    let cfg = config("bad", AliasEntry::Single(bad));
    assert!(cfg.resolve_alias("bad", CURRENT_OS).is_err());
}

#[test]
fn rejects_unknown_shell() {
    let bad = Alias {
        shell: Some("zxyq".to_string()),
        cmd: Some("foo".to_string()),
        ..Default::default()
    };
    let cfg = config("bad", AliasEntry::Single(bad));
    assert!(cfg.resolve_alias("bad", CURRENT_OS).is_err());
}

#[test]
fn no_matching_variant_errors() {
    let cfg = config("t", AliasEntry::Multi(vec![variant(Some("plan9"), "nope")]));
    assert!(cfg.resolve_alias("t", CURRENT_OS).is_err());
}

// Further cases.

#[test]
fn explicit_match_wins_over_earlier_fallback() {
    let cfg = config(
        "t",
        AliasEntry::Multi(vec![variant(None, "fallback"), variant(Some("linux"), "linux-thing")]),
    );
    assert_eq!(cfg.resolve_alias("t", "linux").unwrap().cmd.as_deref(), Some("linux-thing"));
}

#[test]
fn os_aliases_and_case_are_accepted() {
    let cfg = config(
        "t",
        AliasEntry::Multi(vec![
            variant(Some(" Win64 "), "w"),
            variant(Some("DARWIN"), "m"),
            variant(Some("*"), "any"),
        ]),
    );
    assert_eq!(cfg.resolve_alias("t", "windows").unwrap().cmd.as_deref(), Some("w"));
    assert_eq!(cfg.resolve_alias("t", "macos").unwrap().cmd.as_deref(), Some("m"));
    assert_eq!(cfg.resolve_alias("t", "linux").unwrap().cmd.as_deref(), Some("any"));
}

#[test]
fn validation_errors_are_exact() {
    let missing = Alias::default();
    assert!(matches!(missing.validate(), Err(ConfigError::MissingCommand)));
    let both = Alias {
        cmd: Some("a".to_string()),
        command: Some("b".to_string()),
        ..Default::default()
    };
    assert!(matches!(both.validate(), Err(ConfigError::BothCommands)));
    let shell_cmd = Alias {
        shell: Some("bash".to_string()),
        command: Some("b".to_string()),
        ..Default::default()
    };
    assert!(matches!(shell_cmd.validate(), Err(ConfigError::ShellWithCommand)));
    let unknown = Alias {
        shell: Some("zxyq".to_string()),
        cmd: Some("b".to_string()),
        ..Default::default()
    };
    match unknown.validate() {
        Err(e @ ConfigError::UnknownShell(_)) => assert_eq!(
            e.message(),
            "unknown shell `zxyq` (supported: bash, sh, zsh, fish, dash, pwsh, powershell, cmd)"
        ),
        other => panic!("unexpected {:?}", other),
    }
    let ok = Alias {
        shell: Some(" PWSH".to_string()),
        cmd: Some("b".to_string()),
        ..Default::default()
    };
    assert!(ok.validate().is_ok());
}

#[test]
fn resolve_alias_errors_carry_names() {
    let cfg = config("t", AliasEntry::Multi(vec![variant(Some("plan9"), "nope")]));
    match cfg.resolve_alias("missing", CURRENT_OS) {
        Err(e) => assert_eq!(e.message(), "alias not found: `missing`"),
        Ok(_) => panic!("expected an error"),
    }
    match cfg.resolve_alias("t", CURRENT_OS) {
        Err(e) => assert_eq!(e.message(), "alias `t` has no variant matching OS `linux`"),
        Ok(_) => panic!("expected an error"),
    }
}

#[test]
fn variants_lists_single_and_multi() {
    let single = AliasEntry::Single(variant(None, "a"));
    assert_eq!(single.variants().len(), 1);
    let multi = AliasEntry::Multi(vec![variant(None, "a"), variant(None, "b")]);
    assert_eq!(multi.variants().len(), 2);
    assert_eq!(multi.variants()[1].cmd.as_deref(), Some("b"));
}

#[test]
fn default_config_and_cloned_alias() {
    let c = Config::default();
    assert_eq!(c.alias.len(), 0);
    let mut a = Alias {
        cmd: Some("echo hi".to_string()),
        ..Default::default()
    };
    a.env.insert("K".to_string(), hx_exec::config::EnvValue::Literal("v".to_string()));
    let b = a.clone();
    assert_eq!(b.cmd.as_deref(), Some("echo hi"));
    assert_eq!(b.env.len(), 1);
    assert!(matches!(b.env.get("K"), Some(hx_exec::config::EnvValue::Literal(v)) if v == "v"));
}
