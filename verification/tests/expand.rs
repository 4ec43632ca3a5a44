use hx_exec::expand::{CommandOutcome, Environment, ExpandError, Expander, Step};
use hx_exec::presets::{helix_config_dir, DirVars, Presets};
use hx_exec::strmap::StrMap;

fn no_presets() -> Presets {
    Presets {
        helix_config: None,
        helix_runtime: None,
        helix_cache: None,
        pwd: None,
    }
}

fn sample_presets() -> Presets {
    Presets {
        helix_config: Some("/home/u/.config/helix".to_string()),
        helix_runtime: Some("/home/u/.config/helix/runtime".to_string()),
        helix_cache: Some("/home/u/.cache/helix".to_string()),
        pwd: Some("/work/project".to_string()),
    }
}

fn env_with(presets: Presets, vars: &[(&str, &str)]) -> Environment {
    let mut m = StrMap::new();
    for (k, v) in vars {
        m.insert(k.to_string(), v.to_string());
    }
    Environment {
        presets,
        vars: m,
        fold_case: false,
    }
}

/// Runs an expansion to its end, answering each command it asks for with `respond`,
/// and records the commands asked for.
fn drive<T>(
    mut step: impl FnMut(&[CommandOutcome]) -> Step<T>,
    respond: impl Fn(&[String]) -> CommandOutcome,
) -> (T, Vec<Vec<String>>) {
    let mut outcomes: Vec<CommandOutcome> = Vec::new();
    let mut asked: Vec<Vec<String>> = Vec::new();
    loop {
        match step(&outcomes) {
            Step::Done(v) => return (v, asked),
            Step::Run(argv) => {
                outcomes.push(respond(&argv));
                asked.push(argv);
            }
        }
    }
}

fn echo(argv: &[String]) -> CommandOutcome {
    if argv[0] == "echo" {
        CommandOutcome::Output(argv[1..].join(" "))
    } else {
        CommandOutcome::Failed(format!("failed to spawn: {}", argv[0]))
    }
}

fn expand_plain(e: &Expander, env: &Environment, input: &str) -> Result<String, ExpandError> {
    match e.expand(input, env, &[]) {
        Step::Done(r) => r,
        Step::Run(argv) => panic!("unexpected command {:?}", argv),
    }
}

#[test]
fn braced_var() {
    let env = env_with(no_presets(), &[("HX_TEST_FOO", "bar")]);
    let e = Expander::new();
    assert_eq!(expand_plain(&e, &env, "x=${HX_TEST_FOO}/y").unwrap(), "x=bar/y");
}

#[test]
fn bare_var() {
    let env = env_with(no_presets(), &[("HX_TEST_BAZ", "qux")]);
    let e = Expander::new();
    assert_eq!(expand_plain(&e, &env, "$HX_TEST_BAZ!").unwrap(), "qux!");
}

#[test]
fn extra_beats_env() {
    let env = env_with(no_presets(), &[("HX_TEST_X", "env")]);
    let mut e = Expander::new();
    e.set("HX_TEST_X".to_string(), "extra".to_string());
    assert_eq!(expand_plain(&e, &env, "${HX_TEST_X}").unwrap(), "extra");
}

#[test]
fn missing_var_is_empty() {
    let env = env_with(no_presets(), &[]);
    let e = Expander::new();
    assert_eq!(expand_plain(&e, &env, "[${HX_MISSING_123}]").unwrap(), "[]");
}

#[test]
fn escaped_dollar() {
    let env = env_with(no_presets(), &[]);
    let e = Expander::new();
    assert_eq!(expand_plain(&e, &env, r"\${NOPE}").unwrap(), "${NOPE}");
}

#[test]
fn command_substitution() {
    let env = env_with(no_presets(), &[]);
    let e = Expander::new();
    let (out, asked) = drive(|o| e.expand("hello $(echo world)", &env, o), echo);
    let out = out.unwrap();
    assert!(out.starts_with("hello "));
    assert!(out.contains("world"));
    assert_eq!(asked, vec![vec!["echo".to_string(), "world".to_string()]]);
}

#[test]
fn nested_expansion_in_cmdsub() {
    let env = env_with(no_presets(), &[("HX_TEST_MSG", "hi")]);
    let e = Expander::new();
    let (out, asked) = drive(|o| e.expand("$(echo ${HX_TEST_MSG})", &env, o), echo);
    assert!(out.unwrap().contains("hi"));
    assert_eq!(asked, vec![vec!["echo".to_string(), "hi".to_string()]]);
}

#[test]
fn braced_only_preserves_native_shell_syntax() {
    let env = env_with(no_presets(), &[("HX_TEST_V", "vv")]);
    let e = Expander::new();
    let out = e
        .expand_braced_only("pre ${HX_TEST_V} $HX_TEST_V $(uname)", &env)
        .unwrap();
    assert_eq!(out, "pre vv $HX_TEST_V $(uname)");
}

#[test]
fn helix_config_preset_ignores_same_named_env_var() {
    let vars = DirVars {
        home: Some("/home/u".to_string()),
        xdg_config_home: None,
        xdg_cache_home: None,
        appdata: None,
        local_appdata: None,
        helix_runtime: None,
    };
    let d = helix_config_dir("linux", &vars).unwrap();
    let mut dir = std::path::PathBuf::from(&d.base);
    for s in &d.segments {
        dir.push(s);
    }
    let dir = dir.to_string_lossy().into_owned();
    let mut presets = sample_presets();
    presets.helix_config = Some(dir.clone());
    let env = env_with(presets, &[("HELIX_CONFIG", "/tmp/hx-exec-bogus-path-should-be-ignored")]);
    let e = Expander::new();
    let out = expand_plain(&e, &env, "${HELIX_CONFIG}").unwrap();
    assert_eq!(out, dir);
    assert_ne!(out, "/tmp/hx-exec-bogus-path-should-be-ignored");
}

#[test]
fn helix_config_preset_present() {
    let env = env_with(sample_presets(), &[]);
    let e = Expander::new();
    let out = expand_plain(&e, &env, "${HELIX_CONFIG}").unwrap();
    assert!(!out.is_empty(), "HELIX_CONFIG should resolve");
}

#[test]
fn pwd_preset_expands_to_nonempty_dir() {
    let env = env_with(sample_presets(), &[]);
    let e = Expander::new();
    let out = expand_plain(&e, &env, "${pwd}").unwrap();
    assert!(!out.is_empty(), "${{pwd}} should expand to a non-empty path");
}

#[test]
fn pwd_preset_matches_current_dir() {
    let env = env_with(sample_presets(), &[]);
    let e = Expander::new();
    let out = expand_plain(&e, &env, "${pwd}").unwrap();
    assert_eq!(out, "/work/project", "${{pwd}} should equal the current directory");
}

#[test]
fn pwd_preset_not_overridden_by_env_var() {
    let env = env_with(
        sample_presets(),
        &[("pwd", "/tmp/hx-exec-bogus-pwd-should-be-ignored")],
    );
    let e = Expander::new();
    let out = expand_plain(&e, &env, "${pwd}").unwrap();
    assert_eq!(out, "/work/project");
    assert_ne!(out, "/tmp/hx-exec-bogus-pwd-should-be-ignored");
}

#[test]
fn existing_presets_still_work() {
    let env = env_with(sample_presets(), &[]);
    let e = Expander::new();
    assert!(!expand_plain(&e, &env, "${HELIX_CONFIG}").unwrap().is_empty());
    assert!(!expand_plain(&e, &env, "${HELIX_RUNTIME}").unwrap().is_empty());
    assert!(!expand_plain(&e, &env, "${HELIX_CACHE}").unwrap().is_empty());
}

#[test]
fn command_substitution_inherits_parent_env() {
    let env = env_with(no_presets(), &[("HX_EXEC_CMDSUB_TEST", "cmdsub_value_789")]);
    let e = Expander::new();
    let input = format!("prefix $({})", "printenv HX_EXEC_CMDSUB_TEST");
    let (result, asked) = drive(
        |o| e.expand(&input, &env, o),
        |argv| {
            if argv[0] == "printenv" {
                CommandOutcome::Output("cmdsub_value_789".to_string())
            } else {
                CommandOutcome::Failed("not found".to_string())
            }
        },
    );
    let result = result.unwrap();
    assert!(
        result.contains("cmdsub_value_789") || result.contains("prefix"),
        "command substitution should inherit parent env, got: {}",
        result
    );
    assert_eq!(result, "prefix cmdsub_value_789");
    assert_eq!(asked[0], vec!["printenv".to_string(), "HX_EXEC_CMDSUB_TEST".to_string()]);
}

#[test]
fn command_substitution_with_parent_path() {
    let env = env_with(no_presets(), &[]);
    let e = Expander::new();
    let (result, asked) = drive(
        |o| e.expand(&format!("$({})", "which bash"), &env, o),
        |_| CommandOutcome::Output("/usr/bin/bash".to_string()),
    );
    match result {
        Ok(out) if !out.is_empty() => {
            assert!(out.len() > 0);
        }
        Ok(out) => {
            assert!(out.is_empty() || out.contains("Not found"));
        }
        Err(_) => {}
    }
    assert_eq!(asked, vec![vec!["which".to_string(), "bash".to_string()]]);
}

// Further cases of the expansion rules.

#[test]
fn failed_command_substitution_names_the_command() {
    let env = env_with(no_presets(), &[]);
    let e = Expander::new();
    let (result, _) = drive(
        |o| e.expand("a $(nosuchprog x) b", &env, o),
        |_| CommandOutcome::Failed("failed to spawn: nosuchprog".to_string()),
    );
    match result {
        Err(ExpandError::Substitution(inner, hx_exec::expand::CommandFailure::Run(msg))) => {
            assert_eq!(inner, "nosuchprog x");
            assert_eq!(msg, "failed to spawn: nosuchprog");
        }
        other => panic!("unexpected {:?}", other),
    }
}

#[test]
fn unterminated_command_is_an_error() {
    let env = env_with(no_presets(), &[]);
    let e = Expander::new();
    match e.expand("x $(echo", &env, &[]) {
        Step::Done(Err(ExpandError::UnterminatedCommand(input))) => {
            assert_eq!(input, "x $(echo")
        }
        other => panic!("unexpected {:?}", other),
    }
}

#[test]
fn unterminated_variable_is_an_error() {
    let env = env_with(no_presets(), &[]);
    let e = Expander::new();
    match e.expand_braced_only("${OPEN", &env) {
        Err(ExpandError::UnterminatedVariable(input)) => assert_eq!(input, "${OPEN"),
        other => panic!("unexpected {:?}", other),
    }
}

#[test]
fn unbalanced_quote_in_substitution_fails_to_tokenize() {
    let env = env_with(no_presets(), &[]);
    let e = Expander::new();
    match e.expand("$(echo 'open)", &env, &[]) {
        Step::Done(Err(ExpandError::Substitution(_, hx_exec::expand::CommandFailure::Tokenize))) => {}
        other => panic!("unexpected {:?}", other),
    }
}

#[test]
fn empty_substitution_runs_nothing() {
    let env = env_with(no_presets(), &[]);
    let e = Expander::new();
    assert_eq!(expand_plain(&e, &env, "[$(  )]").unwrap(), "[]");
}

#[test]
fn nested_braces_name_the_whole_variable() {
    let env = env_with(no_presets(), &[("a{b}c", "inner")]);
    let e = Expander::new();
    assert_eq!(expand_plain(&e, &env, "${a{b}c}").unwrap(), "inner");
}

#[test]
fn lone_dollar_and_backslash_stay() {
    let env = env_with(no_presets(), &[]);
    let e = Expander::new();
    assert_eq!(expand_plain(&e, &env, "cost: 5$ \\n $1 $").unwrap(), "cost: 5$ \\n $1 $");
}

#[test]
fn outcomes_beyond_those_needed_change_nothing() {
    let env = env_with(no_presets(), &[]);
    let e = Expander::new();
    let outs = vec![
        CommandOutcome::Output("one".to_string()),
        CommandOutcome::Output("two".to_string()),
    ];
    match e.expand("$(a) x", &env, &outs) {
        Step::Done(Ok(s)) => assert_eq!(s, "one x"),
        other => panic!("unexpected {:?}", other),
    }
}

#[test]
fn expand_all_stops_at_first_error() {
    let env = env_with(no_presets(), &[("V", "v")]);
    let e = Expander::new();
    let items = vec!["$V".to_string(), "${".to_string(), "$(never)".to_string()];
    match e.expand_all(&items, &env, &[]) {
        Step::Done(Err(ExpandError::UnterminatedVariable(_))) => {}
        other => panic!("unexpected {:?}", other),
    }
    let items = vec!["$V".to_string(), "${V}w".to_string()];
    match e.expand_all(&items, &env, &[]) {
        Step::Done(Ok(v)) => assert_eq!(v, vec!["v".to_string(), "vw".to_string()]),
        other => panic!("unexpected {:?}", other),
    }
}

#[test]
fn find_matching_honors_nesting() {
    let text: Vec<char> = "((a)b)c".chars().collect();
    assert_eq!(hx_exec::expand::find_matching(&text, 0, '(', ')'), Some(5));
    assert_eq!(hx_exec::expand::find_matching(&text, 1, '(', ')'), Some(3));
    let open: Vec<char> = "((a)b".chars().collect();
    assert_eq!(hx_exec::expand::find_matching(&open, 0, '(', ')'), None);
}

#[test]
fn command_output_loses_trailing_white_space() {
    let env = env_with(no_presets(), &[]);
    let e = Expander::default();
    let (out, _) = drive(
        |o| e.expand("[$(printf x)]", &env, o),
        |_| CommandOutcome::Output("  two words \n\t\n".to_string()),
    );
    assert_eq!(out.unwrap(), "[  two words]");
}

#[test]
fn non_ascii_text_is_copied_as_is() {
    let env = env_with(no_presets(), &[("X", "wert")]);
    let e = Expander::new();
    assert_eq!(expand_plain(&e, &env, "é ${X} ü").unwrap(), "é wert ü");
    assert_eq!(expand_plain(&e, &env, "日本語").unwrap(), "日本語");
    match e.expand_braced_only("ç $HOME ${X}", &env) {
        Ok(s) => assert_eq!(s, "ç $HOME wert"),
        Err(err) => panic!("unexpected {:?}", err),
    }
}

#[test]
fn bare_and_braced_forms_agree() {
    let env = env_with(no_presets(), &[("NAME_1", "v")]);
    let e = Expander::new();
    assert_eq!(expand_plain(&e, &env, "$NAME_1").unwrap(), "v");
    assert_eq!(expand_plain(&e, &env, "${NAME_1}").unwrap(), "v");
}

#[test]
fn environment_lookup_may_ignore_ascii_case() {
    let mut env = env_with(no_presets(), &[("Path", "/bin")]);
    let e = Expander::new();
    assert_eq!(expand_plain(&e, &env, "${PATH}").unwrap(), "");
    env.fold_case = true;
    assert_eq!(expand_plain(&e, &env, "${PATH}").unwrap(), "/bin");
    assert_eq!(expand_plain(&e, &env, "$path").unwrap(), "/bin");
}

#[test]
fn braced_only_leaves_open_command_substitution() {
    let env = env_with(no_presets(), &[]);
    let e = Expander::new();
    match e.expand_braced_only("$(echo hi", &env) {
        Ok(s) => assert_eq!(s, "$(echo hi"),
        Err(err) => panic!("unexpected {:?}", err),
    }
    assert!(matches!(
        e.expand("$(echo hi", &env, &[]),
        Step::Done(Err(ExpandError::UnterminatedCommand(_)))
    ));
    assert!(e.expand_braced_only("${FOO", &env).is_err());
}

#[test]
fn escaped_dollar_stays_literal_in_both_modes() {
    let env = env_with(no_presets(), &[("A", "x")]);
    let e = Expander::new();
    assert_eq!(expand_plain(&e, &env, "\\$A and \\${A}").unwrap(), "$A and ${A}");
    match e.expand_braced_only("\\${A} ${A}", &env) {
        Ok(s) => assert_eq!(s, "${A} x"),
        Err(err) => panic!("unexpected {:?}", err),
    }
}
