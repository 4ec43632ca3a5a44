use hx_exec::config::{Alias, EnvCommand, EnvValue};
use hx_exec::expand::{CommandOutcome, Environment, Step};
use hx_exec::presets::Presets;
use hx_exec::runner::{EnvCommandError, Resolved, RunError};
use hx_exec::strmap::StrMap;

fn empty_env() -> Environment {
    Environment {
        presets: Presets {
            helix_config: None,
            helix_runtime: None,
            helix_cache: None,
            pwd: None,
        },
        vars: StrMap::new(),
        fold_case: false,
    }
}

fn alias_with_cmd(cmd: &str) -> Alias {
    Alias {
        cmd: Some(cmd.to_string()),
        ..Default::default()
    }
}

fn drive<T>(
    mut step: impl FnMut(&[CommandOutcome]) -> Step<T>,
    respond: impl Fn(&[String]) -> CommandOutcome,
) -> (T, Vec<Vec<String>>) {
    let mut outcomes: Vec<CommandOutcome> = Vec::new();
    let mut asked: Vec<Vec<String>> = Vec::new();
    loop {
        match step(&outcomes) {
            Step::Done(v) => return (v, asked),
            Step::Run(argv) => {
                outcomes.push(respond(&argv));
                asked.push(argv);
            }
        }
    }
}

fn echo(argv: &[String]) -> CommandOutcome {
    if argv[0] == "echo" {
        CommandOutcome::Output(argv[1..].join(" "))
    } else {
        CommandOutcome::Failed(format!("failed to spawn: {}", argv[0]))
    }
}

#[test]
fn literal_env_still_works() {
    let mut alias = alias_with_cmd("echo hi");
    alias
        .env
        .insert("FOO".to_string(), EnvValue::Literal("bar".to_string()));
    let env = empty_env();
    let (resolved, asked) = drive(|o| Resolved::from_alias(&alias, &env, o), echo);
    let resolved = resolved.unwrap();
    assert_eq!(resolved.env.get("FOO").map(String::as_str), Some("bar"));
    assert!(asked.is_empty());
}

#[test]
fn command_env_resolved_no_shell() {
    let mut alias = alias_with_cmd("echo hi");
    alias.env.insert(
        "MY_VAR".to_string(),
        EnvValue::Command(EnvCommand {
            cmd: "echo hello".to_string(),
            shell: None,
        }),
    );
    let env = empty_env();
    let (resolved, asked) = drive(|o| Resolved::from_alias(&alias, &env, o), echo);
    let resolved = resolved.unwrap();
    let val = resolved.env.get("MY_VAR").expect("MY_VAR should be set");
    assert!(val.contains("hello"), "expected 'hello' in `{}`", val);
    assert_eq!(asked, vec![vec!["echo".to_string(), "hello".to_string()]]);
}

#[test]
fn command_env_value_is_usable_in_cmd_expansion() {
    let mut alias = Alias {
        cmd: Some("echo ${GREETING}".to_string()),
        ..Default::default()
    };
    alias.env.insert(
        "GREETING".to_string(),
        EnvValue::Command(EnvCommand {
            cmd: "echo hi".to_string(),
            shell: None,
        }),
    );
    let env = empty_env();
    let (resolved, _) = drive(|o| Resolved::from_alias(&alias, &env, o), echo);
    let resolved = resolved.unwrap();
    assert_eq!(resolved.program, "echo");
    assert!(
        resolved.args.iter().any(|a| a.contains("hi")),
        "expected 'hi' in args: {:?}",
        resolved.args
    );
}

// Further cases.

#[test]
fn shell_form_hands_the_script_to_the_shell() {
    let mut alias = Alias {
        shell: Some("bash".to_string()),
        cmd: Some("ls \"${DIR}\" | grep $X $(pwd)".to_string()),
        ..Default::default()
    };
    alias
        .env
        .insert("DIR".to_string(), EnvValue::Literal("/tmp".to_string()));
    let env = empty_env();
    let (resolved, asked) = drive(|o| Resolved::from_alias(&alias, &env, o), echo);
    let resolved = resolved.unwrap();
    assert!(asked.is_empty());
    assert_eq!(resolved.program, "bash");
    assert_eq!(
        resolved.args,
        vec!["-c".to_string(), "ls \"/tmp\" | grep $X $(pwd)".to_string()]
    );
}

#[test]
fn env_command_through_a_shell() {
    let mut alias = alias_with_cmd("tool");
    alias.env.insert(
        "NODE_PATH".to_string(),
        EnvValue::Command(EnvCommand {
            cmd: "npm root -g".to_string(),
            shell: Some("pwsh".to_string()),
        }),
    );
    let env = empty_env();
    let (resolved, asked) = drive(
        |o| Resolved::from_alias(&alias, &env, o),
        |_| CommandOutcome::Output("C:/npm".to_string()),
    );
    assert_eq!(resolved.unwrap().env.get("NODE_PATH").map(String::as_str), Some("C:/npm"));
    assert_eq!(
        asked,
        vec![vec![
            "pwsh".to_string(),
            "-NoProfile".to_string(),
            "-Command".to_string(),
            "npm root -g".to_string()
        ]]
    );
}

#[test]
fn env_command_with_unknown_shell_fails() {
    let mut alias = alias_with_cmd("tool");
    alias.env.insert(
        "V".to_string(),
        EnvValue::Command(EnvCommand {
            cmd: "x".to_string(),
            shell: Some("ksh".to_string()),
        }),
    );
    let env = empty_env();
    match Resolved::from_alias(&alias, &env, &[]) {
        Step::Done(Err(RunError::EnvCommand(name, EnvCommandError::UnknownShell(s)))) => {
            assert_eq!(name, "V");
            assert_eq!(s, "ksh");
        }
        _ => panic!("expected an unknown-shell error"),
    }
}

#[test]
fn failed_env_command_is_reported() {
    let mut alias = alias_with_cmd("tool");
    alias.env.insert(
        "V".to_string(),
        EnvValue::Command(EnvCommand {
            cmd: "false --quiet".to_string(),
            shell: None,
        }),
    );
    let env = empty_env();
    let (result, _) = drive(
        |o| Resolved::from_alias(&alias, &env, o),
        |_| CommandOutcome::Failed("exited with exit status: 1".to_string()),
    );
    match result {
        Err(RunError::EnvCommand(name, EnvCommandError::Run(cmd, msg))) => {
            assert_eq!(name, "V");
            assert_eq!(cmd, "false --quiet");
            assert_eq!(msg, "exited with exit status: 1");
        }
        _ => panic!("expected an env command error"),
    }
}

#[test]
fn command_and_args_are_expanded() {
    let alias = Alias {
        command: Some("ngserver".to_string()),
        args: vec!["--stdio".to_string(), "--probe=$(npm -g root)".to_string()],
        ..Default::default()
    };
    let env = empty_env();
    let (resolved, asked) = drive(
        |o| Resolved::from_alias(&alias, &env, o),
        |_| CommandOutcome::Output("/usr/lib/node_modules".to_string()),
    );
    let resolved = resolved.unwrap();
    assert_eq!(resolved.program, "ngserver");
    assert_eq!(
        resolved.args,
        vec!["--stdio".to_string(), "--probe=/usr/lib/node_modules".to_string()]
    );
    assert_eq!(
        asked,
        vec![vec!["npm".to_string(), "-g".to_string(), "root".to_string()]]
    );
}

#[test]
fn invalid_alias_is_rejected_before_anything_runs() {
    let alias = Alias::default();
    match Resolved::from_alias(&alias, &empty_env(), &[]) {
        Step::Done(Err(RunError::Invalid(_))) => {}
        _ => panic!("expected an invalid-alias error"),
    }
}

#[test]
fn empty_cmd_is_an_error() {
    let alias = alias_with_cmd("   ");
    match Resolved::from_alias(&alias, &empty_env(), &[]) {
        Step::Done(Err(RunError::EmptyCmd)) => {}
        _ => panic!("expected an empty-cmd error"),
    }
}

#[test]
fn from_argv_expands_every_element() {
    let mut vars = StrMap::new();
    vars.insert("ROOT".to_string(), "/r".to_string());
    let env = Environment {
        presets: empty_env().presets,
        vars,
        fold_case: false,
    };
    let argv = vec!["my-lsp".to_string(), "--root".to_string(), "${ROOT}/x".to_string()];
    let (resolved, _) = drive(|o| Resolved::from_argv(&argv, &env, o), echo);
    let resolved = resolved.unwrap();
    assert_eq!(resolved.program, "my-lsp");
    assert_eq!(resolved.args, vec!["--root".to_string(), "/r/x".to_string()]);
    match Resolved::from_argv(&[], &env, &[]) {
        Step::Done(Err(RunError::NoCommand)) => {}
        _ => panic!("expected no-command error"),
    }
}

#[test]
fn extra_args_see_alias_env() {
    let mut alias = alias_with_cmd("tool --a");
    alias
        .env
        .insert("X".to_string(), EnvValue::Literal("ex".to_string()));
    let env = empty_env();
    let (resolved, _) = drive(|o| Resolved::from_alias(&alias, &env, o), echo);
    let mut resolved = resolved.unwrap();
    let extra = vec!["--b=${X}".to_string(), "${".to_string(), "--c".to_string()];
    match resolved.push_extra_args(&extra, &env, &[]) {
        Step::Done(Err(RunError::Expand(_))) => {}
        _ => panic!("expected an expansion error"),
    }
    assert_eq!(resolved.args, vec!["--a".to_string(), "--b=ex".to_string()]);
}

#[test]
fn display_quotes_words() {
    let mut env = StrMap::new();
    env.insert("K".to_string(), "v".to_string());
    let r = Resolved {
        program: "echo".to_string(),
        args: vec!["a b".to_string(), "plain".to_string()],
        env,
    };
    assert_eq!(r.display(), "echo 'a b' plain");
}

#[test]
fn display_reads_back_as_the_words() {
    let args = vec![
        "it's".to_string(),
        String::new(),
        "#not a comment".to_string(),
        "line\nbreak".to_string(),
        "$HOME".to_string(),
    ];
    let r = Resolved {
        program: "my tool".to_string(),
        args: args.clone(),
        env: StrMap::new(),
    };
    let line = r.display();
    assert_eq!(line, "'my tool' 'it'\\''s' '' '#not a comment' 'line\nbreak' '$HOME'");
    let mut words = vec!["my tool".to_string()];
    words.extend(args);
    assert_eq!(shell_words::split(&line).unwrap(), words);
}

#[test]
fn resolved_and_expander_clone() {
    let mut env = StrMap::new();
    env.insert("K".to_string(), "v".to_string());
    let r = Resolved {
        program: "echo".to_string(),
        args: vec!["a".to_string()],
        env,
    };
    let c = r.clone();
    assert_eq!(c.program, "echo");
    assert_eq!(c.args, vec!["a".to_string()]);
    assert_eq!(c.env.get("K").map(String::as_str), Some("v"));
    let e = hx_exec::expand::Expander::default().clone();
    assert_eq!(e.extra.len(), 0);
}
