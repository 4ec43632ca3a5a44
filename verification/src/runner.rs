//! Building the final command line from an alias or from a raw argument list.
//!
//! Like an expansion, building may run commands (command substitutions and
//! command-bound variables). It is computed from the outcomes of the commands run so far
//! and either finishes or names the next command to run; every command is run directly
//! from its argument list, with `argv[0]` the program.

use vstd::prelude::*;

use crate::config::{validate_spec, Alias, ConfigError, ConfigErrorSpec, EnvCommand, EnvValue};
use crate::expand::{
    answers, await_outcome, await_run, expand_from, expand_list, expand_seq, settles, Awaited, Awaiting,
    CommandOutcome, Environment, ExpandError, ExpandErrorSpec, Expander, Flow, Mode, Step,
};
use crate::platform::{shell_invocation, shell_invocation_spec};
use crate::strmap::{find_key, key_seq, StrMap};
use crate::text::push_str;
use crate::words::{join_line, shell_join, shell_split, split_words};

verus! {

/// Why a command-bound variable could not be resolved.
#[derive(Debug)]
pub enum EnvCommandError {
    /// Expanding its command line failed.
    Expand(ExpandError),
    /// It names a shell that is not known.
    UnknownShell(String),
    /// Its expanded command line could not be split into words.
    Tokenize,
    /// Running its command line (the first field, as written) failed, as described.
    Run(String, String),
}

/// Why building a command failed.
#[derive(Debug)]
pub enum RunError {
    /// The alias variant is not valid.
    Invalid(ConfigError),
    /// Expanding the literal value of the named per-alias variable failed.
    EnvValue(String, ExpandError),
    /// Resolving the command-bound per-alias variable of the given name failed.
    EnvCommand(String, EnvCommandError),
    /// Expanding the program, an argument or the script failed.
    Expand(ExpandError),
    /// The alias's `cmd` could not be split into words.
    TokenizeCmd,
    /// The alias's `cmd` holds no words.
    EmptyCmd,
    /// No command was given.
    NoCommand,
}

/// The mathematical form of an `EnvCommandError`.
pub enum EnvCommandErrorSpec {
    Expand(ExpandErrorSpec),
    UnknownShell(Seq<char>),
    Tokenize,
    Run(Seq<char>, Seq<char>),
}

/// The mathematical form of a `RunError`.
pub enum RunErrorSpec {
    Invalid(ConfigErrorSpec),
    EnvValue(Seq<char>, ExpandErrorSpec),
    EnvCommand(Seq<char>, EnvCommandErrorSpec),
    Expand(ExpandErrorSpec),
    TokenizeCmd,
    EmptyCmd,
    NoCommand,
}

impl View for EnvCommandError {
    type V = EnvCommandErrorSpec;

    open spec fn view(&self) -> EnvCommandErrorSpec {
        match self {
            EnvCommandError::Expand(e) => EnvCommandErrorSpec::Expand(e@),
            EnvCommandError::UnknownShell(s) => EnvCommandErrorSpec::UnknownShell(s@),
            EnvCommandError::Tokenize => EnvCommandErrorSpec::Tokenize,
            EnvCommandError::Run(c, m) => EnvCommandErrorSpec::Run(c@, m@),
        }
    }
}

impl View for RunError {
    type V = RunErrorSpec;

    open spec fn view(&self) -> RunErrorSpec {
        match self {
            RunError::Invalid(e) => RunErrorSpec::Invalid(e@),
            RunError::EnvValue(n, e) => RunErrorSpec::EnvValue(n@, e@),
            RunError::EnvCommand(n, e) => RunErrorSpec::EnvCommand(n@, e@),
            RunError::Expand(e) => RunErrorSpec::Expand(e@),
            RunError::TokenizeCmd => RunErrorSpec::TokenizeCmd,
            RunError::EmptyCmd => RunErrorSpec::EmptyCmd,
            RunError::NoCommand => RunErrorSpec::NoCommand,
        }
    }
}

/// A fully resolved command, ready to run or print.
#[derive(Debug, Clone)]
pub struct Resolved {
    pub program: String,
    pub args: Vec<String>,
    /// Extra variables to set in the child process.
    pub env: StrMap<String>,
}

/// The mathematical form of a `Resolved`.
pub struct ResolvedSpec {
    pub program: Seq<char>,
    pub args: Seq<Seq<char>>,
    pub env: Seq<(Seq<char>, Seq<char>)>,
}

impl View for Resolved {
    type V = ResolvedSpec;

    open spec fn view(&self) -> ResolvedSpec {
        ResolvedSpec { program: self.program@, args: self.args.deep_view(), env: self.env.text() }
    }
}

/// The mathematical form of the result of building a command.
pub open spec fn resolved_result(r: Result<Resolved, RunError>) -> Result<ResolvedSpec, RunErrorSpec> {
    match r {
        Ok(x) => Ok(x@),
        Err(e) => Err(e@),
    }
}

/// The mathematical form of the result of resolving a variable.
pub open spec fn value_result(r: Result<String, EnvCommandError>) -> Result<
    Seq<char>,
    EnvCommandErrorSpec,
> {
    match r {
        Ok(s) => Ok(s@),
        Err(e) => Err(e@),
    }
}

/// No variables.
pub open spec fn no_vars() -> Seq<(Seq<char>, Seq<char>)> {
    Seq::empty()
}

/// What waiting for the command of the command-bound variable whose command line is
/// `cmd` gives.
pub open spec fn awaited_value(a: Awaited, cmd: Seq<char>) -> Flow<Result<Seq<char>, EnvCommandErrorSpec>> {
    match a {
        Awaited::Output(s, n) => Flow::Done(Ok(s), n),
        Awaited::Failure(m, n) => Flow::Done(Err(EnvCommandErrorSpec::Run(cmd, m)), n),
        Awaited::Pending(argv, w) => Flow::Pending(argv, w),
    }
}

/// The value of a command-bound variable. With a shell, its command line is expanded
/// in `${VAR}` form only and handed to the shell as one script; without, it is expanded
/// in full, split into words and run directly (no words give the empty value).
pub open spec fn env_command_flow(
    env: Environment,
    ec: EnvCommand,
    outs: Seq<CommandOutcome>,
    k: nat,
) -> Flow<Result<Seq<char>, EnvCommandErrorSpec>> {
    match ec.shell {
        Some(sh) => match expand_from(no_vars(), env, ec.cmd@, Mode::BracedOnly, outs, k) {
            Flow::Pending(argv, w) => Flow::Pending(argv, w),
            Flow::Done(Err(e), n) => Flow::Done(Err(EnvCommandErrorSpec::Expand(e)), n),
            Flow::Done(Ok(script), n) => match shell_invocation_spec(sh@) {
                None => Flow::Done(Err(EnvCommandErrorSpec::UnknownShell(sh@)), n),
                Some((prog, flags)) => awaited_value(
                    await_run(seq![prog] + flags + seq![script], outs, n),
                    ec.cmd@,
                ),
            },
        },
        None => match expand_from(no_vars(), env, ec.cmd@, Mode::Full, outs, k) {
            Flow::Pending(argv, w) => Flow::Pending(argv, w),
            Flow::Done(Err(e), n) => Flow::Done(Err(EnvCommandErrorSpec::Expand(e)), n),
            Flow::Done(Ok(line), n) => match shell_split(line) {
                None => Flow::Done(Err(EnvCommandErrorSpec::Tokenize), n),
                Some(words) => if words.len() == 0 {
                    Flow::Done(Ok(Seq::empty()), n)
                } else {
                    awaited_value(await_run(words, outs, n), ec.cmd@)
                },
            },
        },
    }
}

/// The values of the per-alias variables `vars[i..]`, each literal value expanded in
/// full and each command-bound value resolved, in order, where `acc` holds the values
/// of the variables before `i`.
pub open spec fn bind_vars(
    env: Environment,
    vars: Seq<(Seq<char>, EnvValue)>,
    i: int,
    acc: Seq<(Seq<char>, Seq<char>)>,
    outs: Seq<CommandOutcome>,
    k: nat,
) -> Flow<Result<Seq<(Seq<char>, Seq<char>)>, RunErrorSpec>>
    decreases vars.len() - i,
{
    if i < 0 || i >= vars.len() {
        Flow::Done(Ok(acc), k)
    } else {
        let name = vars[i].0;
        match vars[i].1 {
            EnvValue::Literal(s) => match expand_from(no_vars(), env, s@, Mode::Full, outs, k) {
                Flow::Pending(argv, w) => Flow::Pending(argv, w),
                Flow::Done(Err(e), n) => Flow::Done(Err(RunErrorSpec::EnvValue(name, e)), n),
                Flow::Done(Ok(v), n) => bind_vars(env, vars, i + 1, acc.push((name, v)), outs, n),
            },
            EnvValue::Command(ec) => match env_command_flow(env, ec, outs, k) {
                Flow::Pending(argv, w) => Flow::Pending(argv, w),
                Flow::Done(Err(e), n) => Flow::Done(Err(RunErrorSpec::EnvCommand(name, e)), n),
                Flow::Done(Ok(v), n) => bind_vars(env, vars, i + 1, acc.push((name, v)), outs, n),
            },
        }
    }
}

/// The program and arguments of a variant before expansion: the words of `cmd` (the
/// first is the program), or `command` and `args`.
pub open spec fn tokens_spec(a: Alias) -> Result<(Seq<char>, Seq<Seq<char>>), RunErrorSpec> {
    match a.cmd {
        Some(c) => match shell_split(c@) {
            None => Err(RunErrorSpec::TokenizeCmd),
            Some(words) => if words.len() == 0 {
                Err(RunErrorSpec::EmptyCmd)
            } else {
                Ok((words[0], words.drop_first()))
            },
        },
        None => match a.command {
            Some(c) => Ok((c@, a.args.deep_view())),
            None => Err(RunErrorSpec::Invalid(ConfigErrorSpec::MissingCommand)),
        },
    }
}

/// The command of a variant once its variables `vars` are known: with a shell, the
/// shell's program and flags followed by `cmd` expanded in `${VAR}` form only; else the
/// program and arguments expanded in full.
pub open spec fn command_flow(
    a: Alias,
    vars: Seq<(Seq<char>, Seq<char>)>,
    env: Environment,
    outs: Seq<CommandOutcome>,
    k: nat,
) -> Flow<Result<ResolvedSpec, RunErrorSpec>> {
    match a.shell {
        Some(sh) => match shell_invocation_spec(sh@) {
            None => Flow::Done(Err(RunErrorSpec::Invalid(ConfigErrorSpec::UnknownShell(sh@))), k),
            Some((prog, flags)) => match a.cmd {
                None => Flow::Done(Err(RunErrorSpec::Invalid(ConfigErrorSpec::ShellWithCommand)), k),
                Some(raw) => match expand_from(vars, env, raw@, Mode::BracedOnly, outs, k) {
                    Flow::Pending(argv, w) => Flow::Pending(argv, w),
                    Flow::Done(Err(e), n) => Flow::Done(Err(RunErrorSpec::Expand(e)), n),
                    Flow::Done(Ok(script), n) => Flow::Done(
                        Ok(ResolvedSpec { program: prog, args: flags.push(script), env: vars }),
                        n,
                    ),
                },
            },
        },
        None => match tokens_spec(a) {
            Err(e) => Flow::Done(Err(e), k),
            Ok((program, args)) => match expand_from(vars, env, program, Mode::Full, outs, k) {
                Flow::Pending(argv, w) => Flow::Pending(argv, w),
                Flow::Done(Err(e), n) => Flow::Done(Err(RunErrorSpec::Expand(e)), n),
                Flow::Done(Ok(p), n) => match expand_list(vars, env, args, outs, n) {
                    Flow::Pending(argv, w) => Flow::Pending(argv, w),
                    Flow::Done(Err(e), n2) => Flow::Done(Err(RunErrorSpec::Expand(e)), n2),
                    Flow::Done(Ok(xs), n2) => Flow::Done(
                        Ok(ResolvedSpec { program: p, args: xs, env: vars }),
                        n2,
                    ),
                },
            },
        },
    }
}

/// Building the command of an alias variant: validate it, resolve its variables in
/// order, then build the command with those variables available to `${VAR}`.
pub open spec fn from_alias_flow(a: Alias, env: Environment, outs: Seq<CommandOutcome>, k: nat) -> Flow<
    Result<ResolvedSpec, RunErrorSpec>,
> {
    match validate_spec(a) {
        Err(e) => Flow::Done(Err(RunErrorSpec::Invalid(e)), k),
        Ok(()) => match bind_vars(env, a.env.keyed(), 0, Seq::empty(), outs, k) {
            Flow::Pending(argv, w) => Flow::Pending(argv, w),
            Flow::Done(Err(e), n) => Flow::Done(Err(e), n),
            Flow::Done(Ok(vars), n) => command_flow(a, vars, env, outs, n),
        },
    }
}

/// Building a command from an argument list: every element expanded in full, the first
/// being the program; the list must not be empty.
pub open spec fn from_argv_flow(argv: Seq<Seq<char>>, env: Environment, outs: Seq<CommandOutcome>) -> Flow<
    Result<ResolvedSpec, RunErrorSpec>,
> {
    if argv.len() == 0 {
        Flow::Done(Err(RunErrorSpec::NoCommand), 0)
    } else {
        match expand_from(no_vars(), env, argv[0], Mode::Full, outs, 0) {
            Flow::Pending(a, w) => Flow::Pending(a, w),
            Flow::Done(Err(e), n) => Flow::Done(Err(RunErrorSpec::Expand(e)), n),
            Flow::Done(Ok(p), n) => match expand_list(no_vars(), env, argv.drop_first(), outs, n) {
                Flow::Pending(a, w) => Flow::Pending(a, w),
                Flow::Done(Err(e), n2) => Flow::Done(Err(RunErrorSpec::Expand(e)), n2),
                Flow::Done(Ok(xs), n2) => Flow::Done(
                    Ok(ResolvedSpec { program: p, args: xs, env: no_vars() }),
                    n2,
                ),
            },
        }
    }
}

/// The printed form of a command: the program and the arguments as
/// `shell_words::join` writes them, each quoted for a Unix shell and joined by single
/// spaces.
pub open spec fn display_spec(r: ResolvedSpec) -> Seq<char> {
    shell_join(seq![r.program] + r.args)
}

/// Copies of the strings of `v` from position `from` on.
fn copy_from(v: &Vec<String>, from: usize) -> (r: Vec<String>)
    requires
        from <= v@.len(),
    ensures
        r.deep_view() == v.deep_view().subrange(from as int, v@.len() as int),
{
    let mut r: Vec<String> = Vec::new();
    let mut i: usize = from;
    while i < v.len()
        invariant
            from <= i <= v@.len(),
            r.deep_view() =~= v.deep_view().subrange(from as int, i as int),
        decreases v@.len() - i,
    {
        let ghost before = r.deep_view();
        let c = v[i].clone();
        r.push(c);
        assert(r.deep_view() =~= before.push(v.deep_view()[i as int]));
        i = i + 1;
    }
    r
}

/// The program and the arguments of a command line's words: the first word and the
/// rest, or `None` when there are no words.
pub fn split_program(words: Vec<String>) -> (r: Option<(String, Vec<String>)>)
    ensures
        words@.len() == 0 <==> r is None,
        r matches Some(p) ==> p.0@ == words.deep_view()[0] && p.1.deep_view()
            == words.deep_view().drop_first(),
{
    if words.len() == 0 {
        return None;
    }
    let rest = copy_from(&words, 1);
    assert(words.deep_view().drop_first() =~= words.deep_view().subrange(1, words@.len() as int));
    Some((words[0].clone(), rest))
}

/// The program and arguments of a variant before expansion.
fn tokens(alias: &Alias) -> (r: Result<(String, Vec<String>), RunError>)
    ensures
        match tokens_spec(*alias) {
            Ok((p, a)) => r matches Ok(x) && x.0@ == p && x.1.deep_view() == a,
            Err(e) => r matches Err(x) && x@ == e,
        },
{
    match &alias.cmd {
        Some(cmd) => match split_words(cmd.as_str()) {
            None => Err(RunError::TokenizeCmd),
            Some(words) => match split_program(words) {
                None => Err(RunError::EmptyCmd),
                Some(p) => Ok(p),
            },
        },
        None => match &alias.command {
            Some(c) => {
                let args = copy_from(&alias.args, 0);
                assert(alias.args.deep_view().subrange(0, alias.args@.len() as int)
                    =~= alias.args.deep_view());
                Ok((c.clone(), args))
            },
            None => Err(RunError::Invalid(ConfigError::MissingCommand)),
        },
    }
}

/// The value of a command-bound variable, where `k` outcomes are already used.
fn resolve_env_command(
    ec: &EnvCommand,
    base: &Expander,
    env: &Environment,
    outs: &[CommandOutcome],
    k: usize,
) -> (r: (Step<Result<String, EnvCommandError>>, usize))
    requires
        k <= outs@.len(),
        base.extra.text() == no_vars(),
    ensures
        answers(r.0, r.1, env_command_flow(*env, *ec, outs@, k as nat), |x: Result<String, EnvCommandError>| value_result(x)),
        r.1 <= outs@.len(),
{
    match &ec.shell {
        Some(shell) => {
            let (st, n) = base.expand_with(ec.cmd.as_str(), Mode::BracedOnly, env, outs, k);
            let script = match st {
                Step::Run(argv) => {
                    return (Step::Run(argv), n);
                },
                Step::Done(Err(e)) => {
                    return (Step::Done(Err(EnvCommandError::Expand(e))), n);
                },
                Step::Done(Ok(s)) => s,
            };
            match shell_invocation(shell.as_str()) {
                None => (Step::Done(Err(EnvCommandError::UnknownShell(shell.clone()))), n),
                Some((prog, flags)) => {
                    let ghost pv = prog@;
                    let mut argv: Vec<String> = Vec::new();
                    argv.push(prog);
                    let mut i: usize = 0;
                    while i < flags.len()
                        invariant
                            i <= flags@.len(),
                            argv.deep_view() =~= seq![pv] + flags.deep_view().subrange(0, i as int),
                        decreases flags@.len() - i,
                    {
                        let ghost before = argv.deep_view();
                        let c = flags[i].clone();
                        argv.push(c);
                        assert(argv.deep_view() =~= before.push(flags.deep_view()[i as int]));
                        i = i + 1;
                    }
                    let ghost sv = script@;
                    argv.push(script);
                    assert(flags.deep_view().subrange(0, flags@.len() as int) =~= flags.deep_view());
                    assert(argv.deep_view() =~= seq![pv]
                        + flags.deep_view() + seq![sv]);
                    match await_outcome(argv, outs, n) {
                        Awaiting::Output(s, n2) => (Step::Done(Ok(s)), n2),
                        Awaiting::Failure(m, n2) => (
                            Step::Done(Err(EnvCommandError::Run(ec.cmd.clone(), m))),
                            n2,
                        ),
                        Awaiting::Pending(a, _) => (Step::Run(a), n),
                    }
                },
            }
        },
        None => {
            let (st, n) = base.expand_with(ec.cmd.as_str(), Mode::Full, env, outs, k);
            let line = match st {
                Step::Run(argv) => {
                    return (Step::Run(argv), n);
                },
                Step::Done(Err(e)) => {
                    return (Step::Done(Err(EnvCommandError::Expand(e))), n);
                },
                Step::Done(Ok(s)) => s,
            };
            match split_words(line.as_str()) {
                None => (Step::Done(Err(EnvCommandError::Tokenize)), n),
                Some(words) => {
                    if words.len() == 0 {
                        (Step::Done(Ok(String::new())), n)
                    } else {
                        match await_outcome(words, outs, n) {
                            Awaiting::Output(s, n2) => (Step::Done(Ok(s)), n2),
                            Awaiting::Failure(m, n2) => (
                                Step::Done(Err(EnvCommandError::Run(ec.cmd.clone(), m))),
                                n2,
                            ),
                            Awaiting::Pending(a, _) => (Step::Run(a), n),
                        }
                    }
                },
            }
        },
    }
}

/// The mathematical form of the result of resolving variables.
pub open spec fn vars_result(r: Result<StrMap<String>, RunError>) -> Result<
    Seq<(Seq<char>, Seq<char>)>,
    RunErrorSpec,
> {
    match r {
        Ok(m) => Ok(m.text()),
        Err(e) => Err(e@),
    }
}

/// Resolves the per-alias variables in order, where `k` outcomes are already used.
fn bind_vars_exec(
    vars: &StrMap<EnvValue>,
    env: &Environment,
    outs: &[CommandOutcome],
    k: usize,
) -> (r: (Step<Result<StrMap<String>, RunError>>, usize))
    requires
        k <= outs@.len(),
    ensures
        answers(
            r.0,
            r.1,
            bind_vars(*env, vars.keyed(), 0, Seq::empty(), outs@, k as nat),
            |x: Result<StrMap<String>, RunError>| vars_result(x),
        ),
        r.1 <= outs@.len(),
{
    let base = Expander::new();
    proof {
        assert(base.extra.text() =~= no_vars());
    }
    let mut extra: StrMap<String> = StrMap::new();
    let n_vars = vars.len();
    let ghost keys = key_seq(vars.keyed());
    let mut i: usize = 0;
    let mut used = k;
    proof {
        assert(extra.text() =~= Seq::<(Seq<char>, Seq<char>)>::empty());
        assert(key_seq(extra.keyed()) =~= keys.subrange(0, 0));
    }
    while i < n_vars
        invariant
            n_vars == vars.keyed().len(),
            keys == key_seq(vars.keyed()),
            crate::strmap::keys_distinct(keys),
            base.extra.text() == no_vars(),
            i <= n_vars,
            used <= outs@.len(),
            key_seq(extra.keyed()) == keys.subrange(0, i as int),
            bind_vars(*env, vars.keyed(), 0, Seq::empty(), outs@, k as nat) == bind_vars(
                *env,
                vars.keyed(),
                i as int,
                extra.text(),
                outs@,
                used as nat,
            ),
        decreases n_vars - i,
    {
        let (name, value) = vars.entry(i);
        let val: String;
        match value {
            EnvValue::Literal(s) => {
                let (st, n) = base.expand_with(s.as_str(), Mode::Full, env, outs, used);
                match st {
                    Step::Run(a) => {
                        return (Step::Run(a), n);
                    },
                    Step::Done(Err(e)) => {
                        return (Step::Done(Err(RunError::EnvValue(name.clone(), e))), n);
                    },
                    Step::Done(Ok(v)) => {
                        val = v;
                        used = n;
                    },
                }
            },
            EnvValue::Command(ec) => {
                let (st, n) = resolve_env_command(ec, &base, env, outs, used);
                match st {
                    Step::Run(a) => {
                        return (Step::Run(a), n);
                    },
                    Step::Done(Err(e)) => {
                        return (Step::Done(Err(RunError::EnvCommand(name.clone(), e))), n);
                    },
                    Step::Done(Ok(v)) => {
                        val = v;
                        used = n;
                    },
                }
            },
        }
        let ghost before = extra.keyed();
        let ghost before_text = extra.text();
        let ghost nv = name@;
        let ghost vg = val;
        proof {
            crate::strmap::lemma_find_key(key_seq(before), nv, 0);
            assert(keys[i as int] == nv);
            if find_key(key_seq(before), nv, 0) is Some {
                let j = find_key(key_seq(before), nv, 0)->0;
                assert(key_seq(before)[j] == keys[j]);
            }
            assert(find_key(key_seq(before), nv, 0) is None);
        }
        extra.insert(name.clone(), val);
        proof {
            assert(extra.keyed() == before.push((nv, vg)));
            assert(extra.text() =~= before_text.push((nv, vg@)));
            assert(key_seq(extra.keyed()) =~= keys.subrange(0, i + 1));
        }
        i = i + 1;
    }
    (Step::Done(Ok(extra)), used)
}

/// Builds the command of a variant once its variables are known, where `k` outcomes are
/// already used.
fn build_command(
    alias: &Alias,
    vars: StrMap<String>,
    env: &Environment,
    outs: &[CommandOutcome],
    k: usize,
) -> (r: (Step<Result<Resolved, RunError>>, usize))
    requires
        k <= outs@.len(),
    ensures
        answers(
            r.0,
            r.1,
            command_flow(*alias, vars.text(), *env, outs@, k as nat),
            |x: Result<Resolved, RunError>| resolved_result(x),
        ),
        r.1 <= outs@.len(),
{
    let ghost vt = vars.text();
    let expander = Expander::with_extra(vars);
    match &alias.shell {
        Some(shell) => {
            let (prog, flags) = match shell_invocation(shell.as_str()) {
                Some(p) => p,
                None => {
                    return (
                        Step::Done(
                            Err(RunError::Invalid(ConfigError::UnknownShell(shell.clone()))),
                        ),
                        k,
                    );
                },
            };
            let raw = match &alias.cmd {
                Some(c) => c,
                None => {
                    return (Step::Done(Err(RunError::Invalid(ConfigError::ShellWithCommand))), k);
                },
            };
            let (st, n) = expander.expand_with(raw.as_str(), Mode::BracedOnly, env, outs, k);
            match st {
                Step::Run(a) => (Step::Run(a), n),
                Step::Done(Err(e)) => (Step::Done(Err(RunError::Expand(e))), n),
                Step::Done(Ok(script)) => {
                    let mut args = flags;
                    let ghost before = args.deep_view();
                    let ghost sv = script@;
                    args.push(script);
                    assert(args.deep_view() =~= before.push(sv));
                    let Expander { extra } = expander;
                    (Step::Done(Ok(Resolved { program: prog, args, env: extra })), n)
                },
            }
        },
        None => {
            let (program_raw, args_raw) = match tokens(alias) {
                Ok(t) => t,
                Err(e) => {
                    return (Step::Done(Err(e)), k);
                },
            };
            let (st, n) = expander.expand_with(program_raw.as_str(), Mode::Full, env, outs, k);
            let program = match st {
                Step::Run(a) => {
                    return (Step::Run(a), n);
                },
                Step::Done(Err(e)) => {
                    return (Step::Done(Err(RunError::Expand(e))), n);
                },
                Step::Done(Ok(p)) => p,
            };
            let (st2, n2) = expander.expand_items(args_raw.as_slice(), env, outs, n);
            match st2 {
                Step::Run(a) => (Step::Run(a), n2),
                Step::Done(Err(e)) => (Step::Done(Err(RunError::Expand(e))), n2),
                Step::Done(Ok(args)) => {
                    let Expander { extra } = expander;
                    (Step::Done(Ok(Resolved { program, args, env: extra })), n2)
                },
            }
        },
    }
}

impl Resolved {
    /// Builds the command of an alias variant, given the outcomes of the commands run so
    /// far: the variant is validated, its variables are resolved in order (literal
    /// values expanded, command-bound values run), and then, with those variables
    /// available to `${VAR}`, either the shell's invocation takes `cmd` as its script
    /// (expanded in `${VAR}` form only) or the program and arguments are expanded in
    /// full.
    pub fn from_alias(alias: &Alias, env: &Environment, outs: &[CommandOutcome]) -> (r: Step<
        Result<Resolved, RunError>,
    >)
        ensures
            settles(
                r,
                from_alias_flow(*alias, *env, outs@, 0),
                |x: Result<Resolved, RunError>| resolved_result(x),
            ),
    {
        match alias.validate() {
            Err(e) => {
                return Step::Done(Err(RunError::Invalid(e)));
            },
            Ok(()) => {},
        }
        let (st, n) = bind_vars_exec(&alias.env, env, outs, 0);
        match st {
            Step::Run(a) => Step::Run(a),
            Step::Done(Err(e)) => Step::Done(Err(e)),
            Step::Done(Ok(vars)) => {
                let (st2, _) = build_command(alias, vars, env, outs, n);
                st2
            },
        }
    }

    /// Builds a command from an argument list, given the outcomes of the commands run so
    /// far: every element is expanded in full and the first is the program.
    pub fn from_argv(argv: &[String], env: &Environment, outs: &[CommandOutcome]) -> (r: Step<
        Result<Resolved, RunError>,
    >)
        ensures
            settles(
                r,
                from_argv_flow(argv.deep_view(), *env, outs@),
                |x: Result<Resolved, RunError>| resolved_result(x),
            ),
    {
        if argv.len() == 0 {
            return Step::Done(Err(RunError::NoCommand));
        }
        let expander = Expander::new();
        proof {
            assert(expander.extra.text() =~= no_vars());
        }
        let (st, n) = expander.expand_with(argv[0].as_str(), Mode::Full, env, outs, 0);
        let program = match st {
            Step::Run(a) => {
                return Step::Run(a);
            },
            Step::Done(Err(e)) => {
                return Step::Done(Err(RunError::Expand(e)));
            },
            Step::Done(Ok(p)) => p,
        };
        let rest = &argv[1..argv.len()];
        assert(rest.deep_view() =~= argv.deep_view().drop_first());
        let (st2, _) = expander.expand_items(rest, env, outs, n);
        match st2 {
            Step::Run(a) => Step::Run(a),
            Step::Done(Err(e)) => Step::Done(Err(RunError::Expand(e))),
            Step::Done(Ok(args)) => {
                let Expander { extra } = expander;
                Step::Done(Ok(Resolved { program, args, env: extra }))
            },
        }
    }

    /// Appends extra arguments, each expanded in full with the command's variables
    /// available to `${VAR}`, given the outcomes of the commands run so far. The
    /// arguments expanded before a failure stay appended; while a command is still to
    /// run, nothing changes.
    pub fn push_extra_args(
        &mut self,
        extra: &[String],
        env: &Environment,
        outs: &[CommandOutcome],
    ) -> (r: Step<Result<(), RunError>>)
        ensures
            match expand_seq(old(self).env.text(), *env, extra.deep_view(), 0, Seq::empty(), outs@, 0) {
                Flow::Pending(a, _) => r matches Step::Run(x) && x.deep_view() == a && *final(self)
                    == *old(self),
                Flow::Done((done, err), _) => {
                    &&& final(self).program == old(self).program
                    &&& final(self).env == old(self).env
                    &&& final(self).args.deep_view() == old(self).args.deep_view() + done
                    &&& r matches Step::Done(res)
                    &&& match err {
                        None => res is Ok,
                        Some(e) => res matches Err(x) && x@ == RunErrorSpec::Expand(e),
                    }
                },
            },
    {
        let expander = Expander::with_extra(self.env.copy());
        let (st, _) = expander.expand_prefix(extra, env, outs, 0);
        match st {
            Step::Run(a) => Step::Run(a),
            Step::Done((done, err)) => {
                let ghost start = self.args.deep_view();
                let mut i: usize = 0;
                while i < done.len()
                    invariant
                        i <= done@.len(),
                        self.program == old(self).program,
                        self.env == old(self).env,
                        self.args.deep_view() =~= start + done.deep_view().subrange(0, i as int),
                    decreases done@.len() - i,
                {
                    let ghost before = self.args.deep_view();
                    let c = done[i].clone();
                    self.args.push(c);
                    assert(self.args.deep_view() =~= before.push(done.deep_view()[i as int]));
                    i = i + 1;
                }
                assert(done.deep_view().subrange(0, done@.len() as int) =~= done.deep_view());
                match err {
                    None => Step::Done(Ok(())),
                    Some(e) => Step::Done(Err(RunError::Expand(e))),
                }
            },
        }
    }

    /// The command as it would be typed into a Unix shell: the program and the
    /// arguments, each quoted, joined by single spaces. Splitting the printed line by the
    /// shell's rules gives back the program and the arguments.
    pub fn display(&self) -> (r: String)
        ensures
            r@ == display_spec(self@),
            shell_split(r@) == Some(seq![self.program@] + self.args.deep_view()),
    {
        let mut words: Vec<String> = Vec::new();
        words.push(self.program.clone());
        let mut i: usize = 0;
        while i < self.args.len()
            invariant
                i <= self.args@.len(),
                words@.map_values(|w: String| w@) =~= seq![self.program@]
                    + self.args.deep_view().subrange(0, i as int),
            decreases self.args@.len() - i,
        {
            let ghost before = words@.map_values(|w: String| w@);
            words.push(self.args[i].clone());
            assert(words@.map_values(|w: String| w@) =~= before.push(self.args.deep_view()[i as int]));
            i = i + 1;
        }
        assert(self.args.deep_view().subrange(0, self.args@.len() as int) =~= self.args.deep_view());
        join_line(words.as_slice())
    }
}

} // verus!
