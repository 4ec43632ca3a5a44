//! String expansion: `${VAR}`, `$VAR`, `$(cmd ...)` and the `\$` escape.
//!
//! Variables are looked up first among the expander's own variables, then among the
//! presets, then in the process environment (regardless of ASCII case where the
//! environment is so read); a name found nowhere expands to nothing.
//!
//! A command substitution is expanded in full, split into words and run directly, with
//! no shell; its output takes its place. Running a program is left to the caller: an
//! expansion is computed from the input together with the outcomes of the commands run
//! so far, and either finishes or names the next command to run. The caller runs it,
//! appends its outcome and asks again, until the expansion finishes.

use vstd::prelude::*;

use crate::presets::{preset_value, resolve, Presets};
use crate::strmap::{
    lemma_text_value_of, lemma_text_value_of_folded, lemma_text_with_entry, value_of,
    value_of_folded, with_entry, StrMap,
};
use crate::text::{push_char, push_str, trim_end, trim_end_text};
use crate::words::{shell_split, split_words};

verus! {

/// Which forms an expansion replaces.
#[derive(Clone, Copy, PartialEq, Eq, Structural, Debug)]
pub enum Mode {
    /// `${VAR}`, `$VAR` and `$(cmd)`.
    Full,
    /// Only `${VAR}`; `$VAR` and `$(cmd)` are kept for a shell to handle.
    BracedOnly,
}

/// What came of running a command: its standard output, or a description of why it
/// failed.
#[derive(Debug)]
pub enum CommandOutcome {
    Output(String),
    Failed(String),
}

/// The answer of a computation that runs commands: finished with a value, or waiting
/// for the outcome of running the given program with the given arguments
/// (`argv[0]` is the program).
#[derive(Debug)]
pub enum Step<T> {
    Done(T),
    Run(Vec<String>),
}

/// Why a command substitution failed.
#[derive(Debug)]
pub enum CommandFailure {
    /// Its expanded text could not be split into words (a quote is left open).
    Tokenize,
    /// Running it failed, as described.
    Run(String),
}

/// Why an expansion failed.
#[derive(Debug)]
pub enum ExpandError {
    /// A `$(` has no matching `)`; the text being expanded is given.
    UnterminatedCommand(String),
    /// A `${` has no matching `}`; the text being expanded is given.
    UnterminatedVariable(String),
    /// The command substitution with the given text between its parentheses failed.
    Substitution(String, CommandFailure),
}

/// The mathematical form of a `CommandFailure`.
pub enum FailureSpec {
    Tokenize,
    Run(Seq<char>),
}

/// The mathematical form of an `ExpandError`.
pub enum ExpandErrorSpec {
    UnterminatedCommand(Seq<char>),
    UnterminatedVariable(Seq<char>),
    Substitution(Seq<char>, FailureSpec),
}

impl View for CommandFailure {
    type V = FailureSpec;

    open spec fn view(&self) -> FailureSpec {
        match self {
            CommandFailure::Tokenize => FailureSpec::Tokenize,
            CommandFailure::Run(m) => FailureSpec::Run(m@),
        }
    }
}

impl View for ExpandError {
    type V = ExpandErrorSpec;

    open spec fn view(&self) -> ExpandErrorSpec {
        match self {
            ExpandError::UnterminatedCommand(b) => ExpandErrorSpec::UnterminatedCommand(b@),
            ExpandError::UnterminatedVariable(b) => ExpandErrorSpec::UnterminatedVariable(b@),
            ExpandError::Substitution(b, f) => ExpandErrorSpec::Substitution(b@, f@),
        }
    }
}

/// Where the values of variables come from, besides an expander's own variables.
#[derive(Debug)]
pub struct Environment {
    /// The preset variables.
    pub presets: Presets,
    /// The process environment.
    pub vars: StrMap<String>,
    /// Whether names are looked up in the process environment regardless of the case of
    /// ASCII letters, as on Windows. Other letters are compared exactly here, though
    /// Windows itself also folds the case of many non-ASCII letters.
    pub fold_case: bool,
}

/// The value of the process-environment variable `name`.
pub open spec fn env_var(env: Environment, name: Seq<char>) -> Option<Seq<char>> {
    if env.fold_case {
        value_of_folded(env.vars.text(), name)
    } else {
        value_of(env.vars.text(), name)
    }
}

/// A computation that may wait for commands, in mathematical form: finished with a
/// value after using the first `n` outcomes, or, having used the first `n` outcomes,
/// waiting to run the given command line.
pub enum Flow<T> {
    Done(T, nat),
    Pending(Seq<Seq<char>>, nat),
}

/// What waiting for a command gives: its output or its failure, with the number of
/// outcomes used so far, or the command line still to run with the number of outcomes
/// used before it.
pub enum Awaited {
    Output(Seq<char>, nat),
    Failure(Seq<char>, nat),
    Pending(Seq<Seq<char>>, nat),
}

/// Running the command line `argv` as the `k`-th command, with the outcomes `outs`
/// known so far: its output without trailing white space, or its failure.
pub open spec fn await_run(argv: Seq<Seq<char>>, outs: Seq<CommandOutcome>, k: nat) -> Awaited {
    if k < outs.len() {
        match outs[k as int] {
            CommandOutcome::Output(s) => Awaited::Output(trim_end(s@), k + 1),
            CommandOutcome::Failed(m) => Awaited::Failure(m@, k + 1),
        }
    } else {
        Awaited::Pending(argv, k)
    }
}

/// The output of a command substitution whose expanded text is `cmd`: `Err` (with the
/// number of outcomes used) where the text cannot be split into words, no output where
/// it holds no words, and otherwise what running the words gives.
pub open spec fn capture_spec(cmd: Seq<char>, outs: Seq<CommandOutcome>, k: nat) -> Result<
    Awaited,
    nat,
> {
    match shell_split(cmd) {
        None => Err(k),
        Some(words) => if words.len() == 0 {
            Ok(Awaited::Output(Seq::empty(), k))
        } else {
            Ok(await_run(words, outs, k))
        },
    }
}

/// Whether a character may start a bare variable name: an ASCII letter or `_`.
pub open spec fn is_var_start_spec(c: char) -> bool {
    ('A' <= c <= 'Z') || ('a' <= c <= 'z') || c == '_'
}

/// Whether a character may continue a bare variable name: an ASCII letter or digit, or
/// `_`.
pub open spec fn is_var_cont_spec(c: char) -> bool {
    is_var_start_spec(c) || ('0' <= c <= '9')
}

/// The end of the bare variable name that continues at `j`.
pub open spec fn var_end(b: Seq<char>, j: int) -> int
    decreases b.len() - j,
{
    if 0 <= j < b.len() && is_var_cont_spec(b[j]) {
        var_end(b, j + 1)
    } else {
        j
    }
}

/// The position of the `close` character that brings the nesting depth `depth` to zero,
/// scanning from `j`, where `open` raises the depth and `close` lowers it.
pub open spec fn matching_close(b: Seq<char>, j: int, depth: int, open: char, close: char) -> Option<
    int,
>
    decreases b.len() - j,
{
    if j < 0 || j >= b.len() {
        None
    } else if b[j] == open {
        matching_close(b, j + 1, depth + 1, open, close)
    } else if b[j] == close {
        if depth - 1 == 0 {
            Some(j)
        } else {
            matching_close(b, j + 1, depth - 1, open, close)
        }
    } else {
        matching_close(b, j + 1, depth, open, close)
    }
}

/// A closer found by `matching_close` lies at or after `j`, inside `b`, and is `close`.
pub proof fn lemma_matching_close_bounds(b: Seq<char>, j: int, depth: int, open: char, close: char)
    ensures
        matching_close(b, j, depth, open, close) matches Some(e) ==> j <= e < b.len() && b[e]
            == close,
    decreases b.len() - j,
{
    if 0 <= j < b.len() {
        lemma_matching_close_bounds(b, j + 1, depth + 1, open, close);
        lemma_matching_close_bounds(b, j + 1, depth - 1, open, close);
        lemma_matching_close_bounds(b, j + 1, depth, open, close);
    }
}

/// A bare variable name ends at or after where it continues.
pub proof fn lemma_var_end_bounds(b: Seq<char>, j: int)
    requires
        0 <= j <= b.len(),
    ensures
        j <= var_end(b, j) <= b.len(),
    decreases b.len() - j,
{
    if j < b.len() && is_var_cont_spec(b[j]) {
        lemma_var_end_bounds(b, j + 1);
    }
}

/// The value of the variable `name`: the expander's own variable, else the preset, else
/// the process environment's variable, else nothing.
pub open spec fn lookup_spec(
    extra: Seq<(Seq<char>, Seq<char>)>,
    env: Environment,
    name: Seq<char>,
) -> Seq<char> {
    match value_of(extra, name) {
        Some(v) => v,
        None => match preset_value(env.presets, name) {
            Some(v) => v,
            None => match env_var(env, name) {
                Some(v) => v,
                None => Seq::empty(),
            },
        },
    }
}

/// The expansion of the text `b` from position `i` on, in mode `m`, where `acc` is the
/// text produced before `i` and `k` the number of command outcomes used before `i`.
/// Every character outside the `$` forms and the `\$` escape is copied as it is.
pub open spec fn scan(
    extra: Seq<(Seq<char>, Seq<char>)>,
    env: Environment,
    b: Seq<char>,
    m: Mode,
    i: int,
    acc: Seq<char>,
    outs: Seq<CommandOutcome>,
    k: nat,
) -> Flow<Result<Seq<char>, ExpandErrorSpec>>
    decreases b.len(), b.len() - i,
{
    if i < 0 || i >= b.len() {
        Flow::Done(Ok(acc), k)
    } else if b[i] == '\\' && i + 1 < b.len() && b[i + 1] == '$' {
        scan(extra, env, b, m, i + 2, acc.push('$'), outs, k)
    } else if b[i] == '$' && i + 1 < b.len() && b[i + 1] == '(' && m == Mode::Full {
        match matching_close(b, i + 2, 1, '(', ')') {
            None => Flow::Done(Err(ExpandErrorSpec::UnterminatedCommand(b)), k),
            Some(end) => {
                proof {
                    lemma_matching_close_bounds(b, i + 2, 1, '(', ')');
                }
                let inner = b.subrange(i + 2, end);
                match scan(extra, env, inner, Mode::Full, 0, Seq::empty(), outs, k) {
                    Flow::Pending(argv, w) => Flow::Pending(argv, w),
                    Flow::Done(Err(e), k2) => Flow::Done(Err(e), k2),
                    Flow::Done(Ok(cmd), k2) => match capture_spec(cmd, outs, k2) {
                        Err(k3) => Flow::Done(
                            Err(ExpandErrorSpec::Substitution(inner, FailureSpec::Tokenize)),
                            k3,
                        ),
                        Ok(Awaited::Pending(argv, w)) => Flow::Pending(argv, w),
                        Ok(Awaited::Failure(msg, k3)) => Flow::Done(
                            Err(ExpandErrorSpec::Substitution(inner, FailureSpec::Run(msg))),
                            k3,
                        ),
                        Ok(Awaited::Output(s, k3)) => scan(
                            extra,
                            env,
                            b,
                            m,
                            end + 1,
                            acc + s,
                            outs,
                            k3,
                        ),
                    },
                }
            },
        }
    } else if b[i] == '$' && i + 1 < b.len() && b[i + 1] == '{' {
        match matching_close(b, i + 2, 1, '{', '}') {
            None => Flow::Done(Err(ExpandErrorSpec::UnterminatedVariable(b)), k),
            Some(end) => {
                proof {
                    lemma_matching_close_bounds(b, i + 2, 1, '{', '}');
                }
                let name = b.subrange(i + 2, end);
                scan(extra, env, b, m, end + 1, acc + lookup_spec(extra, env, name), outs, k)
            },
        }
    } else if b[i] == '$' && i + 1 < b.len() && is_var_start_spec(b[i + 1]) && m == Mode::Full {
        proof {
            lemma_var_end_bounds(b, i + 2);
        }
        let j = var_end(b, i + 2);
        let name = b.subrange(i + 1, j);
        scan(extra, env, b, m, j, acc + lookup_spec(extra, env, name), outs, k)
    } else {
        scan(extra, env, b, m, i + 1, acc.push(b[i]), outs, k)
    }
}

/// The expansion of the text `b` in mode `m`, with the command outcomes `outs`, of
/// which the first `k` are already used.
pub open spec fn expand_from(
    extra: Seq<(Seq<char>, Seq<char>)>,
    env: Environment,
    b: Seq<char>,
    m: Mode,
    outs: Seq<CommandOutcome>,
    k: nat,
) -> Flow<Result<Seq<char>, ExpandErrorSpec>> {
    scan(extra, env, b, m, 0, Seq::empty(), outs, k)
}

/// The mathematical form of an expansion's result.
pub open spec fn text_result(r: Result<String, ExpandError>) -> Result<Seq<char>, ExpandErrorSpec> {
    match r {
        Ok(s) => Ok(s@),
        Err(e) => Err(e@),
    }
}

/// Whether the step `s`, with `k` outcomes used, is what the flow `f` describes, the
/// value taken by `view`.
pub open spec fn answers<T, U>(s: Step<T>, k: usize, f: Flow<U>, view: spec_fn(T) -> U) -> bool {
    match f {
        Flow::Done(v, n) => s matches Step::Done(x) && view(x) == v && k == n,
        Flow::Pending(argv, _) => s matches Step::Run(a) && a.deep_view() == argv,
    }
}

/// Whether the step `s` is what the flow `f` describes, however many outcomes it used.
pub open spec fn settles<T, U>(s: Step<T>, f: Flow<U>, view: spec_fn(T) -> U) -> bool {
    match f {
        Flow::Done(v, n) => s matches Step::Done(x) && view(x) == v,
        Flow::Pending(argv, _) => s matches Step::Run(a) && a.deep_view() == argv,
    }
}

/// Whether the step `s`, with `k` outcomes used, is the expansion that `f` describes.
pub open spec fn answers_text(
    s: Step<Result<String, ExpandError>>,
    k: usize,
    f: Flow<Result<Seq<char>, ExpandErrorSpec>>,
) -> bool {
    answers(s, k, f, |r: Result<String, ExpandError>| text_result(r))
}

/// Whether a character may start a bare variable name.
pub fn is_var_start(c: char) -> (r: bool)
    ensures
        r == is_var_start_spec(c),
{
    ('A' <= c && c <= 'Z') || ('a' <= c && c <= 'z') || c == '_'
}

/// Whether a character may continue a bare variable name.
pub fn is_var_cont(c: char) -> (r: bool)
    ensures
        r == is_var_cont_spec(c),
{
    is_var_start(c) || ('0' <= c && c <= '9')
}

/// Given the position `open_idx` of an opener, the position of the matching closer,
/// honoring nesting.
pub fn find_matching(text: &[char], open_idx: usize, open: char, close: char) -> (r: Option<usize>)
    requires
        open_idx < text@.len(),
    ensures
        match r {
            Some(e) => matching_close(text@, open_idx + 1, 1, open, close) == Some(e as int),
            None => matching_close(text@, open_idx + 1, 1, open, close) is None,
        },
        r matches Some(e) ==> open_idx < e < text@.len() && text@[e as int] == close,
{
    proof {
        lemma_matching_close_bounds(text@, open_idx + 1, 1, open, close);
    }
    let len = text.len();
    let mut depth: usize = 1;
    let mut i: usize = open_idx + 1;
    while i < len
        invariant
            len == text@.len(),
            open_idx < i <= text@.len(),
            1 <= depth <= i - open_idx,
            matching_close(text@, open_idx + 1, 1, open, close) == matching_close(
                text@,
                i as int,
                depth as int,
                open,
                close,
            ),
        decreases text@.len() - i,
    {
        let c = text[i];
        if c == open {
            depth = depth + 1;
        } else if c == close {
            depth = depth - 1;
            if depth == 0 {
                return Some(i);
            }
        }
        i = i + 1;
    }
    None
}

/// The text of a run of characters.
pub fn string_of(cs: &[char]) -> (r: String)
    ensures
        r@ == cs@,
{
    let mut out = String::new();
    let mut i: usize = 0;
    while i < cs.len()
        invariant
            i <= cs@.len(),
            out@ =~= cs@.subrange(0, i as int),
        decreases cs@.len() - i,
    {
        push_char(&mut out, cs[i]);
        i = i + 1;
    }
    out
}

/// The characters of a string.
pub fn chars_of(s: &str) -> (r: Vec<char>)
    ensures
        r@ == s@,
{
    let n = s.unicode_len();
    let mut out: Vec<char> = Vec::new();
    let mut i: usize = 0;
    while i < n
        invariant
            n == s@.len(),
            i <= n,
            out@ =~= s@.subrange(0, i as int),
        decreases n - i,
    {
        out.push(s.get_char(i));
        i = i + 1;
    }
    out
}

/// The value of the variable `name`.
fn lookup(extra: &StrMap<String>, env: &Environment, name: &[char]) -> (r: String)
    ensures
        r@ == lookup_spec(extra.text(), *env, name@),
{
    let name = string_of(name);
    proof {
        lemma_text_value_of(*extra, name@);
        lemma_text_value_of(env.vars, name@);
        lemma_text_value_of_folded(env.vars, name@);
    }
    match extra.get(name.as_str()) {
        Some(v) => v.clone(),
        None => match resolve(name.as_str(), &env.presets) {
            Some(v) => v,
            None => {
                let found = if env.fold_case {
                    env.vars.get_ignoring_ascii_case(name.as_str())
                } else {
                    env.vars.get(name.as_str())
                };
                match found {
                    Some(v) => v.clone(),
                    None => String::new(),
                }
            },
        },
    }
}

/// The exec form of `Awaited`.
#[derive(Debug)]
pub enum Awaiting {
    Output(String, usize),
    Failure(String, usize),
    Pending(Vec<String>, usize),
}

impl View for Awaiting {
    type V = Awaited;

    open spec fn view(&self) -> Awaited {
        match self {
            Awaiting::Output(s, k) => Awaited::Output(s@, *k as nat),
            Awaiting::Failure(m, k) => Awaited::Failure(m@, *k as nat),
            Awaiting::Pending(a, k) => Awaited::Pending(a.deep_view(), *k as nat),
        }
    }
}

/// Running the command line `argv` as the `k`-th command: the `k`-th outcome, its output
/// trimmed of trailing white space, if it is known; else a request to run `argv`.
pub fn await_outcome(argv: Vec<String>, outs: &[CommandOutcome], k: usize) -> (r: Awaiting)
    requires
        k <= outs@.len(),
    ensures
        r@ == await_run(argv.deep_view(), outs@, k as nat),
        r matches Awaiting::Output(_, n) ==> n <= outs@.len(),
        r matches Awaiting::Failure(_, n) ==> n <= outs@.len(),
{
    if k < outs.len() {
        match &outs[k] {
            CommandOutcome::Output(s) => Awaiting::Output(trim_end_text(s.as_str()), k + 1),
            CommandOutcome::Failed(m) => Awaiting::Failure(m.clone(), k + 1),
        }
    } else {
        Awaiting::Pending(argv, k)
    }
}

/// What a command substitution gives once its text is split into `words`: nothing
/// when there are no words, else what running the words gives.
pub fn capture(words: Vec<String>, outs: &[CommandOutcome], k: usize) -> (r: Awaiting)
    requires
        k <= outs@.len(),
    ensures
        r@ == (if words@.len() == 0 {
            Awaited::Output(Seq::empty(), k as nat)
        } else {
            await_run(words.deep_view(), outs@, k as nat)
        }),
        r matches Awaiting::Output(_, n) ==> n <= outs@.len(),
        r matches Awaiting::Failure(_, n) ==> n <= outs@.len(),
{
    if words.len() == 0 {
        Awaiting::Output(String::new(), k)
    } else {
        await_outcome(words, outs, k)
    }
}

/// The expansion of the text `b`, with the first `k` outcomes already used; also gives
/// the number of outcomes used once it is done.
fn expand_chars(
    extra: &StrMap<String>,
    env: &Environment,
    b: &[char],
    m: Mode,
    outs: &[CommandOutcome],
    k: usize,
) -> (r: (Step<Result<String, ExpandError>>, usize))
    requires
        k <= outs@.len(),
    ensures
        answers_text(r.0, r.1, expand_from(extra.text(), *env, b@, m, outs@, k as nat)),
        r.1 <= outs@.len(),
    decreases b@.len(),
{
    let mut out = String::new();
    let mut i: usize = 0;
    let mut used = k;
    while i < b.len()
        invariant
            i <= b@.len(),
            used <= outs@.len(),
            expand_from(extra.text(), *env, b@, m, outs@, k as nat) == scan(
                extra.text(),
                *env,
                b@,
                m,
                i as int,
                out@,
                outs@,
                used as nat,
            ),
        decreases b@.len() - i,
    {
        let c = b[i];
        if c == '\\' && i + 1 < b.len() && b[i + 1] == '$' {
            push_char(&mut out, '$');
            i = i + 2;
        } else if c == '$' && i + 1 < b.len() && b[i + 1] == '(' && m == Mode::Full {
            match find_matching(b, i + 1, '(', ')') {
                None => {
                    return (
                        Step::Done(Err(ExpandError::UnterminatedCommand(string_of(b)))),
                        used,
                    );
                },
                Some(end) => {
                    let inner = &b[i + 2..end];
                    let (st, k2) = expand_chars(extra, env, inner, Mode::Full, outs, used);
                    match st {
                        Step::Run(argv) => {
                            return (Step::Run(argv), k2);
                        },
                        Step::Done(Err(e)) => {
                            return (Step::Done(Err(e)), k2);
                        },
                        Step::Done(Ok(cmd)) => {
                            match split_words(cmd.as_str()) {
                                None => {
                                    return (
                                        Step::Done(
                                            Err(
                                                ExpandError::Substitution(
                                                    string_of(inner),
                                                    CommandFailure::Tokenize,
                                                ),
                                            ),
                                        ),
                                        k2,
                                    );
                                },
                                Some(words) => {
                                    match capture(words, outs, k2) {
                                        Awaiting::Pending(argv, _) => {
                                            return (Step::Run(argv), k2);
                                        },
                                        Awaiting::Failure(msg, k3) => {
                                            return (
                                                Step::Done(
                                                    Err(
                                                        ExpandError::Substitution(
                                                            string_of(inner),
                                                            CommandFailure::Run(msg),
                                                        ),
                                                    ),
                                                ),
                                                k3,
                                            );
                                        },
                                        Awaiting::Output(s, k3) => {
                                            push_str(&mut out, s.as_str());
                                            used = k3;
                                            i = end + 1;
                                        },
                                    }
                                },
                            }
                        },
                    }
                },
            }
        } else if c == '$' && i + 1 < b.len() && b[i + 1] == '{' {
            match find_matching(b, i + 1, '{', '}') {
                None => {
                    return (
                        Step::Done(Err(ExpandError::UnterminatedVariable(string_of(b)))),
                        used,
                    );
                },
                Some(end) => {
                    let v = lookup(extra, env, &b[i + 2..end]);
                    push_str(&mut out, v.as_str());
                    i = end + 1;
                },
            }
        } else if c == '$' && i + 1 < b.len() && is_var_start(b[i + 1]) && m == Mode::Full {
            let start = i + 1;
            let mut j = start + 1;
            proof {
                lemma_var_end_bounds(b@, j as int);
            }
            while j < b.len() && is_var_cont(b[j])
                invariant
                    start < j <= b@.len(),
                    var_end(b@, start + 1) == var_end(b@, j as int),
                decreases b@.len() - j,
            {
                j = j + 1;
            }
            let v = lookup(extra, env, &b[start..j]);
            push_str(&mut out, v.as_str());
            i = j;
        } else {
            push_char(&mut out, c);
            i = i + 1;
        }
    }
    (Step::Done(Ok(out)), used)
}


/// Without command substitutions, an expansion neither waits for a command nor uses an
/// outcome, whatever the outcomes are.
pub proof fn lemma_braced_only_runs_nothing(
    extra: Seq<(Seq<char>, Seq<char>)>,
    env: Environment,
    b: Seq<char>,
    i: int,
    acc: Seq<char>,
    outs: Seq<CommandOutcome>,
    k: nat,
)
    ensures
        scan(extra, env, b, Mode::BracedOnly, i, acc, outs, k) matches Flow::Done(v, n) && n == k
            && scan(extra, env, b, Mode::BracedOnly, i, acc, Seq::empty(), 0) == Flow::<
            Result<Seq<char>, ExpandErrorSpec>,
        >::Done(v, 0),
    decreases b.len() - i,
{
    if 0 <= i < b.len() {
        if b[i] == '\\' && i + 1 < b.len() && b[i + 1] == '$' {
            lemma_braced_only_runs_nothing(extra, env, b, i + 2, acc.push('$'), outs, k);
        } else if b[i] == '$' && i + 1 < b.len() && b[i + 1] == '{' {
            lemma_matching_close_bounds(b, i + 2, 1, '{', '}');
            if let Some(end) = matching_close(b, i + 2, 1, '{', '}') {
                let name = b.subrange(i + 2, end);
                lemma_braced_only_runs_nothing(
                    extra,
                    env,
                    b,
                    end + 1,
                    acc + lookup_spec(extra, env, name),
                    outs,
                    k,
                );
            }
        } else {
            lemma_braced_only_runs_nothing(extra, env, b, i + 1, acc.push(b[i]), outs, k);
        }
    }
}

/// The expansions of `items[i..]`, one after another, where `acc` holds the expansions of
/// the items before `i`: all of them, or those before the first failure and the failure.
pub open spec fn expand_seq(
    extra: Seq<(Seq<char>, Seq<char>)>,
    env: Environment,
    items: Seq<Seq<char>>,
    i: int,
    acc: Seq<Seq<char>>,
    outs: Seq<CommandOutcome>,
    k: nat,
) -> Flow<(Seq<Seq<char>>, Option<ExpandErrorSpec>)>
    decreases items.len() - i,
{
    if i < 0 || i >= items.len() {
        Flow::Done((acc, None), k)
    } else {
        match expand_from(extra, env, items[i], Mode::Full, outs, k) {
            Flow::Pending(argv, w) => Flow::Pending(argv, w),
            Flow::Done(Err(e), n) => Flow::Done((acc, Some(e)), n),
            Flow::Done(Ok(s), n) => expand_seq(extra, env, items, i + 1, acc.push(s), outs, n),
        }
    }
}

/// The expansions of all `items`, one after another; the first failure ends them.
pub open spec fn expand_list(
    extra: Seq<(Seq<char>, Seq<char>)>,
    env: Environment,
    items: Seq<Seq<char>>,
    outs: Seq<CommandOutcome>,
    k: nat,
) -> Flow<Result<Seq<Seq<char>>, ExpandErrorSpec>> {
    match expand_seq(extra, env, items, 0, Seq::empty(), outs, k) {
        Flow::Pending(argv, w) => Flow::Pending(argv, w),
        Flow::Done((acc, None), n) => Flow::Done(Ok(acc), n),
        Flow::Done((_, Some(e)), n) => Flow::Done(Err(e), n),
    }
}

/// The mathematical form of the result of expanding a list.
pub open spec fn list_result(r: Result<Vec<String>, ExpandError>) -> Result<
    Seq<Seq<char>>,
    ExpandErrorSpec,
> {
    match r {
        Ok(v) => Ok(v.deep_view()),
        Err(e) => Err(e@),
    }
}

/// The mathematical form of the expansions done and the failure, if any.
pub open spec fn partial_result(p: (Vec<String>, Option<ExpandError>)) -> (
    Seq<Seq<char>>,
    Option<ExpandErrorSpec>,
) {
    (
        p.0.deep_view(),
        match p.1 {
            Some(e) => Some(e@),
            None => None,
        },
    )
}

/// Expands strings with variables, presets, the process environment and commands.
#[derive(Debug, Clone)]
pub struct Expander {
    /// The expander's own variables; they take precedence over presets and the process
    /// environment.
    pub extra: StrMap<String>,
}

impl Default for Expander {
    /// An expander without variables of its own.
    fn default() -> (e: Self)
        ensures
            e.extra.keyed() == Seq::<(Seq<char>, String)>::empty(),
    {
        Expander::new()
    }
}

impl Expander {
    /// An expander without variables of its own.
    pub fn new() -> (e: Self)
        ensures
            e.extra.keyed() == Seq::<(Seq<char>, String)>::empty(),
    {
        Expander { extra: StrMap::new() }
    }

    /// An expander with the given variables of its own.
    pub fn with_extra(extra: StrMap<String>) -> (e: Self)
        ensures
            e.extra == extra,
    {
        Expander { extra }
    }

    /// Sets one of the expander's own variables.
    pub fn set(&mut self, key: String, value: String)
        ensures
            final(self).extra.keyed() == with_entry(old(self).extra.keyed(), key@, value),
            final(self).extra.text() == with_entry(old(self).extra.text(), key@, value@),
    {
        let ghost before = self.extra;
        let ghost k = key@;
        let ghost v = value;
        self.extra.insert(key, value);
        proof {
            lemma_text_with_entry(before, k, v, self.extra);
        }
    }

    /// Expands `input` in mode `mode`, where the first `k` of `outs` are already used;
    /// also gives how many outcomes are used once it is done.
    pub fn expand_with(
        &self,
        input: &str,
        mode: Mode,
        env: &Environment,
        outs: &[CommandOutcome],
        k: usize,
    ) -> (r: (Step<Result<String, ExpandError>>, usize))
        requires
            k <= outs@.len(),
        ensures
            answers_text(r.0, r.1, expand_from(self.extra.text(), *env, input@, mode, outs@, k as nat)),
            r.1 <= outs@.len(),
    {
        let cs = chars_of(input);
        expand_chars(&self.extra, env, cs.as_slice(), mode, outs, k)
    }

    /// Expands `input` in full, given the outcomes of the commands run so far.
    pub fn expand(&self, input: &str, env: &Environment, outs: &[CommandOutcome]) -> (r: Step<
        Result<String, ExpandError>,
    >)
        ensures
            settles(r, expand_from(self.extra.text(), *env, input@, Mode::Full, outs@, 0), |r: Result<String, ExpandError>| text_result(r)),
    {
        let (r, _) = self.expand_with(input, Mode::Full, env, outs, 0);
        r
    }

    /// Expands only the `${VAR}` form of `input`, leaving `$VAR` and `$(cmd)` as they are
    /// for a shell to handle; this runs no command.
    pub fn expand_braced_only(&self, input: &str, env: &Environment) -> (r: Result<
        String,
        ExpandError,
    >)
        ensures
            expand_from(self.extra.text(), *env, input@, Mode::BracedOnly, Seq::empty(), 0)
                == Flow::Done(text_result(r), 0),
    {
        let none: Vec<CommandOutcome> = Vec::new();
        proof {
            lemma_braced_only_runs_nothing(
                self.extra.text(),
                *env,
                input@,
                0,
                Seq::empty(),
                none@,
                0,
            );
        }
        let (st, _) = self.expand_with(input, Mode::BracedOnly, env, none.as_slice(), 0);
        match st {
            Step::Done(r) => r,
            Step::Run(_) => {
                proof {
                    assert(false);
                }
                Ok(String::new())
            },
        }
    }

    /// Expands each item in full, one after another, given the outcomes of the commands
    /// run so far; the first failure ends the expansion.
    pub fn expand_all(&self, items: &[String], env: &Environment, outs: &[CommandOutcome]) -> (r: Step<
        Result<Vec<String>, ExpandError>,
    >)
        ensures
            settles(
                r,
                expand_list(self.extra.text(), *env, items.deep_view(), outs@, 0),
                |x: Result<Vec<String>, ExpandError>| list_result(x),
            ),
    {
        let (r, _) = self.expand_items(items, env, outs, 0);
        r
    }

    /// Expands each item in full, one after another, where `k` outcomes are already used;
    /// also gives how many are used once it is done.
    pub fn expand_items(
        &self,
        items: &[String],
        env: &Environment,
        outs: &[CommandOutcome],
        k: usize,
    ) -> (r: (Step<Result<Vec<String>, ExpandError>>, usize))
        requires
            k <= outs@.len(),
        ensures
            answers(
                r.0,
                r.1,
                expand_list(self.extra.text(), *env, items.deep_view(), outs@, k as nat),
                |x: Result<Vec<String>, ExpandError>| list_result(x),
            ),
            r.1 <= outs@.len(),
    {
        let (st, n) = self.expand_prefix(items, env, outs, k);
        match st {
            Step::Run(argv) => (Step::Run(argv), n),
            Step::Done((done, None)) => (Step::Done(Ok(done)), n),
            Step::Done((_, Some(e))) => (Step::Done(Err(e)), n),
        }
    }

    /// Expands each item in full, one after another, where `k` outcomes are already used,
    /// up to the first failure: gives the expansions done, the failure if any, and how
    /// many outcomes are used once it is done.
    pub fn expand_prefix(
        &self,
        items: &[String],
        env: &Environment,
        outs: &[CommandOutcome],
        k: usize,
    ) -> (r: (Step<(Vec<String>, Option<ExpandError>)>, usize))
        requires
            k <= outs@.len(),
        ensures
            answers(
                r.0,
                r.1,
                expand_seq(self.extra.text(), *env, items.deep_view(), 0, Seq::empty(), outs@, k as nat),
                |p: (Vec<String>, Option<ExpandError>)| partial_result(p),
            ),
            r.1 <= outs@.len(),
    {
        let mut done: Vec<String> = Vec::new();
        let mut i: usize = 0;
        let mut used = k;
        assert(done.deep_view() =~= Seq::<Seq<char>>::empty());
        while i < items.len()
            invariant
                i <= items@.len(),
                used <= outs@.len(),
                expand_seq(self.extra.text(), *env, items.deep_view(), 0, Seq::empty(), outs@, k as nat)
                    == expand_seq(self.extra.text(), *env, items.deep_view(), i as int, done.deep_view(), outs@, used as nat),
            decreases items@.len() - i,
        {
            let (st, n) = self.expand_with(items[i].as_str(), Mode::Full, env, outs, used);
            match st {
                Step::Run(argv) => {
                    return (Step::Run(argv), n);
                },
                Step::Done(Err(e)) => {
                    return (Step::Done((done, Some(e))), n);
                },
                Step::Done(Ok(s)) => {
                    let ghost before = done.deep_view();
                    let ghost sv = s@;
                    done.push(s);
                    assert(done.deep_view() =~= before.push(sv));
                    used = n;
                    i = i + 1;
                },
            }
        }
        (Step::Done((done, None)), used)
    }
}

} // verus!
