//! Properties of the library as a whole, proved over the specifications of its functions.

use vstd::prelude::*;

use crate::presets::preset_value;
use crate::strmap::{find_key, key_seq, lemma_find_key, value_of, with_entry};
use crate::config::{
    first_fallback, first_os_match, matches_os, pick_variant, resolve_alias_spec, validate_spec,
    variants_spec, Alias, Config, EnvCommand, EnvValue,
};
use crate::platform::{normalize_os_spec, os_matches_spec, shell_invocation_spec};
use crate::presets::{
    adjoin, based, cache_dir_spec, config_dir_spec, helix_cache_dir_spec, helix_config_dir_spec,
    helix_runtime_dir_spec, set_nonempty, DirVars,
};
use crate::text::{ascii_lower, canonical, is_white_space, lower_char, trim, trim_end, trim_start};
use crate::runner::{
    awaited_value, bind_vars, command_flow, env_command_flow, from_alias_flow, from_argv_flow,
    no_vars, tokens_spec, EnvCommandErrorSpec, ResolvedSpec, RunErrorSpec,
};
use crate::expand::{
    FailureSpec, expand_list, await_run, capture_spec, expand_from, expand_seq, is_var_cont_spec, is_var_start_spec,
    lemma_matching_close_bounds, lemma_var_end_bounds, lookup_spec, matching_close, scan, var_end,
    env_var, Awaited, CommandOutcome, Environment, ExpandErrorSpec, Flow, Mode,
};

verus! {

/// Waiting for a command that has an outcome gives the same with more outcomes known.
proof fn lemma_await_extend(argv: Seq<Seq<char>>, outs: Seq<CommandOutcome>, more: Seq<CommandOutcome>, k: nat)
    ensures
        !(await_run(argv, outs, k) is Pending) ==> await_run(argv, outs + more, k) == await_run(argv, outs, k),
{
    if k < outs.len() {
        assert((outs + more)[k as int] == outs[k as int]);
    }
}

/// A finished expansion stays the same when more outcomes are known.
proof fn lemma_scan_extend(
    extra: Seq<(Seq<char>, Seq<char>)>,
    env: Environment,
    b: Seq<char>,
    m: Mode,
    i: int,
    acc: Seq<char>,
    outs: Seq<CommandOutcome>,
    more: Seq<CommandOutcome>,
    k: nat,
)
    ensures
        scan(extra, env, b, m, i, acc, outs, k) is Done ==> scan(extra, env, b, m, i, acc, outs + more, k)
            == scan(extra, env, b, m, i, acc, outs, k),
    decreases b.len(), b.len() - i,
{
    if 0 <= i < b.len() {
        if b[i] == '\\' && i + 1 < b.len() && b[i + 1] == '$' {
            lemma_scan_extend(extra, env, b, m, i + 2, acc.push('$'), outs, more, k);
        } else if b[i] == '$' && i + 1 < b.len() && b[i + 1] == '(' && m == Mode::Full {
            lemma_matching_close_bounds(b, i + 2, 1, '(', ')');
            if let Some(end) = matching_close(b, i + 2, 1, '(', ')') {
                let inner = b.subrange(i + 2, end);
                lemma_scan_extend(extra, env, inner, Mode::Full, 0, Seq::empty(), outs, more, k);
                if let Flow::Done(Ok(cmd), k2) = scan(extra, env, inner, Mode::Full, 0, Seq::empty(), outs, k) {
                    match capture_spec(cmd, outs, k2) {
                        Ok(a) => {
                            if let Some(words) = crate::words::shell_split(cmd) {
                                if words.len() > 0 {
                                    lemma_await_extend(words, outs, more, k2);
                                }
                            }
                            if let Awaited::Output(s, k3) = a {
                                lemma_scan_extend(extra, env, b, m, end + 1, acc + s, outs, more, k3);
                            }
                        },
                        Err(_) => {},
                    }
                }
            }
        } else if b[i] == '$' && i + 1 < b.len() && b[i + 1] == '{' {
            lemma_matching_close_bounds(b, i + 2, 1, '{', '}');
            if let Some(end) = matching_close(b, i + 2, 1, '{', '}') {
                let name = b.subrange(i + 2, end);
                lemma_scan_extend(extra, env, b, m, end + 1, acc + lookup_spec(extra, env, name), outs, more, k);
            }
        } else if b[i] == '$' && i + 1 < b.len() && is_var_start_spec(b[i + 1]) && m == Mode::Full {
            lemma_var_end_bounds(b, i + 2);
            let j = var_end(b, i + 2);
            let name = b.subrange(i + 1, j);
            lemma_scan_extend(extra, env, b, m, j, acc + lookup_spec(extra, env, name), outs, more, k);
        } else {
            lemma_scan_extend(extra, env, b, m, i + 1, acc.push(b[i]), outs, more, k);
        }
    }
}

/// Once an expansion has finished with the outcomes known so far, learning the outcomes
/// of further commands does not change it: the caller that runs each requested command
/// and asks again gets the result of the expansion as soon as it stops asking.
pub proof fn law_finished_expansion_is_final(
    extra: Seq<(Seq<char>, Seq<char>)>,
    env: Environment,
    input: Seq<char>,
    m: Mode,
    outs: Seq<CommandOutcome>,
    more: Seq<CommandOutcome>,
)
    requires
        expand_from(extra, env, input, m, outs, 0) is Done,
    ensures
        expand_from(extra, env, input, m, outs + more, 0) == expand_from(
            extra,
            env,
            input,
            m,
            outs,
            0,
        ),
{
    lemma_scan_extend(extra, env, input, m, 0, Seq::empty(), outs, more, 0);
}

/// A finished expansion from `k` stays the same when more outcomes are known.
proof fn lemma_expand_extend(
    extra: Seq<(Seq<char>, Seq<char>)>,
    env: Environment,
    b: Seq<char>,
    m: Mode,
    outs: Seq<CommandOutcome>,
    more: Seq<CommandOutcome>,
    k: nat,
)
    ensures
        expand_from(extra, env, b, m, outs, k) is Done ==> expand_from(extra, env, b, m, outs + more, k)
            == expand_from(extra, env, b, m, outs, k),
{
    lemma_scan_extend(extra, env, b, m, 0, Seq::empty(), outs, more, k);
}

/// A finished list of expansions stays the same when more outcomes are known.
proof fn lemma_seq_extend(
    extra: Seq<(Seq<char>, Seq<char>)>,
    env: Environment,
    items: Seq<Seq<char>>,
    i: int,
    acc: Seq<Seq<char>>,
    outs: Seq<CommandOutcome>,
    more: Seq<CommandOutcome>,
    k: nat,
)
    ensures
        expand_seq(extra, env, items, i, acc, outs, k) is Done ==> expand_seq(extra, env, items, i, acc, outs + more, k)
            == expand_seq(extra, env, items, i, acc, outs, k),
    decreases items.len() - i,
{
    if 0 <= i < items.len() {
        lemma_expand_extend(extra, env, items[i], Mode::Full, outs, more, k);
        if let Flow::Done(Ok(s), n) = expand_from(extra, env, items[i], Mode::Full, outs, k) {
            lemma_seq_extend(extra, env, items, i + 1, acc.push(s), outs, more, n);
        }
    }
}

/// A finished command-bound value stays the same when more outcomes are known.
proof fn lemma_env_command_extend(
    env: Environment,
    ec: EnvCommand,
    outs: Seq<CommandOutcome>,
    more: Seq<CommandOutcome>,
    k: nat,
)
    ensures
        env_command_flow(env, ec, outs, k) is Done ==> env_command_flow(env, ec, outs + more, k)
            == env_command_flow(env, ec, outs, k),
{
    let b = ec.cmd@;
    lemma_expand_extend(no_vars(), env, b, Mode::BracedOnly, outs, more, k);
    lemma_expand_extend(no_vars(), env, b, Mode::Full, outs, more, k);
    match ec.shell {
        Some(sh) => {
            if let Flow::Done(Ok(script), n) = expand_from(no_vars(), env, b, Mode::BracedOnly, outs, k) {
                if let Some((prog, flags)) = crate::platform::shell_invocation_spec(sh@) {
                    lemma_await_extend(seq![prog] + flags + seq![script], outs, more, n);
                }
            }
        },
        None => {
            if let Flow::Done(Ok(line), n) = expand_from(no_vars(), env, b, Mode::Full, outs, k) {
                if let Some(words) = crate::words::shell_split(line) {
                    lemma_await_extend(words, outs, more, n);
                }
            }
        },
    }
}

/// Finished variable bindings stay the same when more outcomes are known.
proof fn lemma_bind_extend(
    env: Environment,
    vars: Seq<(Seq<char>, EnvValue)>,
    i: int,
    acc: Seq<(Seq<char>, Seq<char>)>,
    outs: Seq<CommandOutcome>,
    more: Seq<CommandOutcome>,
    k: nat,
)
    ensures
        bind_vars(env, vars, i, acc, outs, k) is Done ==> bind_vars(env, vars, i, acc, outs + more, k)
            == bind_vars(env, vars, i, acc, outs, k),
    decreases vars.len() - i,
{
    if 0 <= i < vars.len() {
        let name = vars[i].0;
        match vars[i].1 {
            EnvValue::Literal(s) => {
                lemma_expand_extend(no_vars(), env, s@, Mode::Full, outs, more, k);
                if let Flow::Done(Ok(v), n) = expand_from(no_vars(), env, s@, Mode::Full, outs, k) {
                    lemma_bind_extend(env, vars, i + 1, acc.push((name, v)), outs, more, n);
                }
            },
            EnvValue::Command(ec) => {
                lemma_env_command_extend(env, ec, outs, more, k);
                if let Flow::Done(Ok(v), n) = env_command_flow(env, ec, outs, k) {
                    lemma_bind_extend(env, vars, i + 1, acc.push((name, v)), outs, more, n);
                }
            },
        }
    }
}

/// A finished command stays the same when more outcomes are known.
proof fn lemma_command_extend(
    a: Alias,
    vars: Seq<(Seq<char>, Seq<char>)>,
    env: Environment,
    outs: Seq<CommandOutcome>,
    more: Seq<CommandOutcome>,
    k: nat,
)
    ensures
        command_flow(a, vars, env, outs, k) is Done ==> command_flow(a, vars, env, outs + more, k)
            == command_flow(a, vars, env, outs, k),
{
    if let Some(raw) = a.cmd {
        lemma_expand_extend(vars, env, raw@, Mode::BracedOnly, outs, more, k);
    }
    if let Ok((program, args)) = tokens_spec(a) {
        lemma_expand_extend(vars, env, program, Mode::Full, outs, more, k);
        if let Flow::Done(Ok(p), n) = expand_from(vars, env, program, Mode::Full, outs, k) {
            lemma_seq_extend(vars, env, args, 0, Seq::empty(), outs, more, n);
        }
    }
}

/// Once building the command of an alias has finished with the outcomes known so far,
/// learning the outcomes of further commands does not change it.
pub proof fn law_finished_build_is_final(
    a: Alias,
    env: Environment,
    outs: Seq<CommandOutcome>,
    more: Seq<CommandOutcome>,
)
    requires
        from_alias_flow(a, env, outs, 0) is Done,
    ensures
        from_alias_flow(a, env, outs + more, 0) == from_alias_flow(a, env, outs, 0),
{
    lemma_bind_extend(env, a.env.keyed(), 0, Seq::empty(), outs, more, 0);
    if let Flow::Done(Ok(vars), n) = bind_vars(env, a.env.keyed(), 0, Seq::empty(), outs, 0) {
        lemma_command_extend(a, vars, env, outs, more, n);
    }
}

/// Once building a command from an argument list has finished with the outcomes known so
/// far, learning the outcomes of further commands does not change it.
pub proof fn law_finished_argv_build_is_final(
    argv: Seq<Seq<char>>,
    env: Environment,
    outs: Seq<CommandOutcome>,
    more: Seq<CommandOutcome>,
)
    requires
        from_argv_flow(argv, env, outs) is Done,
    ensures
        from_argv_flow(argv, env, outs + more) == from_argv_flow(argv, env, outs),
{
    if argv.len() > 0 {
        lemma_expand_extend(no_vars(), env, argv[0], Mode::Full, outs, more, 0);
        if let Flow::Done(Ok(p), n) = expand_from(no_vars(), env, argv[0], Mode::Full, outs, 0) {
            lemma_seq_extend(no_vars(), env, argv.drop_first(), 0, Seq::empty(), outs, more, n);
        }
    }
}

/// Text without `$` from `i` on is copied as it is.
proof fn lemma_scan_plain(
    extra: Seq<(Seq<char>, Seq<char>)>,
    env: Environment,
    b: Seq<char>,
    m: Mode,
    i: int,
    acc: Seq<char>,
    outs: Seq<CommandOutcome>,
    k: nat,
)
    requires
        0 <= i <= b.len(),
        forall|j: int| i <= j < b.len() ==> b[j] != '$',
    ensures
        scan(extra, env, b, m, i, acc, outs, k) == Flow::<Result<Seq<char>, ExpandErrorSpec>>::Done(
            Ok(acc + b.subrange(i, b.len() as int)),
            k,
        ),
    decreases b.len() - i,
{
    if i < b.len() {
        lemma_scan_plain(extra, env, b, m, i + 1, acc.push(b[i]), outs, k);
        assert(acc.push(b[i]) + b.subrange(i + 1, b.len() as int) =~= acc + b.subrange(
            i,
            b.len() as int,
        ));
    } else {
        assert(acc + b.subrange(i, b.len() as int) =~= acc);
    }
}

/// Text without `$` expands to itself, in either mode, running no command: every
/// character, whatever its script, is copied as it is.
pub proof fn law_plain_text_unchanged(
    extra: Seq<(Seq<char>, Seq<char>)>,
    env: Environment,
    input: Seq<char>,
    m: Mode,
    outs: Seq<CommandOutcome>,
    k: nat,
)
    requires
        !input.contains('$'),
    ensures
        expand_from(extra, env, input, m, outs, k) == Flow::<
            Result<Seq<char>, ExpandErrorSpec>,
        >::Done(Ok(input), k),
{
    assert forall|j: int| 0 <= j < input.len() implies input[j] != '$' by {
        if input[j] == '$' {
            assert(input.contains('$'));
        }
    }
    lemma_scan_plain(extra, env, input, m, 0, Seq::empty(), outs, k);
    assert(Seq::<char>::empty() + input.subrange(0, input.len() as int) =~= input);
}

/// Once the expander's own variable `name` is set to `value`, `name` looks up `value`,
/// whatever the presets and the process environment hold.
pub proof fn law_own_variable_wins(
    own: Seq<(Seq<char>, Seq<char>)>,
    env: Environment,
    name: Seq<char>,
    value: Seq<char>,
)
    ensures
        lookup_spec(with_entry(own, name, value), env, name) == value,
{
    law_map_get_after_insert(own, name, value, name);
}

/// A preset that has a value is not affected by a process-environment variable of the
/// same name: where the expander has no variable `name` of its own, `name` looks up the
/// preset.
pub proof fn law_preset_beats_environment(
    own: Seq<(Seq<char>, Seq<char>)>,
    env: Environment,
    name: Seq<char>,
)
    requires
        value_of(own, name) is None,
        preset_value(env.presets, name) is Some,
    ensures
        lookup_spec(own, env, name) == preset_value(env.presets, name)->0,
{
}

/// A variable found neither among the expander's own variables, nor among the presets
/// with a value, nor in the process environment looks up the empty text.
pub proof fn law_missing_variable_is_empty(
    own: Seq<(Seq<char>, Seq<char>)>,
    env: Environment,
    name: Seq<char>,
)
    requires
        value_of(own, name) is None,
        preset_value(env.presets, name) is None,
        env_var(env, name) is None,
    ensures
        lookup_spec(own, env, name) == Seq::<char>::empty(),
{
}

/// Between `j` and a closing brace at `end`, with no brace in between, the matching
/// brace is the one at `end`.
proof fn lemma_matching_close_no_nesting(b: Seq<char>, j: int, end: int)
    requires
        0 <= j <= end < b.len(),
        b[end] == '}',
        forall|l: int| j <= l < end ==> b[l] != '{' && b[l] != '}',
    ensures
        matching_close(b, j, 1, '{', '}') == Some(end),
    decreases end - j,
{
    if j < end {
        lemma_matching_close_no_nesting(b, j + 1, end);
    }
}

/// `${name}` followed by `rest`, in either mode, where `name` holds no brace: the value
/// that `name` looks up, then the expansion of `rest`.
proof fn lemma_braced_at_start(
    own: Seq<(Seq<char>, Seq<char>)>,
    env: Environment,
    name: Seq<char>,
    m: Mode,
    outs: Seq<CommandOutcome>,
    k: nat,
)
    requires
        !name.contains('{'),
        !name.contains('}'),
    ensures
        expand_from(own, env, seq!['$', '{'] + name + seq!['}'], m, outs, k) == Flow::<
            Result<Seq<char>, ExpandErrorSpec>,
        >::Done(Ok(lookup_spec(own, env, name)), k),
{
    let b = seq!['$', '{'] + name + seq!['}'];
    let end = b.len() - 1;
    assert forall|l: int| 2 <= l < end implies b[l] != '{' && b[l] != '}' by {
        assert(b[l] == name[l - 2]);
        if name[l - 2] == '{' {
            assert(name.contains('{'));
        }
        if name[l - 2] == '}' {
            assert(name.contains('}'));
        }
    }
    lemma_matching_close_no_nesting(b, 2, end);
    assert(b.subrange(2, end) =~= name);
    let v = lookup_spec(own, env, name);
    assert(Seq::<char>::empty() + v =~= v);
    assert(scan(own, env, b, m, end + 1, Seq::<char>::empty() + v, outs, k) == Flow::<
        Result<Seq<char>, ExpandErrorSpec>,
    >::Done(Ok(v), k));
}

/// Expanding `${name}` alone, in either mode, gives the value that `name` looks up.
pub proof fn law_braced_variable_expands_to_its_value(
    own: Seq<(Seq<char>, Seq<char>)>,
    env: Environment,
    name: Seq<char>,
    m: Mode,
    outs: Seq<CommandOutcome>,
    k: nat,
)
    requires
        !name.contains('{'),
        !name.contains('}'),
    ensures
        expand_from(own, env, seq!['$', '{'] + name + seq!['}'], m, outs, k) == Flow::<
            Result<Seq<char>, ExpandErrorSpec>,
        >::Done(Ok(lookup_spec(own, env, name)), k),
{
    lemma_braced_at_start(own, env, name, m, outs, k);
}

/// Whether `name` is a bare variable name: an ASCII letter or `_`, then ASCII letters,
/// digits and `_`.
pub open spec fn is_bare_name(name: Seq<char>) -> bool {
    &&& name.len() > 0
    &&& is_var_start_spec(name[0])
    &&& forall|j: int| 0 <= j < name.len() ==> #[trigger] is_var_cont_spec(name[j])
}

/// A bare name that runs to the end of the text ends there.
proof fn lemma_var_end_to_end(b: Seq<char>, j: int)
    requires
        0 <= j <= b.len(),
        forall|l: int| j <= l < b.len() ==> #[trigger] is_var_cont_spec(b[l]),
    ensures
        var_end(b, j) == b.len(),
    decreases b.len() - j,
{
    if j < b.len() {
        lemma_var_end_to_end(b, j + 1);
    }
}

/// In full expansion, `$NAME` is looked up as `${NAME}` is: both give the value that
/// `NAME` looks up.
pub proof fn law_bare_variable_expands_like_braced(
    own: Seq<(Seq<char>, Seq<char>)>,
    env: Environment,
    name: Seq<char>,
    outs: Seq<CommandOutcome>,
    k: nat,
)
    requires
        is_bare_name(name),
    ensures
        expand_from(own, env, seq!['$'] + name, Mode::Full, outs, k) == expand_from(
            own,
            env,
            seq!['$', '{'] + name + seq!['}'],
            Mode::Full,
            outs,
            k,
        ),
        expand_from(own, env, seq!['$'] + name, Mode::Full, outs, k) == Flow::<
            Result<Seq<char>, ExpandErrorSpec>,
        >::Done(Ok(lookup_spec(own, env, name)), k),
{
    let b = seq!['$'] + name;
    assert(b[1] == name[0]);
    assert forall|l: int| 2 <= l < b.len() implies #[trigger] is_var_cont_spec(b[l]) by {
        assert(b[l] == name[l - 1]);
        assert(is_var_cont_spec(name[l - 1]));
    }
    lemma_var_end_to_end(b, 2);
    assert(b.subrange(1, b.len() as int) =~= name);
    let v = lookup_spec(own, env, name);
    assert(Seq::<char>::empty() + v =~= v);
    assert(scan(own, env, b, Mode::Full, b.len() as int, Seq::<char>::empty() + v, outs, k)
        == Flow::<Result<Seq<char>, ExpandErrorSpec>>::Done(Ok(v), k));
    assert forall|l: int| 0 <= l < name.len() implies name[l] != '{' && name[l] != '}' by {
        assert(is_var_cont_spec(name[l]));
    }
    assert(!name.contains('{'));
    assert(!name.contains('}'));
    lemma_braced_at_start(own, env, name, Mode::Full, outs, k);
}

/// `\$` stands for a literal `$`: followed by text without `$`, it expands to `$`
/// followed by that text.
pub proof fn law_escaped_dollar_is_literal(
    own: Seq<(Seq<char>, Seq<char>)>,
    env: Environment,
    rest: Seq<char>,
    m: Mode,
    outs: Seq<CommandOutcome>,
    k: nat,
)
    requires
        !rest.contains('$'),
    ensures
        expand_from(own, env, seq!['\\', '$'] + rest, m, outs, k) == Flow::<
            Result<Seq<char>, ExpandErrorSpec>,
        >::Done(Ok(seq!['$'] + rest), k),
{
    let b = seq!['\\', '$'] + rest;
    assert forall|j: int| 2 <= j < b.len() implies b[j] != '$' by {
        assert(b[j] == rest[j - 2]);
        if rest[j - 2] == '$' {
            assert(rest.contains('$'));
        }
    }
    lemma_scan_plain(own, env, b, m, 2, seq!['$'], outs, k);
    assert(seq!['$'] + b.subrange(2, b.len() as int) =~= seq!['$'] + rest);
    assert(Seq::<char>::empty().push('$') =~= seq!['$']);
}

/// In `${VAR}`-only expansion, a `$` that `{` does not follow is copied as it is, at
/// whatever position it stands: `$(cmd)` and `$NAME` are left for a shell.
pub proof fn law_braced_only_copies_other_dollars(
    own: Seq<(Seq<char>, Seq<char>)>,
    env: Environment,
    b: Seq<char>,
    i: int,
    acc: Seq<char>,
    outs: Seq<CommandOutcome>,
    k: nat,
)
    requires
        0 <= i < b.len(),
        b[i] == '$',
        !(i + 1 < b.len() && b[i + 1] == '{'),
    ensures
        scan(own, env, b, Mode::BracedOnly, i, acc, outs, k) == scan(
            own,
            env,
            b,
            Mode::BracedOnly,
            i + 1,
            acc.push('$'),
            outs,
            k,
        ),
{
}

/// In `${VAR}`-only mode, text without `${` and `\$` from `i` on is copied as it is.
proof fn lemma_scan_native(
    own: Seq<(Seq<char>, Seq<char>)>,
    env: Environment,
    b: Seq<char>,
    i: int,
    acc: Seq<char>,
    outs: Seq<CommandOutcome>,
    k: nat,
)
    requires
        0 <= i <= b.len(),
        forall|j: int|
            i <= j < b.len() - 1 ==> !(b[j] == '$' && #[trigger] b[j + 1] == '{') && !(b[j] == '\\'
                && b[j + 1] == '$'),
    ensures
        scan(own, env, b, Mode::BracedOnly, i, acc, outs, k) == Flow::<
            Result<Seq<char>, ExpandErrorSpec>,
        >::Done(Ok(acc + b.subrange(i, b.len() as int)), k),
    decreases b.len() - i,
{
    if i < b.len() {
        if i + 1 < b.len() {
            assert(!(b[i] == '$' && b[i + 1] == '{'));
        }
        lemma_scan_native(own, env, b, i + 1, acc.push(b[i]), outs, k);
        assert(acc.push(b[i]) + b.subrange(i + 1, b.len() as int) =~= acc + b.subrange(
            i,
            b.len() as int,
        ));
    } else {
        assert(acc + b.subrange(i, b.len() as int) =~= acc);
    }
}

/// With a shell, the native syntax is left to the shell: text in which no `$` is
/// followed by `{` and no `\` by `$` comes out of a `${VAR}`-only expansion unchanged,
/// `$VAR` and `$(cmd)` included.
pub proof fn law_braced_only_keeps_native_syntax(
    own: Seq<(Seq<char>, Seq<char>)>,
    env: Environment,
    input: Seq<char>,
    outs: Seq<CommandOutcome>,
    k: nat,
)
    requires
        forall|j: int|
            0 <= j < input.len() - 1 ==> !(input[j] == '$' && #[trigger] input[j + 1] == '{') && !(
            input[j] == '\\' && input[j + 1] == '$'),
    ensures
        expand_from(own, env, input, Mode::BracedOnly, outs, k) == Flow::<
            Result<Seq<char>, ExpandErrorSpec>,
        >::Done(Ok(input), k),
{
    lemma_scan_native(own, env, input, 0, Seq::empty(), outs, k);
    assert(Seq::<char>::empty() + input.subrange(0, input.len() as int) =~= input);
}

/// Whether no `$` in `b` from `i` on is followed by `(` or by the start of a bare name.
pub open spec fn no_full_only_forms(b: Seq<char>, i: int) -> bool {
    forall|j: int|
        i <= j < b.len() - 1 ==> !(b[j] == '$' && (#[trigger] b[j + 1] == '(' || is_var_start_spec(
            b[j + 1],
        )))
}

proof fn lemma_scan_modes_agree(
    own: Seq<(Seq<char>, Seq<char>)>,
    env: Environment,
    b: Seq<char>,
    i: int,
    acc: Seq<char>,
    outs: Seq<CommandOutcome>,
    k: nat,
)
    requires
        0 <= i,
        no_full_only_forms(b, i),
    ensures
        scan(own, env, b, Mode::Full, i, acc, outs, k) == scan(
            own,
            env,
            b,
            Mode::BracedOnly,
            i,
            acc,
            outs,
            k,
        ),
    decreases b.len() - i,
{
    if i < b.len() {
        if i + 1 < b.len() {
            assert(!(b[i] == '$' && (b[i + 1] == '(' || is_var_start_spec(b[i + 1]))));
        }
        if b[i] == '\\' && i + 1 < b.len() && b[i + 1] == '$' {
            lemma_scan_modes_agree(own, env, b, i + 2, acc.push('$'), outs, k);
        } else if b[i] == '$' && i + 1 < b.len() && b[i + 1] == '{' {
            lemma_matching_close_bounds(b, i + 2, 1, '{', '}');
            if let Some(end) = matching_close(b, i + 2, 1, '{', '}') {
                let name = b.subrange(i + 2, end);
                lemma_scan_modes_agree(own, env, b, end + 1, acc + lookup_spec(own, env, name), outs, k);
            }
        } else {
            lemma_scan_modes_agree(own, env, b, i + 1, acc.push(b[i]), outs, k);
        }
    }
}

/// Full and `${VAR}`-only expansion agree on text in which no `$` is followed by `(`
/// or by the start of a bare name: both give the same value or the same error, and
/// neither runs a command.
pub proof fn law_modes_agree_without_full_only_forms(
    own: Seq<(Seq<char>, Seq<char>)>,
    env: Environment,
    input: Seq<char>,
    outs: Seq<CommandOutcome>,
    k: nat,
)
    requires
        no_full_only_forms(input, 0),
    ensures
        expand_from(own, env, input, Mode::Full, outs, k) == expand_from(
            own,
            env,
            input,
            Mode::BracedOnly,
            outs,
            k,
        ),
{
    lemma_scan_modes_agree(own, env, input, 0, Seq::empty(), outs, k);
}

/// A matcher variant is preferred to a fallback: where some variant names an OS matcher
/// that matches, the variant picked is the first such, whatever fallbacks come before it.
pub proof fn law_explicit_match_preferred(vs: Seq<Alias>, current: Seq<char>, j: int)
    requires
        0 <= j < vs.len(),
        matches_os(vs[j], current),
    ensures
        pick_variant(vs, current) matches Some(i) && i <= j && matches_os(vs[i], current) && forall|
            l: int,
        | 0 <= l < i ==> !matches_os(#[trigger] vs[l], current),
{
    lemma_first_os_match(vs, current, 0, j);
}

proof fn lemma_first_os_match(vs: Seq<Alias>, current: Seq<char>, i: int, j: int)
    requires
        0 <= i <= j < vs.len(),
        matches_os(vs[j], current),
    ensures
        first_os_match(vs, current, i) matches Some(r) && i <= r <= j && matches_os(vs[r], current)
            && forall|l: int| i <= l < r ==> !matches_os(#[trigger] vs[l], current),
    decreases j - i,
{
    if !matches_os(vs[i], current) {
        lemma_first_os_match(vs, current, i + 1, j);
    }
}

proof fn lemma_no_os_match(vs: Seq<Alias>, current: Seq<char>, i: int)
    requires
        0 <= i,
        first_os_match(vs, current, i) is None,
    ensures
        forall|l: int| i <= l < vs.len() ==> !matches_os(#[trigger] vs[l], current),
    decreases vs.len() - i,
{
    if i < vs.len() {
        lemma_no_os_match(vs, current, i + 1);
    }
}

proof fn lemma_first_fallback(vs: Seq<Alias>, i: int)
    requires
        0 <= i,
    ensures
        first_fallback(vs, i) matches Some(r) ==> i <= r < vs.len() && vs[r].os is None && forall|
            l: int,
        | i <= l < r ==> #[trigger] vs[l].os is Some,
    decreases vs.len() - i,
{
    if i < vs.len() && vs[i].os is Some {
        lemma_first_fallback(vs, i + 1);
    }
}

/// A variant without an OS matcher is picked only where no variant names a matching OS
/// matcher, and then it is the first variant without one.
pub proof fn law_fallback_only_without_match(vs: Seq<Alias>, current: Seq<char>)
    requires
        pick_variant(vs, current) matches Some(i) && !matches_os(vs[i], current),
    ensures
        forall|l: int| 0 <= l < vs.len() ==> !matches_os(#[trigger] vs[l], current),
        pick_variant(vs, current) matches Some(i) && vs[i].os is None && forall|l: int|
            0 <= l < i ==> #[trigger] vs[l].os is Some,
{
    let i = pick_variant(vs, current)->0;
    if first_os_match(vs, current, 0) is Some {
        lemma_first_os_match_some(vs, current, 0);
    }
    lemma_no_os_match(vs, current, 0);
    lemma_first_fallback(vs, 0);
}

proof fn lemma_first_os_match_some(vs: Seq<Alias>, current: Seq<char>, i: int)
    requires
        0 <= i,
    ensures
        first_os_match(vs, current, i) matches Some(r) ==> i <= r < vs.len() && matches_os(
            vs[r],
            current,
        ),
    decreases vs.len() - i,
{
    if i < vs.len() && !matches_os(vs[i], current) {
        lemma_first_os_match_some(vs, current, i + 1);
    }
}

/// A name made of characters that are neither white space nor ASCII upper-case letters
/// is its own canonical form.
proof fn lemma_canonical_fixed(s: Seq<char>)
    requires
        forall|i: int| 0 <= i < s.len() ==> !is_white_space(#[trigger] s[i]) && !('A' <= s[i] <= 'Z'),
    ensures
        canonical(s) == s,
{
    if s.len() > 0 {
        assert(!is_white_space(s[0]));
        assert(!is_white_space(s.last()));
    }
    assert(trim_start(s) == s);
    assert(trim_end(s) == s);
    assert(ascii_lower(s) =~= s);
}

/// The matcher `unix` matches every operating system but Windows.
pub proof fn law_unix_matches_all_but_windows(current: Seq<char>)
    ensures
        os_matches_spec("unix"@, current) == (current != "windows"@),
{
    reveal_strlit("any");
    reveal_strlit("unix");
    reveal_strlit("windows");
    reveal_strlit("win");
    reveal_strlit("win32");
    reveal_strlit("win64");
    reveal_strlit("macos");
    reveal_strlit("mac");
    reveal_strlit("darwin");
    reveal_strlit("osx");
    reveal_strlit("linux");
    lemma_canonical_fixed("unix"@);
    assert(normalize_os_spec("unix"@) == "unix"@);
}

/// The matchers `any` and `*`, and the empty matcher, match every operating system.
pub proof fn law_any_matches_every_os(current: Seq<char>)
    ensures
        os_matches_spec("any"@, current),
        os_matches_spec("*"@, current),
        os_matches_spec(""@, current),
{
    reveal_strlit("any");
    reveal_strlit("*");
    reveal_strlit("");
    reveal_strlit("unix");
    reveal_strlit("windows");
    reveal_strlit("win");
    reveal_strlit("win32");
    reveal_strlit("win64");
    reveal_strlit("macos");
    reveal_strlit("mac");
    reveal_strlit("darwin");
    reveal_strlit("osx");
    reveal_strlit("linux");
    lemma_canonical_fixed("any"@);
    lemma_canonical_fixed("*"@);
    lemma_canonical_fixed(""@);
    assert(normalize_os_spec("any"@) == "any"@);
    assert(normalize_os_spec("*"@) == "any"@);
    assert(normalize_os_spec(""@) == "any"@);
}

/// A command's output takes the place of its substitution, or becomes the value of a
/// command-bound variable, without trailing white space.
pub proof fn law_command_output_is_trimmed(argv: Seq<Seq<char>>, outs: Seq<CommandOutcome>, k: nat)
    requires
        k < outs.len(),
        outs[k as int] is Output,
    ensures
        await_run(argv, outs, k) matches Awaited::Output(s, n) && n == k + 1 && s == trim_end(
            outs[k as int]->Output_0@,
        ) && (s.len() == 0 || !is_white_space(s.last())),
{
    crate::text::lemma_trim_end_ends_clean(outs[k as int]->Output_0@);
}

/// A map gives back what was last set under a key, and setting one key leaves the
/// others as they were.
pub proof fn law_map_get_after_insert<V>(p: Seq<(Seq<char>, V)>, key: Seq<char>, value: V, other: Seq<char>)
    ensures
        value_of(with_entry(p, key, value), key) == Some(value),
        other != key ==> value_of(with_entry(p, key, value), other) == value_of(p, other),
{
    let p2 = with_entry(p, key, value);
    lemma_find_key(key_seq(p), key, 0);
    lemma_find_key(key_seq(p), other, 0);
    match find_key(key_seq(p), key, 0) {
        Some(i) => {
            assert(key_seq(p2) =~= key_seq(p).update(i, key));
            assert forall|l: int| 0 <= l < i implies #[trigger] key_seq(p2)[l] != key by {
                assert(key_seq(p2)[l] == key_seq(p)[l]);
            }
            crate::strmap::lemma_find_skip(key_seq(p2), Seq::empty(), key, i);
        },
        None => {
            assert(key_seq(p2) =~= key_seq(p).push(key));
            assert forall|l: int| 0 <= l < p.len() implies #[trigger] key_seq(p2)[l] != key by {
                assert(key_seq(p2)[l] == key_seq(p)[l]);
            }
            crate::strmap::lemma_find_skip(key_seq(p2), Seq::empty(), key, p.len() as int);
        },
    }
    if other != key {
        lemma_find_key_same(key_seq(p), key_seq(p2), other, 0);
        lemma_find_key(key_seq(p), other, 0);
        if let Some(j) = find_key(key_seq(p), other, 0) {
            assert(p2[j].1 == p[j].1);
        }
    }
}

/// Key lists that agree on every position holding a key equal to `key`, and where one
/// only extends the other by keys other than `key`, give the same search result.
proof fn lemma_find_key_same(k1: Seq<Seq<char>>, k2: Seq<Seq<char>>, key: Seq<char>, i: int)
    requires
        0 <= i,
        k1.len() <= k2.len(),
        forall|l: int| 0 <= l < k1.len() ==> (k1[l] == key <==> #[trigger] k2[l] == key),
        forall|l: int| k1.len() <= l < k2.len() ==> #[trigger] k2[l] != key,
    ensures
        find_key(k1, key, i) == find_key(k2, key, i),
    decreases k2.len() - i,
{
    if i < k2.len() {
        lemma_find_key_same(k1, k2, key, i + 1);
    }
}

/// Whether a computation started with `k` outcomes used has finished having used at most
/// all `total` outcomes, or waits having used exactly all of them.
pub open spec fn counts_ok<T>(f: Flow<T>, k: nat, total: nat) -> bool {
    match f {
        Flow::Done(_, n) => k <= n <= total,
        Flow::Pending(_, n) => n == total,
    }
}

proof fn lemma_await_counts(argv: Seq<Seq<char>>, outs: Seq<CommandOutcome>, k: nat)
    requires
        k <= outs.len(),
    ensures
        match await_run(argv, outs, k) {
            Awaited::Output(_, n) => n == k + 1 && n <= outs.len(),
            Awaited::Failure(_, n) => n == k + 1 && n <= outs.len(),
            Awaited::Pending(_, n) => n == k && n == outs.len(),
        },
{
}

proof fn lemma_scan_counts(
    extra: Seq<(Seq<char>, Seq<char>)>,
    env: Environment,
    b: Seq<char>,
    m: Mode,
    i: int,
    acc: Seq<char>,
    outs: Seq<CommandOutcome>,
    k: nat,
)
    requires
        k <= outs.len(),
    ensures
        counts_ok(scan(extra, env, b, m, i, acc, outs, k), k, outs.len()),
    decreases b.len(), b.len() - i,
{
    if 0 <= i < b.len() {
        if b[i] == '\\' && i + 1 < b.len() && b[i + 1] == '$' {
            lemma_scan_counts(extra, env, b, m, i + 2, acc.push('$'), outs, k);
        } else if b[i] == '$' && i + 1 < b.len() && b[i + 1] == '(' && m == Mode::Full {
            lemma_matching_close_bounds(b, i + 2, 1, '(', ')');
            if let Some(end) = matching_close(b, i + 2, 1, '(', ')') {
                let inner = b.subrange(i + 2, end);
                lemma_scan_counts(extra, env, inner, Mode::Full, 0, Seq::empty(), outs, k);
                if let Flow::Done(Ok(cmd), k2) = scan(extra, env, inner, Mode::Full, 0, Seq::empty(), outs, k) {
                    if let Some(words) = crate::words::shell_split(cmd) {
                        if words.len() > 0 {
                            lemma_await_counts(words, outs, k2);
                        }
                    }
                    if let Ok(Awaited::Output(s, k3)) = capture_spec(cmd, outs, k2) {
                        lemma_scan_counts(extra, env, b, m, end + 1, acc + s, outs, k3);
                    }
                }
            }
        } else if b[i] == '$' && i + 1 < b.len() && b[i + 1] == '{' {
            lemma_matching_close_bounds(b, i + 2, 1, '{', '}');
            if let Some(end) = matching_close(b, i + 2, 1, '{', '}') {
                let name = b.subrange(i + 2, end);
                lemma_scan_counts(extra, env, b, m, end + 1, acc + lookup_spec(extra, env, name), outs, k);
            }
        } else if b[i] == '$' && i + 1 < b.len() && is_var_start_spec(b[i + 1]) && m == Mode::Full {
            lemma_var_end_bounds(b, i + 2);
            let j = var_end(b, i + 2);
            let name = b.subrange(i + 1, j);
            lemma_scan_counts(extra, env, b, m, j, acc + lookup_spec(extra, env, name), outs, k);
        } else {
            lemma_scan_counts(extra, env, b, m, i + 1, acc.push(b[i]), outs, k);
        }
    }
}

proof fn lemma_seq_counts(
    extra: Seq<(Seq<char>, Seq<char>)>,
    env: Environment,
    items: Seq<Seq<char>>,
    i: int,
    acc: Seq<Seq<char>>,
    outs: Seq<CommandOutcome>,
    k: nat,
)
    requires
        k <= outs.len(),
    ensures
        counts_ok(expand_seq(extra, env, items, i, acc, outs, k), k, outs.len()),
    decreases items.len() - i,
{
    if 0 <= i < items.len() {
        lemma_scan_counts(extra, env, items[i], Mode::Full, 0, Seq::empty(), outs, k);
        if let Flow::Done(Ok(s), n) = expand_from(extra, env, items[i], Mode::Full, outs, k) {
            lemma_seq_counts(extra, env, items, i + 1, acc.push(s), outs, n);
        }
    }
}

proof fn lemma_env_command_counts(env: Environment, ec: EnvCommand, outs: Seq<CommandOutcome>, k: nat)
    requires
        k <= outs.len(),
    ensures
        counts_ok(env_command_flow(env, ec, outs, k), k, outs.len()),
{
    let b = ec.cmd@;
    lemma_scan_counts(no_vars(), env, b, Mode::BracedOnly, 0, Seq::empty(), outs, k);
    lemma_scan_counts(no_vars(), env, b, Mode::Full, 0, Seq::empty(), outs, k);
    match ec.shell {
        Some(sh) => {
            if let Flow::Done(Ok(script), n) = expand_from(no_vars(), env, b, Mode::BracedOnly, outs, k) {
                if let Some((prog, flags)) = crate::platform::shell_invocation_spec(sh@) {
                    lemma_await_counts(seq![prog] + flags + seq![script], outs, n);
                }
            }
        },
        None => {
            if let Flow::Done(Ok(line), n) = expand_from(no_vars(), env, b, Mode::Full, outs, k) {
                if let Some(words) = crate::words::shell_split(line) {
                    lemma_await_counts(words, outs, n);
                }
            }
        },
    }
}

proof fn lemma_bind_counts(
    env: Environment,
    vars: Seq<(Seq<char>, EnvValue)>,
    i: int,
    acc: Seq<(Seq<char>, Seq<char>)>,
    outs: Seq<CommandOutcome>,
    k: nat,
)
    requires
        k <= outs.len(),
    ensures
        counts_ok(bind_vars(env, vars, i, acc, outs, k), k, outs.len()),
    decreases vars.len() - i,
{
    if 0 <= i < vars.len() {
        let name = vars[i].0;
        match vars[i].1 {
            EnvValue::Literal(s) => {
                lemma_scan_counts(no_vars(), env, s@, Mode::Full, 0, Seq::empty(), outs, k);
                if let Flow::Done(Ok(v), n) = expand_from(no_vars(), env, s@, Mode::Full, outs, k) {
                    lemma_bind_counts(env, vars, i + 1, acc.push((name, v)), outs, n);
                }
            },
            EnvValue::Command(ec) => {
                lemma_env_command_counts(env, ec, outs, k);
                if let Flow::Done(Ok(v), n) = env_command_flow(env, ec, outs, k) {
                    lemma_bind_counts(env, vars, i + 1, acc.push((name, v)), outs, n);
                }
            },
        }
    }
}

proof fn lemma_command_counts(
    a: Alias,
    vars: Seq<(Seq<char>, Seq<char>)>,
    env: Environment,
    outs: Seq<CommandOutcome>,
    k: nat,
)
    requires
        k <= outs.len(),
    ensures
        counts_ok(command_flow(a, vars, env, outs, k), k, outs.len()),
{
    if let Some(raw) = a.cmd {
        lemma_scan_counts(vars, env, raw@, Mode::BracedOnly, 0, Seq::empty(), outs, k);
    }
    if let Ok((program, args)) = tokens_spec(a) {
        lemma_scan_counts(vars, env, program, Mode::Full, 0, Seq::empty(), outs, k);
        if let Flow::Done(Ok(p), n) = expand_from(vars, env, program, Mode::Full, outs, k) {
            lemma_seq_counts(vars, env, args, 0, Seq::empty(), outs, n);
        }
    }
}

/// An expansion waits for a command only once it has used every outcome it was given,
/// and a finished one has used no more than it was given: the caller that runs each
/// requested command and appends its outcome hands over each outcome exactly when it
/// is needed.
pub proof fn law_expansion_waits_with_every_outcome_used(
    extra: Seq<(Seq<char>, Seq<char>)>,
    env: Environment,
    input: Seq<char>,
    m: Mode,
    outs: Seq<CommandOutcome>,
)
    ensures
        counts_ok(expand_from(extra, env, input, m, outs, 0), 0, outs.len()),
{
    lemma_scan_counts(extra, env, input, m, 0, Seq::empty(), outs, 0);
}

/// Building the command of an alias waits for a command only once it has used every
/// outcome it was given, and a finished build has used no more than it was given.
pub proof fn law_build_waits_with_every_outcome_used(
    a: Alias,
    env: Environment,
    outs: Seq<CommandOutcome>,
)
    ensures
        counts_ok(from_alias_flow(a, env, outs, 0), 0, outs.len()),
{
    lemma_bind_counts(env, a.env.keyed(), 0, Seq::empty(), outs, 0);
    if let Flow::Done(Ok(vars), n) = bind_vars(env, a.env.keyed(), 0, Seq::empty(), outs, 0) {
        lemma_command_counts(a, vars, env, outs, n);
    }
}

/// Building a command from an argument list waits for a command only once it has used
/// every outcome it was given, and a finished build has used no more than it was given.
pub proof fn law_argv_build_waits_with_every_outcome_used(
    argv: Seq<Seq<char>>,
    env: Environment,
    outs: Seq<CommandOutcome>,
)
    ensures
        counts_ok(from_argv_flow(argv, env, outs), 0, outs.len()),
{
    if argv.len() > 0 {
        lemma_scan_counts(no_vars(), env, argv[0], Mode::Full, 0, Seq::empty(), outs, 0);
        if let Flow::Done(Ok(p), n) = expand_from(no_vars(), env, argv[0], Mode::Full, outs, 0) {
            lemma_seq_counts(no_vars(), env, argv.drop_first(), 0, Seq::empty(), outs, n);
        }
    }
}

/// Once expanding a list of items (such as extra arguments) has finished with the
/// outcomes known so far, learning further outcomes does not change it; and it waits
/// for a command only once it has used every outcome it was given.
pub proof fn law_list_expansion_is_driven_in_order(
    extra: Seq<(Seq<char>, Seq<char>)>,
    env: Environment,
    items: Seq<Seq<char>>,
    outs: Seq<CommandOutcome>,
    more: Seq<CommandOutcome>,
)
    ensures
        counts_ok(expand_seq(extra, env, items, 0, Seq::empty(), outs, 0), 0, outs.len()),
        expand_seq(extra, env, items, 0, Seq::empty(), outs, 0) is Done ==> expand_seq(
            extra,
            env,
            items,
            0,
            Seq::empty(),
            outs + more,
            0,
        ) == expand_seq(extra, env, items, 0, Seq::empty(), outs, 0),
{
    lemma_seq_counts(extra, env, items, 0, Seq::empty(), outs, 0);
    lemma_seq_extend(extra, env, items, 0, Seq::empty(), outs, more, 0);
}

/// Trimming leading white space leaves text that starts with no white space.
proof fn lemma_trim_start_clean(s: Seq<char>)
    ensures
        trim_start(s).len() == 0 || !is_white_space(trim_start(s)[0]),
    decreases s.len(),
{
    if s.len() > 0 && is_white_space(s[0]) {
        lemma_trim_start_clean(s.drop_first());
    }
}

/// Trimming trailing white space keeps a prefix.
proof fn lemma_trim_end_prefix(s: Seq<char>)
    ensures
        trim_end(s).len() <= s.len(),
        trim_end(s) == s.subrange(0, trim_end(s).len() as int),
    decreases s.len(),
{
    if s.len() > 0 && is_white_space(s.last()) {
        lemma_trim_end_prefix(s.drop_last());
        assert(trim_end(s) =~= s.subrange(0, trim_end(s).len() as int));
    } else {
        assert(s =~= s.subrange(0, s.len() as int));
    }
}

/// Lower-casing keeps white space and non-white space apart, and lower-casing twice is
/// lower-casing once.
proof fn lemma_lower_char(c: char)
    ensures
        is_white_space(lower_char(c)) == is_white_space(c),
        lower_char(lower_char(c)) == lower_char(c),
{
    if 'A' <= c <= 'Z' {
        let u = c as u32;
        assert(65 <= u <= 90);
        assert(((u + 32) as u8) as u32 == u + 32);
        assert(lower_char(c) as u32 == u + 32);
    }
}

/// Text trimmed and lower-cased is its own canonical form.
proof fn lemma_canonical_idempotent(x: Seq<char>)
    ensures
        canonical(canonical(x)) == canonical(x),
{
    let t = trim(x);
    let y = canonical(x);
    lemma_trim_start_clean(x);
    lemma_trim_end_prefix(trim_start(x));
    crate::text::lemma_trim_end_ends_clean(trim_start(x));
    assert(y.len() == t.len());
    if y.len() > 0 {
        assert(t[0] == trim_start(x)[0]);
        lemma_lower_char(t[0]);
        lemma_lower_char(t.last());
        assert(y[0] == lower_char(t[0]));
        assert(y.last() == lower_char(t.last()));
    }
    assert(trim_start(y) == y);
    assert(trim_end(y) == y);
    assert forall|i: int| 0 <= i < y.len() implies #[trigger] ascii_lower(y)[i] == y[i] by {
        lemma_lower_char(t[i]);
    }
    assert(ascii_lower(y) =~= y);
}

/// The names that `normalize_os` recognises, each its own canonical form.
proof fn lemma_os_literals()
    ensures
        canonical("windows"@) == "windows"@,
        canonical("macos"@) == "macos"@,
        canonical("linux"@) == "linux"@,
        canonical("unix"@) == "unix"@,
        canonical("any"@) == "any"@,
        "windows"@ != "win"@ && "windows"@ != "win32"@ && "windows"@ != "win64"@,
        "macos"@ != "windows"@ && "macos"@ != "win"@ && "macos"@ != "win32"@ && "macos"@ != "win64"@,
        "macos"@ != "mac"@ && "macos"@ != "darwin"@ && "macos"@ != "osx"@,
        "linux"@ != "windows"@ && "linux"@ != "win"@ && "linux"@ != "win32"@ && "linux"@ != "win64"@,
        "linux"@ != "macos"@ && "linux"@ != "mac"@ && "linux"@ != "darwin"@ && "linux"@ != "osx"@,
        "unix"@ != "windows"@ && "unix"@ != "win"@ && "unix"@ != "win32"@ && "unix"@ != "win64"@,
        "unix"@ != "macos"@ && "unix"@ != "mac"@ && "unix"@ != "darwin"@ && "unix"@ != "osx"@,
        "unix"@ != "linux"@,
        "any"@ != "windows"@ && "any"@ != "win"@ && "any"@ != "win32"@ && "any"@ != "win64"@,
        "any"@ != "macos"@ && "any"@ != "mac"@ && "any"@ != "darwin"@ && "any"@ != "osx"@,
        "any"@ != "linux"@ && "any"@ != "unix"@,
{
    reveal_strlit("any");
    reveal_strlit("unix");
    reveal_strlit("windows");
    reveal_strlit("win");
    reveal_strlit("win32");
    reveal_strlit("win64");
    reveal_strlit("macos");
    reveal_strlit("mac");
    reveal_strlit("darwin");
    reveal_strlit("osx");
    reveal_strlit("linux");
    lemma_canonical_fixed("windows"@);
    lemma_canonical_fixed("macos"@);
    lemma_canonical_fixed("linux"@);
    lemma_canonical_fixed("unix"@);
    lemma_canonical_fixed("any"@);
}

/// `normalize_os` is idempotent: a normalized name normalizes to itself.
pub proof fn law_normalize_os_idempotent(x: Seq<char>)
    ensures
        normalize_os_spec(normalize_os_spec(x)) == normalize_os_spec(x),
{
    lemma_os_literals();
    lemma_canonical_idempotent(x);
}

/// Surrounding white space and ASCII case never matter to `normalize_os`: a name
/// normalizes as its trimmed, lower-cased form does.
pub proof fn law_normalize_os_ignores_case_and_spaces(x: Seq<char>)
    ensures
        normalize_os_spec(ascii_lower(trim(x))) == normalize_os_spec(x),
{
    lemma_canonical_idempotent(x);
}

/// Between `j` and a closer at `end`, with neither the opener nor the closer in
/// between, the matching closer is the one at `end`.
proof fn lemma_matching_close_flat(b: Seq<char>, j: int, end: int, open: char, close: char)
    requires
        open != close,
        0 <= j <= end < b.len(),
        b[end] == close,
        forall|l: int| j <= l < end ==> b[l] != open && b[l] != close,
    ensures
        matching_close(b, j, 1, open, close) == Some(end),
    decreases end - j,
{
    if j < end {
        lemma_matching_close_flat(b, j + 1, end, open, close);
    }
}

/// What a command substitution whose inner text `t` has been expanded gives: the
/// inner expansion's wait or failure, else the outcome of running the words of the
/// expanded text, its output standing in the substitution's place.
pub open spec fn substitution_of(
    t: Seq<char>,
    inner: Flow<Result<Seq<char>, ExpandErrorSpec>>,
    outs: Seq<CommandOutcome>,
) -> Flow<Result<Seq<char>, ExpandErrorSpec>> {
    match inner {
        Flow::Pending(argv, w) => Flow::Pending(argv, w),
        Flow::Done(Err(e), n) => Flow::Done(Err(e), n),
        Flow::Done(Ok(w), n) => match capture_spec(w, outs, n) {
            Err(k3) => Flow::Done(Err(ExpandErrorSpec::Substitution(t, FailureSpec::Tokenize)), k3),
            Ok(Awaited::Pending(argv, p)) => Flow::Pending(argv, p),
            Ok(Awaited::Failure(m, k3)) => Flow::Done(
                Err(ExpandErrorSpec::Substitution(t, FailureSpec::Run(m))),
                k3,
            ),
            Ok(Awaited::Output(out, k3)) => Flow::Done(Ok(out), k3),
        },
    }
}

/// The text between `$(` and `)` is expanded in full before it is split into words:
/// `$(t)`, for an inner text `t` without parentheses, runs the words of the full
/// expansion of `t` (so `$NAME` and `${NAME}` inside it are looked up first, and a
/// substitution inside it runs before it) and gives that command's output.
pub proof fn law_substitution_expands_inner_text_in_full(
    extra: Seq<(Seq<char>, Seq<char>)>,
    env: Environment,
    t: Seq<char>,
    outs: Seq<CommandOutcome>,
    k: nat,
)
    requires
        !t.contains('('),
        !t.contains(')'),
    ensures
        expand_from(extra, env, seq!['$', '('] + t + seq![')'], Mode::Full, outs, k)
            == substitution_of(t, expand_from(extra, env, t, Mode::Full, outs, k), outs),
{
    let b = seq!['$', '('] + t + seq![')'];
    let end = b.len() - 1;
    assert forall|l: int| 2 <= l < end implies b[l] != '(' && b[l] != ')' by {
        assert(b[l] == t[l - 2]);
        if t[l - 2] == '(' {
            assert(t.contains('('));
        }
        if t[l - 2] == ')' {
            assert(t.contains(')'));
        }
    }
    lemma_matching_close_flat(b, 2, end, '(', ')');
    assert(b.subrange(2, end) =~= t);
    if let Flow::Done(Ok(w), n) = expand_from(extra, env, t, Mode::Full, outs, k) {
        if let Ok(Awaited::Output(out, k3)) = capture_spec(w, outs, n) {
            assert(Seq::<char>::empty() + out =~= out);
            assert(scan(extra, env, b, Mode::Full, end + 1, Seq::<char>::empty() + out, outs, k3)
                == Flow::<Result<Seq<char>, ExpandErrorSpec>>::Done(Ok(out), k3));
        }
    }
}

/// A bare variable inside a command substitution is looked up before the command is
/// split into words and run: `$($NAME)` runs the words of `NAME`'s value.
pub proof fn law_substitution_looks_up_bare_variables(
    extra: Seq<(Seq<char>, Seq<char>)>,
    env: Environment,
    name: Seq<char>,
    outs: Seq<CommandOutcome>,
    k: nat,
)
    requires
        is_bare_name(name),
    ensures
        expand_from(extra, env, seq!['$', '('] + (seq!['$'] + name) + seq![')'], Mode::Full, outs, k)
            == substitution_of(
            seq!['$'] + name,
            Flow::Done(Ok(lookup_spec(extra, env, name)), k),
            outs,
        ),
{
    let t = seq!['$'] + name;
    assert forall|l: int| 0 <= l < t.len() implies t[l] != '(' && t[l] != ')' by {
        if l > 0 {
            assert(t[l] == name[l - 1]);
            assert(is_var_cont_spec(name[l - 1]));
        }
    }
    assert(!t.contains('('));
    assert(!t.contains(')'));
    law_substitution_expands_inner_text_in_full(extra, env, t, outs, k);
    law_bare_variable_expands_like_braced(extra, env, name, outs, k);
}

/// Whatever the form of the alias (with a shell or without), a finished build exports
/// to the child exactly the per-alias variables as they were resolved.
pub proof fn law_built_command_exports_resolved_variables(
    a: Alias,
    env: Environment,
    outs: Seq<CommandOutcome>,
    k: nat,
)
    ensures
        from_alias_flow(a, env, outs, k) matches Flow::Done(Ok(r), _) ==> bind_vars(
            env,
            a.env.keyed(),
            0,
            Seq::empty(),
            outs,
            k,
        ) matches Flow::Done(Ok(vars), _) && r.env == vars,
{
}

/// With a shell, the script handed to the shell is the `${VAR}`-only expansion of the
/// command line: a command line in which no `$` is followed by `{` and no `\` by `$`
/// reaches the shell unchanged, `$NAME` and `$(cmd)` left for the shell, and no other
/// command is run before the shell.
pub proof fn law_shell_env_command_keeps_native_syntax(
    env: Environment,
    ec: EnvCommand,
    prog: Seq<char>,
    flags: Seq<Seq<char>>,
    outs: Seq<CommandOutcome>,
    k: nat,
)
    requires
        ec.shell is Some,
        shell_invocation_spec(ec.shell->0@) == Some((prog, flags)),
        forall|j: int|
            0 <= j < ec.cmd@.len() - 1 ==> !(ec.cmd@[j] == '$' && #[trigger] ec.cmd@[j + 1] == '{')
                && !(ec.cmd@[j] == '\\' && ec.cmd@[j + 1] == '$'),
    ensures
        env_command_flow(env, ec, outs, k) == awaited_value(
            await_run(seq![prog] + flags + seq![ec.cmd@], outs, k),
            ec.cmd@,
        ),
{
    law_braced_only_keeps_native_syntax(no_vars(), env, ec.cmd@, outs, k);
}

/// Every documented name of an operating system normalizes to it, whatever the
/// surrounding white space and ASCII case: `windows`, `win`, `win32`, `win64` to
/// `windows`; `macos`, `mac`, `darwin`, `osx` to `macos`; `linux` and `unix` to
/// themselves; `any`, `*` and the empty name to `any`.
pub proof fn law_os_names_normalize(x: Seq<char>)
    ensures
        ascii_lower(trim(x)) == "windows"@ || ascii_lower(trim(x)) == "win"@ || ascii_lower(trim(x))
            == "win32"@ || ascii_lower(trim(x)) == "win64"@ ==> normalize_os_spec(x) == "windows"@,
        ascii_lower(trim(x)) == "macos"@ || ascii_lower(trim(x)) == "mac"@ || ascii_lower(trim(x))
            == "darwin"@ || ascii_lower(trim(x)) == "osx"@ ==> normalize_os_spec(x) == "macos"@,
        ascii_lower(trim(x)) == "linux"@ ==> normalize_os_spec(x) == "linux"@,
        ascii_lower(trim(x)) == "unix"@ ==> normalize_os_spec(x) == "unix"@,
        ascii_lower(trim(x)) == "any"@ || ascii_lower(trim(x)) == "*"@ || ascii_lower(trim(x)).len()
            == 0 ==> normalize_os_spec(x) == "any"@,
{
    lemma_os_literals();
    reveal_strlit("win");
    reveal_strlit("win32");
    reveal_strlit("win64");
    reveal_strlit("mac");
    reveal_strlit("darwin");
    reveal_strlit("osx");
    reveal_strlit("*");
    reveal_strlit("");
    reveal_strlit("windows");
    reveal_strlit("macos");
    reveal_strlit("linux");
    reveal_strlit("unix");
    reveal_strlit("any");
    assert("windows"@[0] == 'w' && "win"@[0] == 'w' && "win32"@[0] == 'w' && "win64"@[0] == 'w');
    assert("macos"@[0] == 'm' && "mac"@[0] == 'm' && "darwin"@[0] == 'd' && "osx"@[0] == 'o');
    assert("linux"@[0] == 'l' && "unix"@[0] == 'u' && "any"@[0] == 'a' && "*"@[0] == '*');
}

/// Each other name of an operating system, used as a matcher, matches that system.
pub proof fn law_os_aliases_match_their_os()
    ensures
        os_matches_spec("win"@, "windows"@),
        os_matches_spec("win32"@, "windows"@),
        os_matches_spec("win64"@, "windows"@),
        os_matches_spec("mac"@, "macos"@),
        os_matches_spec("darwin"@, "macos"@),
        os_matches_spec("osx"@, "macos"@),
{
    reveal_strlit("win");
    reveal_strlit("win32");
    reveal_strlit("win64");
    reveal_strlit("mac");
    reveal_strlit("darwin");
    reveal_strlit("osx");
    lemma_canonical_fixed("win"@);
    lemma_canonical_fixed("win32"@);
    lemma_canonical_fixed("win64"@);
    lemma_canonical_fixed("mac"@);
    lemma_canonical_fixed("darwin"@);
    lemma_canonical_fixed("osx"@);
    law_os_names_normalize("win"@);
    law_os_names_normalize("win32"@);
    law_os_names_normalize("win64"@);
    law_os_names_normalize("mac"@);
    law_os_names_normalize("darwin"@);
    law_os_names_normalize("osx"@);
    lemma_os_literals();
}

/// Helix's runtime directory is `HELIX_RUNTIME` when it is set and non-empty, and
/// otherwise `runtime` inside Helix's configuration directory, on every OS.
pub proof fn law_runtime_dir_is_under_config_dir(os: Seq<char>, v: DirVars)
    ensures
        !set_nonempty(v.helix_runtime) ==> helix_runtime_dir_spec(os, v) == adjoin(
            helix_config_dir_spec(os, v),
            seq!["runtime"@],
        ),
        set_nonempty(v.helix_runtime) ==> helix_runtime_dir_spec(os, v) == based(
            v.helix_runtime,
            Seq::empty(),
        ),
{
}

/// Text without `$` in every item of a list expands to itself, item by item.
proof fn lemma_seq_plain(
    extra: Seq<(Seq<char>, Seq<char>)>,
    env: Environment,
    items: Seq<Seq<char>>,
    i: int,
    acc: Seq<Seq<char>>,
    outs: Seq<CommandOutcome>,
    k: nat,
)
    requires
        0 <= i <= items.len(),
        forall|j: int| 0 <= j < items.len() ==> !(#[trigger] items[j]).contains('$'),
    ensures
        expand_seq(extra, env, items, i, acc, outs, k) == Flow::<
            (Seq<Seq<char>>, Option<ExpandErrorSpec>),
        >::Done((acc + items.subrange(i, items.len() as int), None), k),
    decreases items.len() - i,
{
    if i < items.len() {
        law_plain_text_unchanged(extra, env, items[i], Mode::Full, outs, k);
        lemma_seq_plain(extra, env, items, i + 1, acc.push(items[i]), outs, k);
        assert(acc.push(items[i]) + items.subrange(i + 1, items.len() as int) =~= acc
            + items.subrange(i, items.len() as int));
    } else {
        assert(acc + items.subrange(i, items.len() as int) =~= acc);
    }
}

/// A list of items without `$` expands to itself.
pub proof fn law_plain_list_unchanged(
    extra: Seq<(Seq<char>, Seq<char>)>,
    env: Environment,
    items: Seq<Seq<char>>,
    outs: Seq<CommandOutcome>,
    k: nat,
)
    requires
        forall|j: int| 0 <= j < items.len() ==> !(#[trigger] items[j]).contains('$'),
    ensures
        expand_list(extra, env, items, outs, k) == Flow::<
            Result<Seq<Seq<char>>, ExpandErrorSpec>,
        >::Done(Ok(items), k),
{
    lemma_seq_plain(extra, env, items, 0, Seq::empty(), outs, k);
    assert(Seq::<Seq<char>>::empty() + items.subrange(0, items.len() as int) =~= items);
}

/// A command given as an argument list without `$` runs as given: its first element is
/// the program, the rest the arguments, with no variables of its own and no command run
/// first.
pub proof fn law_plain_argv_runs_as_given(
    argv: Seq<Seq<char>>,
    env: Environment,
    outs: Seq<CommandOutcome>,
)
    requires
        argv.len() > 0,
        forall|j: int| 0 <= j < argv.len() ==> !(#[trigger] argv[j]).contains('$'),
    ensures
        from_argv_flow(argv, env, outs) == Flow::<Result<ResolvedSpec, RunErrorSpec>>::Done(
            Ok(ResolvedSpec { program: argv[0], args: argv.drop_first(), env: no_vars() }),
            0,
        ),
{
    law_plain_text_unchanged(no_vars(), env, argv[0], Mode::Full, outs, 0);
    assert forall|j: int| 0 <= j < argv.drop_first().len() implies !(#[trigger] argv.drop_first()[j]).contains('$') by {
        assert(argv.drop_first()[j] == argv[j + 1]);
    }
    law_plain_list_unchanged(no_vars(), env, argv.drop_first(), outs, 0);
}

/// An alias with a known shell hands its `cmd` to the shell as one script, after the
/// shell's own flags: a `cmd` in which no `$` is followed by `{` and no `\` by `$`
/// reaches the shell unchanged, and the resolved per-alias variables are exported.
pub proof fn law_shell_alias_hands_cmd_to_shell(
    a: Alias,
    env: Environment,
    prog: Seq<char>,
    flags: Seq<Seq<char>>,
    vars: Seq<(Seq<char>, Seq<char>)>,
    outs: Seq<CommandOutcome>,
    n: nat,
)
    requires
        a.shell is Some,
        shell_invocation_spec(a.shell->0@) == Some((prog, flags)),
        a.cmd is Some,
        a.command is None,
        forall|j: int|
            0 <= j < a.cmd->0@.len() - 1 ==> !(a.cmd->0@[j] == '$' && #[trigger] a.cmd->0@[j + 1]
                == '{') && !(a.cmd->0@[j] == '\\' && a.cmd->0@[j + 1] == '$'),
        bind_vars(env, a.env.keyed(), 0, Seq::empty(), outs, 0) == Flow::<
            Result<Seq<(Seq<char>, Seq<char>)>, RunErrorSpec>,
        >::Done(Ok(vars), n),
    ensures
        from_alias_flow(a, env, outs, 0) == Flow::<Result<ResolvedSpec, RunErrorSpec>>::Done(
            Ok(ResolvedSpec { program: prog, args: flags.push(a.cmd->0@), env: vars }),
            n,
        ),
{
    law_braced_only_keeps_native_syntax(vars, env, a.cmd->0@, outs, n);
}

/// A variant that passes validation is never refused as invalid when its command is
/// built, whatever its variables and the outcomes of commands.
pub proof fn law_valid_variant_builds_without_invalid_error(
    a: Alias,
    vars: Seq<(Seq<char>, Seq<char>)>,
    env: Environment,
    outs: Seq<CommandOutcome>,
    k: nat,
)
    requires
        validate_spec(a) is Ok,
    ensures
        !(command_flow(a, vars, env, outs, k) matches Flow::Done(Err(RunErrorSpec::Invalid(_)), _)),
{
}

/// The variant that an alias resolves to is one of its declared variants, is valid, and
/// either names an OS matcher that matches or, where no variant does, is the first
/// variant without a matcher.
pub proof fn law_resolved_variant_is_chosen_and_valid(c: Config, name: Seq<char>, current: Seq<char>)
    ensures
        resolve_alias_spec(c, name, current) matches Ok(a) ==> validate_spec(a) is Ok && exists|i: int|
            0 <= i < variants_spec(c.alias.spec_get(name)->0).len() && #[trigger] variants_spec(
                c.alias.spec_get(name)->0,
            )[i] == a && (matches_os(a, current) || (a.os is None && forall|l: int|
                0 <= l < variants_spec(c.alias.spec_get(name)->0).len() ==> !matches_os(
                    #[trigger] variants_spec(c.alias.spec_get(name)->0)[l],
                    current,
                ))),
{
    if let Some(e) = c.alias.spec_get(name) {
        let vs = variants_spec(e);
        if let Some(i) = pick_variant(vs, current) {
            lemma_first_os_match_some(vs, current, 0);
            lemma_first_fallback(vs, 0);
            if first_os_match(vs, current, 0) is None {
                lemma_no_os_match(vs, current, 0);
            }
            assert(vs[i] == vs[i]);
        }
    }
}

/// Helix's cache directory is `helix` inside the platform's cache directory, on every OS.
pub proof fn law_helix_cache_is_under_cache_dir(os: Seq<char>, v: DirVars)
    ensures
        helix_cache_dir_spec(os, v) == adjoin(cache_dir_spec(os, v), seq!["helix"@]),
{
}

/// Off macOS, Helix's configuration directory is `helix` inside the platform's
/// configuration directory.
pub proof fn law_helix_config_is_under_config_dir_off_macos(os: Seq<char>, v: DirVars)
    requires
        os != "macos"@,
    ensures
        helix_config_dir_spec(os, v) == adjoin(config_dir_spec(os, v), seq!["helix"@]),
{
    assert(seq![".config"@] + seq!["helix"@] =~= seq![".config"@, "helix"@]);
    assert(Seq::<Seq<char>>::empty() + seq!["helix"@] =~= seq!["helix"@]);
}

/// On macOS, Helix's configuration directory does not depend on `XDG_CONFIG_HOME`: it
/// is `~/.config/helix` whatever that variable holds.
pub proof fn law_macos_helix_config_ignores_xdg(v: DirVars, w: DirVars)
    requires
        v.home == w.home,
    ensures
        helix_config_dir_spec("macos"@, v) == helix_config_dir_spec("macos"@, w),
        helix_config_dir_spec("macos"@, v) == based(v.home, seq![".config"@, "helix"@]),
{
    reveal_strlit("macos");
    reveal_strlit("windows");
    assert("macos"@.len() != "windows"@.len());
}

} // verus!
