//! Aliases: named commands, each with variants for different operating systems.
//!
//! An alias is a single variant or a list of variants. A variant is picked for the
//! current operating system: the first, in declared order, whose `os` matcher matches
//! it; failing that, the first without an `os`.

use vstd::prelude::*;

use crate::platform::{os_matches, os_matches_spec, shell_invocation, shell_invocation_spec, unknown_shell_message};
use crate::presets::{
    adjoin, config_dir, config_dir_spec, dir_view, helix_config_dir, helix_config_dir_spec,
    opt_dir_view, strings_view, DirPath, DirVars, PathView,
};
use crate::strmap::StrMap;
use crate::text::{push_str, to_string};

verus! {

/// A per-alias variable bound to the output of a command.
#[derive(Debug, Clone)]
pub struct EnvCommand {
    /// The command line.
    pub cmd: String,
    /// The shell to run it through; without one it is split into words and run directly.
    pub shell: Option<String>,
}

/// The value of a per-alias variable: literal text, or the output of a command.
#[derive(Debug, Clone)]
pub enum EnvValue {
    Literal(String),
    Command(EnvCommand),
}

/// One variant of an alias.
#[derive(Debug, Clone)]
pub struct Alias {
    /// OS matcher (`windows`, `macos`, `linux`, `unix`, `any` and their other names);
    /// a variant without one is a fallback for every OS.
    pub os: Option<String>,
    /// Shell through which `cmd` is run as a script.
    pub shell: Option<String>,
    /// The full command line.
    pub cmd: Option<String>,
    /// The program, given apart from its arguments.
    pub command: Option<String>,
    /// The arguments of `command`.
    pub args: Vec<String>,
    /// Per-alias variables, exported to the child process and available to `${VAR}`.
    pub env: StrMap<EnvValue>,
}

impl Default for Alias {
    fn default() -> (a: Self)
        ensures
            a.os is None,
            a.shell is None,
            a.cmd is None,
            a.command is None,
            a.args@.len() == 0,
            a.env.keyed().len() == 0,
    {
        Alias {
            os: None,
            shell: None,
            cmd: None,
            command: None,
            args: Vec::new(),
            env: StrMap::new(),
        }
    }
}

/// An alias as written: one variant, or a list of variants.
#[derive(Debug)]
pub enum AliasEntry {
    Multi(Vec<Alias>),
    Single(Alias),
}

/// A configuration: aliases by name.
#[derive(Debug)]
pub struct Config {
    pub alias: StrMap<AliasEntry>,
}

impl Default for Config {
    /// A configuration without aliases.
    fn default() -> (c: Self)
        ensures
            c.alias.keyed().len() == 0,
    {
        Config { alias: StrMap::new() }
    }
}

/// Why an alias could not be used.
#[derive(Debug)]
pub enum ConfigError {
    /// The variant defines neither `cmd` nor `command`.
    MissingCommand,
    /// The variant defines both `cmd` and `command`.
    BothCommands,
    /// The variant has a `shell` together with `command`.
    ShellWithCommand,
    /// The variant names a shell that is not known.
    UnknownShell(String),
    /// No alias has the given name.
    AliasNotFound(String),
    /// The alias of the given name has no variant for the given OS.
    NoMatchingVariant(String, String),
}

/// The mathematical form of a `ConfigError`.
pub enum ConfigErrorSpec {
    MissingCommand,
    BothCommands,
    ShellWithCommand,
    UnknownShell(Seq<char>),
    AliasNotFound(Seq<char>),
    NoMatchingVariant(Seq<char>, Seq<char>),
}

impl View for ConfigError {
    type V = ConfigErrorSpec;

    open spec fn view(&self) -> ConfigErrorSpec {
        match self {
            ConfigError::MissingCommand => ConfigErrorSpec::MissingCommand,
            ConfigError::BothCommands => ConfigErrorSpec::BothCommands,
            ConfigError::ShellWithCommand => ConfigErrorSpec::ShellWithCommand,
            ConfigError::UnknownShell(s) => ConfigErrorSpec::UnknownShell(s@),
            ConfigError::AliasNotFound(n) => ConfigErrorSpec::AliasNotFound(n@),
            ConfigError::NoMatchingVariant(n, o) => ConfigErrorSpec::NoMatchingVariant(n@, o@),
        }
    }
}

/// The text that describes an error.
pub open spec fn config_error_message(e: ConfigErrorSpec) -> Seq<char> {
    match e {
        ConfigErrorSpec::MissingCommand => "alias must define either `cmd` or `command`"@,
        ConfigErrorSpec::BothCommands => "alias cannot define both `cmd` and `command`; choose one"@,
        ConfigErrorSpec::ShellWithCommand => "alias.shell requires `cmd` (script string), not `command` + `args`"@,
        ConfigErrorSpec::UnknownShell(s) => unknown_shell_message(s),
        ConfigErrorSpec::AliasNotFound(n) => "alias not found: `"@ + n + "`"@,
        ConfigErrorSpec::NoMatchingVariant(n, o) => "alias `"@ + n + "` has no variant matching OS `"@
            + o + "`"@,
    }
}

impl ConfigError {
    /// The text that describes this error.
    pub fn message(&self) -> (m: String)
        ensures
            m@ == config_error_message(self@),
    {
        match self {
            ConfigError::MissingCommand => to_string("alias must define either `cmd` or `command`"),
            ConfigError::BothCommands => to_string(
                "alias cannot define both `cmd` and `command`; choose one",
            ),
            ConfigError::ShellWithCommand => to_string(
                "alias.shell requires `cmd` (script string), not `command` + `args`",
            ),
            ConfigError::UnknownShell(s) => {
                let mut m = to_string("unknown shell `");
                push_str(&mut m, s.as_str());
                push_str(
                    &mut m,
                    "` (supported: bash, sh, zsh, fish, dash, pwsh, powershell, cmd)",
                );
                m
            },
            ConfigError::AliasNotFound(n) => {
                let mut m = to_string("alias not found: `");
                push_str(&mut m, n.as_str());
                push_str(&mut m, "`");
                m
            },
            ConfigError::NoMatchingVariant(n, o) => {
                let mut m = to_string("alias `");
                push_str(&mut m, n.as_str());
                push_str(&mut m, "` has no variant matching OS `");
                push_str(&mut m, o.as_str());
                push_str(&mut m, "`");
                m
            },
        }
    }
}

/// Whether a variant's fields go together: exactly one of `cmd` and `command`, no
/// `shell` with `command`, and only a known shell.
pub open spec fn validate_spec(a: Alias) -> Result<(), ConfigErrorSpec> {
    if a.cmd is None && a.command is None {
        Err(ConfigErrorSpec::MissingCommand)
    } else if a.cmd is Some && a.command is Some {
        Err(ConfigErrorSpec::BothCommands)
    } else if a.shell is Some && a.command is Some {
        Err(ConfigErrorSpec::ShellWithCommand)
    } else if a.shell matches Some(sh) && shell_invocation_spec(sh@) is None {
        Err(ConfigErrorSpec::UnknownShell(a.shell->0@))
    } else {
        Ok(())
    }
}

/// The variants of an alias entry, in declared order.
pub open spec fn variants_spec(e: AliasEntry) -> Seq<Alias> {
    match e {
        AliasEntry::Multi(v) => v@,
        AliasEntry::Single(a) => seq![a],
    }
}

/// Whether a variant names an OS matcher that matches `current`.
pub open spec fn matches_os(a: Alias, current: Seq<char>) -> bool {
    a.os matches Some(o) && os_matches_spec(o@, current)
}

/// The first variant from `i` on that names an OS matcher matching `current`.
pub open spec fn first_os_match(vs: Seq<Alias>, current: Seq<char>, i: int) -> Option<int>
    decreases vs.len() - i,
{
    if i < 0 || i >= vs.len() {
        None
    } else if matches_os(vs[i], current) {
        Some(i)
    } else {
        first_os_match(vs, current, i + 1)
    }
}

/// The first variant from `i` on that names no OS matcher.
pub open spec fn first_fallback(vs: Seq<Alias>, i: int) -> Option<int>
    decreases vs.len() - i,
{
    if i < 0 || i >= vs.len() {
        None
    } else if vs[i].os is None {
        Some(i)
    } else {
        first_fallback(vs, i + 1)
    }
}

/// The variant picked for the OS `current`: the first that names a matching OS, else
/// the first that names none.
pub open spec fn pick_variant(vs: Seq<Alias>, current: Seq<char>) -> Option<int> {
    match first_os_match(vs, current, 0) {
        Some(i) => Some(i),
        None => first_fallback(vs, 0),
    }
}

/// The variant that the alias `name` resolves to on the OS `current`, once validated.
pub open spec fn resolve_alias_spec(c: Config, name: Seq<char>, current: Seq<char>) -> Result<
    Alias,
    ConfigErrorSpec,
> {
    match c.alias.spec_get(name) {
        None => Err(ConfigErrorSpec::AliasNotFound(name)),
        Some(e) => match pick_variant(variants_spec(e), current) {
            None => Err(ConfigErrorSpec::NoMatchingVariant(name, current)),
            Some(i) => match validate_spec(variants_spec(e)[i]) {
                Ok(()) => Ok(variants_spec(e)[i]),
                Err(err) => Err(err),
            },
        },
    }
}

/// The mathematical form of the result of validating.
pub open spec fn unit_result(r: Result<(), ConfigError>) -> Result<(), ConfigErrorSpec> {
    match r {
        Ok(()) => Ok(()),
        Err(e) => Err(e@),
    }
}

/// A slice of one element (`std::slice::from_ref`).
#[verifier::external_body]
fn one_element(a: &Alias) -> (r: &[Alias])
    ensures
        r@ == seq![*a],
{
    std::slice::from_ref(a)
}

impl AliasEntry {
    /// The variants, in declared order.
    pub fn variants(&self) -> (r: &[Alias])
        ensures
            r@ == variants_spec(*self),
    {
        match self {
            AliasEntry::Multi(v) => v.as_slice(),
            AliasEntry::Single(a) => one_element(a),
        }
    }
}

impl Alias {
    /// Checks early that the fields go together, with a clear error where they do not.
    pub fn validate(&self) -> (r: Result<(), ConfigError>)
        ensures
            unit_result(r) == validate_spec(*self),
    {
        let has_cmd = self.cmd.is_some();
        let has_command = self.command.is_some();
        if !has_cmd && !has_command {
            return Err(ConfigError::MissingCommand);
        }
        if has_cmd && has_command {
            return Err(ConfigError::BothCommands);
        }
        if self.shell.is_some() && has_command {
            return Err(ConfigError::ShellWithCommand);
        }
        if let Some(shell) = &self.shell {
            if shell_invocation(shell.as_str()).is_none() {
                return Err(ConfigError::UnknownShell(shell.clone()));
            }
        }
        Ok(())
    }
}

impl Config {
    /// Resolves the alias `name` for the operating system `current`: the first variant,
    /// in declared order, whose `os` matcher matches `current`, else the first variant
    /// without `os`; the variant found is validated.
    pub fn resolve_alias(&self, name: &str, current: &str) -> (r: Result<&Alias, ConfigError>)
        ensures
            match r {
                Ok(a) => resolve_alias_spec(*self, name@, current@) == Ok::<Alias, ConfigErrorSpec>(*a),
                Err(e) => resolve_alias_spec(*self, name@, current@) == Err::<Alias, ConfigErrorSpec>(e@),
            },
    {
        let entry = match self.alias.get(name) {
            Some(e) => e,
            None => {
                return Err(ConfigError::AliasNotFound(to_string(name)));
            },
        };
        let variants = entry.variants();
        let ghost vs = variants@;
        let mut fallback: Option<usize> = None;
        let mut i: usize = 0;
        while i < variants.len()
            invariant
                vs == variants@,
                vs == variants_spec(*entry),
                self.alias.spec_get(name@) == Some(*entry),
                i <= vs.len(),
                first_os_match(vs, current@, 0) == first_os_match(vs, current@, i as int),
                match fallback {
                    Some(f) => f < i && first_fallback(vs, 0) == Some(f as int),
                    None => first_fallback(vs, 0) == first_fallback(vs, i as int),
                },
            decreases vs.len() - i,
        {
            let v = &variants[i];
            match &v.os {
                Some(os) => {
                    if os_matches(os.as_str(), current) {
                        match v.validate() {
                            Ok(()) => {
                                return Ok(v);
                            },
                            Err(e) => {
                                return Err(e);
                            },
                        }
                    }
                },
                None => {
                    if fallback.is_none() {
                        fallback = Some(i);
                    }
                },
            }
            i = i + 1;
        }
        match fallback {
            Some(f) => {
                let v = &variants[f];
                match v.validate() {
                    Ok(()) => Ok(v),
                    Err(e) => Err(e),
                }
            },
            None => Err(ConfigError::NoMatchingVariant(to_string(name), to_string(current))),
        }
    }
}

/// Where to look for the configuration file.
#[derive(Debug)]
pub enum ConfigSearch {
    /// The file named on the command line, which is used whether or not it exists.
    Explicit(String),
    /// The places to try, in order: the first that holds a file is used.
    Candidates(Vec<DirPath>),
}

/// The view of a place to look.
pub enum ConfigSearchSpec {
    Explicit(Seq<char>),
    Candidates(Seq<PathView>),
}

/// The view of a search.
pub open spec fn search_view(s: ConfigSearch) -> ConfigSearchSpec {
    match s {
        ConfigSearch::Explicit(p) => ConfigSearchSpec::Explicit(p@),
        ConfigSearch::Candidates(c) => ConfigSearchSpec::Candidates(c@.map_values(|d: DirPath| dir_view(d))),
    }
}

/// A sequence of the value, if there is one.
pub open spec fn present<T>(o: Option<T>) -> Seq<T> {
    match o {
        Some(x) => seq![x],
        None => seq![],
    }
}

/// The name of the configuration file.
pub open spec fn file_name() -> Seq<char> {
    "hx-exec.toml"@
}

/// The places where the configuration file is looked for, in order:
/// `./hx-exec.toml`, `hx-exec.toml` in Helix's configuration directory, then
/// `hx-exec/hx-exec.toml` in the platform's configuration directory; a place whose
/// directory is unknown is left out.
pub open spec fn config_candidates(cwd: Option<Seq<char>>, os: Seq<char>, v: DirVars) -> Seq<PathView> {
    present(
        match cwd {
            Some(c) => Some((c, seq![file_name()])),
            None => None,
        },
    ) + present(adjoin(helix_config_dir_spec(os, v), seq![file_name()])) + present(
        adjoin(config_dir_spec(os, v), seq!["hx-exec"@, file_name()]),
    )
}

/// The search that a request for the configuration makes.
pub open spec fn config_search_spec(explicit: Option<Seq<char>>, cwd: Option<Seq<char>>, os: Seq<char>, v: DirVars) -> ConfigSearchSpec {
    match explicit {
        Some(p) => ConfigSearchSpec::Explicit(p),
        None => ConfigSearchSpec::Candidates(config_candidates(cwd, os, v)),
    }
}

/// The view of an optional string.
pub open spec fn text_opt(o: Option<String>) -> Option<Seq<char>> {
    match o {
        Some(s) => Some(s@),
        None => None,
    }
}

/// Adds `d` with further segments `segs` to the list of places, when there is a `d`.
fn push_candidate(list: &mut Vec<DirPath>, d: Option<DirPath>, segs: &[&str])
    ensures
        final(list)@.map_values(|x: DirPath| dir_view(x)) == old(list)@.map_values(
            |x: DirPath| dir_view(x),
        ) + present(adjoin(opt_dir_view(d), segs@.map_values(|t: &str| t@))),
{
    let ghost before = list@;
    match d {
        Some(p) => {
            let mut segments = p.segments;
            let ghost start = segments@;
            let mut i: usize = 0;
            while i < segs.len()
                invariant
                    i <= segs.len(),
                    segments@.len() == start.len() + i,
                    forall|j: int| 0 <= j < start.len() ==> #[trigger] segments@[j] == start[j],
                    forall|j: int| 0 <= j < i ==> #[trigger] segments@[start.len() + j]@ == segs@[j]@,
                decreases segs.len() - i,
            {
                segments.push(to_string(segs[i]));
                i = i + 1;
            }
            let q = DirPath { base: p.base, segments };
            let ghost want = strings_view(start) + segs@.map_values(|t: &str| t@);
            assert forall|j: int| 0 <= j < want.len() implies strings_view(
                q.segments@,
            )[j] == want[j] by {
                if j >= start.len() {
                    let k = j - start.len();
                    assert(q.segments@[start.len() + k]@ == segs@[k]@);
                }
            }
            assert(strings_view(q.segments@) =~= want);
            list.push(q);
            assert(list@.map_values(|x: DirPath| dir_view(x)) =~= before.map_values(
                |x: DirPath| dir_view(x),
            ) + seq![dir_view(q)]);
        },
        None => {
            assert(list@.map_values(|x: DirPath| dir_view(x)) =~= before.map_values(
                |x: DirPath| dir_view(x),
            ) + seq![]);
        },
    }
}

/// Where to look for the configuration file: the explicit path when one is given,
/// else `./hx-exec.toml` (in `cwd`, when it is known), `hx-exec.toml` in Helix's
/// configuration directory, and `hx-exec/hx-exec.toml` in the platform's
/// configuration directory, in that order.
pub fn config_search(explicit: Option<String>, cwd: Option<String>, os: &str, vars: &DirVars) -> (r: ConfigSearch)
    ensures
        search_view(r) == config_search_spec(text_opt(explicit), text_opt(cwd), os@, *vars),
{
    match explicit {
        Some(p) => ConfigSearch::Explicit(p),
        None => {
            let mut list: Vec<DirPath> = Vec::new();
            let file: [&str; 1] = ["hx-exec.toml"];
            let nested: [&str; 2] = ["hx-exec", "hx-exec.toml"];
            assert(file@.map_values(|t: &str| t@) =~= seq![file_name()]);
            assert(nested@.map_values(|t: &str| t@) =~= seq!["hx-exec"@, file_name()]);
            assert(list@.map_values(|x: DirPath| dir_view(x)) =~= Seq::<PathView>::empty());
            let here = match cwd {
                Some(c) => Some(DirPath { base: c, segments: Vec::new() }),
                None => None,
            };
            proof {
                if here is Some {
                    assert(strings_view(here->0.segments@) =~= Seq::<Seq<char>>::empty());
                }
            }
            push_candidate(&mut list, here, &file);
            push_candidate(&mut list, helix_config_dir(os, vars), &file);
            push_candidate(&mut list, config_dir(os, vars), &nested);
            ConfigSearch::Candidates(list)
        },
    }
}

/// The first place that holds a file, given for each candidate whether it does.
pub fn first_existing(exists: &[bool]) -> (r: Option<usize>)
    ensures
        r matches Some(i) ==> i < exists@.len() && exists@[i as int] && forall|j: int|
            0 <= j < i ==> !#[trigger] exists@[j],
        r is None ==> forall|j: int| 0 <= j < exists@.len() ==> !#[trigger] exists@[j],
{
    let mut i: usize = 0;
    while i < exists.len()
        invariant
            i <= exists@.len(),
            forall|j: int| 0 <= j < i ==> !#[trigger] exists@[j],
        decreases exists.len() - i,
    {
        if exists[i] {
            return Some(i);
        }
        i = i + 1;
    }
    None
}

} // verus!
