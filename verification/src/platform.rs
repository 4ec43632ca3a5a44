//! Operating-system matchers and shell invocations.

use vstd::prelude::*;

use crate::text::{canonical, canonical_form, push_str, str_eq, to_string};

verus! {

/// The canonical name that an OS matcher stands for: `windows`, `macos`, `linux`,
/// `unix` or `any`, or else the trimmed, lower-cased matcher itself.
pub open spec fn normalize_os_spec(raw: Seq<char>) -> Seq<char> {
    let t = canonical(raw);
    if t == "windows"@ || t == "win"@ || t == "win32"@ || t == "win64"@ {
        "windows"@
    } else if t == "macos"@ || t == "mac"@ || t == "darwin"@ || t == "osx"@ {
        "macos"@
    } else if t == "linux"@ {
        "linux"@
    } else if t == "unix"@ {
        "unix"@
    } else if t == "any"@ || t == "*"@ || t.len() == 0 {
        "any"@
    } else {
        t
    }
}

/// Whether the matcher `want` accepts the operating system `current`.
pub open spec fn os_matches_spec(want: Seq<char>, current: Seq<char>) -> bool {
    let w = normalize_os_spec(want);
    if w == "any"@ {
        true
    } else if w == "unix"@ {
        current != "windows"@
    } else {
        w == current
    }
}

/// The program and leading flags with which a script is handed to a known shell,
/// by the shell's canonical (trimmed, lower-cased) name.
pub open spec fn shell_spec(name: Seq<char>) -> Option<(Seq<char>, Seq<Seq<char>>)> {
    if name == "bash"@ {
        Some(("bash"@, seq!["-c"@]))
    } else if name == "sh"@ {
        Some(("sh"@, seq!["-c"@]))
    } else if name == "zsh"@ {
        Some(("zsh"@, seq!["-c"@]))
    } else if name == "fish"@ {
        Some(("fish"@, seq!["-c"@]))
    } else if name == "dash"@ {
        Some(("dash"@, seq!["-c"@]))
    } else if name == "pwsh"@ {
        Some(("pwsh"@, seq!["-NoProfile"@, "-Command"@]))
    } else if name == "powershell"@ {
        Some(("powershell"@, seq!["-NoProfile"@, "-Command"@]))
    } else if name == "cmd"@ || name == "cmd.exe"@ {
        Some(("cmd"@, seq!["/C"@]))
    } else {
        None
    }
}

/// How a shell given by its user-written name is invoked, if it is a known shell.
pub open spec fn shell_invocation_spec(shell: Seq<char>) -> Option<(Seq<char>, Seq<Seq<char>>)> {
    shell_spec(canonical(shell))
}

/// The error text for a shell that is not known.
pub open spec fn unknown_shell_message(shell: Seq<char>) -> Seq<char> {
    "unknown shell `"@ + shell + "` (supported: bash, sh, zsh, fish, dash, pwsh, powershell, cmd)"@
}

/// Normalizes a user-supplied OS matcher to its canonical form (`win`, `darwin`, `mac`
/// and the like become `windows` or `macos`; `*` and the empty matcher become `any`).
pub fn normalize_os(raw: &str) -> (r: String)
    ensures
        r@ == normalize_os_spec(raw@),
{
    let t = canonical_form(raw);
    let s = t.as_str();
    if str_eq(s, "windows") || str_eq(s, "win") || str_eq(s, "win32") || str_eq(s, "win64") {
        to_string("windows")
    } else if str_eq(s, "macos") || str_eq(s, "mac") || str_eq(s, "darwin") || str_eq(s, "osx") {
        to_string("macos")
    } else if str_eq(s, "linux") {
        to_string("linux")
    } else if str_eq(s, "unix") {
        to_string("unix")
    } else if str_eq(s, "any") || str_eq(s, "*") || s.is_empty() {
        to_string("any")
    } else {
        t
    }
}

/// Whether the user-supplied matcher `want` matches the operating system `current`:
/// `any` matches every system, `unix` every system but Windows, and any other matcher
/// the system of its canonical name.
pub fn os_matches(want: &str, current: &str) -> (r: bool)
    ensures
        r == os_matches_spec(want@, current@),
{
    let w = normalize_os(want);
    if str_eq(w.as_str(), "any") {
        true
    } else if str_eq(w.as_str(), "unix") {
        !str_eq(current, "windows")
    } else {
        str_eq(w.as_str(), current)
    }
}

fn invocation(program: &str, flags: Vec<String>) -> (r: Option<(String, Vec<String>)>)
    ensures
        r matches Some(p) && p.0@ == program@ && p.1@ == flags@,
{
    Some((to_string(program), flags))
}

fn dash_c() -> (r: Vec<String>)
    ensures
        r.deep_view() == seq!["-c"@],
{
    let mut v = Vec::new();
    v.push(to_string("-c"));
    assert(v.deep_view() =~= seq!["-c"@]);
    v
}

fn powershell_flags() -> (r: Vec<String>)
    ensures
        r.deep_view() == seq!["-NoProfile"@, "-Command"@],
{
    let mut v = Vec::new();
    v.push(to_string("-NoProfile"));
    v.push(to_string("-Command"));
    assert(v.deep_view() =~= seq!["-NoProfile"@, "-Command"@]);
    v
}

fn cmd_flags() -> (r: Vec<String>)
    ensures
        r.deep_view() == seq!["/C"@],
{
    let mut v = Vec::new();
    v.push(to_string("/C"));
    assert(v.deep_view() =~= seq!["/C"@]);
    v
}

/// The program and flags with which a script is run by the named shell, or `None` for
/// a shell that is not known.
pub fn shell_invocation(shell: &str) -> (r: Option<(String, Vec<String>)>)
    ensures
        match shell_invocation_spec(shell@) {
            Some((p, f)) => r matches Some(x) && x.0@ == p && x.1.deep_view() == f,
            None => r is None,
        },
{
    let t = canonical_form(shell);
    let s = t.as_str();
    if str_eq(s, "bash") {
        invocation("bash", dash_c())
    } else if str_eq(s, "sh") {
        invocation("sh", dash_c())
    } else if str_eq(s, "zsh") {
        invocation("zsh", dash_c())
    } else if str_eq(s, "fish") {
        invocation("fish", dash_c())
    } else if str_eq(s, "dash") {
        invocation("dash", dash_c())
    } else if str_eq(s, "pwsh") {
        invocation("pwsh", powershell_flags())
    } else if str_eq(s, "powershell") {
        invocation("powershell", powershell_flags())
    } else if str_eq(s, "cmd") || str_eq(s, "cmd.exe") {
        invocation("cmd", cmd_flags())
    } else {
        None
    }
}

/// Checks that a shell name is known; the error names the shell and the supported ones.
pub fn validate_shell(shell: &str) -> (r: Result<(), String>)
    ensures
        r is Ok <==> shell_invocation_spec(shell@) is Some,
        r matches Err(m) ==> m@ == unknown_shell_message(shell@),
{
    if shell_invocation(shell).is_none() {
        let mut m = to_string("unknown shell `");
        push_str(&mut m, shell);
        push_str(&mut m, "` (supported: bash, sh, zsh, fish, dash, pwsh, powershell, cmd)");
        Err(m)
    } else {
        Ok(())
    }
}

} // verus!
