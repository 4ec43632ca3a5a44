# hx-exec

A launcher for Helix language servers and tools: it expands `${VAR}`, `$VAR`,
`$(cmd ...)` and `\$` in a command line, picks an alias variant for the current
operating system from `hx-exec.toml`, and runs the result (directly, or through a
named shell).

## Layout

- `src/` — the verified library (Verus).
  - `expand.rs` — the expansion rules, as a computation that names the next command it
    needs run and is resumed with the outcomes of the commands run so far.
  - `config.rs` — aliases, variant validation, per-OS variant selection, and the order
    in which the configuration file is looked for.
  - `runner.rs` — building the final command from an alias or an argument list.
  - `platform.rs` — OS matchers and shell invocations.
  - `presets.rs` — the preset variables and the user's directories, each given as a
    base and the segments to adjoin to it.
  - `strmap.rs`, `text.rs` — an insertion-ordered string map and string helpers.
  - `words.rs` — shell-style splitting and quoting, done by the `shell-words` crate.
  - `laws.rs` — properties of the library as a whole.
- `app/` — the command-line program: reading the configuration file and the
  environment, joining directories into paths, probing for files, running commands,
  and executing the result.
- `tests/` — tests of the library.
