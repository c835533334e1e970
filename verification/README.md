# cargo_hack

A cargo subcommand that runs cargo over feature combinations, Rust versions
and workspace members, written in Verus: the decisions it makes are stated as
contracts and proved.

- `src/` is the verified library. It reads the command line (lexopt splits
  it in `command_line`; `args`, `cli`, `help` read it), plans the runs of
  each package (`features`, `feature_map`, `runs`, `members`, `package`), handles Rust versions and toolchains (`version`,
  `rustup`, `by_version`, `cargo`), reads the output of `cargo metadata`
  (`json`, `metadata`), reads and rewrites manifests through toml_edit
  (`toml`, `manifest`, `dev_deps`), and shows commands (`command`, `term`,
  `target_dir`).
- `app/` is the program around it: it reads the environment, runs cargo and
  rustup, parses the JSON that cargo prints with serde_json, changes files
  and prints.
- `tests/` runs the library on concrete inputs.
