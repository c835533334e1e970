[package]
name = "cargo_hack"
version = "0.6.34"
edition = "2021"
publish = false

[dependencies]
anyhow = "1"
lexopt = "0.3"
serde_json = "1"
toml_edit = "0.22"
termcolor = "1"
is-terminal = "0.4"
ctrlc = "3"
slab = "0.4"
same-file = "1"
tempfile = "3"
libc = "0.2"
nanoid = "0.4"
cargo-config2 = "0.1"

[dev-dependencies]
toml = "0.8"
