//! Verified core of a cargo subcommand that runs cargo over feature
//! combinations, Rust versions and workspace members.

pub mod args;
pub mod by_version;
pub mod cargo;
pub mod cli;
pub mod command_line;
pub mod command;
pub mod dev_deps;
pub mod error;
pub mod feature_map;
pub mod features;
pub mod help;
pub mod json;
pub mod manifest;
pub mod members;
pub mod metadata;
pub mod package;
pub mod pattern;
pub mod runs;
pub mod rustup;
pub mod target_dir;
pub mod term;
pub mod text;
pub mod toml;
pub mod version;
