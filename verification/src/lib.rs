//! Checking and applying updates to executables installed with `cargo install`:
//! parsing of `.crates.toml` package descriptors, version selection, per-package
//! build configuration, and resolution of the registries that packages come from.

pub mod text;
pub mod env;
pub mod sorted;
pub mod version;
pub mod ident;
pub mod urls;
pub mod toml_value;
pub mod packages;
pub mod installed;
pub mod config;
pub mod filter;
pub mod cargo_config;
pub mod index;
pub mod sources;
pub mod sparse;
pub mod auth;
pub mod credentials;
pub mod git;
pub mod options;
pub mod report;
pub mod locate;
