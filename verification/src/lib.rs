//! Session containers for coding agents: the rules behind them, verified.
//!
//! The crate decides everything that can be decided from plain values: which command line starts a
//! session, how a `devcontainer.json` is merged and substituted, in which order features are
//! installed, how a build context is written. Reading files, running programs and talking to
//! registries is left to the program around it.

pub mod cli;
pub mod color;
pub mod compose;
pub mod config;
pub mod container;
pub mod decode;
pub mod devcontainer;
pub mod digest;
pub mod duplicate;
pub mod error;
pub mod harness;
pub mod json;
pub mod strmap;
pub mod path;
pub mod shell;
pub mod sort;
pub mod text;
pub mod toml_text;
