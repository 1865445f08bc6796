//! A file-scoped filter for the diagnostics that `cargo clippy` reports.
//!
//! The library holds the decisions: which files of the command line belong to the
//! workspace, which workspace packages own them, how the configuration layers are
//! combined, how the `cargo clippy` command line is built, and which diagnostics are
//! reported.

pub mod cli;
pub mod clippy;
pub mod config;
pub mod context;
pub mod diagnostics;
pub mod order;
pub mod paths;
pub mod packages;
pub mod error;
pub mod matcher;
mod outside_types;
mod filesystem;
