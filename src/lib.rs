//! Dotfile profiles: modules of configuration files kept under a profile
//! directory and linked into the user's configuration directory.
//!
//! The library holds the reconciliation logic as verified functions over
//! plain values: path computation, the selection of the files of a module,
//! the link, copy and report plans of the three actions, and the order in
//! which the post-update scripts run. Reading directories and touching the
//! file system is left to the caller, which hands the results back.
pub mod cli;
pub mod config;
pub mod laws;
pub mod paths;
pub mod profiles;
pub mod scripts;

pub use cli::{Action, Cli, ProfileArgs};
pub use config::Config;
pub use paths::expand_tilde;
pub use profiles::{ensure_exists, ProfileAction};
