//! Configuration model and decision logic of local-llm.
//!
//! This crate owns the `/etc/local-llm/config.toml` schema, validates it, and
//! generates from it a [llama-swap](https://github.com/mostlygeek/llama-swap)
//! YAML configuration. It also holds what the `local-llm` CLI and the
//! `local-llm-resourced` daemon decide and compute; reading, writing and running
//! programs is left to the binary around it.

use vstd::prelude::*;

pub mod addr;
pub mod artifact_laws;
pub mod cli;
pub mod client;
pub mod config_laws;
pub mod configure;
pub mod daemon;
pub mod daemon_laws;
pub mod json;
pub mod monitor;
pub mod order;
pub mod output_laws;
pub mod runtime;
pub mod sampling_laws;
pub mod schema;
pub mod server;
pub mod shell;
pub mod state;
pub mod swap;
pub mod text;
pub mod text_laws;
pub mod yaml;

pub use runtime::{Runtime, StatusReport};
pub use schema::{Config, ConfigError};

verus! {

/// Default path to the mutable configuration file.
pub const DEFAULT_CONFIG_PATH: &'static str = "/etc/local-llm/config.toml";

/// Default runtime directory where generated artifacts are written.
pub const DEFAULT_RUNTIME_DIR: &'static str = "/run/local-llm";

/// File name (within the runtime dir) of the generated llama-swap config.
pub const SWAP_CONFIG_FILE: &'static str = "llama-swap.yaml";

/// File name (within the runtime dir) of the generated arbiter environment file.
pub const ARBITER_ENV_FILE: &'static str = "arbiter.env";

/// File name (within the runtime dir) of the resourced control socket.
pub const SOCKET_FILE: &'static str = "resourced.sock";

} // verus!
