//! Runtime wiring shared by the daemon and CLI: resolved paths (driven by
//! environment variables the NixOS module sets) and the status report type that
//! travels over the control socket.

use crate::text::chars_of;
use crate::{
    ARBITER_ENV_FILE, DEFAULT_CONFIG_PATH, DEFAULT_RUNTIME_DIR, SOCKET_FILE, SWAP_CONFIG_FILE,
};
use vstd::prelude::*;

verus! {

/// Whether a Unix path starts at the root.
pub open spec fn is_absolute(path: Seq<char>) -> bool {
    path.len() > 0 && path[0] == '/'
}

/// The Unix path that `path` names when it is read in the directory `base`.
pub open spec fn path_in(base: Seq<char>, path: Seq<char>) -> Seq<char> {
    if is_absolute(path) {
        path
    } else if base.len() == 0 || base.last() == '/' {
        base + path
    } else {
        base.push('/') + path
    }
}

/// The Unix path that `path` names when it is read in the directory `base`.
pub fn join_path(base: &str, path: &str) -> (r: String)
    ensures
        r@ == path_in(base@, path@),
{
    let p = chars_of(path);
    if p.len() > 0 && p[0] == '/' {
        return path.to_owned();
    }
    let b = chars_of(base);
    let mut out = base.to_owned();
    if b.len() > 0 && b[b.len() - 1] != '/' {
        out.push('/');
    }
    out.append(path);
    out
}

/// Resolved runtime locations. Values are taken from the environment (set by the
/// systemd units in the NixOS module) and fall back to sensible defaults so the
/// binaries also work when invoked by hand.
#[derive(Debug)]
pub struct Runtime {
    pub config_path: String,
    pub runtime_dir: String,
    /// Absolute path to the `llama-server` binary (from the llama.cpp package).
    pub llama_server: String,
    /// The systemd unit name of the arbiter, restarted when config changes.
    pub arbiter_unit: String,
}

impl Clone for Runtime {
    fn clone(&self) -> (r: Self)
        ensures
            r == *self,
    {
        Runtime {
            config_path: self.config_path.clone(),
            runtime_dir: self.runtime_dir.clone(),
            llama_server: self.llama_server.clone(),
            arbiter_unit: self.arbiter_unit.clone(),
        }
    }
}

/// The value of an environment variable, or what stands in for it.
pub open spec fn value_or(value: Option<String>, default: Seq<char>) -> Seq<char> {
    match value {
        Some(v) => v@,
        None => default,
    }
}

fn or_default(value: Option<String>, default: &str) -> (r: String)
    ensures
        r@ == value_or(value, default@),
{
    match value {
        Some(v) => v,
        None => default.to_owned(),
    }
}

impl Runtime {
    /// Whether the runtime has the values of the environment variables, and the
    /// defaults for those that are not set.
    pub open spec fn is_of_env(
        self,
        config: Option<String>,
        runtime_dir: Option<String>,
        llama_server: Option<String>,
        arbiter_unit: Option<String>,
    ) -> bool {
        &&& self.config_path@ == value_or(config, "/etc/local-llm/config.toml"@)
        &&& self.runtime_dir@ == value_or(runtime_dir, "/run/local-llm"@)
        &&& self.llama_server@ == value_or(llama_server, "llama-server"@)
        &&& self.arbiter_unit@ == value_or(arbiter_unit, "local-llm-arbiter.service"@)
    }

    /// The path of a file in the runtime directory.
    pub open spec fn file_path(self, name: Seq<char>) -> Seq<char> {
        path_in(self.runtime_dir@, name)
    }

    /// Build a [`Runtime`] from the values of the environment variables
    /// `LOCAL_LLM_CONFIG`, `LOCAL_LLM_RUNTIME_DIR`, `LOCAL_LLM_LLAMA_SERVER` and
    /// `LOCAL_LLM_ARBITER_UNIT`.
    pub fn from_env(
        config: Option<String>,
        runtime_dir: Option<String>,
        llama_server: Option<String>,
        arbiter_unit: Option<String>,
    ) -> (r: Self)
        ensures
            r.is_of_env(config, runtime_dir, llama_server, arbiter_unit),
            r.config_path@ == value_or(config, DEFAULT_CONFIG_PATH@),
            r.runtime_dir@ == value_or(runtime_dir, DEFAULT_RUNTIME_DIR@),
            r.llama_server@ == value_or(llama_server, "llama-server"@),
            r.arbiter_unit@ == value_or(arbiter_unit, "local-llm-arbiter.service"@),
    {
        Runtime {
            config_path: or_default(config, DEFAULT_CONFIG_PATH),
            runtime_dir: or_default(runtime_dir, DEFAULT_RUNTIME_DIR),
            llama_server: or_default(llama_server, "llama-server"),
            arbiter_unit: or_default(arbiter_unit, "local-llm-arbiter.service"),
        }
    }

    pub fn swap_config_path(&self) -> (r: String)
        ensures
            r@ == path_in(self.runtime_dir@, SWAP_CONFIG_FILE@),
            r@ == self.file_path("llama-swap.yaml"@),
    {
        join_path(self.runtime_dir.as_str(), SWAP_CONFIG_FILE)
    }

    pub fn arbiter_env_path(&self) -> (r: String)
        ensures
            r@ == path_in(self.runtime_dir@, ARBITER_ENV_FILE@),
            r@ == self.file_path("arbiter.env"@),
    {
        join_path(self.runtime_dir.as_str(), ARBITER_ENV_FILE)
    }

    pub fn socket_path(&self) -> (r: String)
        ensures
            r@ == path_in(self.runtime_dir@, SOCKET_FILE@),
            r@ == self.file_path("resourced.sock"@),
    {
        join_path(self.runtime_dir.as_str(), SOCKET_FILE)
    }
}

/// A point-in-time view of the system, returned by resourced over the socket.
#[derive(Debug, Clone)]
pub struct StatusReport {
    pub config_path: String,
    pub config_valid: bool,
    pub config_error: Option<String>,
    pub listen: String,
    pub models: Vec<ModelStatus>,
    pub groups: Vec<String>,
    pub gpus: Vec<GpuStatus>,
    pub ram: Option<MemStatus>,
    /// Names of models llama-swap currently reports as running (best effort).
    pub running: Vec<String>,
}

impl Default for StatusReport {
    fn default() -> (r: Self)
        ensures
            r.config_path@ == Seq::<char>::empty(),
            !r.config_valid,
            r.config_error is None,
            r.listen@ == Seq::<char>::empty(),
            r.models@.len() == 0,
            r.groups@.len() == 0,
            r.gpus@.len() == 0,
            r.ram is None,
            r.running@.len() == 0,
    {
        StatusReport {
            config_path: String::new(),
            config_valid: false,
            config_error: None,
            listen: String::new(),
            models: Vec::new(),
            groups: Vec::new(),
            gpus: Vec::new(),
            ram: None,
            running: Vec::new(),
        }
    }
}

#[derive(Debug, Clone)]
pub struct ModelStatus {
    pub name: String,
    pub source: String,
    pub aliases: Vec<String>,
    pub ttl: u32,
    pub running: bool,
}

#[derive(Debug)]
pub struct GpuStatus {
    pub index: u32,
    pub name: String,
    pub vendor: String,
    pub memory_total_mb: u64,
    pub memory_used_mb: u64,
    pub utilization_pct: Option<u32>,
}

impl Clone for GpuStatus {
    fn clone(&self) -> (r: Self)
        ensures
            r == *self,
    {
        GpuStatus {
            index: self.index,
            name: self.name.clone(),
            vendor: self.vendor.clone(),
            memory_total_mb: self.memory_total_mb,
            memory_used_mb: self.memory_used_mb,
            utilization_pct: self.utilization_pct,
        }
    }
}

#[derive(Debug, Clone, Copy, PartialEq, Eq)]
pub struct MemStatus {
    pub total_mb: u64,
    pub used_mb: u64,
}

/// Requests the CLI can send to resourced over the control socket. One JSON
/// object per line; resourced replies with one JSON line.
#[derive(Debug, Clone, Copy, PartialEq, Eq)]
pub enum Request {
    /// Return the current [`StatusReport`].
    Status,
    /// Re-read config, regenerate the arbiter config and restart it.
    Reload,
    /// Validate the on-disk config without applying it.
    Validate,
}

/// Replies resourced sends back to the CLI.
#[derive(Debug, Clone)]
pub enum Response {
    Status(StatusReport),
    /// The request was carried out.
    Done { message: String },
    Error { message: String },
}

} // verus!
