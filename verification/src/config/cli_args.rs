//! Command line options for configuring the load balancer.
//!
//! The configuration options take precedence in this order: command line,
//! config file, defaults. If a config file is present, but command line
//! options are also present, the command line options override the config
//! file options. If no config file is present, the default configuration is
//! used. Argument parsing itself happens outside this crate; the parsed
//! values are carried in this struct.

use vstd::prelude::*;

verus! {

/// The configuration values chosen at startup.
///
/// Paths are carried as plain strings; the process that parses the command
/// line resolves them.
pub struct Blutgang {
    /// Path to a TOML config file.
    pub config: String,
    /// RPC endpoints.
    pub rpc_list: Vec<String>,
    /// Address to listen to.
    pub address: Option<String>,
    /// Port to listen to.
    pub port: Option<u16>,
    /// Latency moving average length.
    pub ma_length: Option<usize>,
    /// Time for the RPC to respond before it leaves the active queue.
    pub ttl: Option<u128>,
    /// Maximum amount of retries before the current request is dropped.
    pub max_retries: Option<u32>,
    /// Block time in ms.
    pub expected_block_time: Option<u64>,
    /// How often to perform the health check.
    pub health_check_ttl: Option<u64>,
    /// Clear cache.
    pub clear_cache: bool,
    pub no_clear_cache: bool,
    /// Sort RPCs by latency on startup.
    pub sort_on_startup: bool,
    pub no_sort_on_startup: bool,
    /// Enable health checking.
    pub health_check: bool,
    pub no_health_check: bool,
    /// Enable content type header checking.
    pub header_check: bool,
    pub no_header_check: bool,
    /// Supress the checking RPC health messages.
    pub supress_rpc_check: bool,
    pub no_supress_rpc_check: bool,
    /// Database path.
    pub db_path: Option<String>,
    /// Enable the sled database backend.
    pub sled: bool,
    /// Enable the rocksdb database backend.
    pub rocksdb: bool,
    /// Path to a privileged admin config.
    pub admin_path: Option<String>,
    /// Enable the admin namespace.
    pub admin: bool,
    pub no_admin: bool,
    /// Address to listen to for the admin namespace.
    pub admin_address: Option<String>,
    /// Port to listen to for the admin namespace.
    pub admin_port: Option<u16>,
    /// Make the admin namespace readonly.
    pub admin_readonly: bool,
    pub no_admin_readonly: bool,
    /// Enable admin comms with JWT.
    pub admin_jwt: bool,
    pub no_admin_jwt: bool,
    /// JWT token.
    pub admin_key: Option<String>,
}

} // verus!
