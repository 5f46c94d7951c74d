//! Server configuration: sections with their defaults, and the command-line
//! overrides applied on top of what the configuration file gives.

use vstd::prelude::*;
use vstd::string::StringExecFns;

use crate::clock;
use crate::constants;
use crate::params::Argon2Params;

verus! {

/// Network listener configuration.
#[derive(Debug, Clone)]
pub struct ServerConfig {
    pub bind_address: String,
    pub port: u16,
    pub max_connections: usize,
    pub shutdown_drain_secs: u64,
}

/// Authentication configuration.
#[derive(Debug, Clone)]
pub struct AuthConfig {
    pub db_path: String,
    pub max_login_attempts: u32,
    pub argon2_memory_cost: u32,
    pub argon2_time_cost: u32,
    pub argon2_parallelism: u32,
    pub rate_limit_window_secs: u64,
    pub rate_limit_max_failures: usize,
    pub rate_limiter_max_entries: usize,
}

/// World registry configuration.
#[derive(Debug, Clone)]
pub struct WorldsConfig {
    pub registry_path: String,
}

/// Logging configuration.
#[derive(Debug, Clone)]
pub struct LoggingConfig {
    pub default_filter: String,
}

/// Top-level server configuration.
#[derive(Debug, Clone)]
pub struct AppConfig {
    pub server: ServerConfig,
    pub auth: AuthConfig,
    pub worlds: WorldsConfig,
    pub logging: LoggingConfig,
}

/// Command-line overrides applied on top of the configuration file.
#[derive(Debug, Clone)]
pub struct Overrides {
    pub port: Option<u16>,
    pub bind_address: Option<String>,
}

/// Is `c` the default server section?
pub open spec fn default_server(c: ServerConfig) -> bool {
    &&& c.bind_address@ == constants::DEFAULT_BIND_ADDRESS@
    &&& c.port == constants::DEFAULT_PORT
    &&& c.max_connections == constants::DEFAULT_MAX_CONNECTIONS
    &&& c.shutdown_drain_secs == constants::DEFAULT_SHUTDOWN_DRAIN_SECS
}

/// Is `c` the default authentication section?
pub open spec fn default_auth(c: AuthConfig) -> bool {
    &&& c.db_path@ == constants::DEFAULT_DB_PATH@
    &&& c.max_login_attempts == constants::DEFAULT_MAX_LOGIN_ATTEMPTS
    &&& c.argon2_memory_cost == constants::DEFAULT_ARGON2_MEMORY_COST
    &&& c.argon2_time_cost == constants::DEFAULT_ARGON2_TIME_COST
    &&& c.argon2_parallelism == constants::DEFAULT_ARGON2_PARALLELISM
    &&& c.rate_limit_window_secs == constants::DEFAULT_RATE_LIMIT_WINDOW_SECS
    &&& c.rate_limit_max_failures == constants::DEFAULT_RATE_LIMIT_MAX_FAILURES
    &&& c.rate_limiter_max_entries == constants::DEFAULT_RATE_LIMITER_MAX_ENTRIES
}

impl Default for ServerConfig {
    fn default() -> (c: Self)
        ensures
            default_server(c),
    {
        Self {
            bind_address: String::from_str(constants::DEFAULT_BIND_ADDRESS),
            port: constants::DEFAULT_PORT,
            max_connections: constants::DEFAULT_MAX_CONNECTIONS,
            shutdown_drain_secs: constants::DEFAULT_SHUTDOWN_DRAIN_SECS,
        }
    }
}

impl Default for AuthConfig {
    fn default() -> (c: Self)
        ensures
            default_auth(c),
    {
        Self {
            db_path: String::from_str(constants::DEFAULT_DB_PATH),
            max_login_attempts: constants::DEFAULT_MAX_LOGIN_ATTEMPTS,
            argon2_memory_cost: constants::DEFAULT_ARGON2_MEMORY_COST,
            argon2_time_cost: constants::DEFAULT_ARGON2_TIME_COST,
            argon2_parallelism: constants::DEFAULT_ARGON2_PARALLELISM,
            rate_limit_window_secs: constants::DEFAULT_RATE_LIMIT_WINDOW_SECS,
            rate_limit_max_failures: constants::DEFAULT_RATE_LIMIT_MAX_FAILURES,
            rate_limiter_max_entries: constants::DEFAULT_RATE_LIMITER_MAX_ENTRIES,
        }
    }
}

impl Default for WorldsConfig {
    fn default() -> (c: Self)
        ensures
            c.registry_path@ == constants::DEFAULT_REGISTRY_PATH@,
    {
        Self { registry_path: String::from_str(constants::DEFAULT_REGISTRY_PATH) }
    }
}

impl Default for LoggingConfig {
    fn default() -> (c: Self)
        ensures
            c.default_filter@ == constants::DEFAULT_LOG_FILTER@,
    {
        Self { default_filter: String::from_str(constants::DEFAULT_LOG_FILTER) }
    }
}

impl Default for AppConfig {
    fn default() -> (c: Self)
        ensures
            default_server(c.server),
            default_auth(c.auth),
            c.worlds.registry_path@ == constants::DEFAULT_REGISTRY_PATH@,
            c.logging.default_filter@ == constants::DEFAULT_LOG_FILTER@,
    {
        Self {
            server: ServerConfig::default(),
            auth: AuthConfig::default(),
            worlds: WorldsConfig::default(),
            logging: LoggingConfig::default(),
        }
    }
}

impl Default for Overrides {
    fn default() -> (o: Self)
        ensures
            o.port is None,
            o.bind_address is None,
    {
        Self { port: None, bind_address: None }
    }
}

impl AuthConfig {
    /// The argon2 parameters of this section.
    pub fn argon2_params(&self) -> (p: Argon2Params)
        ensures
            p == (Argon2Params {
                m_cost: self.argon2_memory_cost,
                t_cost: self.argon2_time_cost,
                p_cost: self.argon2_parallelism,
            }),
    {
        Argon2Params::new(self.argon2_memory_cost, self.argon2_time_cost, self.argon2_parallelism)
    }

    /// The rate-limit window of this section, `rate_limit_window_secs`
    /// seconds.
    pub fn rate_limit_window(&self) -> (d: core::time::Duration)
        ensures
            clock::duration_whole_secs(d) == self.rate_limit_window_secs,
            clock::duration_total_nanos(d) == self.rate_limit_window_secs * 1_000_000_000,
    {
        clock::duration_from_secs(self.rate_limit_window_secs)
    }
}

/// The configuration: the parsed configuration file if there is one, else
/// the defaults, with the command-line overrides applied on top (a given
/// port or bind address replaces the file's; everything else stays).
///
/// Reading and parsing the file is left to the caller, which hands over
/// what it parsed.
pub fn load(file: Option<AppConfig>, overrides: Overrides) -> (r: AppConfig)
    ensures
        match overrides.port {
            Some(p) => r.server.port == p,
            None => r.server.port == (match file {
                Some(c) => c.server.port,
                None => constants::DEFAULT_PORT,
            }),
        },
        match overrides.bind_address {
            Some(b) => r.server.bind_address == b,
            None => match file {
                Some(c) => r.server.bind_address == c.server.bind_address,
                None => r.server.bind_address@ == constants::DEFAULT_BIND_ADDRESS@,
            },
        },
        match file {
            Some(c) => {
                &&& r.server.max_connections == c.server.max_connections
                &&& r.server.shutdown_drain_secs == c.server.shutdown_drain_secs
                &&& r.auth == c.auth
                &&& r.worlds == c.worlds
                &&& r.logging == c.logging
            },
            None => {
                &&& r.server.max_connections == constants::DEFAULT_MAX_CONNECTIONS
                &&& r.server.shutdown_drain_secs == constants::DEFAULT_SHUTDOWN_DRAIN_SECS
                &&& default_auth(r.auth)
                &&& r.worlds.registry_path@ == constants::DEFAULT_REGISTRY_PATH@
                &&& r.logging.default_filter@ == constants::DEFAULT_LOG_FILTER@
            },
        },
{
    let mut cfg = match file {
        Some(c) => c,
        None => AppConfig::default(),
    };
    if let Some(port) = overrides.port {
        cfg.server.port = port;
    }
    if let Some(bind) = overrides.bind_address {
        cfg.server.bind_address = bind;
    }
    cfg
}

} // verus!
