//! Liaozhai MUX: the verified core of a text-world server.

pub mod account;
pub mod cli;
pub mod clock;
pub mod codec;
pub mod config;
pub mod connection;
pub mod constants;
pub mod error;
pub mod ids;
pub mod metadata;
pub mod params;
pub mod rate_limiter;
pub mod reads;
pub mod registry;
pub mod session;
pub mod store;
pub mod text;
