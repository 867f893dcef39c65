//! Reverse (`connect` / `expose`) tunnels: configuration, authentication
//! choice, the reconnect policy and how session failures are classified.

pub mod types;
pub mod auth;
pub mod session;
