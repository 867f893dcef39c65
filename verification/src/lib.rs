//! Verified core of the `conduit` SSH tunnel tool: the parsers for the
//! command-line mapping specifications, the tunnel registry's record format
//! and state transitions, the configuration rules and the reconnect policy.

pub mod app;
pub mod cli;
pub mod decimal;
pub mod error;
pub mod expose;
pub mod forward;
pub mod report;
pub mod text;
pub mod tunnel_registry;
