//! The command line as plain values: what each subcommand was given.

use vstd::prelude::*;

verus! {

/// A parsed command line.
#[derive(Debug, Clone)]
pub struct Cli {
    pub command: Commands,
}

/// The top-level subcommands.
#[derive(Debug, Clone)]
pub enum Commands {
    Connect(ConnectArgs),
    Expose(ExposeArgs),
    Forward(ForwardArgs),
    Tunnel(TunnelArgs),
    List(ListArgs),
    Status(StatusArgs),
    Close(CloseArgs),
    Stop(StopArgs),
    Restart(RestartArgs),
    Delete(DeleteArgs),
    Logs(LogsArgs),
}

/// `connect --remote [USER@]SERVER:REMOTE_PORT:[LOCAL_HOST:]LOCAL_PORT`.
#[derive(Debug, Clone)]
pub struct ConnectArgs {
    pub remote: String,
    pub user: Option<String>,
    pub port: u16,
    pub password: Option<String>,
    pub key: Option<String>,
    pub daemon: bool,
    pub log_file: Option<String>,
    pub insecure_accept_host_key: bool,
}

/// `forward -L LOCAL_PORT:TARGET_HOST:TARGET_PORT ... -r [USER@]SERVER[:PORT]`.
#[derive(Debug, Clone)]
pub struct ForwardArgs {
    pub local: Vec<String>,
    pub remote: String,
    pub user: Option<String>,
    pub bind: Option<String>,
    pub gateway: bool,
    pub password: Option<String>,
    pub key: Option<String>,
    pub daemon: bool,
    pub log_file: Option<String>,
    pub insecure_accept_host_key: bool,
}

/// `tunnel <subcommand>`.
#[derive(Debug, Clone)]
pub struct TunnelArgs {
    pub command: TunnelCommands,
}

/// The subcommands of `tunnel`.
#[derive(Debug, Clone)]
pub enum TunnelCommands {
    Create(ConnectArgs),
    List(ListArgs),
    Show(StatusArgs),
    Close(CloseArgs),
    Stop(StopArgs),
    Restart(RestartArgs),
    Delete(DeleteArgs),
    Logs(LogsArgs),
}

/// `list [--all]`.
#[derive(Debug, Clone, Copy)]
pub struct ListArgs {
    pub all: bool,
}

/// `status ID`.
#[derive(Debug, Clone)]
pub struct StatusArgs {
    pub id: String,
}

/// `close ID`.
#[derive(Debug, Clone)]
pub struct CloseArgs {
    pub id: String,
}

/// `stop [--all]`.
#[derive(Debug, Clone, Copy)]
pub struct StopArgs {
    pub all: bool,
}

/// `restart ID (--password P | --key PATH) --insecure-accept-host-key`.
#[derive(Debug, Clone)]
pub struct RestartArgs {
    pub id: String,
    pub password: Option<String>,
    pub key: Option<String>,
    pub insecure_accept_host_key: bool,
}

/// `delete ID [--force]`.
#[derive(Debug, Clone)]
pub struct DeleteArgs {
    pub id: String,
    pub force: bool,
}

/// `logs ID [--follow] [--tail N]`.
#[derive(Debug, Clone)]
pub struct LogsArgs {
    pub id: String,
    pub follow: bool,
    pub tail: usize,
}

/// `expose --server HOST:PORT --user U --local ADDR --remote-port P ...`.
#[derive(Debug, Clone)]
pub struct ExposeArgs {
    pub server: String,
    pub user: String,
    pub local: String,
    pub remote_port: u16,
    pub remote_host: String,
    pub password: Option<String>,
    pub private_key: Option<String>,
    pub daemon: bool,
    pub log_file: Option<String>,
    pub insecure_accept_host_key: bool,
}

} // verus!
