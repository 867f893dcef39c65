//! The errors that configuration and lifecycle rules report.

use vstd::prelude::*;
use crate::text::push_str;

verus! {

/// An input or request that `conduit` refuses.
#[derive(Debug, Clone)]
pub enum ConduitError {
    InvalidAuthConfig,
    InvalidServerAddress(String),
    InvalidLocalAddress(String),
    InvalidRemoteHost(String),
    InvalidRemoteSpec(String),
    InvalidForwardRemote(String),
    InvalidForwardLocalSpec(String),
    MissingForwardLocalSpec,
    DuplicateForwardBind(String),
    InvalidBindAddress(String),
    MissingConnectUser,
    ConflictingConnectUser { remote_user: String, cli_user: String },
    UnknownTunnel(String),
    MissingTunnelLogFile { id: String, path: String },
    UnsupportedTunnelRestart { id: String, reason: String },
    ActiveTunnelDeleteRequiresForce(String),
    MissingPrivateKey(String),
    MissingHostKeyPolicy,
}

/// An error with each text as its characters.
pub enum ErrorModel {
    InvalidAuthConfig,
    InvalidServerAddress(Seq<char>),
    InvalidLocalAddress(Seq<char>),
    InvalidRemoteHost(Seq<char>),
    InvalidRemoteSpec(Seq<char>),
    InvalidForwardRemote(Seq<char>),
    InvalidForwardLocalSpec(Seq<char>),
    MissingForwardLocalSpec,
    DuplicateForwardBind(Seq<char>),
    InvalidBindAddress(Seq<char>),
    MissingConnectUser,
    ConflictingConnectUser { remote_user: Seq<char>, cli_user: Seq<char> },
    UnknownTunnel(Seq<char>),
    MissingTunnelLogFile { id: Seq<char>, path: Seq<char> },
    UnsupportedTunnelRestart { id: Seq<char>, reason: Seq<char> },
    ActiveTunnelDeleteRequiresForce(Seq<char>),
    MissingPrivateKey(Seq<char>),
    MissingHostKeyPolicy,
}

impl View for ConduitError {
    type V = ErrorModel;

    open spec fn view(&self) -> ErrorModel {
        match self {
            ConduitError::InvalidAuthConfig => ErrorModel::InvalidAuthConfig,
            ConduitError::InvalidServerAddress(s) => ErrorModel::InvalidServerAddress(s@),
            ConduitError::InvalidLocalAddress(s) => ErrorModel::InvalidLocalAddress(s@),
            ConduitError::InvalidRemoteHost(s) => ErrorModel::InvalidRemoteHost(s@),
            ConduitError::InvalidRemoteSpec(s) => ErrorModel::InvalidRemoteSpec(s@),
            ConduitError::InvalidForwardRemote(s) => ErrorModel::InvalidForwardRemote(s@),
            ConduitError::InvalidForwardLocalSpec(s) => ErrorModel::InvalidForwardLocalSpec(s@),
            ConduitError::MissingForwardLocalSpec => ErrorModel::MissingForwardLocalSpec,
            ConduitError::DuplicateForwardBind(s) => ErrorModel::DuplicateForwardBind(s@),
            ConduitError::InvalidBindAddress(s) => ErrorModel::InvalidBindAddress(s@),
            ConduitError::MissingConnectUser => ErrorModel::MissingConnectUser,
            ConduitError::ConflictingConnectUser { remote_user, cli_user } => ErrorModel::ConflictingConnectUser {
                remote_user: remote_user@,
                cli_user: cli_user@,
            },
            ConduitError::UnknownTunnel(s) => ErrorModel::UnknownTunnel(s@),
            ConduitError::MissingTunnelLogFile { id, path } => ErrorModel::MissingTunnelLogFile { id: id@, path: path@ },
            ConduitError::UnsupportedTunnelRestart { id, reason } => ErrorModel::UnsupportedTunnelRestart {
                id: id@,
                reason: reason@,
            },
            ConduitError::ActiveTunnelDeleteRequiresForce(s) => ErrorModel::ActiveTunnelDeleteRequiresForce(s@),
            ConduitError::MissingPrivateKey(s) => ErrorModel::MissingPrivateKey(s@),
            ConduitError::MissingHostKeyPolicy => ErrorModel::MissingHostKeyPolicy,
        }
    }
}

/// The message that reports an error.
pub open spec fn error_message(e: ConduitError) -> Seq<char> {
    match e {
        ConduitError::InvalidAuthConfig => "SSH authentication requires exactly one of --password or --private-key"@,
        ConduitError::InvalidServerAddress(s) => "--server must be a valid host:port or [ipv6]:port address: "@ + s@,
        ConduitError::InvalidLocalAddress(s) => "--local must be a valid socket address: "@ + s@,
        ConduitError::InvalidRemoteHost(s) => "--remote-host must be a valid IP address or hostname: "@ + s@,
        ConduitError::InvalidRemoteSpec(s) => "--remote must be in the form [USER@]SERVER:REMOTE_PORT:LOCAL_PORT or [USER@]SERVER:REMOTE_PORT:LOCAL_HOST:LOCAL_PORT: "@ + s@,
        ConduitError::InvalidForwardRemote(s) => "-r/--remote must be in the form [USER@]SERVER[:PORT]: "@ + s@,
        ConduitError::InvalidForwardLocalSpec(s) => "-L/--local must be in the form LOCAL_PORT:TARGET_HOST:TARGET_PORT: "@ + s@,
        ConduitError::MissingForwardLocalSpec => "at least one -L/--local mapping is required"@,
        ConduitError::DuplicateForwardBind(s) => "duplicate local forward bind: "@ + s@,
        ConduitError::InvalidBindAddress(s) => "--bind must be a valid IP address: "@ + s@,
        ConduitError::MissingConnectUser => "SSH username must be provided either via --user or USER@ in --remote"@,
        ConduitError::ConflictingConnectUser { remote_user, cli_user } => "SSH username in --remote conflicts with --user: "@ + remote_user@ + " != "@ + cli_user@,
        ConduitError::UnknownTunnel(s) => "unknown tunnel id: "@ + s@,
        ConduitError::MissingTunnelLogFile { id, path } => "log file does not exist for tunnel "@ + id@ + ": "@ + path@,
        ConduitError::UnsupportedTunnelRestart { id, reason } => "tunnel "@ + id@ + " cannot be restarted: "@ + reason@,
        ConduitError::ActiveTunnelDeleteRequiresForce(s) => "tunnel "@ + s@ + " is still running; close it first or pass --force"@,
        ConduitError::MissingPrivateKey(s) => "private key file does not exist: "@ + s@,
        ConduitError::MissingHostKeyPolicy => "host key verification requires --insecure-accept-host-key in V1"@,
    }
}

impl ConduitError {
    /// The message that reports the error.
    pub fn message(&self) -> (r: String)
        ensures
            r@ == error_message(*self),
    {
        let mut out = String::new();
        match self {
            ConduitError::InvalidAuthConfig => {
                push_str(&mut out, "SSH authentication requires exactly one of --password or --private-key");
            },
            ConduitError::InvalidServerAddress(s) => {
                push_str(&mut out, "--server must be a valid host:port or [ipv6]:port address: ");
                push_str(&mut out, s.as_str());
            },
            ConduitError::InvalidLocalAddress(s) => {
                push_str(&mut out, "--local must be a valid socket address: ");
                push_str(&mut out, s.as_str());
            },
            ConduitError::InvalidRemoteHost(s) => {
                push_str(&mut out, "--remote-host must be a valid IP address or hostname: ");
                push_str(&mut out, s.as_str());
            },
            ConduitError::InvalidRemoteSpec(s) => {
                push_str(&mut out, "--remote must be in the form [USER@]SERVER:REMOTE_PORT:LOCAL_PORT or [USER@]SERVER:REMOTE_PORT:LOCAL_HOST:LOCAL_PORT: ");
                push_str(&mut out, s.as_str());
            },
            ConduitError::InvalidForwardRemote(s) => {
                push_str(&mut out, "-r/--remote must be in the form [USER@]SERVER[:PORT]: ");
                push_str(&mut out, s.as_str());
            },
            ConduitError::InvalidForwardLocalSpec(s) => {
                push_str(&mut out, "-L/--local must be in the form LOCAL_PORT:TARGET_HOST:TARGET_PORT: ");
                push_str(&mut out, s.as_str());
            },
            ConduitError::MissingForwardLocalSpec => {
                push_str(&mut out, "at least one -L/--local mapping is required");
            },
            ConduitError::DuplicateForwardBind(s) => {
                push_str(&mut out, "duplicate local forward bind: ");
                push_str(&mut out, s.as_str());
            },
            ConduitError::InvalidBindAddress(s) => {
                push_str(&mut out, "--bind must be a valid IP address: ");
                push_str(&mut out, s.as_str());
            },
            ConduitError::MissingConnectUser => {
                push_str(&mut out, "SSH username must be provided either via --user or USER@ in --remote");
            },
            ConduitError::ConflictingConnectUser { remote_user, cli_user } => {
                push_str(&mut out, "SSH username in --remote conflicts with --user: ");
                push_str(&mut out, remote_user.as_str());
                push_str(&mut out, " != ");
                push_str(&mut out, cli_user.as_str());
            },
            ConduitError::UnknownTunnel(s) => {
                push_str(&mut out, "unknown tunnel id: ");
                push_str(&mut out, s.as_str());
            },
            ConduitError::MissingTunnelLogFile { id, path } => {
                push_str(&mut out, "log file does not exist for tunnel ");
                push_str(&mut out, id.as_str());
                push_str(&mut out, ": ");
                push_str(&mut out, path.as_str());
            },
            ConduitError::UnsupportedTunnelRestart { id, reason } => {
                push_str(&mut out, "tunnel ");
                push_str(&mut out, id.as_str());
                push_str(&mut out, " cannot be restarted: ");
                push_str(&mut out, reason.as_str());
            },
            ConduitError::ActiveTunnelDeleteRequiresForce(s) => {
                push_str(&mut out, "tunnel ");
                push_str(&mut out, s.as_str());
                push_str(&mut out, " is still running; close it first or pass --force");
            },
            ConduitError::MissingPrivateKey(s) => {
                push_str(&mut out, "private key file does not exist: ");
                push_str(&mut out, s.as_str());
            },
            ConduitError::MissingHostKeyPolicy => {
                push_str(&mut out, "host key verification requires --insecure-accept-host-key in V1");
            },
        }
        out
    }
}

} // verus!
