//! What a daemon launch needs: which command lines launch a managed tunnel,
//! and how a stopped tunnel's record is turned back into a configuration to
//! restart it.

use vstd::prelude::*;
use crate::cli::{Cli, Commands, ConnectArgs, ExposeArgs, ForwardArgs, RestartArgs, TunnelCommands};
use crate::error::{ConduitError, ErrorModel};
use crate::expose::types::{AuthConfig, AuthModel, ExposeConfig, ExposeModel};
use crate::forward::{
    lemma_mappings_of_texts, lemma_split_mappings_text, mappings_of, mappings_valid, parse_mappings,
    texts_view, ForwardConfig, ForwardModel,
};
use crate::text::{chars_of, opt_text, push_str, split_bounds, split_on, string_of};
use crate::tunnel_registry::{chars_equal, starting_forward_record, starting_record, RecordModel, TunnelRecord};

verus! {

/// The identity and log file of a daemon tunnel about to start.
#[derive(Debug, Clone)]
pub struct PreparedDaemonLaunch {
    pub tunnel_id: String,
    pub log_file: String,
}

/// The configuration of a daemon tunnel: a reverse tunnel or a local forward.
#[derive(Debug, Clone)]
pub enum PreparedTunnelConfig {
    Reverse(ExposeConfig),
    Forward(ForwardConfig),
}

pub enum TunnelConfigModel {
    Reverse(ExposeModel),
    Forward(ForwardModel),
}

impl View for PreparedTunnelConfig {
    type V = TunnelConfigModel;

    open spec fn view(&self) -> TunnelConfigModel {
        match self {
            PreparedTunnelConfig::Reverse(c) => TunnelConfigModel::Reverse(c@),
            PreparedTunnelConfig::Forward(c) => TunnelConfigModel::Forward(c@),
        }
    }
}

/// Everything a daemon needs to run one tunnel.
#[derive(Debug, Clone)]
pub struct PreparedDaemonCommand {
    pub command: String,
    pub config: PreparedTunnelConfig,
    pub launch: PreparedDaemonLaunch,
    pub close_before_launch: Option<String>,
}

/// A command line that launches a managed daemon tunnel.
#[derive(Debug, Clone)]
pub enum DaemonRequest {
    /// `connect --daemon` or `tunnel create --daemon`.
    Connect(ConnectArgs),
    /// `expose --daemon`.
    Expose(ExposeArgs),
    /// `forward --daemon`.
    Forward(ForwardArgs),
    /// `restart` or `tunnel restart`.
    Restart(RestartArgs),
}

/// Which daemon launch a command line asks for, if any: `connect`,
/// `tunnel create`, `expose` and `forward` with `--daemon`, and every
/// `restart`.
pub fn daemon_request(cli: Cli) -> (r: Option<DaemonRequest>)
    ensures
        match cli.command {
            Commands::Connect(a) => if a.daemon {
                r == Some(DaemonRequest::Connect(a))
            } else {
                r is None
            },
            Commands::Expose(a) => if a.daemon {
                r == Some(DaemonRequest::Expose(a))
            } else {
                r is None
            },
            Commands::Forward(a) => if a.daemon {
                r == Some(DaemonRequest::Forward(a))
            } else {
                r is None
            },
            Commands::Restart(a) => r == Some(DaemonRequest::Restart(a)),
            Commands::Tunnel(t) => match t.command {
                TunnelCommands::Create(a) => if a.daemon {
                    r == Some(DaemonRequest::Connect(a))
                } else {
                    r is None
                },
                TunnelCommands::Restart(a) => r == Some(DaemonRequest::Restart(a)),
                _ => r is None,
            },
            _ => r is None,
        },
{
    match cli.command {
        Commands::Connect(a) => if a.daemon {
            Some(DaemonRequest::Connect(a))
        } else {
            None
        },
        Commands::Expose(a) => if a.daemon {
            Some(DaemonRequest::Expose(a))
        } else {
            None
        },
        Commands::Forward(a) => if a.daemon {
            Some(DaemonRequest::Forward(a))
        } else {
            None
        },
        Commands::Restart(a) => Some(DaemonRequest::Restart(a)),
        Commands::Tunnel(t) => match t.command {
            TunnelCommands::Create(a) => if a.daemon {
                Some(DaemonRequest::Connect(a))
            } else {
                None
            },
            TunnelCommands::Restart(a) => Some(DaemonRequest::Restart(a)),
            _ => None,
        },
        _ => None,
    }
}

/// The command name under which forward tunnels are recorded.
pub open spec fn forward_command() -> Seq<char> {
    seq!['f', 'o', 'r', 'w', 'a', 'r', 'd']
}

/// A fresh daemon tunnel to launch, with its checked configuration.
#[derive(Debug, Clone)]
pub enum FreshLaunch {
    /// `connect --daemon` or `tunnel create --daemon`.
    Connect(ExposeConfig),
    /// `expose --daemon`.
    Expose(ExposeConfig),
    /// `forward --daemon`.
    Forward(ForwardConfig),
}

/// The command name under which a fresh tunnel is launched and recorded.
pub open spec fn launch_label(l: FreshLaunch) -> Seq<char> {
    match l {
        FreshLaunch::Connect(_) => seq!['c', 'o', 'n', 'n', 'e', 'c', 't'],
        FreshLaunch::Expose(_) => seq!['e', 'x', 'p', 'o', 's', 'e'],
        FreshLaunch::Forward(_) => forward_command(),
    }
}

/// The configuration that a fresh tunnel runs with.
pub open spec fn launch_config(l: FreshLaunch) -> TunnelConfigModel {
    match l {
        FreshLaunch::Connect(c) => TunnelConfigModel::Reverse(c@),
        FreshLaunch::Expose(c) => TunnelConfigModel::Reverse(c@),
        FreshLaunch::Forward(c) => TunnelConfigModel::Forward(c@),
    }
}

/// The daemon command that launches a fresh tunnel under `tunnel_id`,
/// logging to `log_file`: named after the command that asked for it, with
/// its configuration, and closing no tunnel first.
pub fn fresh_daemon_command(launch: FreshLaunch, tunnel_id: String, log_file: String) -> (r: PreparedDaemonCommand)
    ensures
        r.command@ == launch_label(launch),
        r.config@ == launch_config(launch),
        r.launch.tunnel_id@ == tunnel_id@,
        r.launch.log_file@ == log_file@,
        r.close_before_launch is None,
{
    let (command, config) = match launch {
        FreshLaunch::Connect(c) => {
            proof {
                reveal_strlit("connect");
            }
            ("connect", PreparedTunnelConfig::Reverse(c))
        },
        FreshLaunch::Expose(c) => {
            proof {
                reveal_strlit("expose");
            }
            ("expose", PreparedTunnelConfig::Reverse(c))
        },
        FreshLaunch::Forward(c) => {
            proof {
                reveal_strlit("forward");
            }
            ("forward", PreparedTunnelConfig::Forward(c))
        },
    };
    let mut name = String::new();
    push_str(&mut name, command);
    assert(name@ =~= launch_label(launch));
    PreparedDaemonCommand {
        command: name,
        config,
        launch: PreparedDaemonLaunch { tunnel_id, log_file },
        close_before_launch: None,
    }
}

/// The credentials that restart a stored tunnel, or the first reason it
/// cannot: only daemon tunnels restart; the credentials are given anew
/// (exactly one of a password and an existing key file); and the host key
/// policy must be accepted.
pub open spec fn restart_auth_of(r: RecordModel, a: RestartArgs, key_exists: bool) -> Result<AuthModel, ErrorModel> {
    if !r.daemon {
        Err(ErrorModel::UnsupportedTunnelRestart { id: r.id, reason: "only daemon-managed tunnels can be restarted"@ })
    } else {
        let auth: Result<AuthModel, ErrorModel> = match (opt_text(a.password), opt_text(a.key)) {
            (Some(p), None) => Ok(AuthModel::Password(p)),
            (None, Some(k)) => if key_exists {
                Ok(AuthModel::PrivateKey(k))
            } else {
                Err(ErrorModel::MissingPrivateKey(k))
            },
            _ => Err(
                ErrorModel::UnsupportedTunnelRestart {
                    id: r.id,
                    reason: "restart requires exactly one of --password or --key"@,
                },
            ),
        };
        match auth {
            Err(e) => Err(e),
            Ok(auth) => if !a.insecure_accept_host_key {
                Err(ErrorModel::MissingHostKeyPolicy)
            } else {
                Ok(auth)
            },
        }
    }
}

/// The configuration that restarts a stored reverse tunnel, or the first
/// reason it cannot: the credentials as `restart_auth_of` gives them, and the
/// stored local target, which must be a socket address (`local`, `None` when
/// it is none).
pub open spec fn restart_config_of(r: RecordModel, a: RestartArgs, key_exists: bool, local: Option<Seq<char>>) -> Result<ExposeModel, ErrorModel> {
    match restart_auth_of(r, a, key_exists) {
        Err(e) => Err(e),
        Ok(auth) => match local {
            None => Err(
                ErrorModel::UnsupportedTunnelRestart {
                    id: r.id,
                    reason: "stored local target is invalid: "@ + r.local,
                },
            ),
            Some(l) => Ok(
                ExposeModel {
                    server: r.server,
                    user: r.user,
                    local: l,
                    remote_host: r.remote_host,
                    remote_port: r.remote_port,
                    auth,
                    daemon: true,
                    log_file: Some(r.log_file),
                    insecure_accept_host_key: a.insecure_accept_host_key,
                },
            ),
        },
    }
}

/// The configuration that restarts a stored forward tunnel, or the first
/// reason it cannot: the credentials as `restart_auth_of` gives them, the
/// stored bind address, and the stored mappings, split at spaces and parsed
/// again as `-L` texts.
pub open spec fn forward_restart_config_of(r: RecordModel, a: RestartArgs, key_exists: bool) -> Result<ForwardModel, ErrorModel> {
    match restart_auth_of(r, a, key_exists) {
        Err(e) => Err(e),
        Ok(auth) => match mappings_of(split_on(r.mappings, ' '), r.local) {
            Err(_) => Err(
                ErrorModel::UnsupportedTunnelRestart {
                    id: r.id,
                    reason: "stored forward mappings are invalid: "@ + r.mappings,
                },
            ),
            Ok(ms) => Ok(
                ForwardModel {
                    server: r.server,
                    user: r.user,
                    bind_addr: r.local,
                    mappings: ms,
                    auth,
                    daemon: true,
                    log_file: Some(r.log_file),
                    insecure_accept_host_key: a.insecure_accept_host_key,
                },
            ),
        },
    }
}

/// The configuration that restarts a stored tunnel: a forward tunnel when it
/// was recorded under the `forward` command, a reverse tunnel otherwise.
pub open spec fn restart_of(r: RecordModel, a: RestartArgs, key_exists: bool, local: Option<Seq<char>>) -> Result<TunnelConfigModel, ErrorModel> {
    if r.command == forward_command() {
        match forward_restart_config_of(r, a, key_exists) {
            Ok(m) => Ok(TunnelConfigModel::Forward(m)),
            Err(e) => Err(e),
        }
    } else {
        match restart_config_of(r, a, key_exists, local) {
            Ok(m) => Ok(TunnelConfigModel::Reverse(m)),
            Err(e) => Err(e),
        }
    }
}

/// A restart takes its credentials from its own arguments, never from the
/// record: a lone `--key k` whose file exists gives key authentication with
/// `k`, a lone `--password p` password authentication with `p`; both or
/// neither, a missing key file, a tunnel that is not a daemon or a refused
/// host key policy fail. Whatever configuration a restart gives, reverse or
/// forward, carries those credentials.
pub proof fn lemma_restart_credentials(r: RecordModel, a: RestartArgs, key_exists: bool, local: Option<Seq<char>>)
    ensures
        r.daemon && a.insecure_accept_host_key && a.password is None && a.key is Some && key_exists
            ==> restart_auth_of(r, a, key_exists) == Ok::<AuthModel, ErrorModel>(AuthModel::PrivateKey(a.key->0@)),
        r.daemon && a.insecure_accept_host_key && a.password is Some && a.key is None ==> restart_auth_of(r, a, key_exists)
            == Ok::<AuthModel, ErrorModel>(AuthModel::Password(a.password->0@)),
        restart_auth_of(r, a, key_exists) is Ok ==> r.daemon && a.insecure_accept_host_key && (a.password is Some
            != a.key is Some) && (a.key is Some ==> key_exists),
        restart_of(r, a, key_exists, local) is Ok ==> r.daemon && a.insecure_accept_host_key,
        restart_of(r, a, key_exists, local) matches Ok(c) ==> {
            let auth = match c {
                TunnelConfigModel::Reverse(m) => m.auth,
                TunnelConfigModel::Forward(m) => m.auth,
            };
            &&& (a.key is Some ==> auth == AuthModel::PrivateKey(a.key->0@))
            &&& (a.password is Some ==> auth == AuthModel::Password(a.password->0@))
        },
        r.daemon && a.insecure_accept_host_key && a.password is None && a.key is Some && key_exists && r.command
            != forward_command() && local is Some ==> restart_of(r, a, key_exists, local) is Ok,
{
}

/// Restarting a daemon reverse tunnel from the record it started with gives
/// back its server, user, local target, remote bind address and port, and
/// log file, with the credentials given to the restart.
pub proof fn lemma_restart_restores_started_tunnel(
    c: ExposeModel,
    id: Seq<char>,
    command: Seq<char>,
    pid: u32,
    now: u64,
    a: RestartArgs,
    key_exists: bool,
)
    requires
        c.daemon,
        c.log_file is Some,
        command != forward_command(),
        a.insecure_accept_host_key,
        match (opt_text(a.password), opt_text(a.key)) {
            (Some(_), None) => true,
            (None, Some(_)) => key_exists,
            _ => false,
        },
    ensures
        restart_of(starting_record(id, command, c, pid, now), a, key_exists, Some(c.local)) matches Ok(
            TunnelConfigModel::Reverse(m),
        ) && m.server == c.server && m.user == c.user && m.local == c.local && m.remote_host == c.remote_host
            && m.remote_port == c.remote_port && m.log_file == c.log_file && m.daemon,
{
}

/// Restarting a daemon forward tunnel from the record it started with gives
/// back its server, user, bind address, mappings and log file, with the
/// credentials given to the restart.
pub proof fn lemma_restart_restores_started_forward_tunnel(
    c: ForwardModel,
    id: Seq<char>,
    pid: u32,
    now: u64,
    a: RestartArgs,
    key_exists: bool,
    local: Option<Seq<char>>,
)
    requires
        c.daemon,
        c.log_file is Some,
        c.mappings.len() > 0,
        mappings_valid(c.mappings),
        a.insecure_accept_host_key,
        match (opt_text(a.password), opt_text(a.key)) {
            (Some(_), None) => true,
            (None, Some(_)) => key_exists,
            _ => false,
        },
    ensures
        restart_of(starting_forward_record(id, forward_command(), c, pid, now), a, key_exists, local) matches Ok(
            TunnelConfigModel::Forward(m),
        ) && m.server == c.server && m.user == c.user && m.bind_addr == c.bind_addr && m.mappings == c.mappings
            && m.log_file == c.log_file && m.daemon,
{
    lemma_split_mappings_text(c.mappings);
    lemma_mappings_of_texts(c.mappings, c.bind_addr);
}

/// The credentials that restart `record`; see `restart_auth_of`.
pub fn build_restart_auth(record: &TunnelRecord, args: RestartArgs, key_exists: bool) -> (r: Result<AuthConfig, ConduitError>)
    ensures
        match restart_auth_of(record@, args, key_exists) {
            Ok(m) => r is Ok && r->Ok_0@ == m,
            Err(e) => r is Err && r->Err_0@ == e,
        },
{
    if !record.daemon {
        return Err(ConduitError::UnsupportedTunnelRestart {
            id: record.id.clone(),
            reason: "only daemon-managed tunnels can be restarted".to_string(),
        });
    }
    let auth = match (args.password, args.key) {
        (Some(password), None) => AuthConfig::Password(password),
        (None, Some(path)) => {
            if !key_exists {
                return Err(ConduitError::MissingPrivateKey(path));
            }
            AuthConfig::PrivateKey(path)
        },
        _ => {
            return Err(ConduitError::UnsupportedTunnelRestart {
                id: record.id.clone(),
                reason: "restart requires exactly one of --password or --key".to_string(),
            });
        },
    };
    if !args.insecure_accept_host_key {
        return Err(ConduitError::MissingHostKeyPolicy);
    }
    Ok(auth)
}

/// The configuration that restarts the reverse tunnel `record`; see
/// `restart_config_of`.
pub fn build_restart_config(record: &TunnelRecord, args: RestartArgs, key_exists: bool, local: Option<String>) -> (r: Result<ExposeConfig, ConduitError>)
    ensures
        match restart_config_of(record@, args, key_exists, opt_text(local)) {
            Ok(m) => r is Ok && r->Ok_0@ == m,
            Err(e) => r is Err && r->Err_0@ == e,
        },
{
    let insecure = args.insecure_accept_host_key;
    let auth = build_restart_auth(record, args, key_exists)?;
    let local = match local {
        Some(l) => l,
        None => {
            let mut reason = String::new();
            push_str(&mut reason, "stored local target is invalid: ");
            push_str(&mut reason, record.local.as_str());
            return Err(ConduitError::UnsupportedTunnelRestart { id: record.id.clone(), reason });
        },
    };
    Ok(ExposeConfig {
        server: record.server.clone(),
        user: record.user.clone(),
        local,
        remote_host: record.remote_host.clone(),
        remote_port: record.remote_port,
        auth,
        daemon: true,
        log_file: Some(record.log_file.clone()),
        insecure_accept_host_key: insecure,
    })
}

/// The `-L` texts stored in `mappings`: the pieces between its spaces.
fn stored_mapping_texts(mappings: &str) -> (r: Vec<String>)
    ensures
        texts_view(r@) == split_on(mappings@, ' '),
{
    let v = chars_of(mappings);
    let n = v.len();
    let (starts, ends) = split_bounds(&v, 0, n, ' ');
    let ghost pieces = split_on(v@.subrange(0, n as int), ' ');
    assert(v@.subrange(0, n as int) =~= mappings@);
    let mut out: Vec<String> = Vec::new();
    let mut k: usize = 0;
    while k < starts.len()
        invariant
            n == v@.len(),
            starts@.len() == ends@.len() == pieces.len(),
            pieces == split_on(mappings@, ' '),
            forall|j: int| 0 <= j < starts@.len() ==> 0 <= #[trigger] starts@[j] <= ends@[j] <= n
                && v@.subrange(starts@[j] as int, ends@[j] as int) == pieces[j],
            0 <= k <= starts@.len(),
            texts_view(out@) == pieces.take(k as int),
        decreases starts.len() - k,
    {
        let piece = string_of(&v, starts[k], ends[k]);
        let ghost before = out@;
        out.push(piece);
        assert(texts_view(out@) =~= texts_view(before).push(piece@));
        assert(pieces.take(k + 1) =~= pieces.take(k as int).push(pieces[k as int]));
        k = k + 1;
    }
    assert(pieces.take(starts@.len() as int) =~= pieces);
    out
}

/// The configuration that restarts the forward tunnel `record`; see
/// `forward_restart_config_of`.
pub fn build_forward_restart_config(record: &TunnelRecord, args: RestartArgs, key_exists: bool) -> (r: Result<ForwardConfig, ConduitError>)
    ensures
        match forward_restart_config_of(record@, args, key_exists) {
            Ok(m) => r is Ok && r->Ok_0@ == m,
            Err(e) => r is Err && r->Err_0@ == e,
        },
{
    let insecure = args.insecure_accept_host_key;
    let auth = build_restart_auth(record, args, key_exists)?;
    let specs = stored_mapping_texts(record.mappings.as_str());
    let mappings = match parse_mappings(&specs, record.local.as_str()) {
        Ok(ms) => ms,
        Err(_) => {
            let mut reason = String::new();
            push_str(&mut reason, "stored forward mappings are invalid: ");
            push_str(&mut reason, record.mappings.as_str());
            return Err(ConduitError::UnsupportedTunnelRestart { id: record.id.clone(), reason });
        },
    };
    Ok(ForwardConfig {
        server: record.server.clone(),
        user: record.user.clone(),
        bind_addr: record.local.clone(),
        mappings,
        auth,
        daemon: true,
        log_file: Some(record.log_file.clone()),
        insecure_accept_host_key: insecure,
    })
}

/// Whether `record` was recorded under the `forward` command.
pub fn is_forward_record(record: &TunnelRecord) -> (r: bool)
    ensures
        r == (record.command@ == forward_command()),
{
    let v = chars_of(record.command.as_str());
    proof {
        reveal_strlit("forward");
        assert("forward"@ =~= forward_command());
    }
    assert(v@.subrange(0, v@.len() as int) =~= record.command@);
    chars_equal(&v, 0, v.len(), "forward")
}

/// The daemon command that restarts `record` under its own id, log file and
/// command, after closing the old process; see `restart_of`.
pub fn prepare_restart(record: &TunnelRecord, args: RestartArgs, key_exists: bool, local: Option<String>) -> (r: Result<PreparedDaemonCommand, ConduitError>)
    ensures
        match restart_of(record@, args, key_exists, opt_text(local)) {
            Ok(m) => r is Ok && r->Ok_0.config@ == m && r->Ok_0.command@ == record.command@
                && r->Ok_0.launch.tunnel_id@ == record.id@ && r->Ok_0.launch.log_file@ == record.log_file@
                && opt_text(r->Ok_0.close_before_launch) == Some(record.id@),
            Err(e) => r is Err && r->Err_0@ == e,
        },
{
    let config = if is_forward_record(record) {
        PreparedTunnelConfig::Forward(build_forward_restart_config(record, args, key_exists)?)
    } else {
        PreparedTunnelConfig::Reverse(build_restart_config(record, args, key_exists, local)?)
    };
    Ok(PreparedDaemonCommand {
        command: record.command.clone(),
        config,
        launch: PreparedDaemonLaunch { tunnel_id: record.id.clone(), log_file: record.log_file.clone() },
        close_before_launch: Some(record.id.clone()),
    })
}

} // verus!
