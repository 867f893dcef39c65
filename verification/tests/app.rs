use conduit::app::{
    build_forward_restart_config, build_restart_config, daemon_request, fresh_daemon_command, prepare_restart,
    DaemonRequest, FreshLaunch, PreparedTunnelConfig,
};
use conduit::cli::{Cli, Commands, ConnectArgs, ForwardArgs, ListArgs, RestartArgs, TunnelArgs, TunnelCommands};
use conduit::expose::types::AuthConfig;
use conduit::forward::ForwardConfig;
use conduit::tunnel_registry::{TunnelRecord, TunnelStatus};

fn record(daemon: bool) -> TunnelRecord {
    TunnelRecord {
        id: "tunnel-9".to_string(),
        command: "connect".to_string(),
        pid: 77,
        created_at: 1,
        updated_at: 2,
        server: "example.com:22".to_string(),
        user: "root".to_string(),
        local: "127.0.0.1:3000".to_string(),
        remote_host: "0.0.0.0".to_string(),
        remote_port: 8080,
        mappings: String::new(),
        daemon,
        log_file: "/var/log/t.log".to_string(),
        status: TunnelStatus::Exited,
    }
}

fn restart(password: Option<&str>, key: Option<&str>, insecure: bool) -> RestartArgs {
    RestartArgs {
        id: "tunnel-9".to_string(),
        password: password.map(|s| s.to_string()),
        key: key.map(|s| s.to_string()),
        insecure_accept_host_key: insecure,
    }
}

fn connect(daemon: bool) -> ConnectArgs {
    ConnectArgs {
        remote: "root@example.com:8080:3000".to_string(),
        user: None,
        port: 22,
        password: Some("pw".to_string()),
        key: None,
        daemon,
        log_file: None,
        insecure_accept_host_key: true,
    }
}

fn forward(daemon: bool) -> ForwardArgs {
    ForwardArgs {
        local: vec!["8080:web.internal:80".to_string(), "5432:db.internal:5432".to_string()],
        remote: "root@example.com:22".to_string(),
        user: None,
        bind: None,
        gateway: false,
        password: Some("pw".to_string()),
        key: None,
        daemon,
        log_file: Some("/var/log/f.log".to_string()),
        insecure_accept_host_key: true,
    }
}

fn forward_record() -> TunnelRecord {
    let mut r = record(true);
    r.command = "forward".to_string();
    r.local = "127.0.0.1".to_string();
    r.remote_host = String::new();
    r.remote_port = 0;
    r.mappings = "8080:web.internal:80 5432:db.internal:5432".to_string();
    r
}

#[test]
fn daemon_requests() {
    let r = daemon_request(Cli { command: Commands::Connect(connect(true)) });
    assert!(matches!(r, Some(DaemonRequest::Connect(_))));
    assert!(daemon_request(Cli { command: Commands::Connect(connect(false)) }).is_none());
    let r = daemon_request(Cli {
        command: Commands::Tunnel(TunnelArgs { command: TunnelCommands::Create(connect(true)) }),
    });
    assert!(matches!(r, Some(DaemonRequest::Connect(_))));
    let r = daemon_request(Cli {
        command: Commands::Tunnel(TunnelArgs {
            command: TunnelCommands::Restart(restart(Some("pw"), None, true)),
        }),
    });
    assert!(matches!(r, Some(DaemonRequest::Restart(a)) if a.id == "tunnel-9"));
    assert!(daemon_request(Cli { command: Commands::List(ListArgs { all: true }) }).is_none());
    let r = daemon_request(Cli { command: Commands::Forward(forward(true)) });
    assert!(matches!(r, Some(DaemonRequest::Forward(a)) if a.local.len() == 2 && a.daemon));
    assert!(daemon_request(Cli { command: Commands::Forward(forward(false)) }).is_none());
}

#[test]
fn restart_reuses_the_record_with_new_credentials() {
    let c = build_restart_config(&record(true), restart(Some("pw"), None, true), false, Some("127.0.0.1:3000".to_string()))
        .unwrap();
    assert_eq!(c.server, "example.com:22");
    assert_eq!(c.user, "root");
    assert_eq!(c.remote_port, 8080);
    assert!(c.daemon);
    assert_eq!(c.log_file.as_deref(), Some("/var/log/t.log"));
    assert!(matches!(c.auth, AuthConfig::Password(p) if p == "pw"));
    let p = prepare_restart(&record(true), restart(None, Some("/k"), true), true, Some("127.0.0.1:3000".to_string()))
        .unwrap();
    assert!(matches!(&p.config, PreparedTunnelConfig::Reverse(c) if c.local == "127.0.0.1:3000" && c.remote_port == 8080));
    assert_eq!(p.command, "connect");
    assert_eq!(p.launch.tunnel_id, "tunnel-9");
    assert_eq!(p.launch.log_file, "/var/log/t.log");
    assert_eq!(p.close_before_launch.as_deref(), Some("tunnel-9"));
}

#[test]
fn restart_refusals() {
    let e = build_restart_config(&record(false), restart(Some("pw"), None, true), false, None).unwrap_err();
    assert_eq!(
        e.message(),
        "tunnel tunnel-9 cannot be restarted: only daemon-managed tunnels can be restarted"
    );
    let e = build_restart_config(&record(true), restart(None, None, true), false, None).unwrap_err();
    assert!(e.message().ends_with("restart requires exactly one of --password or --key"));
    let e = build_restart_config(&record(true), restart(Some("a"), Some("/k"), true), true, None).unwrap_err();
    assert!(e.message().ends_with("restart requires exactly one of --password or --key"));
    let e = build_restart_config(&record(true), restart(None, Some("/k"), true), false, None).unwrap_err();
    assert_eq!(e.message(), "private key file does not exist: /k");
    let e = build_restart_config(&record(true), restart(Some("pw"), None, false), false, None).unwrap_err();
    assert!(e.message().contains("--insecure-accept-host-key"));
    let e = build_restart_config(&record(true), restart(Some("pw"), None, true), false, None).unwrap_err();
    assert_eq!(
        e.message(),
        "tunnel tunnel-9 cannot be restarted: stored local target is invalid: 127.0.0.1:3000"
    );
}

#[test]
fn restart_restores_a_started_tunnel() {
    let mut args = connect(true);
    args.log_file = Some("/var/log/c.log".to_string());
    let config = conduit::expose::types::ExposeConfig::from_connect_args(
        args,
        false,
        Some("127.0.0.1:3000".to_string()),
        false,
    )
    .unwrap();
    let started = conduit::tunnel_registry::create_starting_record("t-1", "connect", &config, 5, 100).unwrap();
    assert_eq!(started.status, TunnelStatus::Starting);
    let stored = TunnelRecord::from_wire(&started.to_wire()).unwrap();
    let again = build_restart_config(&stored, restart(Some("pw2"), None, true), false, Some(stored.local.clone()))
        .unwrap();
    assert_eq!(again.server, config.server);
    assert_eq!(again.user, config.user);
    assert_eq!(again.local, config.local);
    assert_eq!(again.remote_host, config.remote_host);
    assert_eq!(again.remote_port, config.remote_port);
    assert_eq!(again.log_file, config.log_file);
    assert!(matches!(again.auth, AuthConfig::Password(p) if p == "pw2"));
}

#[test]
fn starting_record_needs_a_log_file() {
    let config = conduit::expose::types::ExposeConfig::from_connect_args(
        connect(true),
        false,
        Some("127.0.0.1:3000".to_string()),
        false,
    )
    .unwrap();
    assert!(conduit::tunnel_registry::create_starting_record("t", "connect", &config, 1, 1).is_none());
}

fn forward_config() -> ForwardConfig {
    ForwardConfig::from_forward_args(forward(true), false, Some("127.0.0.1".to_string()), true).unwrap()
}

#[test]
fn forward_starting_record() {
    let config = forward_config();
    let started = conduit::tunnel_registry::create_starting_forward_record("t-2", "forward", &config, 9, 50).unwrap();
    assert_eq!(started.id, "t-2");
    assert_eq!(started.command, "forward");
    assert_eq!(started.pid, 9);
    assert_eq!(started.created_at, 50);
    assert_eq!(started.updated_at, 50);
    assert_eq!(started.server, "example.com:22");
    assert_eq!(started.user, "root");
    assert_eq!(started.local, "127.0.0.1");
    assert_eq!(started.remote_host, "");
    assert_eq!(started.remote_port, 0);
    assert_eq!(started.mappings, "8080:web.internal:80 5432:db.internal:5432");
    assert!(started.daemon);
    assert_eq!(started.log_file, "/var/log/f.log");
    assert_eq!(started.status, TunnelStatus::Starting);
    let mut no_log = forward_config();
    no_log.log_file = None;
    assert!(conduit::tunnel_registry::create_starting_forward_record("t", "forward", &no_log, 1, 1).is_none());
}

#[test]
fn forward_config_encodes_its_mappings() {
    assert_eq!(forward_config().encoded_mappings(), "8080:web.internal:80 5432:db.internal:5432");
}

#[test]
fn restart_restores_a_started_forward_tunnel() {
    let config = forward_config();
    let started = conduit::tunnel_registry::create_starting_forward_record("t-2", "forward", &config, 9, 50).unwrap();
    let stored = TunnelRecord::from_wire(&started.to_wire()).unwrap();
    let p = prepare_restart(&stored, restart(Some("pw2"), None, true), false, None).unwrap();
    assert_eq!(p.command, "forward");
    assert_eq!(p.launch.tunnel_id, "t-2");
    assert_eq!(p.launch.log_file, "/var/log/f.log");
    assert_eq!(p.close_before_launch.as_deref(), Some("t-2"));
    match p.config {
        PreparedTunnelConfig::Forward(c) => {
            assert_eq!(c.server, config.server);
            assert_eq!(c.user, config.user);
            assert_eq!(c.bind_addr, config.bind_addr);
            assert_eq!(c.mappings, config.mappings);
            assert_eq!(c.log_file, config.log_file);
            assert!(c.daemon);
            assert!(matches!(c.auth, AuthConfig::Password(p) if p == "pw2"));
        }
        PreparedTunnelConfig::Reverse(_) => panic!("a forward tunnel restarts as a forward tunnel"),
    }
}

#[test]
fn forward_restart_refusals() {
    let mut r = forward_record();
    r.mappings = "8080:web.internal:80 8080:db.internal:5432".to_string();
    let e = build_forward_restart_config(&r, restart(Some("pw"), None, true), false).unwrap_err();
    assert_eq!(
        e.message(),
        "tunnel tunnel-9 cannot be restarted: stored forward mappings are invalid: 8080:web.internal:80 8080:db.internal:5432"
    );
    r.mappings = String::new();
    let e = build_forward_restart_config(&r, restart(Some("pw"), None, true), false).unwrap_err();
    assert_eq!(e.message(), "tunnel tunnel-9 cannot be restarted: stored forward mappings are invalid: ");
    let e = build_forward_restart_config(&forward_record(), restart(None, None, true), false).unwrap_err();
    assert!(e.message().ends_with("restart requires exactly one of --password or --key"));
    let mut not_daemon = forward_record();
    not_daemon.daemon = false;
    let e = prepare_restart(&not_daemon, restart(Some("pw"), None, true), false, None).unwrap_err();
    assert!(e.message().ends_with("only daemon-managed tunnels can be restarted"));
    let c = build_forward_restart_config(&forward_record(), restart(Some("pw"), None, true), false).unwrap();
    assert_eq!(c.mappings.len(), 2);
    assert_eq!(c.mappings[1].local_port, 5432);
    assert_eq!(c.mappings[1].target_host, "db.internal");
}

#[test]
fn fresh_launches_are_named_after_their_command() {
    let connect_config = conduit::expose::types::ExposeConfig::from_connect_args(
        connect(true),
        false,
        Some("127.0.0.1:3000".to_string()),
        false,
    )
    .unwrap();
    let p = fresh_daemon_command(
        FreshLaunch::Connect(connect_config.clone()),
        "tunnel-1-2".to_string(),
        "/var/log/c.log".to_string(),
    );
    assert_eq!(p.command, "connect");
    assert_eq!(p.launch.tunnel_id, "tunnel-1-2");
    assert_eq!(p.launch.log_file, "/var/log/c.log");
    assert!(p.close_before_launch.is_none());
    assert!(matches!(&p.config, PreparedTunnelConfig::Reverse(c) if c.local == connect_config.local));
    let p = fresh_daemon_command(FreshLaunch::Expose(connect_config), "t".to_string(), "l".to_string());
    assert_eq!(p.command, "expose");
    assert!(p.close_before_launch.is_none());
    let p = fresh_daemon_command(FreshLaunch::Forward(forward_config()), "t".to_string(), "l".to_string());
    assert_eq!(p.command, "forward");
    assert!(p.close_before_launch.is_none());
    assert!(matches!(&p.config, PreparedTunnelConfig::Forward(c) if c.mappings.len() == 2));
}
