use conduit::cli::{ConnectArgs, ExposeArgs};
use conduit::expose::auth::{build_auth, RuntimeAuth};
use conduit::expose::session::{
    classify_connect_error, classify_forward_error, ensure_auth_success, ConnectError,
    ForwardError, ReconnectBackoff, SessionFailure, SessionSupervisor, SupervisorAction,
};
use conduit::expose::types::{
    parse_server_addr, validate_remote_host, AuthConfig, ExposeConfig, RemoteSpec,
};

fn connect_args(remote: &str, user: Option<&str>) -> ConnectArgs {
    ConnectArgs {
        remote: remote.to_string(),
        user: user.map(|u| u.to_string()),
        port: 22,
        password: Some("secret".to_string()),
        key: None,
        daemon: false,
        log_file: None,
        insecure_accept_host_key: true,
    }
}

#[test]
fn reconnect_backoff_caps_and_resets() {
    let mut backoff = ReconnectBackoff::new();

    assert_eq!(backoff.next_delay(), 1);
    assert_eq!(backoff.next_delay(), 2);
    assert_eq!(backoff.next_delay(), 4);
    assert_eq!(backoff.next_delay(), 8);
    assert_eq!(backoff.next_delay(), 16);
    assert_eq!(backoff.next_delay(), 30);
    assert_eq!(backoff.next_delay(), 30);

    backoff.reset();
    assert_eq!(backoff.next_delay(), 1);
}

#[test]
fn transport_connect_errors_retry() {
    let failure = classify_connect_error(ConnectError::Transport("network down".to_string()));
    assert!(matches!(
        failure,
        SessionFailure::Retryable {
            established: false,
            ..
        }
    ));
}

#[test]
fn auth_rejection_is_terminal() {
    let failure =
        classify_connect_error(ConnectError::AuthenticationRejected("bad password".to_string()));
    assert!(matches!(failure, SessionFailure::Terminal(_)));
}

#[test]
fn request_denied_is_terminal() {
    let failure = classify_forward_error(ForwardError::RequestDenied {
        remote_host: "0.0.0.0".to_string(),
        remote_port: 8080,
    });
    assert!(matches!(failure, SessionFailure::Terminal(_)));
}

#[test]
fn forward_transport_errors_retry() {
    let failure = classify_forward_error(ForwardError::Request {
        remote_host: "0.0.0.0".to_string(),
        remote_port: 8080,
        source: russh::Error::Disconnect.to_string(),
    });
    assert!(matches!(
        failure,
        SessionFailure::Retryable {
            established: false,
            ..
        }
    ));
}

#[test]
fn forward_error_messages() {
    match classify_forward_error(ForwardError::RequestDenied {
        remote_host: "0.0.0.0".to_string(),
        remote_port: 8080,
    }) {
        SessionFailure::Terminal(m) => {
            assert_eq!(m, "SSH server denied remote forward request on 0.0.0.0:8080")
        }
        _ => panic!("expected a terminal failure"),
    }
    match classify_forward_error(ForwardError::Request {
        remote_host: "h".to_string(),
        remote_port: 1,
        source: "boom".to_string(),
    }) {
        SessionFailure::Retryable { error, .. } => {
            assert_eq!(error, "failed to register remote forward on h:1: boom")
        }
        _ => panic!("expected a retryable failure"),
    }
}

#[test]
fn supervisor_backs_off_and_resets_after_established_sessions() {
    let mut s = SessionSupervisor::new();
    let mut delays = Vec::new();
    for _ in 0..7 {
        match s.on_session_end(
            Err(SessionFailure::Retryable { error: "x".to_string(), established: false }),
            true,
        ) {
            SupervisorAction::Retry { delay_secs, mark_reconnecting, .. } => {
                assert!(!mark_reconnecting);
                delays.push(delay_secs);
            }
            _ => panic!("expected a retry"),
        }
    }
    assert_eq!(delays, vec![1, 2, 4, 8, 16, 30, 30]);
    match s.on_session_end(
        Err(SessionFailure::Retryable { error: "y".to_string(), established: true }),
        true,
    ) {
        SupervisorAction::Retry { delay_secs, attempt, mark_reconnecting, error } => {
            assert_eq!(delay_secs, 1);
            assert_eq!(attempt, 1);
            assert!(mark_reconnecting);
            assert_eq!(error, "y");
        }
        _ => panic!("expected a retry"),
    }
    assert!(matches!(s.on_session_end(Ok(()), true), SupervisorAction::Finish));
    match s.on_session_end(Err(SessionFailure::Terminal("no".to_string())), false) {
        SupervisorAction::Fail(m) => assert_eq!(m, "no"),
        _ => panic!("expected a failure"),
    }
}

#[test]
fn rejected_authentication_names_the_key_but_not_the_password() {
    let e = ensure_auth_success(false, "example.com:22", "root", &RuntimeAuth::Password("pw".to_string()))
        .unwrap_err();
    match e {
        ConnectError::AuthenticationRejected(m) => assert_eq!(
            m,
            "SSH authentication was rejected by the server for root@example.com:22 using password"
        ),
        _ => panic!("expected a rejection"),
    }
    let e = ensure_auth_success(false, "s", "u", &RuntimeAuth::PrivateKeyFile("/k".to_string()))
        .unwrap_err();
    assert!(matches!(e, ConnectError::AuthenticationRejected(m) if m.ends_with("using key /k")));
    assert!(ensure_auth_success(true, "s", "u", &RuntimeAuth::Password("pw".to_string())).is_ok());
}

#[test]
fn build_auth_keeps_credentials() {
    assert!(matches!(build_auth(&AuthConfig::Password("p".to_string())), RuntimeAuth::Password(p) if p == "p"));
    assert!(matches!(build_auth(&AuthConfig::PrivateKey("/k".to_string())), RuntimeAuth::PrivateKeyFile(k) if k == "/k"));
    assert_eq!(AuthConfig::Password("p".to_string()).describe(), "password");
    assert_eq!(AuthConfig::PrivateKey("/k".to_string()).describe(), "private-key(/k)");
}

#[test]
fn accepts_ipv4_server_addr() {
    assert!(parse_server_addr("192.168.0.109:22", true).is_ok());
    assert!(parse_server_addr("192.168.0.109:22", false).is_ok());
}

#[test]
fn accepts_hostname_server_addr() {
    assert!(parse_server_addr("example.com:22", false).is_ok());
}

#[test]
fn accepts_bracketed_ipv6_server_addr() {
    assert!(parse_server_addr("[::1]:22", true).is_ok());
}

#[test]
fn rejects_server_addr_without_port() {
    assert!(parse_server_addr("192.168.0.109", false).is_err());
}

#[test]
fn rejects_server_addr_with_invalid_port() {
    assert!(parse_server_addr("example.com:not-a-port", false).is_err());
}

#[test]
fn server_addr_edge_cases() {
    assert!(parse_server_addr("[host]:22", false).is_ok());
    let e = parse_server_addr("[nocolon", false).unwrap_err();
    assert_eq!(
        e.message(),
        "--server must be a valid host:port or [ipv6]:port address: nocolon"
    );
    assert!(parse_server_addr("a:b:22", false).is_err());
    assert!(parse_server_addr("ex ample:22", false).is_err());
    assert!(parse_server_addr("   :22", false).is_err());
    assert!(parse_server_addr("host:65536", false).is_err());
}

#[test]
fn rejects_blank_remote_host() {
    assert!(validate_remote_host("   ").is_err());
}

#[test]
fn accepts_hostname_remote_host() {
    assert!(validate_remote_host("public.example.com").is_ok());
}

#[test]
fn rejects_remote_host_with_whitespace() {
    let e = validate_remote_host("a b").unwrap_err();
    assert_eq!(e.message(), "--remote-host must be a valid IP address or hostname: a b");
    assert!(validate_remote_host("").is_err());
    assert!(validate_remote_host("x\u{3000}y").is_err());
}

#[test]
fn parses_short_remote_spec() {
    let spec = RemoteSpec::parse("root@example.com:8080:3000").unwrap();

    assert_eq!(spec.user.as_deref(), Some("root"));
    assert_eq!(spec.server_host, "example.com");
    assert_eq!(spec.remote_port, 8080);
    assert_eq!(spec.local_host, "127.0.0.1");
    assert_eq!(spec.local_port, 3000);
}

#[test]
fn parses_full_remote_spec() {
    let spec = RemoteSpec::parse("example.com:8080:192.168.1.10:3000").unwrap();

    assert_eq!(spec.user, None);
    assert_eq!(spec.server_host, "example.com");
    assert_eq!(spec.remote_port, 8080);
    assert_eq!(spec.local_host, "192.168.1.10");
    assert_eq!(spec.local_port, 3000);
}

#[test]
fn rejects_remote_spec_with_invalid_shape() {
    assert!(RemoteSpec::parse("example.com:8080").is_err());
}

#[test]
fn rejects_remote_spec_with_invalid_remote_port() {
    assert!(RemoteSpec::parse("example.com:not-a-port:3000").is_err());
}

#[test]
fn remote_spec_edge_cases() {
    assert!(RemoteSpec::parse("@example.com:1:2").is_err());
    assert!(RemoteSpec::parse("root@").is_err());
    assert!(RemoteSpec::parse(" :1:2").is_err());
    assert!(RemoteSpec::parse("h:1: :2").is_err());
    assert!(RemoteSpec::parse("h:1:a:b:2").is_err());
    let spec = RemoteSpec::parse("a@b@h:1:2").unwrap();
    assert_eq!(spec.user.as_deref(), Some("a"));
    assert_eq!(spec.server_host, "b@h");
    let e = RemoteSpec::parse("h:1").unwrap_err();
    assert!(e.message().ends_with(": h:1"));
}

#[test]
fn remote_spec_renders_and_parses_back() {
    let spec = RemoteSpec::parse("root@example.com:8080:3000").unwrap();
    assert_eq!(spec.render(), "root@example.com:8080:127.0.0.1:3000");
    assert_eq!(spec.local_target(), "127.0.0.1:3000");
    assert_eq!(RemoteSpec::parse(&spec.render()).unwrap(), spec);
}

#[test]
fn connect_args_convert_to_expose_config() {
    let config = ExposeConfig::from_connect_args(
        ConnectArgs {
            remote: "root@example.com:8080:3000".to_string(),
            user: None,
            port: 22,
            password: Some("secret".to_string()),
            key: None,
            daemon: false,
            log_file: None,
            insecure_accept_host_key: true,
        },
        false,
        Some("127.0.0.1:3000".to_string()),
        false,
    )
    .unwrap();

    assert_eq!(config.server, "example.com:22");
    assert_eq!(config.user, "root");
    assert_eq!(config.local, "127.0.0.1:3000");
    assert_eq!(config.remote_host, "0.0.0.0");
    assert_eq!(config.remote_port, 8080);
}

#[test]
fn connect_args_require_user() {
    let error = ExposeConfig::from_connect_args(
        ConnectArgs {
            remote: "example.com:8080:3000".to_string(),
            user: None,
            port: 22,
            password: Some("secret".to_string()),
            key: None,
            daemon: false,
            log_file: None,
            insecure_accept_host_key: true,
        },
        false,
        Some("127.0.0.1:3000".to_string()),
        false,
    )
    .unwrap_err();

    assert!(error.message().contains("SSH username must be provided"));
}

#[test]
fn connect_args_reject_conflicting_users() {
    let error = ExposeConfig::from_connect_args(
        ConnectArgs {
            remote: "root@example.com:8080:3000".to_string(),
            user: Some("admin".to_string()),
            port: 22,
            password: Some("secret".to_string()),
            key: None,
            daemon: false,
            log_file: None,
            insecure_accept_host_key: true,
        },
        false,
        Some("127.0.0.1:3000".to_string()),
        false,
    )
    .unwrap_err();

    assert!(error.message().contains("conflicts with --user"));
}

#[test]
fn connect_config_error_order() {
    let mut a = connect_args("root@example.com:8080:3000", None);
    a.password = None;
    let e = ExposeConfig::from_connect_args(a.clone(), false, None, false).unwrap_err();
    assert!(e.message().contains("exactly one of --password"));
    a.key = Some("/missing".to_string());
    let e = ExposeConfig::from_connect_args(a.clone(), false, None, false).unwrap_err();
    assert_eq!(e.message(), "private key file does not exist: /missing");
    let ok = ExposeConfig::from_connect_args(a, true, Some("127.0.0.1:3000".to_string()), false).unwrap();
    assert!(matches!(ok.auth, AuthConfig::PrivateKey(k) if k == "/missing"));
    let e = ExposeConfig::from_connect_args(connect_args("root@example.com:8080:localhost:3000", None), false, None, false)
        .unwrap_err();
    assert!(e.message().ends_with(": root@example.com:8080:localhost:3000"));
    let mut a = connect_args("root@example.com:8080:3000", Some("root"));
    a.insecure_accept_host_key = false;
    let e = ExposeConfig::from_connect_args(a, false, Some("127.0.0.1:3000".to_string()), false).unwrap_err();
    assert!(e.message().contains("--insecure-accept-host-key"));
}

#[test]
fn expose_args_convert_to_config() {
    let args = ExposeArgs {
        server: "example.com:22".to_string(),
        user: "root".to_string(),
        local: "127.0.0.1:3000".to_string(),
        remote_port: 8080,
        remote_host: "0.0.0.0".to_string(),
        password: Some("pw".to_string()),
        private_key: None,
        daemon: true,
        log_file: Some("/tmp/x.log".to_string()),
        insecure_accept_host_key: true,
    };
    let c = ExposeConfig::from_expose_args(args.clone(), false, Some("127.0.0.1:3000".to_string()), false).unwrap();
    assert_eq!(c.server, "example.com:22");
    assert_eq!(c.log_file.as_deref(), Some("/tmp/x.log"));
    let e = ExposeConfig::from_expose_args(args.clone(), false, None, false).unwrap_err();
    assert_eq!(e.message(), "--local must be a valid socket address: 127.0.0.1:3000");
    let mut bad = args;
    bad.remote_host = " ".to_string();
    let e = ExposeConfig::from_expose_args(bad, false, Some("127.0.0.1:3000".to_string()), false).unwrap_err();
    assert!(e.message().starts_with("--remote-host"));
}

#[test]
fn parsed_remote_specs_render_and_parse_back_unchanged() {
    for text in [
        "root@example.com:8080:3000",
        "example.com:8080:3000",
        "deploy@10.0.0.5:9000:localhost:3000",
        "a@b:1:c:2",
        "host:0:0",
    ] {
        let spec = RemoteSpec::parse(text).unwrap();
        assert_eq!(RemoteSpec::parse(&spec.render()).unwrap(), spec, "{text}");
    }
}
