use conduit::cli::ForwardArgs;
use conduit::forward::{socket_addr_text, ForwardConfig, ForwardMapping, ForwardRemoteSpec};

fn args(local: &[&str], remote: &str) -> ForwardArgs {
    ForwardArgs {
        local: local.iter().map(|s| s.to_string()).collect(),
        remote: remote.to_string(),
        user: None,
        bind: None,
        gateway: false,
        password: Some("secret".to_string()),
        key: None,
        daemon: false,
        log_file: None,
        insecure_accept_host_key: true,
    }
}

#[test]
fn parses_forward_remote_with_default_port() {
    let spec = ForwardRemoteSpec::parse("root@example.com").unwrap();

    assert_eq!(spec.user.as_deref(), Some("root"));
    assert_eq!(spec.server_host, "example.com");
    assert_eq!(spec.server_port, 22);
}

#[test]
fn parses_forward_remote_with_explicit_port() {
    let spec = ForwardRemoteSpec::parse("example.com:2222").unwrap();

    assert_eq!(spec.user, None);
    assert_eq!(spec.server_host, "example.com");
    assert_eq!(spec.server_port, 2222);
}

#[test]
fn parses_forward_remote_edge_cases() {
    let spec = ForwardRemoteSpec::parse("u@[::1]:2200").unwrap();
    assert_eq!(spec.server_host, "[::1]");
    assert_eq!(spec.server_port, 2200);
    assert_eq!(ForwardRemoteSpec::parse("[::1]").unwrap().server_port, 22);
    assert!(ForwardRemoteSpec::parse("[::1]x").is_err());
    assert!(ForwardRemoteSpec::parse("[::1").is_err());
    assert!(ForwardRemoteSpec::parse("::1:22").is_err());
    assert!(ForwardRemoteSpec::parse(":22").is_err());
    assert!(ForwardRemoteSpec::parse("   ").is_err());
    assert!(ForwardRemoteSpec::parse("@host").is_err());
    assert!(ForwardRemoteSpec::parse("host:99999").is_err());
    let e = ForwardRemoteSpec::parse("user@").unwrap_err();
    assert!(e.message().ends_with(": user@"));
}

#[test]
fn parses_forward_local_spec() {
    let spec = ForwardMapping::parse("8080:web.internal:80").unwrap();

    assert_eq!(spec.local_port, 8080);
    assert_eq!(spec.target_host, "web.internal");
    assert_eq!(spec.target_port, 80);
}

#[test]
fn forward_local_spec_edge_cases() {
    let m = ForwardMapping::parse("8080:::1:80").unwrap();
    assert_eq!(m.target_host, "::1");
    assert_eq!(m.target_addr(), "::1:80");
    assert_eq!(m.encoded_spec(), "8080:::1:80");
    assert!(ForwardMapping::parse("8080:web").is_err());
    assert!(ForwardMapping::parse("8080: :80").is_err());
    assert!(ForwardMapping::parse("8080:a b:80").is_err());
    assert!(ForwardMapping::parse("x:web:80").is_err());
    assert!(ForwardMapping::parse("8080:web:65536").is_err());
    let e = ForwardMapping::parse("nope").unwrap_err();
    assert!(e.message().ends_with(": nope"));
}

#[test]
fn forward_mapping_round_trips() {
    let m = ForwardMapping::parse("+08080:db.internal:5432").unwrap();
    assert_eq!(m.encoded_spec(), "8080:db.internal:5432");
    assert_eq!(m.target_addr(), "db.internal:5432");
    assert_eq!(ForwardMapping::parse(&m.encoded_spec()).unwrap(), m);
}

#[test]
fn forward_args_convert_to_config_with_multiple_mappings() {
    let config = ForwardConfig::from_forward_args(
        ForwardArgs {
            local: vec![
                "8080:web.internal:80".to_string(),
                "5432:db.internal:5432".to_string(),
            ],
            remote: "root@example.com:2222".to_string(),
            user: None,
            bind: None,
            gateway: false,
            password: Some("secret".to_string()),
            key: None,
            daemon: false,
            log_file: None,
            insecure_accept_host_key: true,
        },
        false,
        Some("127.0.0.1".to_string()),
        false,
    )
    .unwrap();

    assert_eq!(config.server, "example.com:2222");
    assert_eq!(config.user, "root");
    assert_eq!(config.bind_addr, "127.0.0.1");
    assert_eq!(config.mappings.len(), 2);
}

#[test]
fn rejects_duplicate_forward_binds() {
    let error = ForwardConfig::from_forward_args(
        ForwardArgs {
            local: vec![
                "8080:web.internal:80".to_string(),
                "8080:db.internal:5432".to_string(),
            ],
            remote: "root@example.com".to_string(),
            user: None,
            bind: None,
            gateway: false,
            password: Some("secret".to_string()),
            key: None,
            daemon: false,
            log_file: None,
            insecure_accept_host_key: true,
        },
        false,
        Some("127.0.0.1".to_string()),
        false,
    )
    .unwrap_err();

    assert!(error.message().contains("duplicate local forward bind"));
}

#[test]
fn rejects_missing_forward_user() {
    let error = ForwardConfig::from_forward_args(
        ForwardArgs {
            local: vec!["8080:web.internal:80".to_string()],
            remote: "example.com".to_string(),
            user: None,
            bind: None,
            gateway: false,
            password: Some("secret".to_string()),
            key: None,
            daemon: false,
            log_file: None,
            insecure_accept_host_key: true,
        },
        false,
        Some("127.0.0.1".to_string()),
        false,
    )
    .unwrap_err();

    assert!(error.message().contains("SSH username must be provided"));
}

#[test]
fn forward_config_bind_rules() {
    let mut a = args(&["8080:web:80", "8080:db:80"], "root@example.com");
    a.bind = Some("::1".to_string());
    let e = ForwardConfig::from_forward_args(a.clone(), false, Some("::1".to_string()), false).unwrap_err();
    assert_eq!(e.message(), "duplicate local forward bind: [::1]:8080");
    let e = ForwardConfig::from_forward_args(a.clone(), false, None, false).unwrap_err();
    assert_eq!(e.message(), "--bind must be a valid IP address: ::1");
    a.gateway = true;
    a.local = vec!["1:w:2".to_string()];
    let c = ForwardConfig::from_forward_args(a, false, None, false).unwrap();
    assert_eq!(c.bind_addr, "0.0.0.0");
    let e = ForwardConfig::from_forward_args(args(&[], "root@h"), false, None, false).unwrap_err();
    assert!(e.message().contains("at least one"));
    let e = ForwardConfig::from_forward_args(args(&["bad"], "root@h"), false, Some("127.0.0.1".to_string()), false)
        .unwrap_err();
    assert!(e.message().ends_with(": bad"));
    assert_eq!(socket_addr_text("10.0.0.1", 80), "10.0.0.1:80");
}
