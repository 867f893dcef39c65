use conduit::tunnel_registry::{
    close_tunnel, delete_tunnel, escape, get_record, list_records, mark_exited, mark_failed,
    mark_reconnecting, mark_running, reconcile_record, stop_all_tunnels, tunnel_id, unescape,
    RecordFormatError, TunnelRecord, TunnelStatus, WireKey,
};
use conduit::decimal::IntErrorKind;

fn sample() -> TunnelRecord {
    TunnelRecord {
        id: "tunnel-1".to_string(),
        command: "connect".to_string(),
        pid: 1234,
        created_at: 1,
        updated_at: 2,
        server: "example.com:22".to_string(),
        user: "root".to_string(),
        local: "127.0.0.1:3000".to_string(),
        remote_host: "0.0.0.0".to_string(),
        remote_port: 8080,
        mappings: String::new(),
        daemon: true,
        log_file: "/tmp/conduit.log".to_string(),
        status: TunnelStatus::Running,
    }
}

#[test]
fn record_round_trips_through_wire_format() {
    let record = TunnelRecord {
        id: "tunnel-1".to_string(),
        command: "connect".to_string(),
        pid: 1234,
        created_at: 1,
        updated_at: 2,
        server: "example.com:22".to_string(),
        user: "root".to_string(),
        local: "127.0.0.1:3000".to_string(),
        remote_host: "0.0.0.0".to_string(),
        remote_port: 8080,
        mappings: String::new(),
        daemon: true,
        log_file: "/tmp/conduit.log".to_string(),
        status: TunnelStatus::Running,
    };

    let parsed = TunnelRecord::from_wire(&record.to_wire()).unwrap();

    assert_eq!(parsed.id, record.id);
    assert_eq!(parsed.command, record.command);
    assert_eq!(parsed.pid, record.pid);
    assert_eq!(parsed.server, record.server);
    assert_eq!(parsed.user, record.user);
    assert_eq!(parsed.local, record.local);
    assert_eq!(parsed.remote_host, record.remote_host);
    assert_eq!(parsed.remote_port, record.remote_port);
    assert_eq!(parsed.daemon, record.daemon);
    assert_eq!(parsed.log_file, record.log_file);
    assert_eq!(parsed.status, record.status);
}

#[test]
fn wire_text_has_one_line_per_field_in_order() {
    let text = sample().to_wire();
    assert_eq!(
        text,
        "id=tunnel-1\ncommand=connect\npid=1234\ncreated_at=1\nupdated_at=2\nserver=example.com:22\nuser=root\nlocal=127.0.0.1:3000\nremote_host=0.0.0.0\nremote_port=8080\ndaemon=true\nlog_file=/tmp/conduit.log\nstatus=running\n"
    );
}

#[test]
fn escaped_values_round_trip() {
    let mut record = sample();
    record.id = "a\\b\nc=d".to_string();
    record.log_file = "C:\\logs\\x.log".to_string();
    let text = record.to_wire();
    assert!(text.starts_with("id=a\\\\b\\nc=d\n"));
    let parsed = TunnelRecord::from_wire(&text).unwrap();
    assert_eq!(parsed.id, record.id);
    assert_eq!(parsed.log_file, record.log_file);
}

#[test]
fn escape_and_unescape() {
    assert_eq!(escape("a\\b\nc"), "a\\\\b\\nc");
    assert_eq!(unescape("a\\\\b\\nc"), "a\\b\nc");
    assert_eq!(unescape("x\\qy"), "xqy");
    assert_eq!(unescape("trailing\\"), "trailing\\");
    for s in ["", "plain", "\\", "\n", "\\n", "\\\\n\n"] {
        assert_eq!(unescape(&escape(s)), s);
    }
}

#[test]
fn from_wire_handles_blank_lines_crlf_and_unknown_keys() {
    let text = "\n  \nid=t\r\ncommand=connect\nextra=ignored\npid=+7\ncreated_at=10\nupdated_at=11\nserver=s\nuser=u\nlocal=l\nremote_host=h\nremote_port=22\ndaemon=yes\nlog_file=f\nstatus=stale";
    let r = TunnelRecord::from_wire(text).unwrap();
    assert_eq!(r.id, "t");
    assert_eq!(r.mappings, "");
    assert_eq!(r.pid, 7);
    assert!(!r.daemon);
    assert_eq!(r.status, TunnelStatus::Stale);
}

#[test]
fn from_wire_reports_errors() {
    assert_eq!(
        TunnelRecord::from_wire("id=x\nno equals sign\n").unwrap_err(),
        RecordFormatError::InvalidLine
    );
    assert_eq!(
        TunnelRecord::from_wire("pid=-1\n").unwrap_err(),
        RecordFormatError::InvalidPid(IntErrorKind::InvalidDigit)
    );
    assert_eq!(
        TunnelRecord::from_wire("remote_port=65536\n").unwrap_err(),
        RecordFormatError::InvalidRemotePort(IntErrorKind::PosOverflow)
    );
    assert_eq!(
        TunnelRecord::from_wire("").unwrap_err(),
        RecordFormatError::Missing(WireKey::Id)
    );
    let no_status = sample().to_wire().replace("status=running", "status=bogus");
    assert_eq!(
        TunnelRecord::from_wire(&no_status).unwrap_err(),
        RecordFormatError::Missing(WireKey::Status)
    );
    assert_eq!(
        RecordFormatError::Missing(WireKey::Daemon).message(),
        "missing tunnel daemon flag"
    );
}

#[test]
fn status_names() {
    for s in [
        TunnelStatus::Starting,
        TunnelStatus::Running,
        TunnelStatus::Reconnecting,
        TunnelStatus::Exited,
        TunnelStatus::Failed,
        TunnelStatus::Stale,
    ] {
        assert_eq!(TunnelStatus::parse(s.as_str()), Some(s));
    }
    assert_eq!(TunnelStatus::Running.as_str(), "running");
    assert_eq!(TunnelStatus::parse("RUNNING"), None);
    assert!(TunnelStatus::Starting.is_active());
    assert!(TunnelStatus::Reconnecting.is_active());
    assert!(!TunnelStatus::Failed.is_active());
}

#[test]
fn marks_set_status_and_time_only() {
    let mut r = sample();
    mark_failed(&mut r, 50);
    assert_eq!(r.status, TunnelStatus::Failed);
    assert_eq!(r.updated_at, 50);
    assert_eq!(r.created_at, 1);
    mark_running(&mut r, 51);
    assert_eq!(r.status, TunnelStatus::Running);
    mark_reconnecting(&mut r, 52);
    assert_eq!(r.status, TunnelStatus::Reconnecting);
    mark_exited(&mut r, 53);
    assert_eq!(r.status, TunnelStatus::Exited);
    assert_eq!(r.updated_at, 53);
    assert_eq!(r.id, "tunnel-1");
}

#[test]
fn reconcile_marks_dead_active_tunnels_stale() {
    let mut r = sample();
    assert!(!reconcile_record(&mut r, true, 9));
    assert_eq!(r.status, TunnelStatus::Running);
    assert!(reconcile_record(&mut r, false, 9));
    assert_eq!(r.status, TunnelStatus::Stale);
    assert_eq!(r.updated_at, 9);
    let mut f = sample();
    f.status = TunnelStatus::Failed;
    assert!(!reconcile_record(&mut f, false, 9));
    assert_eq!(f.status, TunnelStatus::Failed);
}

#[test]
fn get_record_reports_unknown_tunnels() {
    let e = get_record(None, "nope", false, 0).unwrap_err();
    assert_eq!(e.message(), "unknown tunnel id: nope");
    let (r, changed) = get_record(Some(sample()), "tunnel-1", false, 5).unwrap();
    assert!(changed);
    assert_eq!(r.status, TunnelStatus::Stale);
}

#[test]
fn close_terminates_live_tunnels() {
    let (r, terminate) = close_tunnel(sample(), true, 7);
    assert!(terminate);
    assert_eq!(r.status, TunnelStatus::Exited);
    let (r, terminate) = close_tunnel(sample(), false, 7);
    assert!(!terminate);
    assert_eq!(r.status, TunnelStatus::Stale);
    assert_eq!(r.updated_at, 7);
}

#[test]
fn stop_selects_active_unless_all() {
    let mut a = sample();
    a.id = "a".to_string();
    let mut b = sample();
    b.id = "b".to_string();
    b.status = TunnelStatus::Exited;
    let plan = stop_all_tunnels(vec![a.clone(), b.clone()], &vec![true, false], false, 3);
    assert_eq!(plan.len(), 1);
    assert_eq!(plan[0].0.id, "a");
    assert!(plan[0].1);
    assert_eq!(plan[0].0.status, TunnelStatus::Exited);
    let plan = stop_all_tunnels(vec![a, b], &vec![false, false], true, 3);
    assert_eq!(plan.len(), 2);
    assert_eq!(plan[1].0.status, TunnelStatus::Stale);
    assert!(!plan[1].1);
}

#[test]
fn delete_requires_force_while_alive() {
    let e = delete_tunnel(sample(), true, false, 1).unwrap_err();
    assert!(e.message().contains("close it first or pass --force"));
    let (r, terminate) = delete_tunnel(sample(), true, true, 4).unwrap();
    assert!(terminate);
    assert_eq!(r.status, TunnelStatus::Exited);
    let (r, terminate) = delete_tunnel(sample(), false, false, 4).unwrap();
    assert!(!terminate);
    assert_eq!(r.status, TunnelStatus::Running);
}

#[test]
fn list_is_newest_first_and_filters_inactive() {
    let mut rs = Vec::new();
    for (id, created, status) in [
        ("old", 1, TunnelStatus::Running),
        ("dead", 5, TunnelStatus::Failed),
        ("new", 9, TunnelStatus::Starting),
        ("tie", 1, TunnelStatus::Reconnecting),
    ] {
        let mut r = sample();
        r.id = id.to_string();
        r.created_at = created;
        r.status = status;
        rs.push(r);
    }
    let ids: Vec<String> = list_records(rs.clone(), false).into_iter().map(|r| r.id).collect();
    assert_eq!(ids, vec!["new", "old", "tie"]);
    let ids: Vec<String> = list_records(rs, true).into_iter().map(|r| r.id).collect();
    assert_eq!(ids, vec!["new", "dead", "old", "tie"]);
}

#[test]
fn tunnel_ids_and_file_names() {
    assert_eq!(tunnel_id(1700000000123, 42), "tunnel-1700000000123-42");
    assert_eq!(conduit::tunnel_registry::record_file_name("t"), "t.meta");
    assert_eq!(conduit::tunnel_registry::log_file_name("t"), "t.log");
}

#[test]
fn forward_record_stores_its_mappings() {
    let mut record = sample();
    record.command = "forward".to_string();
    record.local = "127.0.0.1".to_string();
    record.remote_host = String::new();
    record.remote_port = 0;
    record.mappings = "8080:web.internal:80 5432:db.internal:5432".to_string();
    let text = record.to_wire();
    assert_eq!(
        text,
        "id=tunnel-1\ncommand=forward\npid=1234\ncreated_at=1\nupdated_at=2\nserver=example.com:22\nuser=root\nlocal=127.0.0.1\nremote_host=\nremote_port=0\nmappings=8080:web.internal:80 5432:db.internal:5432\ndaemon=true\nlog_file=/tmp/conduit.log\nstatus=running\n"
    );
    let parsed = TunnelRecord::from_wire(&text).unwrap();
    assert_eq!(parsed.mappings, record.mappings);
    assert_eq!(parsed.command, "forward");
    assert_eq!(parsed.local, "127.0.0.1");
    assert_eq!(parsed.remote_port, 0);
}

#[test]
fn number_errors_carry_the_parse_cause() {
    let cases = [
        ("pid=-1\n", "invalid tunnel pid: invalid digit found in string"),
        ("pid=\n", "invalid tunnel pid: cannot parse integer from empty string"),
        ("pid=+\n", "invalid tunnel pid: invalid digit found in string"),
        ("pid=4294967296\n", "invalid tunnel pid: number too large to fit in target type"),
        ("pid=99999999999x\n", "invalid tunnel pid: number too large to fit in target type"),
        ("pid=12x99999999999\n", "invalid tunnel pid: invalid digit found in string"),
        ("created_at=1.5\n", "invalid created_at: invalid digit found in string"),
        ("updated_at=18446744073709551616\n", "invalid updated_at: number too large to fit in target type"),
        ("remote_port=70000\n", "invalid remote_port: number too large to fit in target type"),
    ];
    for (text, message) in cases {
        assert_eq!(TunnelRecord::from_wire(text).unwrap_err().message(), message, "{text:?}");
    }
    assert_eq!(
        TunnelRecord::from_wire("pid=\n").unwrap_err(),
        RecordFormatError::InvalidPid(IntErrorKind::Empty)
    );
}

#[test]
fn parse_causes_match_std() {
    for text in ["", "+", "-", "-1", "+7", "007", "4294967295", "4294967296", "99999999999x", "1 2", "٣"] {
        let from_wire = TunnelRecord::from_wire(&format!("pid={text}\n"));
        match text.parse::<u32>() {
            Ok(_) => assert!(
                !matches!(from_wire, Err(RecordFormatError::InvalidPid(_))),
                "{text:?}"
            ),
            Err(e) => assert_eq!(
                from_wire.unwrap_err().message(),
                format!("invalid tunnel pid: {e}"),
                "{text:?}"
            ),
        }
    }
}
