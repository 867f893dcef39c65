use conduit::report::{close_message, list_row, status_lines, stop_row, stop_summary, tail_start};
use conduit::tunnel_registry::{TunnelRecord, TunnelStatus};

fn record() -> TunnelRecord {
    TunnelRecord {
        id: "tunnel-1".to_string(),
        command: "connect".to_string(),
        pid: 1234,
        created_at: 10,
        updated_at: 20,
        server: "example.com:22".to_string(),
        user: "root".to_string(),
        local: "127.0.0.1:3000".to_string(),
        remote_host: "0.0.0.0".to_string(),
        remote_port: 8080,
        mappings: String::new(),
        daemon: true,
        log_file: "/tmp/conduit.log".to_string(),
        status: TunnelStatus::Running,
    }
}

#[test]
fn list_row_columns() {
    assert_eq!(list_row(&record()), "tunnel-1\trunning\t1234\t0.0.0.0:8080\t127.0.0.1:3000");
}

#[test]
fn status_report_lines() {
    let lines = status_lines(&record());
    assert_eq!(
        lines,
        vec![
            "id: tunnel-1",
            "command: connect",
            "status: running",
            "pid: 1234",
            "server: example.com:22",
            "user: root",
            "remote: 0.0.0.0:8080",
            "local: 127.0.0.1:3000",
            "log_file: /tmp/conduit.log",
            "created_at: 10",
            "updated_at: 20",
        ]
    );
}

#[test]
fn close_and_stop_messages() {
    let mut r = record();
    r.status = TunnelStatus::Stale;
    assert_eq!(close_message(&r), "closed tunnel tunnel-1 (status: stale)");
    assert_eq!(stop_row(&r), "tunnel-1\tstale");
    assert_eq!(stop_summary(0), "no managed tunnels to stop");
    assert_eq!(stop_summary(3), "stopped 3 tunnel(s)");
}

#[test]
fn tail_window() {
    assert_eq!(tail_start(250, 100), 150);
    assert_eq!(tail_start(5, 100), 0);
    assert_eq!(tail_start(0, 0), 0);
}

#[test]
fn forward_tunnels_show_their_mappings() {
    let mut r = record();
    r.command = "forward".to_string();
    r.local = "127.0.0.1".to_string();
    r.remote_host = String::new();
    r.remote_port = 0;
    r.mappings = "8080:web.internal:80 5432:db.internal:5432".to_string();
    assert_eq!(
        list_row(&r),
        "tunnel-1\trunning\t1234\t8080:web.internal:80 5432:db.internal:5432\t127.0.0.1"
    );
    assert_eq!(status_lines(&r)[6], "remote: 8080:web.internal:80 5432:db.internal:5432");
    assert_eq!(status_lines(&r)[7], "local: 127.0.0.1");
}
