use tunnelium::error::Error;
use tunnelium::tunnel::proxy::{http_refusal, refusal_from_text};
use tunnelium::tunnel::stats::TunnelStats;

#[test]
fn http_refusal_reports_the_trimmed_status_line() {
    match http_refusal(b"HTTP/1.1 407 Proxy Authentication Required  \r\nX: y\r\n\r\n") {
        Error::Ssh(m) => {
            assert_eq!(m, "HTTP proxy CONNECT failed: HTTP/1.1 407 Proxy Authentication Required")
        }
        other => panic!("unexpected {:?}", other),
    }
    match http_refusal(b"") {
        Error::Ssh(m) => assert_eq!(m, "HTTP proxy CONNECT failed: "),
        other => panic!("unexpected {:?}", other),
    }
}

#[test]
fn counters_survive_a_new_session() {
    let mut stats = TunnelStats::new();
    stats.add_up(10);
    stats.add_down(20);
    stats.conn_open();
    stats.restart_uptime();
    let snap = stats.snapshot();
    assert_eq!((snap.bytes_up, snap.bytes_down, snap.active_connections), (10, 20, 1));
    assert_eq!(snap.retry_count, 0);
}

#[test]
fn counters_wrap_like_atomics() {
    let mut stats = TunnelStats::new();
    stats.add_up(u64::MAX);
    stats.add_up(2);
    stats.conn_close();
    let snap = stats.snapshot();
    assert_eq!(snap.bytes_up, 1);
    assert_eq!(snap.active_connections, u32::MAX);
}

#[test]
fn snapshot_reflects_counters() {
    let mut stats = TunnelStats::new();
    stats.add_up(100);
    stats.add_down(250);
    stats.conn_open();
    stats.conn_open();
    stats.conn_close();

    let snap = stats.snapshot();
    assert_eq!(snap.bytes_up, 100);
    assert_eq!(snap.bytes_down, 250);
    assert_eq!(snap.active_connections, 1);
}

#[test]
fn refusal_text_is_the_trimmed_first_line() {
    match refusal_from_text("  HTTP/1.1 502 Bad Gateway \nVia: x") {
        Error::Ssh(m) => assert_eq!(m, "HTTP proxy CONNECT failed: HTTP/1.1 502 Bad Gateway"),
        other => panic!("unexpected {:?}", other),
    }
    match http_refusal(b"HTTP/1.1 403 \xff\r\n\r\n") {
        Error::Ssh(m) => assert_eq!(m, "HTTP proxy CONNECT failed: HTTP/1.1 403 \u{fffd}"),
        other => panic!("unexpected {:?}", other),
    }
}
