use seki::engenho::{addr_host, build_request, format_status, parse_status, ReadyState};

#[test]
fn engenho_build_request_shape() {
    let req = build_request("127.0.0.1", "/readyz");
    assert!(req.starts_with("GET /readyz HTTP/1.0\r\n"));
    assert!(req.contains("Host: 127.0.0.1\r\n"));
    assert!(req.contains("Connection: close\r\n"));
    assert!(req.ends_with("\r\n\r\n"));
}

#[test]
fn build_request_empty_path_becomes_slash() {
    let req = build_request("h", "");
    assert!(req.starts_with("GET / HTTP/1.0\r\n"));
}

#[test]
fn addr_host_strips_port() {
    assert_eq!(addr_host("127.0.0.1:6443"), "127.0.0.1");
    assert_eq!(addr_host("engenho.local:8080"), "engenho.local");
}

#[test]
fn addr_host_without_port() {
    assert_eq!(addr_host("engenho.local"), "engenho.local");
}

#[test]
fn parse_status_200_ok() {
    assert_eq!(parse_status("HTTP/1.0 200 OK\r\nfoo"), Some(200));
}

#[test]
fn parse_status_503() {
    assert_eq!(parse_status("HTTP/1.1 503 Service Unavailable\r\n"), Some(503));
}

#[test]
fn parse_status_garbage() {
    assert_eq!(parse_status("not a status line"), None);
    assert_eq!(parse_status(""), None);
}

#[test]
fn format_status_ready() {
    assert_eq!(format_status(ReadyState::Ready, false), "engenho: ready");
}

#[test]
fn format_status_degraded() {
    assert_eq!(format_status(ReadyState::Degraded, false), "engenho: degraded");
}

#[test]
fn format_status_stale() {
    assert_eq!(format_status(ReadyState::Ready, true), "engenho: ready (stale)");
}

use seki::engenho::resolve_addr;

#[test]
fn resolve_addr_uses_env_override() {
    let key = "SEKI_TEST_ENGENHO_ADDR_OVERRIDE";
    let lookup = |k: &str| if k == key { Some("192.0.2.1:6443".to_owned()) } else { None };
    assert_eq!(resolve_addr(key, "127.0.0.1:6443", lookup), "192.0.2.1:6443");
}

#[test]
fn resolve_addr_falls_back_when_env_unset() {
    let lookup = |_: &str| None;
    assert_eq!(resolve_addr("SEKI_TEST_ENGENHO_DEFINITELY_UNSET", "127.0.0.1:6443", lookup), "127.0.0.1:6443");
}
