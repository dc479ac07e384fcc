use seki::arnes_cache::{build_request, format_status};

#[test]
fn format_status_rounded() {
    assert_eq!(format_status(81, false), "arnes: 81%");
}

#[test]
fn arnes_cache_format_status_stale_suffix() {
    assert_eq!(format_status(42, true), "arnes: 42% (stale)");
}

#[test]
fn arnes_cache_build_request_shape() {
    let req = build_request();
    assert!(req.starts_with("GET /v1/stats HTTP/1.0\r\n"));
    assert!(req.contains("Connection: close\r\n"));
    assert!(req.ends_with("\r\n\r\n"));
}

#[test]
fn arnes_format_status_zero_and_full() {
    assert_eq!(format_status(0, false), "arnes: 0%");
    assert_eq!(format_status(100, true), "arnes: 100% (stale)");
}

use seki::arnes_cache::resolve_socket;

#[test]
fn resolve_socket_env_override() {
    let key = "SEKI_TEST_ARNES_SOCK_OVERRIDE";
    let lookup = |k: &str| if k == key { Some("/run/arnes-override.sock".to_owned()) } else { None };
    assert_eq!(
        resolve_socket(key, ".local/share/arnes/arnes.sock", Some("/home/u"), lookup),
        Some("/run/arnes-override.sock".to_owned())
    );
}

#[test]
fn resolve_socket_relative_under_home() {
    let lookup = |_: &str| None;
    let got = resolve_socket("SEKI_TEST_ARNES_DEFINITELY_UNSET", ".local/share/arnes/arnes.sock", Some("/home/u"), lookup).unwrap();
    assert_eq!(got, "/home/u/.local/share/arnes/arnes.sock");
}

#[test]
fn resolve_socket_absolute_path_preserved() {
    let lookup = |_: &str| None;
    let got = resolve_socket("SEKI_TEST_ARNES_DEFINITELY_UNSET", "/var/run/arnes.sock", Some("/home/u"), lookup).unwrap();
    assert_eq!(got, "/var/run/arnes.sock");
}

#[test]
fn resolve_socket_empty_and_homeless() {
    let lookup = |_: &str| Some(String::new());
    assert_eq!(resolve_socket("X", "", None, lookup), None);
    let lookup = |_: &str| None;
    assert_eq!(resolve_socket("", "rel.sock", None, lookup), Some("rel.sock".to_owned()));
}
