use seki::shigoto::{
    build_probe_url, format_status, parse_snapshot_counts, parse_url, render_format, resolve_addr,
    split_response_body,
};
use std::collections::HashMap;

fn stub_lookup(map: HashMap<&'static str, &'static str>) -> impl Fn(&str) -> Option<String> {
    move |name: &str| map.get(name).map(|s| (*s).to_owned())
}

#[test]
fn resolve_addr_env_marker_uses_lookup() {
    let lookup = stub_lookup(HashMap::from([("SHIGOTO_ADDR", "http://1.2.3.4:9999")]));
    assert_eq!(resolve_addr("$env", lookup), Some("http://1.2.3.4:9999".to_owned()));
}

#[test]
fn resolve_addr_empty_returns_none() {
    let lookup = stub_lookup(HashMap::new());
    assert_eq!(resolve_addr("", lookup), None);
}

#[test]
fn resolve_addr_env_marker_default_fallback() {
    let lookup = stub_lookup(HashMap::new());
    assert_eq!(resolve_addr("$env", lookup), Some("http://127.0.0.1:38830".to_owned()));
}

#[test]
fn build_probe_url_handles_trailing_slash() {
    assert_eq!(build_probe_url("http://x:1/", "/v1/snapshot"), "http://x:1/v1/snapshot");
}

#[test]
fn parse_url_explicit_port() {
    let (h, p, path) = parse_url("http://127.0.0.1:38830/v1/snapshot").unwrap();
    assert_eq!(h, "127.0.0.1");
    assert_eq!(p, 38830);
    assert_eq!(path, "/v1/snapshot");
}

#[test]
fn parse_url_rejects_non_http() {
    assert!(parse_url("https://x/").is_none());
}

#[test]
fn parse_snapshot_counts_explicit_fields() {
    let body = r#"{"running": 2, "pending": 5}"#;
    assert_eq!(parse_snapshot_counts(body), Some((2, 5)));
}

#[test]
fn parse_snapshot_counts_falls_back_to_phase_scan() {
    let body = r#"{"jobs":[
            {"phase":"Running"},{"phase":"Running"},
            {"phase":"Queued"},{"phase":"Ready"}
        ]}"#;
    assert_eq!(parse_snapshot_counts(body), Some((2, 2)));
}

#[test]
fn shigoto_format_status_idle() {
    assert_eq!(format_status(0, 0, false), "shigoto: idle");
}

#[test]
fn shigoto_format_status_active() {
    assert_eq!(format_status(2, 3, false), "shigoto: 2 running, 3 pending");
}

#[test]
fn shigoto_format_status_stale_suffix() {
    assert_eq!(format_status(1, 0, true), "shigoto: 1 running, 0 pending (stale)");
}

#[test]
fn shigoto_render_format_default_template() {
    let out = render_format("[$status]($style)", 1, 2, "shigoto: 1 running, 2 pending");
    assert_eq!(out, "shigoto: 1 running, 2 pending");
}

#[test]
fn split_response_body_basic() {
    let resp = "HTTP/1.1 200 OK\r\nContent-Type: application/json\r\n\r\n{\"running\":0}";
    assert_eq!(split_response_body(resp), Some("{\"running\":0}"));
}

use seki::probe_cache::Cached;
use seki::shigoto::{shigoto_step, shigoto_text};

#[test]
fn shigoto_render_steps() {
    let c = Some(Cached { value: (1u32, 2u32), captured_at: 100 });
    let (next, shown) = shigoto_step(c, 200, 1_000, false, None);
    assert_eq!(next, c);
    assert_eq!(shigoto_text("$status", shown), Some("shigoto: 1 running, 2 pending".to_string()));
    assert_eq!(shigoto_step(c, 5_000, 1_000, false, Some((0, 0))), (c, None));
    let (_, shown) = shigoto_step(c, 5_000, 1_000, true, Some((0, 0)));
    assert_eq!(shigoto_text("$status", shown), Some("shigoto: idle".to_string()));
}
