use seki::mado_session::{format_status, parse_mado_response, render_format, resolve_socket_path};
use std::collections::HashMap;

fn stub_lookup(map: HashMap<&'static str, &'static str>) -> impl Fn(&str) -> Option<String> {
    move |name: &str| map.get(name).map(|s| (*s).to_owned())
}

#[test]
fn mado_socket_env_var_name_comes_from_fleet_state_contract() {
    assert_eq!(ishou_tokens::FleetStateVar::MadoSocket.name(), "MADO_SOCKET");
}

#[test]
fn resolve_socket_explicit_path() {
    let lookup = stub_lookup(HashMap::new());
    let r = resolve_socket_path("/tmp/x.sock", lookup, None);
    assert_eq!(r, Some("/tmp/x.sock".to_owned()));
}

#[test]
fn resolve_socket_env_marker_uses_lookup() {
    let lookup = stub_lookup(HashMap::from([(
        ishou_tokens::FleetStateVar::MadoSocket.name(),
        "/run/mado.sock",
    )]));
    let r = resolve_socket_path("$env", lookup, None);
    assert_eq!(r, Some("/run/mado.sock".to_owned()));
}

#[test]
fn resolve_socket_env_marker_default_fallback() {
    let lookup = stub_lookup(HashMap::new());
    let r = resolve_socket_path("$env", lookup, Some("/u/luis"));
    assert_eq!(r, Some("/u/luis/.local/share/mado/mado.sock".to_owned()));
}

#[test]
fn resolve_socket_empty_disables() {
    let lookup = stub_lookup(HashMap::new());
    assert_eq!(resolve_socket_path("", lookup, None), None);
}

#[test]
fn resolve_socket_env_with_no_home_returns_none() {
    let lookup = stub_lookup(HashMap::new());
    assert_eq!(resolve_socket_path("$env", lookup, None), None);
}

#[test]
fn parse_mado_response_explicit_fields() {
    let body = r#"{"sessions": 3, "fps": 60, "ok": true}"#;
    assert_eq!(parse_mado_response(body), Some((3, 60)));
}

#[test]
fn parse_mado_response_falls_back_to_id_scan() {
    let body = r#"{"data":[{"id":1},{"id":2},{"id":3},{"id":4}]}"#;
    assert_eq!(parse_mado_response(body), Some((4, 0)));
}

#[test]
fn parse_mado_response_fps_default_zero() {
    let body = r#"{"sessions": 1}"#;
    assert_eq!(parse_mado_response(body), Some((1, 0)));
}

#[test]
fn format_status_no_stale() {
    assert_eq!(format_status(2, 60, false), "mado: 2 sess, 60 fps");
}

#[test]
fn format_status_zero_sessions() {
    assert_eq!(format_status(0, 0, false), "mado: 0 sess, 0 fps");
}

#[test]
fn mado_session_format_status_stale_suffix() {
    assert_eq!(format_status(1, 30, true), "mado: 1 sess, 30 fps (stale)");
}

#[test]
fn mado_session_render_format_default_template() {
    let out = render_format("[$status]($style)", 2, 60, "mado: 2 sess, 60 fps");
    assert_eq!(out, "mado: 2 sess, 60 fps");
}

#[test]
fn render_format_sessions_substitution() {
    let out = render_format("sess=$sessions fps=$fps", 4, 120, "_");
    assert_eq!(out, "sess=4 fps=120");
}

use seki::mado_session::{mado_step, mado_text};
use seki::probe_cache::Cached;

#[test]
fn mado_render_steps() {
    let c = Some(Cached { value: (2u32, 60u32), captured_at: 0 });
    // unresolved socket with only a stale cache: nothing
    assert_eq!(mado_step(c, 10_000, 5_000, false, Some((3, 30))), (c, None));
    // failed probe: stale snapshot
    let (next, shown) = mado_step(c, 10_000, 5_000, true, None);
    assert_eq!(next, c);
    assert_eq!(mado_text("$status", shown), Some("mado: 2 sess, 60 fps (stale)".to_string()));
    let (_, shown) = mado_step(c, 10_000, 5_000, true, Some((3, 30)));
    assert_eq!(mado_text("$status", shown), Some("mado: 3 sess, 30 fps".to_string()));
    assert_eq!(mado_text("$status", None), None);
}
