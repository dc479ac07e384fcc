use seki::kindling_posture::{format_status, parse_posture_level, render_format, resolve_posture_path};

#[test]
fn parse_posture_level_ready() {
    let body = r#"{"posture_level": "ready", "other": 1}"#;
    assert_eq!(parse_posture_level(body), Some("ready".to_owned()));
}

#[test]
fn parse_posture_level_provisioned() {
    let body = r#"{"posture_level":"provisioned"}"#;
    assert_eq!(parse_posture_level(body), Some("provisioned".to_owned()));
}

#[test]
fn parse_posture_level_bootstrap_and_seeded() {
    assert_eq!(parse_posture_level(r#"{"posture_level":"bootstrap"}"#), Some("bootstrap".to_owned()));
    assert_eq!(parse_posture_level(r#"{"posture_level":"seeded"}"#), Some("seeded".to_owned()));
}

#[test]
fn parse_posture_level_rejects_unknown() {
    let body = r#"{"posture_level":"draconic"}"#;
    assert_eq!(parse_posture_level(body), None);
}

#[test]
fn parse_posture_level_absent_returns_none() {
    let body = r#"{"other": 1}"#;
    assert_eq!(parse_posture_level(body), None);
}

#[test]
fn resolve_posture_path_relative_uses_home() {
    let r = resolve_posture_path(".config/kindling/posture.json", Some("/u/luis"));
    assert_eq!(r, Some("/u/luis/.config/kindling/posture.json".to_owned()));
}

#[test]
fn resolve_posture_path_absolute_passthrough() {
    let r = resolve_posture_path("/etc/kindling/posture.json", None);
    assert_eq!(r, Some("/etc/kindling/posture.json".to_owned()));
}

#[test]
fn resolve_posture_path_empty_disables() {
    let r = resolve_posture_path("", Some("/u/luis"));
    assert_eq!(r, None);
}

#[test]
fn format_status_label() {
    assert_eq!(format_status("ready"), "kindling: ready");
}

#[test]
fn render_format_level_substitution() {
    let out = render_format("[$status]($style)", "ready", "kindling: ready");
    assert_eq!(out, "kindling: ready");
}
