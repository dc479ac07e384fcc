use seki::tatara_workload::{format_status, parse_tatara_json, render_format};

#[test]
fn parse_tatara_json_explicit_running_count() {
    let body = r#"{"allocations_running": 7}"#;
    assert_eq!(parse_tatara_json(body), 7);
}

#[test]
fn parse_tatara_json_falls_back_to_status_scan() {
    let body = r#"{"allocs":[
            {"status":"Running"},{"status":"Running"},
            {"status":"Pending"},{"status":"Running"}
        ]}"#;
    assert_eq!(parse_tatara_json(body), 3);
}

#[test]
fn parse_tatara_json_empty_returns_zero() {
    let body = r#"{"allocs":[]}"#;
    assert_eq!(parse_tatara_json(body), 0);
}

#[test]
fn parse_tatara_json_alternate_running_key() {
    let body = r#"{"running": 4}"#;
    assert_eq!(parse_tatara_json(body), 4);
}

#[test]
fn tatara_workload_format_status_zero() {
    assert_eq!(format_status(0, false), "tatara: 0 alloc");
}

#[test]
fn tatara_workload_format_status_with_count() {
    assert_eq!(format_status(5, false), "tatara: 5 alloc");
}

#[test]
fn tatara_workload_format_status_stale_suffix() {
    assert_eq!(format_status(2, true), "tatara: 2 alloc (stale)");
}

#[test]
fn tatara_workload_render_format_default_template() {
    let out = render_format("[$status]($style)", 3, "tatara: 3 alloc");
    assert_eq!(out, "tatara: 3 alloc");
}

#[test]
fn tatara_workload_render_format_count_substitution() {
    let out = render_format("alloc=$count", 9, "_");
    assert_eq!(out, "alloc=9");
}
