use seki::kasou_vm::{format_status, parse_running_count};

#[test]
fn parses_two_running_one_stopped() {
    let text = r#"[
  {"name":"rio","state":"running"},
  {"name":"zek","state":"stopped"},
  {"name":"plo","state":"running"}
]"#;
    assert_eq!(parse_running_count(text), 2);
}

#[test]
fn parses_empty_array_as_zero() {
    assert_eq!(parse_running_count("[]"), 0);
}

#[test]
fn parses_all_stopped_as_zero() {
    let text = r#"[{"state":"stopped"},{"state":"paused"}]"#;
    assert_eq!(parse_running_count(text), 0);
}

#[test]
fn tolerates_whitespace_around_colon() {
    let text = r#"[{"state"   :    "running"}]"#;
    assert_eq!(parse_running_count(text), 1);
}

#[test]
fn ignores_state_substrings() {
    let text = r#"[{"lifecycle_state":"running","state":"stopped"}]"#;
    assert_eq!(parse_running_count(text), 0);
}

#[test]
fn kasou_vm_format_status_idle() {
    assert_eq!(format_status(0, false), "kasou: 0 vm");
}

#[test]
fn kasou_vm_format_status_active() {
    assert_eq!(format_status(2, false), "kasou: 2 vm");
}

#[test]
fn kasou_vm_format_status_stale_suffix() {
    assert_eq!(format_status(1, true), "kasou: 1 vm (stale)");
}
