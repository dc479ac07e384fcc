use seki::tear::{render_format, truncate};

#[test]
fn truncate_caps_at_n() {
    assert_eq!(truncate("abcdefgh", 6), "abcdef");
}

#[test]
fn truncate_handles_short_input() {
    assert_eq!(truncate("abc", 6), "abc");
}

#[test]
fn truncate_zero_returns_empty() {
    assert_eq!(truncate("abc", 0), "");
}

#[test]
fn render_format_session_and_pane() {
    let out = render_format("[~ $session] [pane $pane]($style)", "demo", "abc123");
    assert_eq!(out, "~ demo pane abc123");
}

#[test]
fn tear_render_format_plain_template() {
    let out = render_format("$session/$pane", "s", "p");
    assert_eq!(out, "s/p");
}

#[test]
fn truncate_counts_characters_not_bytes() {
    assert_eq!(truncate("ééééé", 3), "ééé");
}

#[test]
fn render_format_escape_and_nested_group() {
    assert_eq!(render_format("\\[$session\\]((a)b) x", "s", "p"), "[s] x");
    assert_eq!(render_format("$unknown-$pane", "s", "p"), "-p");
    assert_eq!(render_format("tail\\", "s", "p"), "tail");
}
