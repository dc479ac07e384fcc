use seki::markup::render_markup;

#[test]
fn renders_workspace_bracket_format() {
    let out = render_markup("[\\[$env_value\\]]($style) ", &[("env_value", "pleme-io")], true);
    assert_eq!(out, "[pleme-io] ");
}

#[test]
fn renders_tear_session_format() {
    let out = render_markup("[~ $env_value]($style) ", &[("env_value", "main")], true);
    assert_eq!(out, "~ main ");
}

#[test]
fn render_format_strips_markup() {
    let out = render_markup("[$hostname](dimmed $style) · ", &[("hostname", "rio")], true);
    assert_eq!(out, "rio · ");
}

#[test]
fn render_format_handles_plain_hostname() {
    let out = render_markup("$hostname", &[("hostname", "rio")], true);
    assert_eq!(out, "rio");
}

#[test]
fn render_strips_starship_markup() {
    assert_eq!(render_markup("[$duration]($style) ", &[("duration", "5s")], true), "5s ");
}

#[test]
fn render_nested_groups_unclosed_group_and_first_binding() {
    assert_eq!(render_markup("a(b(c)d)e", &[], true), "ae");
    assert_eq!(render_markup("x(never closed", &[], true), "x");
    assert_eq!(render_markup("$v$v", &[("v", "1"), ("v", "2")], true), "11");
    assert_eq!(render_markup("trailing\\", &[], true), "trailing");
}
