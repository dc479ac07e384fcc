use seki::custom::render_format;

#[test]
fn renders_tear_pane_format() {
    assert_eq!(render_format("[· $output]($style) ", "abcdef"), "· abcdef ");
}

#[test]
fn custom_backslash_is_literal() {
    assert_eq!(render_format("a\\b $output", "x"), "a\\b x");
}
