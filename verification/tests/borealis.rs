use seki::borealis::PromptPalette;

#[test]
fn style_helpers_compose_token_hexes() {
    assert_eq!(PromptPalette::bold("#67D191"), "bold #67D191");
    assert_eq!(PromptPalette::snowflake_bold("#73C6D9"), "[❄](bold #73C6D9)");
}

#[test]
fn dimmed_helper() {
    assert_eq!(PromptPalette::dimmed("#D8DEE9"), "dimmed #D8DEE9");
}
