use seki::blackmatter::{render_format, xdg_config_home};

#[test]
fn blackmatter_render_format_count_substitution() {
    assert_eq!(render_format("[bm: $count]($style)", 7), "bm: 7");
}

#[test]
fn xdg_env_overrides_home_default() {
    let lookup = |k: &str| if k == "XDG_CONFIG_HOME" { Some("/some/xdg/path".to_owned()) } else { None };
    let r = xdg_config_home(Some("/home/u"), lookup);
    assert_eq!(r, Some("/some/xdg/path".to_owned()));
}

#[test]
fn xdg_falls_back_to_home_config() {
    let lookup = |_: &str| None;
    assert_eq!(xdg_config_home(Some("/home/u"), lookup), Some("/home/u/.config".to_owned()));
}

#[test]
fn xdg_empty_value_falls_back_and_no_home_is_none() {
    let empty = |_: &str| Some(String::new());
    assert_eq!(xdg_config_home(Some("/h"), empty), Some("/h/.config".to_owned()));
    let none = |_: &str| None;
    assert_eq!(xdg_config_home(None, none), None);
}

#[test]
fn blackmatter_render_format_escape_and_unknown_var() {
    assert_eq!(render_format("\\$count=$count $nope", 12), "$count=12 ");
}

use seki::blackmatter::choose_count;

#[test]
fn manifest_count_is_load_bearing_even_at_zero() {
    assert_eq!(choose_count(Some(5), Some(1)), Some(5));
    assert_eq!(choose_count(Some(0), Some(3)), Some(0));
    assert_eq!(choose_count(None, Some(2)), Some(2));
    assert_eq!(choose_count(None, Some(0)), None);
    assert_eq!(choose_count(None, None), None);
}
