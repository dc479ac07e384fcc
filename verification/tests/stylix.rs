use seki::stylix::render_format;

#[test]
fn render_format_name_substitution() {
    let out = render_format("[stylix: $name]($style)", "nord");
    assert_eq!(out, "stylix: nord");
}

use seki::stylix::choose_scheme;

#[test]
fn manifest_scheme_wins_over_env() {
    let lookup = |_: &str| Some("gruvbox-dark-medium".to_owned());
    assert_eq!(choose_scheme(Some("nord"), "STYLIX_BASE16_SCHEME", lookup), Some("nord".to_owned()));
}

#[test]
fn env_scheme_used_when_manifest_absent_or_empty() {
    let lookup = |k: &str| if k == "STYLIX_BASE16_SCHEME" { Some("gruvbox".to_owned()) } else { None };
    assert_eq!(choose_scheme(None, "STYLIX_BASE16_SCHEME", lookup), Some("gruvbox".to_owned()));
    assert_eq!(choose_scheme(Some(""), "STYLIX_BASE16_SCHEME", lookup), Some("gruvbox".to_owned()));
    let empty = |_: &str| Some(String::new());
    assert_eq!(choose_scheme(None, "X", empty), None);
}
