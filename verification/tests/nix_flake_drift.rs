use seki::nix_flake_drift::{convert_input_url_to_git, format_status, parse_pleme_io_inputs};

#[test]
fn convert_input_url_github_basic() {
    assert_eq!(
        convert_input_url_to_git("github:pleme-io/substrate"),
        Some("https://github.com/pleme-io/substrate".to_owned())
    );
}

#[test]
fn convert_input_url_strips_ref_suffix() {
    assert_eq!(
        convert_input_url_to_git("github:pleme-io/blackmatter?ref=main"),
        Some("https://github.com/pleme-io/blackmatter".to_owned())
    );
}

#[test]
fn convert_input_url_rejects_non_github() {
    assert_eq!(convert_input_url_to_git("git+https://example.com/foo"), None);
    assert_eq!(convert_input_url_to_git("path:./foo"), None);
}

#[test]
fn convert_input_url_keeps_two_parts() {
    assert_eq!(
        convert_input_url_to_git("github:o/r/sub/dir?x=1"),
        Some("https://github.com/o/r".to_owned())
    );
    assert_eq!(convert_input_url_to_git("github:"), Some("https://github.com/".to_owned()));
}

#[test]
fn parse_pleme_io_inputs_finds_match() {
    let body = r#"{
            "locks": { "nodes": {
                "substrate": {
                    "original": {"url": "github:pleme-io/substrate"},
                    "locked": {"rev": "abc123def", "type": "github"}
                }
            }}
        }"#;
    let inputs = parse_pleme_io_inputs(body, "github:pleme-io/");
    assert_eq!(inputs.len(), 1);
    assert_eq!(inputs[0].url, "github:pleme-io/substrate");
    assert_eq!(inputs[0].rev, "abc123def");
}

#[test]
fn parse_pleme_io_inputs_skips_non_matching_prefix() {
    let body = r#"{
            "nodes": {
                "nixpkgs": {
                    "original": {"url": "github:NixOS/nixpkgs"},
                    "locked": {"rev": "deadbeef"}
                }
            }
        }"#;
    let inputs = parse_pleme_io_inputs(body, "github:pleme-io/");
    assert!(inputs.is_empty());
}

#[test]
fn parse_pleme_io_inputs_empty_locks() {
    let body = r#"{"locks": {"nodes": {}}}"#;
    assert!(parse_pleme_io_inputs(body, "github:pleme-io/").is_empty());
}

#[test]
fn parse_pleme_io_inputs_several_and_window_limit() {
    let far = " ".repeat(1100);
    let body = format!(
        r#"{{"url":"github:pleme-io/a","rev":"r1"}} {{"url": "github:pleme-io/b"{far}"rev":"r2"}} {{"url":"github:pleme-io/c", "rev" : "r3"}}"#
    );
    let inputs = parse_pleme_io_inputs(&body, "github:pleme-io/");
    let got: Vec<(&str, &str)> = inputs.iter().map(|i| (i.url.as_str(), i.rev.as_str())).collect();
    assert_eq!(got, vec![("github:pleme-io/a", "r1"), ("github:pleme-io/c", "r3")]);
}

#[test]
fn nix_flake_drift_format_status_zero() {
    assert_eq!(format_status(0, false), "drift: 0");
}

#[test]
fn nix_flake_drift_format_status_with_count() {
    assert_eq!(format_status(3, false), "drift: 3");
}

#[test]
fn nix_flake_drift_format_status_stale_suffix() {
    assert_eq!(format_status(2, true), "drift: 2 (stale)");
}

use seki::nix_flake_drift::scan_stays_on_boundaries;

#[test]
fn scan_boundary_check() {
    assert!(scan_stays_on_boundaries(r#"{"url": "github:pleme-io/x", "rev": "r"}"#, "github:pleme-io/"));
    // Whitespace between the key and the URL makes the scan resume inside
    // the URL; a multi-byte character there is cut.
    assert!(!scan_stays_on_boundaries("\"url\": \"aé\"", "zzz"));
    assert!(scan_stays_on_boundaries("\"url\":\"aé\"", "zzz"));
}

#[test]
fn parse_pleme_io_inputs_window_counts_characters() {
    // 600 two-byte characters: past 1024 bytes, within 1024 characters.
    let pad = "é".repeat(600);
    let body = format!(r#"{{"url": "github:pleme-io/x",{pad}"rev": "r9"}}"#);
    assert!(scan_stays_on_boundaries(&body, "github:pleme-io/"));
    let inputs = parse_pleme_io_inputs(&body, "github:pleme-io/");
    assert_eq!(inputs.len(), 1);
    assert_eq!(inputs[0].rev, "r9");
}

#[test]
fn parse_pleme_io_inputs_multibyte_tail_without_rev() {
    let body = String::from(r#"{"url": "github:pleme-io/x","#) + &"é".repeat(600) + "}";
    assert!(scan_stays_on_boundaries(&body, "github:pleme-io/"));
    assert!(parse_pleme_io_inputs(&body, "github:pleme-io/").is_empty());
}
