use seki::git_branch::truncate_branch;

#[test]
fn truncate_branch_respects_max() {
    assert_eq!(truncate_branch("main", 10, "…"), "main");
    assert_eq!(truncate_branch("feature/very-long-name", 4, "…"), "feat…");
}

#[test]
fn truncate_branch_zero_and_max_disable() {
    assert_eq!(truncate_branch("feature/x", 0, "…"), "feature/x");
    assert_eq!(truncate_branch("feature/x", usize::MAX, "…"), "feature/x");
}

#[test]
fn truncate_branch_counts_bytes_then_cuts_chars() {
    // 3 characters, 6 bytes: over a 4-byte limit, cut to 4 characters.
    assert_eq!(truncate_branch("ééé", 4, "~"), "ééé~");
    assert_eq!(truncate_branch("ééé", 2, "~"), "éé~");
}

use seki::git_branch::parse_head;

#[test]
fn parse_head_symbolic_ref_and_detached() {
    assert_eq!(parse_head("ref: refs/heads/main\n").as_deref(), Some("main"));
    assert_eq!(
        parse_head("deadbeefcafe1234567890abcdef0123456789ab\n").as_deref(),
        Some("deadbee")
    );
    assert_eq!(parse_head("  abc \n"), None);
    assert_eq!(parse_head("ref: refs/heads/"), Some(String::new()));
    assert_eq!(parse_head("éééa"), Some("éééa".to_owned()));
}

use seki::git_branch::head_cut_is_safe;

#[test]
fn head_cut_safety() {
    assert!(head_cut_is_safe("ref: refs/heads/é-branch\n"));
    assert!(head_cut_is_safe("abc"));
    assert!(head_cut_is_safe("0123456789abcdef\n"));
    // byte 7 falls inside the two-byte 'é'
    assert!(!head_cut_is_safe("012345é9"));
    assert!(head_cut_is_safe("01234é89"));
}
