use seki::directory::{display_path, truncate_display};

#[test]
fn truncates_long_paths_to_tail_with_marker() {
    assert_eq!(display_path("/a/b/c/d/e/f", None, "~", 3, "…/"), "…/d/e/f");
}

#[test]
fn no_truncation_when_short_enough() {
    assert_eq!(display_path("/a/b", None, "~", 3, "…/"), "/a/b");
}

#[test]
fn substitutes_home_for_tilde() {
    assert_eq!(display_path("/home/op/code", Some("/home/op"), "~", 5, "…/"), "~/code");
}

#[test]
fn home_itself_and_outside_home() {
    assert_eq!(display_path("/home/op", Some("/home/op"), "~", 0, "…/"), "~");
    assert_eq!(display_path("/home/open", Some("/home/op"), "~", 0, "…/"), "/home/open");
    assert_eq!(display_path("/home/op/a/b/c", Some("/home/op"), "~", 2, "…/"), "…/b/c");
}

#[test]
fn truncate_display_skips_empty_parts() {
    assert_eq!(truncate_display("//a///b/", 1, ">"), ">b");
    assert_eq!(truncate_display("a/b", 2, ">"), "a/b");
    assert_eq!(truncate_display("a/b/c", 0, ">"), "a/b/c");
}
