use seki::tend::{format_status, parse_tend_status_text, render_format};

#[test]
fn parses_single_workspace_dirty_count() {
    let text = "workspace: pleme-io\n\n  [ok] a clean\n  [!!] b dirty\n  [--] c missing\n";
    assert_eq!(parse_tend_status_text(text), 2);
}

#[test]
fn parses_all_clean_as_zero() {
    let text = "workspace: pleme-io\n\n  [ok] a clean\n  [ok] b clean\n";
    assert_eq!(parse_tend_status_text(text), 0);
}

#[test]
fn parses_multi_workspace() {
    let text = "\
workspace: a

  [ok] r1 clean
  [!!] r2 dirty

workspace: b

  [??] r3 unknown
  [ok] r4 clean
";
    assert_eq!(parse_tend_status_text(text), 2);
}

#[test]
fn skips_non_data_lines() {
    let text = "\nworkspace: x\nrandom prose\n  not a tag line\n  [ok] r clean\n";
    assert_eq!(parse_tend_status_text(text), 0);
}

#[test]
fn format_status_clean() {
    assert_eq!(format_status(0, false), "tend: clean");
}

#[test]
fn format_status_dirty_pluralised() {
    assert_eq!(format_status(3, false), "tend: 3 dirty");
}

#[test]
fn tend_format_status_stale_suffix() {
    assert_eq!(format_status(2, true), "tend: 2 dirty (stale)");
}

#[test]
fn tend_render_format_count_substitution() {
    let out = render_format("[$status: $count]($style)", 7, "tend: 7 dirty");
    assert_eq!(out, "tend: 7 dirty: 7");
}

#[test]
fn tend_render_format_default_template() {
    let out = render_format("[$status]($style)", 0, "tend: clean");
    assert_eq!(out, "tend: clean");
}

#[test]
fn crlf_lines_and_large_counts() {
    assert_eq!(parse_tend_status_text("  [!!] a dirty\r\n\t[ok] b clean\r\n"), 1);
    assert_eq!(format_status(4294967295, false), "tend: 4294967295 dirty");
}

use seki::probe_cache::Cached;
use seki::tend::{tend_step, tend_text};

#[test]
fn tend_cache_hit_is_marked_stale() {
    let c = Some(Cached { value: 2u32, captured_at: 0 });
    let (next, shown) = tend_step(c, 10, 60_000, Some(5));
    assert_eq!(next, c);
    assert_eq!(tend_text("$status", shown), Some("tend: 2 dirty (stale)".to_string()));
    let (next, shown) = tend_step(c, 70_000, 60_000, Some(0));
    assert_eq!(next, Some(Cached { value: 0, captured_at: 70_000 }));
    assert_eq!(tend_text("$status", shown), Some("tend: clean".to_string()));
    assert_eq!(tend_step(c, 70_000, 60_000, None), (c, Some((2, true))));
    assert_eq!(tend_step(None, 70_000, 60_000, None), (None, None));
}
