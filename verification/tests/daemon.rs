use seki::daemon::{classify_events, servable, EventFacts, RepoCache};
use seki::git_status::GitStatus;
use std::collections::HashSet;

fn root(s: &str) -> String {
    s.to_owned()
}

fn plain(paths: &[&str]) -> EventFacts {
    EventFacts { paths: paths.iter().map(|p| (*p).to_owned()).collect(), need_rescan: false, is_error: false }
}

fn set(v: Vec<String>) -> HashSet<String> {
    v.into_iter().collect()
}

#[test]
fn plain_event_dirties_only_its_root() {
    let roots = [root("/a"), root("/b")];
    let got = set(classify_events(&[plain(&["/a/src/lib.rs"])], &roots));
    assert!(got.contains(&root("/a")));
    assert!(!got.contains(&root("/b")));
}

#[test]
fn untracked_delete_under_root_is_caught() {
    let roots = [root("/a")];
    let got = set(classify_events(&[plain(&["/a/scratch.rs"])], &roots));
    assert_eq!(got, HashSet::from([root("/a")]));
}

#[test]
fn rescan_flag_dirties_every_watched_root() {
    let roots = [root("/a"), root("/b"), root("/c")];
    let rescan = EventFacts { paths: vec![], need_rescan: true, is_error: false };
    let got = set(classify_events(&[rescan], &roots));
    assert_eq!(got, roots.iter().cloned().collect());
}

#[test]
fn watcher_error_dirties_every_watched_root() {
    let roots = [root("/a"), root("/b")];
    let err = EventFacts { paths: vec![], need_rescan: false, is_error: true };
    assert_eq!(set(classify_events(&[err], &roots)), roots.iter().cloned().collect());
}

#[test]
fn event_outside_every_root_dirties_nothing() {
    let roots = [root("/a")];
    assert!(classify_events(&[plain(&["/elsewhere/x"])], &roots).is_empty());
}

#[test]
fn generation_mismatch_is_the_staleness_signal() {
    let cached_gen = 7u64;
    assert!(servable(cached_gen, 7), "unchanged repo → serve hot cache");
    assert!(!servable(cached_gen, 8), "a change bumped the generation → recompute");
}

#[test]
fn classify_lists_each_root_once_and_by_component() {
    let roots = [root("/a"), root("/a"), root("/ab")];
    let got = classify_events(&[plain(&["/a/x", "/ab/y"])], &roots);
    assert_eq!(got, vec![root("/a"), root("/ab")]);
    let got = classify_events(&[plain(&["/abc/x"])], &roots);
    assert!(got.is_empty());
}

#[test]
fn cache_serves_only_current_generation() {
    let st = GitStatus { modified: 2, ..GitStatus::default() };
    let mut c = RepoCache::new();
    c.watch("/r");
    assert_eq!(c.generation_of("/r"), 0);
    c.record("/r", st, 0);
    assert_eq!(c.hot("/r"), Some(st));
    assert_eq!(c.bump("/r"), 1);
    assert_eq!(c.hot("/r"), None);
    c.record("/r", GitStatus::default(), 1);
    assert_eq!(c.hot("/r"), Some(GitStatus::default()));
    assert_eq!(c.hot("/other"), None);
    assert_eq!(c.bump("/other"), 1);
    assert_eq!(c.hot("/r"), Some(GitStatus::default()));
}

use seki::daemon::reply_text;

#[test]
fn accept_computed_respects_generation() {
    let mut c = RepoCache::new();
    let st = GitStatus { staged: 1, ..GitStatus::default() };
    c.watch("/r");
    let cur = c.generation_of("/r");
    assert_eq!(c.accept_computed("/r", cur, Some(st)), Some(st));
    assert_eq!(c.hot("/r"), Some(st));
    // computed before a change: handed back, not cached
    let cur = c.generation_of("/r");
    c.bump("/r");
    let st2 = GitStatus { modified: 4, ..GitStatus::default() };
    assert_eq!(c.accept_computed("/r", cur + 5, Some(st2)), Some(st2));
    assert_eq!(c.hot("/r"), None);
    assert_eq!(c.accept_computed("/r", 0, None), None);
}

#[test]
fn reply_is_wire_line_or_empty() {
    let st = GitStatus { ahead: 2, ..GitStatus::default() };
    assert_eq!(reply_text(Some(st)), "0 0 0 0 0 0 0 2 0\n");
    assert_eq!(GitStatus::from_wire(&reply_text(Some(st))), Some(st));
    assert_eq!(reply_text(None), "");
}
