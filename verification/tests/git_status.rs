use seki::git_status::{count_stash_entries, parse_porcelain_v2, GitStatus};

#[test]
fn parses_ahead_behind() {
    let st = parse_porcelain_v2("# branch.ab +3 -2\n");
    assert_eq!(st.ahead, 3);
    assert_eq!(st.behind, 2);
}

#[test]
fn counts_modified_staged_untracked() {
    let out = "\
# branch.ab +0 -0
1 .M N... 100644 100644 100644 aaa bbb src/lib.rs
1 M. N... 100644 100644 100644 ccc ddd Cargo.toml
? notes.txt
? scratch.rs
";
    let st = parse_porcelain_v2(out);
    assert_eq!(st.modified, 1, "one worktree-modified");
    assert_eq!(st.staged, 1, "one index-staged");
    assert_eq!(st.untracked, 2, "two untracked");
    assert_eq!(st.conflicted, 0);
}

#[test]
fn counts_conflicts_renames_deletes() {
    let out = "\
u UU N... 1 2 3 h1 h2 h3 both.rs
2 R. N... 100644 100644 100644 e f R100 new.rs\told.rs
1 .D N... 100644 100644 000000 g h gone.rs
";
    let st = parse_porcelain_v2(out);
    assert_eq!(st.conflicted, 1);
    assert_eq!(st.renamed, 1);
    assert_eq!(st.deleted, 1);
    assert_eq!(st.staged, 1, "the rename is staged (X=R)");
}

#[test]
fn wire_roundtrips() {
    let st = GitStatus {
        staged: 1,
        modified: 2,
        deleted: 3,
        renamed: 4,
        untracked: 5,
        conflicted: 6,
        stashed: 7,
        ahead: 8,
        behind: 9,
    };
    assert_eq!(GitStatus::from_wire(&st.to_wire()), Some(st));
    assert_eq!(GitStatus::default().to_wire(), "0 0 0 0 0 0 0 0 0");
}

#[test]
fn wire_rejects_malformed() {
    assert_eq!(GitStatus::from_wire("1 2 3"), None);
    assert_eq!(GitStatus::from_wire("not numbers"), None);
    assert_eq!(GitStatus::from_wire(""), None);
    assert_eq!(GitStatus::from_wire("1 2 3 4 5 6 7 8 9 10"), None);
}

#[test]
fn wire_roundtrip_extremes() {
    let st = GitStatus {
        staged: u32::MAX,
        modified: 0,
        deleted: 10,
        renamed: 0,
        untracked: 4_000_000_000,
        conflicted: 0,
        stashed: 1,
        ahead: 0,
        behind: 65_536,
    };
    assert_eq!(GitStatus::from_wire(&st.to_wire()), Some(st));
}

#[test]
fn wire_rejects_malformed_tokens_and_accepts_plus() {
    assert_eq!(GitStatus::from_wire("1 2 3 4 5 6 7 8 9 x"), None);
    assert_eq!(GitStatus::from_wire("x 1 +2 3 4 5 6 7 8 9 -1"), None);
    let st = GitStatus::from_wire("1 +2 3 4 5 6 7 8 9").unwrap();
    assert_eq!(st.staged, 1);
    assert_eq!(st.modified, 2);
    assert_eq!(st.behind, 9);
    assert_eq!(GitStatus::from_wire("1 2 3 4 5 6 7 8 4294967296"), None);
}

#[test]
fn is_clean_only_for_all_zero() {
    assert!(GitStatus::default().is_clean());
    let st = GitStatus { behind: 1, ..GitStatus::default() };
    assert!(!st.is_clean());
}

#[test]
fn porcelain_both_sides_and_type_changes() {
    let out = "1 DD N... x\n1 RT N... y\n2 CC N... z\n1 A. N... w\n";
    let st = parse_porcelain_v2(out);
    assert_eq!(st.deleted, 2);
    assert_eq!(st.renamed, 3);
    assert_eq!(st.modified, 1);
    assert_eq!(st.staged, 4);
    assert_eq!(st.stashed, 0);
}

#[test]
fn porcelain_header_edge_cases() {
    let st = parse_porcelain_v2("# branch.ab +x -7\n# branch.oid abc\n");
    assert_eq!(st.ahead, 0);
    assert_eq!(st.behind, 7);
    let st = parse_porcelain_v2("# branch.ab\r\n1\n");
    assert_eq!(st, GitStatus::default());
}

#[test]
fn stash_entries_count_nonblank_lines() {
    assert_eq!(count_stash_entries(""), 0);
    assert_eq!(count_stash_entries("a\n\n  \nb\n"), 2);
}

use seki::git_status::{render_body, GitStatusConfig};

fn companion_cfg() -> GitStatusConfig {
    GitStatusConfig {
        format: "[$all_status$ahead_behind]($style) ".to_owned(),
        modified: "🟡".to_owned(),
        staged: "🟢".to_owned(),
        untracked: "⚪".to_owned(),
        deleted: "🔴".to_owned(),
        renamed: "🔁".to_owned(),
        conflicted: "💥".to_owned(),
        stashed: "📦".to_owned(),
        ahead: "⇡${count}".to_owned(),
        behind: "⇣${count}".to_owned(),
        diverged: "⇕${ahead_count}⇣${behind_count}".to_owned(),
        up_to_date: String::new(),
        clean_symbol: String::new(),
    }
}

#[test]
fn clean_tree_renders_nothing() {
    assert_eq!(render_body(&companion_cfg(), &GitStatus::default()), "");
}

#[test]
fn dirty_tree_renders_emoji_cluster() {
    let st = GitStatus { modified: 2, staged: 1, untracked: 4, ahead: 1, ..GitStatus::default() };
    assert_eq!(render_body(&companion_cfg(), &st), "🟡🟢⚪⇡1 ");
}

#[test]
fn diverged_uses_both_counts() {
    let st = GitStatus { ahead: 2, behind: 3, ..GitStatus::default() };
    assert_eq!(render_body(&companion_cfg(), &st), "⇕2⇣3 ");
}

#[test]
fn clean_symbol_renders_when_configured() {
    let mut cfg = companion_cfg();
    cfg.clean_symbol = "✓".to_owned();
    assert_eq!(render_body(&cfg, &GitStatus::default()), "✓ ");
}

#[test]
fn count_placeholders_and_named_categories() {
    let mut cfg = companion_cfg();
    cfg.format = "$conflicted|$stashed|$behind_x".to_owned();
    cfg.conflicted = "c${count}${count}".to_owned();
    cfg.stashed = String::new();
    let st = GitStatus { conflicted: 12, stashed: 3, behind: 1, ..GitStatus::default() };
    assert_eq!(render_body(&cfg, &st), "c1212||");
}

#[test]
fn porcelain_counts_add_over_concatenation() {
    let a = "1 M. N... 100644 100644 100644 a a f1\n? new\n";
    let b = "1 .D N... 100644 100644 100644 a a f2\nu UU N... 1 2 3 4 a b c f3\n";
    let x = parse_porcelain_v2(a);
    let y = parse_porcelain_v2(b);
    let z = parse_porcelain_v2(&format!("{a}{b}"));
    assert_eq!(z.staged, x.staged + y.staged);
    assert_eq!(z.modified, x.modified + y.modified);
    assert_eq!(z.deleted, x.deleted + y.deleted);
    assert_eq!(z.renamed, x.renamed + y.renamed);
    assert_eq!(z.untracked, x.untracked + y.untracked);
    assert_eq!(z.conflicted, x.conflicted + y.conflicted);
    assert_eq!((z.staged, z.deleted, z.untracked, z.conflicted), (1, 1, 1, 1));
    assert_eq!((z.ahead, z.behind, z.stashed), (0, 0, 0));
}
