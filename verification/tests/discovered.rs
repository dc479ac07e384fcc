use seki::discovered::detect;

fn env_of(pairs: &[(&str, &str)]) -> impl Fn(&str) -> Option<String> {
    let owned: Vec<(String, String)> =
        pairs.iter().map(|(k, v)| ((*k).to_owned(), (*v).to_owned())).collect();
    move |k: &str| owned.iter().find(|(key, _)| key == k).map(|(_, v)| v.clone())
}

#[test]
fn colorterm_truecolor_detected() {
    let d = detect(env_of(&[("COLORTERM", "truecolor"), ("TERM", "xterm-256color")]));
    assert!(d.truecolor);
    assert!(!d.minimal);
}

#[test]
fn ci_and_no_color_are_minimal() {
    assert!(detect(env_of(&[("TERM", "xterm"), ("CI", "true")])).minimal);
    assert!(detect(env_of(&[("TERM", "xterm"), ("NO_COLOR", "1")])).minimal);
}

#[test]
fn mado_overrides_ci_minimal() {
    let d = detect(env_of(&[("MADO_SOCKET", "/x"), ("CI", "true"), ("TERM", "dumb")]));
    assert!(!d.minimal, "mado is always rich");
    assert!(d.truecolor);
}

#[test]
fn detect_mado_dumb_ssh_columns() {
    let d = detect(env_of(&[("MADO_SOCKET", "/tmp/mado.sock"), ("TERM", "mado")]));
    assert!(d.mado && d.truecolor && !d.minimal);
    let d = detect(env_of(&[("TERM", "dumb")]));
    assert!(d.minimal);
    let d = detect(env_of(&[("SSH_TTY", "/dev/pts/1"), ("COLUMNS", "220"), ("IN_NIX_SHELL", "pure")]));
    assert!(d.ssh && d.nix_shell);
    assert_eq!(d.columns, Some(220));
    let d = detect(env_of(&[("COLUMNS", "70000"), ("MADO_SESSION", ""), ("COLORTERM", "24bit")]));
    assert_eq!(d.columns, None);
    assert!(!d.mado && d.truecolor);
}

use seki::discovered::truncation_for_columns;

#[test]
fn truncation_by_pane_width() {
    assert_eq!(truncation_for_columns(220), 4);
    assert_eq!(truncation_for_columns(50), 1);
    assert_eq!(truncation_for_columns(80), 2);
    assert_eq!(truncation_for_columns(150), 3);
    assert_eq!(truncation_for_columns(59), 1);
    assert_eq!(truncation_for_columns(60), 2);
    assert_eq!(truncation_for_columns(100), 3);
    assert_eq!(truncation_for_columns(200), 4);
}
