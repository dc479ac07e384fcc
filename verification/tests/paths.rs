use seki::paths::{caixa_step, git_dir_step, join, repo_root_of, WalkStep};

fn view(w: WalkStep) -> String {
    match w {
        WalkStep::Found(p) => format!("found {p}"),
        WalkStep::Up(p) => format!("up {p}"),
        WalkStep::Stop => "stop".to_owned(),
    }
}

#[test]
fn git_dir_walk_steps() {
    assert_eq!(view(git_dir_step("/a/b", true)), "found /a/b/.git");
    assert_eq!(view(git_dir_step("/a/b", false)), "up /a");
    assert_eq!(view(git_dir_step("/", false)), "stop");
}

#[test]
fn caixa_walk_steps() {
    assert_eq!(view(caixa_step("/r/x", true, false, true)), "found /r/x/caixa.lisp");
    assert_eq!(view(caixa_step("/r", false, true, false)), "stop");
    assert_eq!(view(caixa_step("/r/x", false, false, false)), "up /r");
    assert_eq!(view(caixa_step("/", false, false, false)), "stop");
}

#[test]
fn repo_root_is_parent_of_git_dir() {
    assert_eq!(repo_root_of("/home/u/repo/.git"), Some("/home/u/repo".to_owned()));
    assert_eq!(repo_root_of("/"), None);
}

#[test]
fn join_paths() {
    assert_eq!(join("/home/u", ".config"), "/home/u/.config");
    assert_eq!(join("/home/u/", "x"), "/home/u/x");
    assert_eq!(join("", "x"), "x");
    assert_eq!(join("/home/u", "/abs"), "/abs");
}
