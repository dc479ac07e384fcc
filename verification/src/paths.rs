//! Unix path strings: joining (`Path::join`), absoluteness and the
//! `..` component test, on the characters of the path.

use vstd::prelude::*;
use crate::text::chars_of;

verus! {

broadcast use vstd::string::group_string_axioms;

/// The characters of an optional path.
pub open spec fn opt_view(p: Option<&str>) -> Option<Seq<char>> {
    match p {
        Some(s) => Some(s@),
        None => None,
    }
}

/// `Path::is_absolute` on unix: the path starts at the root.
pub open spec fn is_absolute(p: Seq<char>) -> bool {
    p.len() > 0 && p[0] == '/'
}

/// `Path::join` on unix: an absolute `p` replaces `base`; otherwise `p`
/// is appended, with a `/` between unless `base` is empty or already
/// ends in one.
pub open spec fn join_spec(base: Seq<char>, p: Seq<char>) -> Seq<char> {
    if is_absolute(p) {
        p
    } else if base.len() > 0 && base.last() != '/' {
        base + seq!['/'] + p
    } else {
        base + p
    }
}

pub fn join(base: &str, p: &str) -> (out: String)
    ensures
        out@ == join_spec(base@, p@),
{
    let pv = chars_of(p);
    let bv = chars_of(base);
    let mut out = String::new();
    if pv.len() > 0 && pv[0] == '/' {
        out.append(p);
        return out;
    }
    out.append(base);
    if bv.len() > 0 && bv[bv.len() - 1] != '/' {
        out.append("/");
        proof {
            reveal_strlit("/");
        }
    }
    out.append(p);
    assert(out@ =~= join_spec(base@, p@));
    out
}

/// A `..` component: the two characters `..` bounded by `/` or by the
/// ends of the path.
pub open spec fn dotdot_at(p: Seq<char>, i: int) -> bool {
    &&& 0 <= i
    &&& i + 2 <= p.len()
    &&& p[i] == '.'
    &&& p[i + 1] == '.'
    &&& (i == 0 || p[i - 1] == '/')
    &&& (i + 2 == p.len() || p[i + 2] == '/')
}

/// Some component of `p` is `..` (`Component::ParentDir`).
pub open spec fn has_parent_dir(p: Seq<char>) -> bool {
    exists|i: int| dotdot_at(p, i)
}

pub fn has_parent_dir_exec(p: &str) -> (b: bool)
    ensures
        b == has_parent_dir(p@),
{
    let v = chars_of(p);
    let n = v.len();
    let mut i: usize = 0;
    while n >= 2 && i <= n - 2
        invariant
            v@ == p@,
            i <= n,
            n == v@.len(),
            forall|j: int| 0 <= j < i ==> !dotdot_at(p@, j),
        decreases n - i,
    {
        if v[i] == '.' && v[i + 1] == '.' && (i == 0 || v[i - 1] == '/') && (i + 2 == n || v[i
            + 2] == '/') {
            assert(dotdot_at(p@, i as int));
            return true;
        }
        i = i + 1;
    }
    assert forall|j: int| !dotdot_at(p@, j) by {
        if 0 <= j < i {
        }
    }
    false
}

/// What `Path::strip_prefix` leaves of `path` once the leading
/// components of `base` are removed: `None` when `path` does not start
/// with them (`Path::starts_with` is false exactly then).
pub uninterp spec fn stripped_path(path: Seq<char>, base: Seq<char>) -> Option<Seq<char>>;

/// `Path::strip_prefix(path, base)`, its rest rendered as text. The
/// contract only ties the result to [`stripped_path`] of the two
/// arguments; how components are compared is not restated here.
#[verifier::external_body]
pub(crate) fn strip_prefix(path: &str, base: &str) -> (r: Option<String>)
    ensures
        r matches Some(x) ==> stripped_path(path@, base@) == Some(x@),
        r is None ==> stripped_path(path@, base@) is None,
{
    match std::path::Path::new(path).strip_prefix(base) {
        Ok(rest) => Some(rest.display().to_string()),
        Err(_) => None,
    }
}

/// What `Path::parent` gives for `path`: the path without its last
/// component, `None` for a root or an empty path.
pub uninterp spec fn parent_path(path: Seq<char>) -> Option<Seq<char>>;

/// `Path::parent`, rendered as text. The contract only ties the result
/// to [`parent_path`] of the argument.
#[verifier::external_body]
pub(crate) fn path_parent(path: &str) -> (r: Option<String>)
    ensures
        r matches Some(x) ==> parent_path(path@) == Some(x@),
        r is None ==> parent_path(path@) is None,
{
    match std::path::Path::new(path).parent() {
        Some(p) => Some(p.display().to_string()),
        None => None,
    }
}

/// The next move of an upward directory walk.
pub enum WalkStep {
    /// The walk found this path.
    Found(String),
    /// Continue in this directory.
    Up(String),
    /// The walk ends without a find.
    Stop,
}

/// The view of a walk step.
pub enum WalkView {
    Found(Seq<char>),
    Up(Seq<char>),
    Stop,
}

pub open spec fn walk_view(w: WalkStep) -> WalkView {
    match w {
        WalkStep::Found(p) => WalkView::Found(p@),
        WalkStep::Up(p) => WalkView::Up(p@),
        WalkStep::Stop => WalkView::Stop,
    }
}

/// One step of the search for a `.git` directory from `cur` upward:
/// found when `<cur>/.git` is a directory, else on to the parent, else
/// stop at the root.
pub open spec fn git_dir_step_spec(cur: Seq<char>, git_is_dir: bool) -> WalkView {
    if git_is_dir {
        WalkView::Found(join_spec(cur, ".git"@))
    } else {
        match parent_path(cur) {
            Some(p) => WalkView::Up(p),
            None => WalkView::Stop,
        }
    }
}

/// Decides one step of the `.git` search (see [`git_dir_step_spec`]).
pub fn git_dir_step(cur: &str, git_is_dir: bool) -> (w: WalkStep)
    ensures
        walk_view(w) == git_dir_step_spec(cur@, git_is_dir),
{
    if git_is_dir {
        return WalkStep::Found(join(cur, ".git"));
    }
    match path_parent(cur) {
        Some(p) => WalkStep::Up(p),
        None => WalkStep::Stop,
    }
}

/// One step of the search for `caixa.lisp` from `cur` upward: found when
/// `<cur>/caixa.lisp` is a file; stop at a repository root (`<cur>/.git`
/// exists and `caixa.lisp` does not); otherwise on to a parent that
/// differs from `cur`, or stop.
pub open spec fn caixa_step_spec(
    cur: Seq<char>,
    candidate_is_file: bool,
    git_exists: bool,
    candidate_exists: bool,
) -> WalkView {
    if candidate_is_file {
        WalkView::Found(join_spec(cur, "caixa.lisp"@))
    } else if git_exists && !candidate_exists {
        WalkView::Stop
    } else {
        match parent_path(cur) {
            Some(p) => if p != cur {
                WalkView::Up(p)
            } else {
                WalkView::Stop
            },
            None => WalkView::Stop,
        }
    }
}

/// Decides one step of the `caixa.lisp` search (see [`caixa_step_spec`]).
pub fn caixa_step(cur: &str, candidate_is_file: bool, git_exists: bool, candidate_exists: bool) -> (w:
    WalkStep)
    ensures
        walk_view(w) == caixa_step_spec(cur@, candidate_is_file, git_exists, candidate_exists),
{
    if candidate_is_file {
        return WalkStep::Found(join(cur, "caixa.lisp"));
    }
    if git_exists && !candidate_exists {
        return WalkStep::Stop;
    }
    match path_parent(cur) {
        Some(p) => {
            let pv = chars_of(p.as_str());
            let cv = chars_of(cur);
            if crate::text::vec_eq(&pv, &cv) {
                WalkStep::Stop
            } else {
                WalkStep::Up(p)
            }
        },
        None => WalkStep::Stop,
    }
}

/// The repository root of a `.git` directory: its parent.
pub fn repo_root_of(git_dir: &str) -> (r: Option<String>)
    ensures
        r matches Some(x) ==> parent_path(git_dir@) == Some(x@),
        r is None ==> parent_path(git_dir@) is None,
{
    path_parent(git_dir)
}

} // verus!
