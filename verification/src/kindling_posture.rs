//! `kindling_posture` segment — the local kindling node posture
//! (`bootstrap` / `seeded` / `provisioned` / `ready`), read from the
//! posture JSON.

use vstd::prelude::*;
use crate::markup::{render_markup, render_spec, vars_view};
use crate::paths::{is_absolute, join, join_spec, opt_view};
use crate::text::{
    chars_of, find, find_from, find_vec, lemma_find_from, lemma_ws_end_bounds, range_eq,
    skip_ws, string_of_range, ws_end,
};

verus! {

broadcast use vstd::string::group_string_axioms;

/// The posture file: none for an empty setting; an absolute setting as
/// is; a relative one under `home` (none without a home).
pub open spec fn posture_path_spec(posture_path: Seq<char>, home: Option<Seq<char>>) -> Option<
    Seq<char>,
> {
    if posture_path.len() == 0 {
        None
    } else if is_absolute(posture_path) {
        Some(posture_path)
    } else {
        match home {
            Some(h) => Some(join_spec(h, posture_path)),
            None => None,
        }
    }
}

/// Resolve the configured posture path against `$HOME` when relative.
pub fn resolve_posture_path(posture_path: &str, home: Option<&str>) -> (r: Option<String>)
    ensures
        r matches Some(p) ==> posture_path_spec(posture_path@, opt_view(home)) == Some(
            p@,
        ),
        r is None ==> posture_path_spec(posture_path@, opt_view(home)) is None,
{
    let v = chars_of(posture_path);
    if v.len() == 0 {
        return None;
    }
    if v[0] == '/' {
        let mut p = String::new();
        p.append(posture_path);
        return Some(p);
    }
    match home {
        Some(h) => Some(join(h, posture_path)),
        None => None,
    }
}

/// The four typed posture levels.
pub open spec fn is_level(v: Seq<char>) -> bool {
    v == "bootstrap"@ || v == "seeded"@ || v == "provisioned"@ || v == "ready"@
}

/// The `"posture_level": "<value>"` value, when it is one of the four
/// typed levels.
pub open spec fn posture_level_spec(s: Seq<char>) -> Option<Seq<char>> {
    let key = "\"posture_level\""@;
    match find(s, key) {
        None => None,
        Some(idx) => {
            let a = ws_end(s, idx + key.len());
            if a < s.len() && s[a] == ':' {
                let b = ws_end(s, a + 1);
                if b < s.len() && s[b] == '"' {
                    match find_from(s, seq!['"'], b + 1) {
                        Some(e) => {
                            let value = s.subrange(b + 1, e);
                            if is_level(value) {
                                Some(value)
                            } else {
                                None
                            }
                        },
                        None => None,
                    }
                } else {
                    None
                }
            } else {
                None
            }
        },
    }
}

/// Scan a JSON body for `"posture_level": "<value>"`; only the four
/// typed levels are returned.
pub fn parse_posture_level(body: &str) -> (r: Option<String>)
    ensures
        r matches Some(v) ==> posture_level_spec(body@) == Some(v@),
        r is None ==> posture_level_spec(body@) is None,
{
    let s = chars_of(body);
    let key = chars_of("\"posture_level\"");
    let n = s.len();
    proof {
        lemma_find_from(s@, key@, 0);
    }
    let idx = match find_vec(&s, &key, 0) {
        Some(i) => i,
        None => return None,
    };
    let a = skip_ws(&s, idx + key.len(), n);
    if !(a < n && s[a] == ':') {
        return None;
    }
    proof {
        lemma_ws_end_bounds(s@, a + 1);
    }
    let b = skip_ws(&s, a + 1, n);
    if !(b < n && s[b] == '"') {
        return None;
    }
    let mut q: Vec<char> = Vec::new();
    q.push('"');
    assert(q@ =~= seq!['"']);
    proof {
        lemma_find_from(s@, q@, b + 1);
    }
    let e = match find_vec(&s, &q, b + 1) {
        Some(e) => e,
        None => return None,
    };
    let ok = range_eq(&s, b + 1, e, "bootstrap") || range_eq(&s, b + 1, e, "seeded") || range_eq(
        &s,
        b + 1,
        e,
        "provisioned",
    ) || range_eq(&s, b + 1, e, "ready");
    if ok {
        Some(string_of_range(&s, b + 1, e))
    } else {
        None
    }
}

/// `kindling: <level>`.
pub fn format_status(level: &str) -> (out: String)
    ensures
        out@ == "kindling: "@ + level@,
{
    let mut s = String::new();
    s.append("kindling: ");
    s.append(level);
    s
}

/// The bindings a `kindling_posture` format sees: `$level`, `$status`.
pub open spec fn kindling_vars(level: Seq<char>, status: Seq<char>) -> Seq<
    (Seq<char>, Seq<char>),
> {
    seq![("level"@, level), ("status"@, status)]
}

pub fn render_format(fmt: &str, level: &str, status: &str) -> (out: String)
    ensures
        out@ == render_spec(fmt@, kindling_vars(level@, status@), true),
{
    let vars = [("level", level), ("status", status)];
    let out = render_markup(fmt, &vars, true);
    assert(vars_view(&vars) =~= kindling_vars(level@, status@));
    out
}

} // verus!
