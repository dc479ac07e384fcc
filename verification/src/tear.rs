//! `tear` segment — the current tear session and pane identity,
//! rendered as `[~ <session>] [pane <id>]` with the pane id cut to
//! `pane_id_len` characters.

use vstd::prelude::*;
use crate::markup::{render_markup, render_spec, vars_view};
use crate::text::{chars_of, string_of_range};

verus! {

/// The first `n` characters of `s` (all of `s` when it is shorter).
pub open spec fn truncate_spec(s: Seq<char>, n: nat) -> Seq<char> {
    if n <= s.len() {
        s.take(n as int)
    } else {
        s
    }
}

/// Truncate a string to at most `n` characters (not bytes).
pub fn truncate(s: &str, n: usize) -> (out: String)
    ensures
        out@ == truncate_spec(s@, n as nat),
{
    if n == 0 {
        let out = String::new();
        assert(out@ =~= s@.take(0));
        return out;
    }
    let v = chars_of(s);
    let end = if n < v.len() {
        n
    } else {
        v.len()
    };
    let out = string_of_range(&v, 0, end);
    assert(out@ =~= truncate_spec(s@, n as nat));
    out
}

/// The bindings a `tear` format sees.
pub open spec fn tear_vars(session: Seq<char>, pane: Seq<char>) -> Seq<(Seq<char>, Seq<char>)> {
    seq![("session"@, session), ("pane"@, pane)]
}

/// Render the format string. Substitutions: `$session`, `$pane`.
pub fn render_format(fmt: &str, session: &str, pane: &str) -> (out: String)
    ensures
        out@ == render_spec(fmt@, tear_vars(session@, pane@), true),
{
    let vars = [("session", session), ("pane", pane)];
    let out = render_markup(fmt, &vars, true);
    assert(vars_view(&vars) =~= tear_vars(session@, pane@));
    out
}

} // verus!
