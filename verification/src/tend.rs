//! `tend` segment — tend workspace status: the count of non-clean repos
//! in `tend status` output, rendered as `tend: clean` / `tend: N dirty`.

use vstd::prelude::*;
use crate::markup::{render_markup, render_spec, vars_view};
use crate::mado_session::opt_string_view;
use crate::probe_cache::{after_probe, after_probe_spec, fresh_spec, fresh_value, Cached};
use crate::git_status::has_infix;
use crate::text::{
    is_digit, lemma_dec_digits, append_dec, append_stale, chars_of, dec, dec_string, lines, lines_vec, range_eq, skip_ws,
    stale_suffix, sub_vec, token_spans, tokens, trim_start,
};

verus! {

/// `tend: clean` when `count == 0`, `tend: N dirty` otherwise; stale
/// labels carry ` (stale)`.
pub open spec fn status_spec(count: nat, stale: bool) -> Seq<char> {
    (if count == 0 {
        "tend: clean"@
    } else {
        "tend: "@ + dec(count) + " dirty"@
    }) + stale_suffix(stale)
}

pub fn format_status(count: u32, stale: bool) -> (out: String)
    ensures
        out@ == status_spec(count as nat, stale),
{
    let mut out = String::new();
    if count == 0 {
        out.append("tend: clean");
    } else {
        out.append("tend: ");
        append_dec(&mut out, count as u64);
        out.append(" dirty");
    }
    append_stale(&mut out, stale);
    assert(out@ =~= status_spec(count as nat, stale));
    out
}

/// The label reads `tend: clean` only for a zero count; any other count
/// is shown, followed by ` dirty`.
pub proof fn law_tend_clean_only_at_zero(count: nat, stale: bool)
    ensures
        (status_spec(count, stale).take(11) == "tend: clean"@) == (count == 0),
        count > 0 ==> has_infix(status_spec(count, stale), dec(count) + " dirty"@),
{
    reveal_strlit("tend: clean");
    reveal_strlit("tend: ");
    reveal_strlit(" dirty");
    let t = status_spec(count, stale);
    if count == 0 {
        assert(t.take(11) =~= "tend: clean"@);
    } else {
        lemma_dec_digits(count);
        let dc = dec(count);
        assert(t == "tend: "@ + dc + " dirty"@ + stale_suffix(stale));
        assert(t[6] == dc[0]);
        assert(is_digit(dc[0]));
        assert("tend: clean"@[6] == 'c');
        assert(t.take(11)[6] != "tend: clean"@[6]);
        let w = dc + " dirty"@;
        assert(t.subrange(6, 6int + w.len()) =~= w);
    }
}

/// The bindings a `tend` format sees: `$count`, `$status`.
pub open spec fn tend_vars(count: nat, status: Seq<char>) -> Seq<(Seq<char>, Seq<char>)> {
    seq![("count"@, dec(count)), ("status"@, status)]
}

/// Render the format string. Substitutions: `$count`, `$status`.
pub fn render_format(fmt: &str, count: u32, status: &str) -> (out: String)
    ensures
        out@ == render_spec(fmt@, tend_vars(count as nat, status@), true),
{
    let c = dec_string(count as u64);
    let vars = [("count", c.as_str()), ("status", status)];
    let out = render_markup(fmt, &vars, true);
    assert(vars_view(&vars) =~= tend_vars(count as nat, status@));
    out
}

/// A data line of `tend status`: after leading whitespace it starts
/// with the bracketed status tag, and its last word is not `clean`.
pub open spec fn is_dirty_line(line: Seq<char>) -> bool {
    let t = trim_start(line);
    t.len() > 0 && t[0] == '[' && tokens(t).len() > 0 && tokens(t).last() != "clean"@
}

/// Number of dirty lines.
pub open spec fn dirty_count(ls: Seq<Seq<char>>) -> nat
    decreases ls.len(),
{
    if ls.len() == 0 {
        0
    } else {
        dirty_count(ls.drop_last()) + (if is_dirty_line(ls.last()) {
            1nat
        } else {
            0nat
        })
    }
}

pub open spec fn cap_u32(n: nat) -> nat {
    if n > u32::MAX {
        u32::MAX as nat
    } else {
        n
    }
}

fn line_is_dirty(line: &Vec<char>) -> (b: bool)
    ensures
        b == is_dirty_line(line@),
{
    let n = line.len();
    let a = skip_ws(line, 0, n);
    if a < n && line[a] == '[' {
        let t = sub_vec(line, a, n);
        assert(t@ =~= trim_start(line@));
        let sp = token_spans(&t);
        if sp.len() > 0 {
            let (x, y) = sp[sp.len() - 1];
            let clean = range_eq(&t, x, y, "clean");
            return !clean;
        }
        false
    } else {
        assert(trim_start(line@).len() > 0 ==> trim_start(line@)[0] == line@[a as int]);
        false
    }
}

/// Parse the count of non-clean repos from `tend status` plain-text
/// output: every data line (one that starts with the typed status tag in
/// brackets) whose last word is anything other than `clean`. The count
/// saturates at `u32::MAX`.
pub fn parse_tend_status_text(text: &str) -> (count: u32)
    ensures
        count as nat == cap_u32(dirty_count(lines(text@))),
{
    let v = chars_of(text);
    let ls = lines_vec(&v);
    let ghost all = lines(v@);
    let mut count: u32 = 0;
    let mut k: usize = 0;
    while k < ls.len()
        invariant
            ls@.len() == all.len(),
            forall|j: int| 0 <= j < ls@.len() ==> #[trigger] ls@[j]@ == all[j],
            0 <= k <= ls@.len(),
            count as nat == cap_u32(dirty_count(all.take(k as int))),
        decreases ls.len() - k,
    {
        let d = line_is_dirty(&ls[k]);
        proof {
            assert(all.take(k + 1).drop_last() =~= all.take(k as int));
            assert(all.take(k + 1).last() == ls@[k as int]@);
        }
        if d && count < u32::MAX {
            count = count + 1;
        }
        k = k + 1;
    }
    assert(all.take(ls@.len() as int) =~= all);
    count
}

// ── one render ──────────────────────────────────────────────────────

/// One render of the segment. A count served from the cache is marked
/// stale: a cached count younger than the TTL is shown, stale, without
/// probing; otherwise the probe's answer `probe` is cached and shown as
/// current, or, failing it, the cached count is shown as stale, or
/// nothing is.
pub open spec fn tend_step_spec(cached: Option<Cached<u32>>, now: u64, ttl: u64, probe: Option<u32>) -> (
    Option<Cached<u32>>,
    Option<(u32, bool)>,
) {
    match fresh_spec(cached, now, ttl) {
        Some(c) => (cached, Some((c, true))),
        None => after_probe_spec(cached, probe, now),
    }
}

/// The next cache and the count to show, for one render; `probe` is the
/// probe's answer, read only when the cache is not fresh.
pub fn tend_step(cached: Option<Cached<u32>>, now: u64, ttl: u64, probe: Option<u32>) -> (r: (
    Option<Cached<u32>>,
    Option<(u32, bool)>,
))
    ensures
        r == tend_step_spec(cached, now, ttl, probe),
{
    match fresh_value(cached, now, ttl) {
        Some(c) => (cached, Some((c, true))),
        None => after_probe(cached, probe, now),
    }
}

/// The segment text for what a render shows.
pub open spec fn tend_text_spec(fmt: Seq<char>, shown: Option<(u32, bool)>) -> Option<Seq<char>> {
    match shown {
        Some((c, stale)) => Some(
            render_spec(fmt, tend_vars(c as nat, status_spec(c as nat, stale)), true),
        ),
        None => None,
    }
}

pub fn tend_text(fmt: &str, shown: Option<(u32, bool)>) -> (r: Option<String>)
    ensures
        opt_string_view(r) == tend_text_spec(fmt@, shown),
{
    match shown {
        Some((c, stale)) => {
            let status = format_status(c, stale);
            Some(render_format(fmt, c, status.as_str()))
        },
        None => None,
    }
}

/// With nothing cached, a failed probe shows nothing and caches nothing.
pub proof fn law_tend_absent_on_failure(now: u64, ttl: u64)
    ensures
        tend_step_spec(None, now, ttl, None) == (None::<Cached<u32>>, None::<(u32, bool)>),
{
}

/// A count the cache serves is always marked stale; only a count the
/// probe just answered is shown as current.
pub proof fn law_tend_cached_count_is_stale(
    cached: Option<Cached<u32>>,
    now: u64,
    ttl: u64,
    probe: Option<u32>,
    c: u32,
)
    requires
        tend_step_spec(cached, now, ttl, probe).1 == Some((c, false)),
    ensures
        probe == Some(c),
        fresh_spec(cached, now, ttl) is None,
{
}

} // verus!
