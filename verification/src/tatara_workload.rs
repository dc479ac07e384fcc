//! `tatara_workload` segment — running tatara allocations, read from
//! `tatara node list --format=json` and rendered as `tatara: N alloc`.

use vstd::prelude::*;
use crate::fields::{extract_u32_field, field_u32};
use crate::markup::{render_markup, render_spec, vars_view};
use crate::text::{
    append_dec, append_stale, chars_of, count_matches, count_vec, dec, dec_string,
    lemma_count_from_bound, stale_suffix,
};

verus! {

/// `tatara: N alloc`, plus ` (stale)` for a stale count.
pub open spec fn status_spec(count: nat, stale: bool) -> Seq<char> {
    "tatara: "@ + dec(count) + " alloc"@ + stale_suffix(stale)
}

pub fn format_status(count: u32, stale: bool) -> (out: String)
    ensures
        out@ == status_spec(count as nat, stale),
{
    let mut s = String::new();
    s.append("tatara: ");
    append_dec(&mut s, count as u64);
    s.append(" alloc");
    append_stale(&mut s, stale);
    s
}

/// The bindings a `tatara_workload` format sees: `$count`, `$status`.
pub open spec fn tatara_vars(count: nat, status: Seq<char>) -> Seq<(Seq<char>, Seq<char>)> {
    seq![("count"@, dec(count)), ("status"@, status)]
}

pub fn render_format(fmt: &str, count: u32, status: &str) -> (out: String)
    ensures
        out@ == render_spec(fmt@, tatara_vars(count as nat, status@), true),
{
    let c = dec_string(count as u64);
    let vars = [("count", c.as_str()), ("status", status)];
    let out = render_markup(fmt, &vars, true);
    assert(vars_view(&vars) =~= tatara_vars(count as nat, status@));
    out
}

/// `n` truncated to 32 bits (`as u32`).
pub open spec fn trunc32(n: nat) -> nat {
    n % 0x1_0000_0000
}

/// The `"status":"Running"` and `"status": "Running"` counts, each
/// truncated to 32 bits.
pub open spec fn status_counts(s: Seq<char>) -> (nat, nat) {
    (
        trunc32(count_matches(s, "\"status\":\"Running\""@)),
        trunc32(count_matches(s, "\"status\": \"Running\""@)),
    )
}

/// Neither running field is present, so the status counts are added.
pub open spec fn uses_status_scan(s: Seq<char>) -> bool {
    field_u32(s, "allocations_running"@) is None && field_u32(s, "running"@) is None
}

/// Running allocations in `tatara node list --format=json` output: the
/// `"allocations_running"` field, else the `"running"` field, else the
/// number of `"status":"Running"` plus `"status": "Running"` entries
/// (each count truncated to 32 bits).
pub open spec fn running_spec(s: Seq<char>) -> nat {
    match field_u32(s, "allocations_running"@) {
        Some(n) => n,
        None => match field_u32(s, "running"@) {
            Some(n) => n,
            None => status_counts(s).0 + status_counts(s).1,
        },
    }
}

/// Count running allocations from JSON output (see [`running_spec`]).
pub fn parse_tatara_json(body: &str) -> (n: u32)
    requires
        uses_status_scan(body@) ==> status_counts(body@).0 + status_counts(body@).1 <= u32::MAX,
    ensures
        n as nat == running_spec(body@),
{
    let v = chars_of(body);
    if let Some(n) = extract_u32_field(&v, "allocations_running") {
        return n;
    }
    if let Some(n) = extract_u32_field(&v, "running") {
        return n;
    }
    let p1 = chars_of("\"status\":\"Running\"");
    let p2 = chars_of("\"status\": \"Running\"");
    proof {
        reveal_strlit("\"status\":\"Running\"");
        reveal_strlit("\"status\": \"Running\"");
        lemma_count_from_bound(v@, p1@, 0);
        lemma_count_from_bound(v@, p2@, 0);
    }
    let a = count_vec(&v, &p1);
    let b = count_vec(&v, &p2);
    let a32 = ((a as u64) % 0x1_0000_0000u64) as u32;
    let b32 = ((b as u64) % 0x1_0000_0000u64) as u32;
    a32 + b32
}

} // verus!
