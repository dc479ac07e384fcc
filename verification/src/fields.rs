//! Tolerant scanners for the JSON-shaped text the probes read back:
//! the value of a `"name": <digits>` field, and a quoted string field.

use vstd::prelude::*;
use crate::text::{
    chars_of, find, find_vec, is_digit, lemma_ws_end_bounds, parse_uint, parse_uint_range, skip_ws,
    ws_end,
};

verus! {

/// `"name"` — the quoted key a field scan looks for.
pub open spec fn quoted(name: Seq<char>) -> Seq<char> {
    seq!['"'] + name + seq!['"']
}

/// End of the run of ASCII digits starting at `i`.
pub open spec fn digit_end(s: Seq<char>, i: int) -> int
    decreases s.len() - i,
{
    if 0 <= i < s.len() && is_digit(s[i]) {
        digit_end(s, i + 1)
    } else {
        i
    }
}

pub proof fn lemma_digit_end(s: Seq<char>, i: int)
    requires
        0 <= i <= s.len(),
    ensures
        i <= digit_end(s, i) <= s.len(),
        forall|k: int| i <= k < digit_end(s, i) ==> is_digit(#[trigger] s[k]),
    decreases s.len() - i,
{
    if i < s.len() && is_digit(s[i]) {
        lemma_digit_end(s, i + 1);
    }
}

/// The value of the first `"name"` key when it is followed (after
/// optional whitespace) by `:`, optional whitespace and a run of digits
/// that fits a `u32`.
pub open spec fn field_u32(s: Seq<char>, name: Seq<char>) -> Option<nat> {
    let key = quoted(name);
    match find(s, key) {
        None => None,
        Some(idx) => {
            let p = ws_end(s, idx + key.len());
            if p < s.len() && s[p] == ':' {
                let q = ws_end(s, p + 1);
                let e = digit_end(s, q);
                if e <= q {
                    None
                } else {
                    parse_uint(s.subrange(q, e), u32::MAX as nat)
                }
            } else {
                None
            }
        },
    }
}

/// The key `"name"` as characters.
pub fn quoted_vec(name: &str) -> (k: Vec<char>)
    ensures
        k@ == quoted(name@),
{
    let mut k: Vec<char> = Vec::new();
    k.push('"');
    let nv = chars_of(name);
    let mut i: usize = 0;
    while i < nv.len()
        invariant
            0 <= i <= nv@.len(),
            k@ == seq!['"'] + nv@.take(i as int),
        decreases nv.len() - i,
    {
        k.push(nv[i]);
        i = i + 1;
        assert(k@ =~= seq!['"'] + nv@.take(i as int));
    }
    k.push('"');
    assert(nv@.take(nv@.len() as int) =~= nv@);
    assert(k@ =~= quoted(name@));
    k
}

/// Value of the `u32` field `name` in `body` (see [`field_u32`]).
pub fn extract_u32_field(body: &Vec<char>, name: &str) -> (r: Option<u32>)
    ensures
        r matches Some(x) ==> field_u32(body@, name@) == Some(x as nat),
        r is None ==> field_u32(body@, name@) is None,
{
    let key = quoted_vec(name);
    let n = body.len();
    match find_vec(body, &key, 0) {
        None => None,
        Some(idx) => {
            proof {
                crate::text::lemma_find_from(body@, key@, 0);
            }
            let p = skip_ws(body, idx + key.len(), n);
            if p < n && body[p] == ':' {
                let q = skip_ws(body, p + 1, n);
                proof {
                    lemma_ws_end_bounds(body@, p + 1);
                }
                let mut e: usize = q;
                while e < n && '0' <= body[e] && body[e] <= '9'
                    invariant
                        q <= e <= n == body@.len(),
                        digit_end(body@, e as int) == digit_end(body@, q as int),
                    decreases n - e,
                {
                    e = e + 1;
                }
                if e == q {
                    None
                } else {
                    match parse_uint_range(body, q, e, u32::MAX as u64) {
                        Some(x) => Some(x as u32),
                        None => None,
                    }
                }
            } else {
                None
            }
        },
    }
}

} // verus!
