//! `kasou_vm` segment — the number of running kasou VMs, counted from
//! `kasou list --format=json` and rendered as `kasou: N vm`.

use vstd::prelude::*;
use crate::text::{
    append_dec, append_stale, chars_of, dec, is_ascii_ws, is_ascii_ws_exec, stale_suffix,
};

verus! {

/// `kasou: N vm`, plus ` (stale)` for a stale count.
pub open spec fn status_spec(count: nat, stale: bool) -> Seq<char> {
    "kasou: "@ + dec(count) + " vm"@ + stale_suffix(stale)
}

/// Build the `kasou: N vm` label. Stale renders append ` (stale)`.
pub fn format_status(count: u32, stale: bool) -> (out: String)
    ensures
        out@ == status_spec(count as nat, stale),
{
    let mut s = String::new();
    s.append("kasou: ");
    append_dec(&mut s, count as u64);
    s.append(" vm");
    append_stale(&mut s, stale);
    s
}

/// First index at or after `i` that is not ASCII whitespace.
pub open spec fn ascii_ws_end(s: Seq<char>, i: int) -> int
    decreases s.len() - i,
{
    if 0 <= i < s.len() && is_ascii_ws(s[i]) {
        ascii_ws_end(s, i + 1)
    } else {
        i
    }
}

/// Index of the first `"` at or after `i`, or the end of `s`.
pub open spec fn quote_end(s: Seq<char>, i: int) -> int
    decreases s.len() - i,
{
    if 0 <= i < s.len() && s[i] != '"' {
        quote_end(s, i + 1)
    } else {
        i
    }
}

pub proof fn lemma_scan_ends(s: Seq<char>, i: int)
    requires
        0 <= i <= s.len(),
    ensures
        i <= ascii_ws_end(s, i) <= s.len(),
        i <= quote_end(s, i) <= s.len(),
    decreases s.len() - i,
{
    if i < s.len() {
        lemma_scan_ends(s, i + 1);
    }
}

/// The scan of `s` from `i`: each `"state"` key followed (ASCII
/// whitespace allowed) by `:` and a quoted value `running` counts once;
/// after a quoted value the scan resumes at its closing quote.
pub open spec fn running_from(s: Seq<char>, i: int) -> nat
    decreases s.len() - i,
{
    if i < 0 || i + 7 > s.len() {
        0
    } else if s.subrange(i, i + 7) == "\"state\""@ {
        let j = ascii_ws_end(s, i + 7);
        if j < i + 7 || j > s.len() {
            0
        } else if j >= s.len() || s[j] != ':' {
            running_from(s, i + 1)
        } else {
            let j2 = ascii_ws_end(s, j + 1);
            if j2 <= j || j2 > s.len() {
                0
            } else if j2 >= s.len() || s[j2] != '"' {
                running_from(s, i + 1)
            } else {
                let ve = quote_end(s, j2 + 1);
                if ve <= i || ve > s.len() {
                    0
                } else {
                    (if s.subrange(j2 + 1, ve) == "running"@ {
                        1nat
                    } else {
                        0nat
                    }) + running_from(s, ve)
                }
            }
        }
    } else {
        running_from(s, i + 1)
    }
}

/// Count of `"state": "running"` entries, saturating at `u32::MAX`.
pub open spec fn running_count_spec(s: Seq<char>) -> nat {
    let n = running_from(s, 0);
    if n > u32::MAX {
        u32::MAX as nat
    } else {
        n
    }
}

fn eq_at(v: &Vec<char>, from: usize, to: usize, w: &Vec<char>) -> (b: bool)
    requires
        from <= to <= v@.len(),
    ensures
        b == (v@.subrange(from as int, to as int) == w@),
{
    if to - from != w.len() {
        return false;
    }
    let mut k: usize = 0;
    while k < w.len()
        invariant
            from <= to <= v@.len(),
            to - from == w@.len(),
            0 <= k <= w@.len(),
            forall|j: int| 0 <= j < k ==> v@[from + j] == w@[j],
        decreases w.len() - k,
    {
        if v[from + k] != w[k] {
            assert(v@.subrange(from as int, to as int)[k as int] != w@[k as int]);
            return false;
        }
        k = k + 1;
    }
    assert(v@.subrange(from as int, to as int) =~= w@);
    true
}

/// Count `"state"` / `"running"` pairs in the output of
/// `kasou list --format=json` (see [`running_from`]). Unparseable input
/// counts as 0.
pub fn parse_running_count(text: &str) -> (count: u32)
    ensures
        count as nat == running_count_spec(text@),
{
    let b = chars_of(text);
    let needle = chars_of("\"state\"");
    let running = chars_of("running");
    proof {
        reveal_strlit("\"state\"");
    }
    let n = b.len();
    let ghost s = b@;
    let mut count: u32 = 0;
    let mut i: usize = 0;
    while i < n && needle.len() <= n - i
        invariant
            s == b@,
            n == s.len(),
            needle@ == "\"state\""@,
            needle@.len() == 7,
            running@ == "running"@,
            0 <= i <= n,
            count <= u32::MAX,
            ({
                let t = count as nat + running_from(s, i as int);
                (if t > u32::MAX {
                    u32::MAX as nat
                } else {
                    t
                }) == running_count_spec(s)
            }),
            count as nat == u32::MAX ==> running_count_spec(s) == u32::MAX as nat,
        decreases n - i,
    {
        proof {
            lemma_scan_ends(s, i + 7);
        }
        if eq_at(&b, i, i + 7, &needle) {
            let mut j: usize = i + 7;
            while j < n && is_ascii_ws_exec(b[j])
                invariant
                    i + 7 <= j <= n == s.len(),
                    s == b@,
                    ascii_ws_end(s, j as int) == ascii_ws_end(s, i + 7),
                decreases n - j,
            {
                j = j + 1;
            }
            if j >= n || b[j] != ':' {
                i = i + 1;
                continue;
            }
            j = j + 1;
            let ghost j1 = j;
            proof {
                lemma_scan_ends(s, j as int);
            }
            while j < n && is_ascii_ws_exec(b[j])
                invariant
                    j1 <= j <= n == s.len(),
                    s == b@,
                    ascii_ws_end(s, j as int) == ascii_ws_end(s, j1 as int),
                decreases n - j,
            {
                j = j + 1;
            }
            if j >= n || b[j] != '"' {
                i = i + 1;
                continue;
            }
            j = j + 1;
            let value_start = j;
            proof {
                lemma_scan_ends(s, j as int);
            }
            while j < n && b[j] != '"'
                invariant
                    value_start <= j <= n == s.len(),
                    s == b@,
                    quote_end(s, j as int) == quote_end(s, value_start as int),
                decreases n - j,
            {
                j = j + 1;
            }
            if eq_at(&b, value_start, j, &running) {
                if count < u32::MAX {
                    count = count + 1;
                }
            }
            i = j;
        } else {
            i = i + 1;
        }
    }
    proof {
        if i < n {
            assert(running_from(s, i as int) == 0);
        }
    }
    count
}

} // verus!
