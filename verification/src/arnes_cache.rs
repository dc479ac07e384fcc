//! `arnes_cache` segment — the arnes P2P cache hit rate, rendered as
//! `arnes: NN%`.

use vstd::prelude::*;
use crate::paths::{is_absolute, join, join_spec, opt_view};
use crate::text::{
    append_dec, append_stale, chars_of, dec, find_from, find_vec, lemma_find_from, skip_ws,
    stale_suffix, string_of_range, ws_end,
};

verus! {

/// `arnes: NN%`, plus ` (stale)`.
pub open spec fn status_spec(pct: nat, stale: bool) -> Seq<char> {
    "arnes: "@ + dec(pct) + "%"@ + stale_suffix(stale)
}

pub fn format_status(pct: u32, stale: bool) -> (out: String)
    ensures
        out@ == status_spec(pct as nat, stale),
{
    let mut s = String::new();
    s.append("arnes: ");
    append_dec(&mut s, pct as u64);
    s.append("%");
    append_stale(&mut s, stale);
    s
}

/// The HTTP/1.0 stats request the arnes daemon serves.
pub fn build_request() -> (out: String)
    ensures
        out@ == "GET /v1/stats HTTP/1.0\r\nHost: arnes\r\nConnection: close\r\n\r\n"@,
{
    let mut s = String::new();
    s.append("GET /v1/stats HTTP/1.0\r\nHost: arnes\r\nConnection: close\r\n\r\n");
    s
}

/// The characters of an optional `String`.
pub open spec fn ov(s: Option<String>) -> Option<Seq<char>> {
    match s {
        Some(x) => Some(x@),
        None => None,
    }
}

/// The socket given the override variable's answer `env`: a non-empty
/// override; else nothing for an empty setting; an absolute setting as
/// is; a relative one under `home` when there is one.
pub open spec fn socket_spec(
    env: Option<Seq<char>>,
    socket_path: Seq<char>,
    home: Option<Seq<char>>,
) -> Option<Seq<char>> {
    match env {
        Some(v) if v.len() > 0 => Some(v),
        _ => if socket_path.len() == 0 {
            None
        } else if is_absolute(socket_path) {
            Some(socket_path)
        } else {
            match home {
                Some(h) => Some(join_spec(h, socket_path)),
                None => Some(socket_path),
            }
        },
    }
}

/// Resolves the arnes socket: the `socket_env_var` override (when named
/// and set), else `socket_path`, anchored under `home` when relative.
pub fn resolve_socket<F>(socket_env_var: &str, socket_path: &str, home: Option<&str>, lookup: F) -> (r:
    Option<String>)
    where
        F: Fn(&str) -> Option<String>,
    requires
        forall|k: &str| lookup.requires((k,)),
    ensures
        socket_env_var@.len() == 0 ==> ov(r) == socket_spec(None, socket_path@, opt_view(home)),
        socket_env_var@.len() > 0 ==> exists|v: Option<String>|
            {
                &&& #[trigger] lookup.ensures((socket_env_var,), v)
                &&& ov(r) == socket_spec(ov(v), socket_path@, opt_view(home))
            },
{
    let mut found: Option<String> = None;
    if socket_env_var.unicode_len() > 0 {
        found = lookup(socket_env_var);
    }
    let ghost got = found;
    if let Some(v) = found {
        if v.unicode_len() > 0 {
            return Some(v);
        }
    }
    if socket_path.unicode_len() == 0 {
        return None;
    }
    let pv = chars_of(socket_path);
    let r = if pv[0] == '/' {
        let mut s = String::new();
        s.append(socket_path);
        Some(s)
    } else {
        match home {
            Some(h) => Some(join(h, socket_path)),
            None => {
                let mut s = String::new();
                s.append(socket_path);
                Some(s)
            },
        }
    };
    assert(ov(r) == socket_spec(ov(got), socket_path@, opt_view(home)));
    r
}

/// A character of a numeric token: digits, `.`, `-`, `+`, `e`, `E`.
pub open spec fn is_numeric_char(c: char) -> bool {
    ('0' <= c && c <= '9') || c == '.' || c == '-' || c == '+' || c == 'e' || c == 'E'
}

/// End of the run of numeric characters from `i`.
pub open spec fn numeric_end(s: Seq<char>, i: int) -> int
    decreases s.len() - i,
{
    if 0 <= i < s.len() && is_numeric_char(s[i]) {
        numeric_end(s, i + 1)
    } else {
        i
    }
}

/// The numeric text of the first `"hit_rate": <number>` field: after the
/// key, whitespace, `:` and whitespace, the run of numeric characters,
/// when not empty.
pub open spec fn hit_rate_token_spec(text: Seq<char>) -> Option<Seq<char>> {
    let key = "\"hit_rate\""@;
    match find_from(text, key, 0) {
        None => None,
        Some(i) => {
            let a = ws_end(text, i + key.len());
            if a < text.len() && text[a] == ':' {
                let b = ws_end(text, a + 1);
                let e = numeric_end(text, b);
                if e > b {
                    Some(text.subrange(b, e))
                } else {
                    None
                }
            } else {
                None
            }
        },
    }
}

/// The numeric token of the `"hit_rate"` field of an arnes stats body
/// (its value is then read as a float and clamped to `0..=1`).
pub fn hit_rate_token(text: &str) -> (r: Option<String>)
    ensures
        r matches Some(x) ==> hit_rate_token_spec(text@) == Some(x@),
        r is None ==> hit_rate_token_spec(text@) is None,
{
    let v = chars_of(text);
    let key = chars_of("\"hit_rate\"");
    let i = match find_vec(&v, &key, 0) {
        Some(i) => i,
        None => return None,
    };
    proof {
        lemma_find_from(v@, key@, 0);
    }
    let klen = key.len();
    assert(i + klen <= v.len());
    let a = skip_ws(&v, i + klen, v.len());
    if a < v.len() && v[a] == ':' {
        let b = skip_ws(&v, a + 1, v.len());
        let mut e: usize = b;
        while e < v.len() && (('0' <= v[e] && v[e] <= '9') || v[e] == '.' || v[e] == '-' || v[e]
            == '+' || v[e] == 'e' || v[e] == 'E')
            invariant
                b <= e <= v@.len(),
                numeric_end(v@, e as int) == numeric_end(v@, b as int),
            decreases v.len() - e,
        {
            e = e + 1;
        }
        if e > b {
            Some(string_of_range(&v, b, e))
        } else {
            None
        }
    } else {
        None
    }
}

} // verus!
