//! `vigy` segment — the local vigy reconciler count and tick rate, from
//! an HTTP probe of vigy's REST endpoint.

use vstd::prelude::*;
use crate::markup::{render_markup, render_spec, vars_view};
use crate::text::{
    chars_of, dec, dec_string, find, find_vec, lemma_find_from, lines, lines_vec, parse_uint,
    parse_uint_range, sub_vec, token_spans, tokens,
};

verus! {

broadcast use vstd::string::group_string_axioms;

/// The body of an HTTP response whose status is 2xx: the status is the
/// second word of the first line of the head (everything before the
/// first blank line), and must parse as a `u16` in `200..300`.
pub open spec fn http_body_spec(s: Seq<char>) -> Option<Seq<char>> {
    match find(s, "\r\n\r\n"@) {
        None => None,
        Some(i) => {
            let head = s.take(i);
            let ls = lines(head);
            if ls.len() == 0 {
                None
            } else {
                let ts = tokens(ls[0]);
                if ts.len() < 2 {
                    None
                } else {
                    match parse_uint(ts[1], u16::MAX as nat) {
                        Some(code) => if 200 <= code < 300 {
                            Some(s.skip(i + 4))
                        } else {
                            None
                        },
                        None => None,
                    }
                }
            }
        },
    }
}

/// Strip the HTTP status + headers from an HTTP/1.1 response and return
/// the body slice; `None` unless the status is 2xx.
pub fn http_body(response: &str) -> (r: Option<&str>)
    ensures
        r matches Some(b) ==> http_body_spec(response@) == Some(b@),
        r is None ==> http_body_spec(response@) is None,
{
    let v = chars_of(response);
    let sep = chars_of("\r\n\r\n");
    proof {
        reveal_strlit("\r\n\r\n");
        lemma_find_from(v@, sep@, 0);
    }
    let i = match find_vec(&v, &sep, 0) {
        Some(i) => i,
        None => return None,
    };
    let head = sub_vec(&v, 0, i);
    assert(head@ =~= v@.take(i as int));
    let ls = lines_vec(&head);
    if ls.len() == 0 {
        return None;
    }
    let first = &ls[0];
    let sp = token_spans(first);
    if sp.len() < 2 {
        return None;
    }
    let (a, b) = sp[1];
    match parse_uint_range(first, a, b, 65535) {
        Some(code) => {
            if 200 <= code && code < 300 {
                assert(v@.len() == v.len());
                let body = response.substring_char(i + 4, v.len());
                assert(body@ =~= v@.skip(i + 4));
                Some(body)
            } else {
                None
            }
        },
        None => None,
    }
}

/// The bindings a `vigy` format sees: `$count`, `$hz`.
pub open spec fn vigy_vars(count: nat, hz: Seq<char>) -> Seq<(Seq<char>, Seq<char>)> {
    seq![("count"@, dec(count)), ("hz"@, hz)]
}

/// Render the format string. Substitutions: `$count`, `$hz`.
pub fn render_format(fmt: &str, count: u32, hz: &str) -> (out: String)
    ensures
        out@ == render_spec(fmt@, vigy_vars(count as nat, hz@), true),
{
    let c = dec_string(count as u64);
    let vars = [("count", c.as_str()), ("hz", hz)];
    let out = render_markup(fmt, &vars, true);
    assert(vars_view(&vars) =~= vigy_vars(count as nat, hz@));
    out
}

} // verus!
