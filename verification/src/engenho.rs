//! `engenho` segment — engenho runtime readiness from an HTTP probe of
//! its `/readyz` endpoint: `engenho: ready` on 200, `engenho: degraded`
//! on any other status.

use vstd::prelude::*;
use crate::text::{
    append_stale, chars_of, has_prefix, lines, lines_vec, parse_uint, parse_uint_range,
    rfind_char, rfind_char_vec, stale_suffix, starts_with_vec, string_of, string_of_range,
    token_spans, tokens,
};

verus! {

broadcast use vstd::string::group_string_axioms;

/// Outcome of one HTTP probe.
#[derive(Debug, Clone, Copy, PartialEq, Eq, Structural)]
pub enum ReadyState {
    Ready,
    Degraded,
}

/// The state word: `ready` / `degraded`.
pub open spec fn state_word(state: ReadyState) -> Seq<char> {
    match state {
        ReadyState::Ready => "ready"@,
        ReadyState::Degraded => "degraded"@,
    }
}

/// `engenho: ready` / `engenho: degraded`, plus ` (stale)`.
pub open spec fn status_spec(state: ReadyState, stale: bool) -> Seq<char> {
    "engenho: "@ + state_word(state) + stale_suffix(stale)
}

pub fn format_status(state: ReadyState, stale: bool) -> (out: String)
    ensures
        out@ == status_spec(state, stale),
{
    let mut s = String::new();
    s.append("engenho: ");
    match state {
        ReadyState::Ready => s.append("ready"),
        ReadyState::Degraded => s.append("degraded"),
    }
    append_stale(&mut s, stale);
    s
}

/// The HTTP/1.0 GET request for `path` (an empty path asks for `/`).
pub open spec fn request_spec(host: Seq<char>, path: Seq<char>) -> Seq<char> {
    let p = if path.len() == 0 {
        "/"@
    } else {
        path
    };
    "GET "@ + p + " HTTP/1.0\r\nHost: "@ + host + "\r\nConnection: close\r\n\r\n"@
}

/// Build the HTTP/1.0 GET request.
pub fn build_request(host: &str, path: &str) -> (out: String)
    ensures
        out@ == request_spec(host@, path@),
{
    let mut out = String::new();
    out.append("GET ");
    if path.unicode_len() == 0 {
        out.append("/");
    } else {
        out.append(path);
    }
    out.append(" HTTP/1.0\r\nHost: ");
    out.append(host);
    out.append("\r\nConnection: close\r\n\r\n");
    out
}

/// The host of `host:port`: everything before the last `:`, or the
/// whole address when it has none.
pub open spec fn addr_host_spec(addr: Seq<char>) -> Seq<char> {
    match rfind_char(addr, ':') {
        Some(i) => addr.take(i),
        None => addr,
    }
}

/// Extract the bare host (sans port) for the Host header.
pub fn addr_host(addr: &str) -> (out: String)
    ensures
        out@ == addr_host_spec(addr@),
{
    let v = chars_of(addr);
    match rfind_char_vec(&v, ':') {
        Some(i) => {
            proof {
                crate::text::lemma_rfind_char_bound(v@, ':');
            }
            let h = string_of_range(&v, 0, i);
            assert(h@ =~= v@.take(i as int));
            h
        },
        None => string_of(&v),
    }
}

/// The status code of an HTTP/1.x response: the second word of its
/// first line, when the first word starts with `HTTP/` and the second
/// is a `u16`.
pub open spec fn status_code_spec(s: Seq<char>) -> Option<nat> {
    let ls = lines(s);
    if ls.len() == 0 {
        None
    } else {
        let ts = tokens(ls[0]);
        if ts.len() == 0 || !has_prefix(ts[0], "HTTP/"@) || ts.len() < 2 {
            None
        } else {
            parse_uint(ts[1], u16::MAX as nat)
        }
    }
}

/// Parse the first line of an HTTP/1.x response: `HTTP/1.0 200 OK`.
pub fn parse_status(text: &str) -> (r: Option<u16>)
    ensures
        r matches Some(c) ==> status_code_spec(text@) == Some(c as nat),
        r is None ==> status_code_spec(text@) is None,
{
    let v = chars_of(text);
    let ls = lines_vec(&v);
    if ls.len() == 0 {
        return None;
    }
    let first = &ls[0];
    let sp = token_spans(first);
    if sp.len() == 0 {
        return None;
    }
    let (a0, b0) = sp[0];
    let t0 = crate::text::sub_vec(first, a0, b0);
    if !starts_with_vec(&t0, "HTTP/") || sp.len() < 2 {
        return None;
    }
    let (a1, b1) = sp[1];
    match parse_uint_range(first, a1, b1, 65535) {
        Some(c) => Some(c as u16),
        None => None,
    }
}

/// The address given the override variable's answer `env`: a non-empty
/// override, else the configured address.
pub open spec fn addr_spec(env: Option<String>, addr: Seq<char>) -> Seq<char> {
    match env {
        Some(v) => if v@.len() > 0 {
            v@
        } else {
            addr
        },
        None => addr,
    }
}

/// Resolves the engenho address: the `addr_env_var` override when named
/// and set to something, else `addr`.
pub fn resolve_addr<F>(addr_env_var: &str, addr: &str, lookup: F) -> (r: String)
    where
        F: Fn(&str) -> Option<String>,
    requires
        forall|k: &str| lookup.requires((k,)),
    ensures
        addr_env_var@.len() == 0 ==> r@ == addr@,
        addr_env_var@.len() > 0 ==> exists|v: Option<String>|
            {
                &&& #[trigger] lookup.ensures((addr_env_var,), v)
                &&& r@ == addr_spec(v, addr@)
            },
{
    if addr_env_var.unicode_len() > 0 {
        let v = lookup(addr_env_var);
        let ghost got = v;
        let r = match v {
            Some(x) => if x.unicode_len() > 0 {
                x
            } else {
                let mut s = String::new();
                s.append(addr);
                s
            },
            None => {
                let mut s = String::new();
                s.append(addr);
                s
            },
        };
        assert(r@ == addr_spec(got, addr@));
        return r;
    }
    let mut s = String::new();
    s.append(addr);
    s
}

/// The readiness an HTTP status code reports: `200` is ready, any other
/// code degraded.
pub fn state_for_status(code: u16) -> (st: ReadyState)
    ensures
        st == (if code == 200 {
            ReadyState::Ready
        } else {
            ReadyState::Degraded
        }),
{
    if code == 200 {
        ReadyState::Ready
    } else {
        ReadyState::Degraded
    }
}

} // verus!
