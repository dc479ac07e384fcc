//! `shigoto` segment — running and pending shigoto jobs, read from the
//! daemon's HTTP snapshot and rendered as
//! `shigoto: R running, P pending` (or `shigoto: idle`).

use vstd::prelude::*;
use crate::fields::{extract_u32_field, field_u32};
use crate::markup::{render_markup, render_spec, vars_view};
use crate::mado_session::opt_string_view;
use crate::probe_cache::{probe_step, probe_step_spec, Cached};
use crate::git_status::has_infix;
use crate::text::{
    is_digit, lemma_dec_digits, append_dec, append_stale, chars_of, count_matches, count_vec, dec, dec_string, find,
    find_char_vec, find_vec, has_prefix, lemma_count_from_bound, lemma_rfind_char, parse_uint,
    parse_uint_range, rfind_char, rfind_char_vec, stale_suffix, starts_with_vec, string_of,
    string_of_range, sub_vec, trim_end_char, trim_end_char_len,
};

verus! {

/// `shigoto: idle` when nothing runs or waits, else
/// `shigoto: R running, P pending`; plus ` (stale)`.
pub open spec fn status_spec(running: nat, pending: nat, stale: bool) -> Seq<char> {
    (if running == 0 && pending == 0 {
        "shigoto: idle"@
    } else {
        "shigoto: "@ + dec(running) + " running, "@ + dec(pending) + " pending"@
    }) + stale_suffix(stale)
}

pub fn format_status(running: u32, pending: u32, stale: bool) -> (out: String)
    ensures
        out@ == status_spec(running as nat, pending as nat, stale),
{
    let mut s = String::new();
    if running == 0 && pending == 0 {
        s.append("shigoto: idle");
    } else {
        s.append("shigoto: ");
        append_dec(&mut s, running as u64);
        s.append(" running, ");
        append_dec(&mut s, pending as u64);
        s.append(" pending");
    }
    append_stale(&mut s, stale);
    assert(s@ =~= status_spec(running as nat, pending as nat, stale));
    s
}

/// The label reads `shigoto: idle` only when nothing runs and nothing
/// waits; otherwise it shows both counts: the running count followed by
/// ` running` and the pending count followed by ` pending` occur in it.
pub proof fn law_shigoto_idle_only_when_nothing(running: nat, pending: nat, stale: bool)
    ensures
        (status_spec(running, pending, stale).take(13) == "shigoto: idle"@) == (running == 0
            && pending == 0),
        !(running == 0 && pending == 0) ==> has_infix(
            status_spec(running, pending, stale),
            dec(running) + " running"@,
        ) && has_infix(status_spec(running, pending, stale), dec(pending) + " pending"@),
{
    reveal_strlit("shigoto: idle");
    reveal_strlit("shigoto: ");
    reveal_strlit(" running, ");
    reveal_strlit(" running");
    reveal_strlit(" pending");
    let t = status_spec(running, pending, stale);
    if running == 0 && pending == 0 {
        assert(t.take(13) =~= "shigoto: idle"@);
    } else {
        lemma_dec_digits(running);
        lemma_dec_digits(pending);
        let dr = dec(running);
        let dp = dec(pending);
        let body = "shigoto: "@ + dr + " running, "@ + dp + " pending"@;
        assert(t == body + stale_suffix(stale));
        assert(t[9] == dr[0]);
        assert(is_digit(dr[0]));
        assert("shigoto: idle"@[9] == 'i');
        assert(t.take(13)[9] != "shigoto: idle"@[9]);
        let wr = dr + " running"@;
        assert(t.subrange(9, 9int + wr.len()) =~= wr);
        let k: int = (9 + dr.len() + 10) as int;
        let wp = dp + " pending"@;
        assert(t.subrange(k, k + wp.len()) =~= wp);
    }
}

/// The bindings a `shigoto` format sees: `$running`, `$pending`,
/// `$status`.
pub open spec fn shigoto_vars(running: nat, pending: nat, status: Seq<char>) -> Seq<
    (Seq<char>, Seq<char>),
> {
    seq![("running"@, dec(running)), ("pending"@, dec(pending)), ("status"@, status)]
}

pub fn render_format(fmt: &str, running: u32, pending: u32, status: &str) -> (out: String)
    ensures
        out@ == render_spec(fmt@, shigoto_vars(running as nat, pending as nat, status@), true),
{
    let r = dec_string(running as u64);
    let p = dec_string(pending as u64);
    let vars = [("running", r.as_str()), ("pending", p.as_str()), ("status", status)];
    let out = render_markup(fmt, &vars, true);
    assert(vars_view(&vars) =~= shigoto_vars(running as nat, pending as nat, status@));
    out
}

/// Jobs in `phase`: `"phase":"<phase>"` plus `"phase": "<phase>"`
/// occurrences.
pub open spec fn phase_count(s: Seq<char>, phase: Seq<char>) -> nat {
    count_matches(s, "\"phase\":\""@ + phase + "\""@) + count_matches(
        s,
        "\"phase\": \""@ + phase + "\""@,
    )
}

/// `n` truncated to 32 bits (`as u32`).
pub open spec fn trunc32(n: nat) -> nat {
    n % 0x1_0000_0000
}

/// `(running, pending)` of a snapshot body: the `"running"` field or
/// else the `Running` jobs; the `"pending"` field or else the `Queued`
/// plus `Ready` jobs (each job count truncated to 32 bits).
pub open spec fn snapshot_spec(s: Seq<char>) -> (nat, nat) {
    let running = match field_u32(s, "running"@) {
        Some(n) => n,
        None => trunc32(phase_count(s, "Running"@)),
    };
    let pending = match field_u32(s, "pending"@) {
        Some(n) => n,
        None => trunc32(phase_count(s, "Queued"@)) + trunc32(phase_count(s, "Ready"@)),
    };
    (running, pending)
}

/// The pending jobs fit a `u32` when they are counted.
pub open spec fn pending_fits(s: Seq<char>) -> bool {
    field_u32(s, "pending"@) is None ==> trunc32(phase_count(s, "Queued"@)) + trunc32(
        phase_count(s, "Ready"@),
    ) <= u32::MAX
}

fn needle(prefix: &str, phase: &str) -> (v: Vec<char>)
    ensures
        v@ == prefix@ + phase@ + "\""@,
{
    let mut v = chars_of(prefix);
    let mut p = chars_of(phase);
    let mut q = chars_of("\"");
    v.append(&mut p);
    v.append(&mut q);
    v
}

fn count_phase(v: &Vec<char>, phase: &str) -> (n: usize)
    ensures
        n == phase_count(v@, phase@),
        n * 10 <= 2 * v@.len(),
{
    let a = needle("\"phase\":\"", phase);
    let b = needle("\"phase\": \"", phase);
    proof {
        reveal_strlit("\"phase\":\"");
        reveal_strlit("\"phase\": \"");
        reveal_strlit("\"");
        lemma_count_from_bound(v@, a@, 0);
        lemma_count_from_bound(v@, b@, 0);
    }
    let x = count_vec(v, &a);
    let y = count_vec(v, &b);
    proof {
        assert(v@.len() == v.len());
        let la = a@.len();
        let lb = b@.len();
        assert(la >= 10);
        assert(lb >= 11);
        assert(x * 10 <= v@.len()) by (nonlinear_arith)
            requires
                x * la <= v@.len(),
                la >= 10,
        ;
        assert(y * 10 <= v@.len()) by (nonlinear_arith)
            requires
                y * lb <= v@.len(),
                lb >= 11,
        ;
    }
    x + y
}

/// Parse the snapshot body for `(running, pending)`; always `Some`.
pub fn parse_snapshot_counts(body: &str) -> (r: Option<(u32, u32)>)
    requires
        pending_fits(body@),
    ensures
        r matches Some(p) && (p.0 as nat, p.1 as nat) == snapshot_spec(body@),
{
    let v = chars_of(body);
    let running: u32 = match extract_u32_field(&v, "running") {
        Some(n) => n,
        None => ((count_phase(&v, "Running") as u64) % 0x1_0000_0000u64) as u32,
    };
    let pending: u32 = match extract_u32_field(&v, "pending") {
        Some(n) => n,
        None => {
            let q = ((count_phase(&v, "Queued") as u64) % 0x1_0000_0000u64) as u32;
            let r = ((count_phase(&v, "Ready") as u64) % 0x1_0000_0000u64) as u32;
            q + r
        },
    };
    Some((running, pending))
}

/// The body of an HTTP response: everything after the first blank line.
pub open spec fn body_spec(s: Seq<char>) -> Option<Seq<char>> {
    match find(s, "\r\n\r\n"@) {
        Some(i) => Some(s.skip(i + 4)),
        None => None,
    }
}

pub fn split_response_body(response: &str) -> (r: Option<&str>)
    ensures
        r matches Some(b) ==> body_spec(response@) == Some(b@),
        r is None ==> body_spec(response@) is None,
{
    let v = chars_of(response);
    let sep = chars_of("\r\n\r\n");
    proof {
        reveal_strlit("\r\n\r\n");
        crate::text::lemma_find_from(v@, sep@, 0);
    }
    match find_vec(&v, &sep, 0) {
        Some(i) => {
            assert(sep@.len() == 4);
            assert(i + 4 <= v@.len());
            assert(v@.len() == v.len());
            let b = response.substring_char(i + 4, v.len());
            assert(b@ =~= v@.skip(i + 4));
            Some(b)
        },
        None => None,
    }
}

/// `http://host[:port]/path` split into `(host, port, path)`: the port
/// defaults to 80, the path to `/`; anything but `http://` is refused,
/// as is a port that is not a `u16`.
pub open spec fn url_spec(u: Seq<char>) -> Option<(Seq<char>, nat, Seq<char>)> {
    if !has_prefix(u, "http://"@) {
        None
    } else {
        let rest = u.skip(7);
        let (auth, path) = match find(rest, seq!['/']) {
            Some(i) => (rest.take(i), rest.skip(i)),
            None => (rest, "/"@),
        };
        match rfind_char(auth, ':') {
            Some(i) => match parse_uint(auth.skip(i + 1), u16::MAX as nat) {
                Some(p) => Some((auth.take(i), p, path)),
                None => None,
            },
            None => Some((auth, 80, path)),
        }
    }
}

pub fn parse_url(url: &str) -> (r: Option<(String, u16, String)>)
    ensures
        r matches Some(t) ==> url_spec(url@) == Some((t.0@, t.1 as nat, t.2@)),
        r is None ==> url_spec(url@) is None,
{
    let v = chars_of(url);
    proof {
        reveal_strlit("http://");
    }
    if !starts_with_vec(&v, "http://") {
        return None;
    }
    let rest = sub_vec(&v, 7, v.len());
    assert(rest@ =~= url@.skip(7));
    let (auth, path) = match find_char_vec(&rest, '/') {
        Some(i) => {
            proof {
                crate::text::lemma_find_from(rest@, seq!['/'], 0);
            }
            let a = sub_vec(&rest, 0, i);
            let p = string_of_range(&rest, i, rest.len());
            assert(a@ =~= rest@.take(i as int));
            assert(p@ =~= rest@.skip(i as int));
            (a, p)
        },
        None => {
            let mut p = String::new();
            p.append("/");
            (sub_vec(&rest, 0, rest.len()), p)
        },
    };
    assert(rest@.subrange(0, rest@.len() as int) =~= rest@);
    match rfind_char_vec(&auth, ':') {
        Some(i) => {
            proof {
                lemma_rfind_char(auth@, ':');
            }
            match parse_uint_range(&auth, i + 1, auth.len(), 65535) {
                Some(p) => {
                    let host = string_of_range(&auth, 0, i);
                    assert(auth@.subrange(i + 1, auth@.len() as int) =~= auth@.skip(i + 1));
                    assert(host@ =~= auth@.take(i as int));
                    Some((host, p as u16, path))
                },
                None => {
                    assert(auth@.subrange(i + 1, auth@.len() as int) =~= auth@.skip(i + 1));
                    None
                },
            }
        },
        None => Some((string_of(&auth), 80, path)),
    }
}

/// `base` without trailing `/`, joined to `path` by exactly the one
/// `/` that `path` may already start with.
pub open spec fn probe_url_spec(base: Seq<char>, path: Seq<char>) -> Seq<char> {
    let b = trim_end_char(base, '/');
    if has_prefix(path, "/"@) {
        b + path
    } else {
        b + "/"@ + path
    }
}

pub fn build_probe_url(base: &str, path: &str) -> (out: String)
    ensures
        out@ == probe_url_spec(base@, path@),
{
    let bv = chars_of(base);
    let pv = chars_of(path);
    let k = trim_end_char_len(&bv, '/');
    let mut s = string_of_range(&bv, 0, k);
    assert(bv@.subrange(0, k as int) =~= bv@.take(k as int));
    if starts_with_vec(&pv, "/") {
        s.append(path);
    } else {
        s.append("/");
        s.append(path);
    }
    s
}

/// The daemon address: none for an empty setting; for `$env` the
/// `SHIGOTO_ADDR` lookup, defaulting to `http://127.0.0.1:38830`;
/// otherwise the setting itself.
pub fn resolve_addr<F>(addr: &str, lookup: F) -> (r: Option<String>)
    where
        F: Fn(&str) -> Option<String>,
    requires
        forall|k: &str| lookup.requires((k,)),
    ensures
        addr@.len() == 0 ==> r is None,
        addr@.len() != 0 && addr@ != "$env"@ ==> (r matches Some(a) && a@ == addr@),
        addr@ == "$env"@ ==> exists|v: Option<String>|
            {
                &&& lookup.ensures(("SHIGOTO_ADDR",), v)
                &&& r matches Some(a)
                &&& a@ == match v {
                    Some(x) => x@,
                    None => "http://127.0.0.1:38830"@,
                }
            },
{
    proof {
        reveal_strlit("$env");
    }
    if addr.unicode_len() == 0 {
        return None;
    }
    let av = chars_of(addr);
    let env = chars_of("$env");
    if crate::text::vec_eq(&av, &env) {
        let v = lookup("SHIGOTO_ADDR");
        let a = match v {
            Some(x) => x,
            None => {
                let mut d = String::new();
                d.append("http://127.0.0.1:38830");
                d
            },
        };
        return Some(a);
    }
    let mut a = String::new();
    a.append(addr);
    Some(a)
}

// ── one render ──────────────────────────────────────────────────────

/// One render of the segment: a fresh cached snapshot is shown as
/// current; otherwise nothing is shown (and the cache kept) unless the
/// daemon address resolved (`addr_ok`); otherwise the probe's answer
/// `probe` is cached and shown, or, failing it, the cached snapshot is
/// shown as stale.
pub open spec fn shigoto_step_spec(
    cached: Option<Cached<(u32, u32)>>,
    now: u64,
    ttl: u64,
    addr_ok: bool,
    probe: Option<(u32, u32)>,
) -> (Option<Cached<(u32, u32)>>, Option<((u32, u32), bool)>) {
    probe_step_spec(cached, now, ttl, addr_ok, probe)
}

/// The next cache and the snapshot to show, for one render; `probe` is
/// the probe's answer, read only when the render probes.
pub fn shigoto_step(
    cached: Option<Cached<(u32, u32)>>,
    now: u64,
    ttl: u64,
    addr_ok: bool,
    probe: Option<(u32, u32)>,
) -> (r: (Option<Cached<(u32, u32)>>, Option<((u32, u32), bool)>))
    ensures
        r == shigoto_step_spec(cached, now, ttl, addr_ok, probe),
{
    probe_step(cached, now, ttl, addr_ok, probe)
}

/// The segment text for what a render shows.
pub open spec fn shigoto_text_spec(fmt: Seq<char>, shown: Option<((u32, u32), bool)>) -> Option<
    Seq<char>,
> {
    match shown {
        Some(((r, p), stale)) => Some(
            render_spec(
                fmt,
                shigoto_vars(r as nat, p as nat, status_spec(r as nat, p as nat, stale)),
                true,
            ),
        ),
        None => None,
    }
}

pub fn shigoto_text(fmt: &str, shown: Option<((u32, u32), bool)>) -> (r: Option<String>)
    ensures
        opt_string_view(r) == shigoto_text_spec(fmt@, shown),
{
    match shown {
        Some(((r, p), stale)) => {
            let status = format_status(r, p, stale);
            Some(render_format(fmt, r, p, status.as_str()))
        },
        None => None,
    }
}

} // verus!
