//! `mado_session` segment — live mado session count and frame rate,
//! read from the mado MCP socket and rendered as
//! `mado: N sess, F fps`.

use vstd::prelude::*;
use crate::fields::{extract_u32_field, field_u32};
use crate::markup::{render_markup, render_spec, vars_view};
use crate::paths::{join, join_spec, opt_view};
use crate::probe_cache::{probe_step, probe_step_spec, Cached};
use crate::text::{
    append_dec, append_stale, chars_of, count_matches, count_vec, dec, dec_string, stale_suffix,
};

verus! {

/// `mado: N sess, F fps`, plus ` (stale)` for a stale snapshot.
pub open spec fn status_spec(sessions: nat, fps: nat, stale: bool) -> Seq<char> {
    "mado: "@ + dec(sessions) + " sess, "@ + dec(fps) + " fps"@ + stale_suffix(stale)
}

pub fn format_status(sessions: u32, fps: u32, stale: bool) -> (out: String)
    ensures
        out@ == status_spec(sessions as nat, fps as nat, stale),
{
    let mut s = String::new();
    s.append("mado: ");
    append_dec(&mut s, sessions as u64);
    s.append(" sess, ");
    append_dec(&mut s, fps as u64);
    s.append(" fps");
    append_stale(&mut s, stale);
    s
}

/// The bindings a `mado_session` format sees: `$sessions`, `$fps`,
/// `$status`.
pub open spec fn mado_vars(sessions: nat, fps: nat, status: Seq<char>) -> Seq<
    (Seq<char>, Seq<char>),
> {
    seq![("sessions"@, dec(sessions)), ("fps"@, dec(fps)), ("status"@, status)]
}

pub fn render_format(fmt: &str, sessions: u32, fps: u32, status: &str) -> (out: String)
    ensures
        out@ == render_spec(fmt@, mado_vars(sessions as nat, fps as nat, status@), true),
{
    let s = dec_string(sessions as u64);
    let f = dec_string(fps as u64);
    let vars = [("sessions", s.as_str()), ("fps", f.as_str()), ("status", status)];
    let out = render_markup(fmt, &vars, true);
    assert(vars_view(&vars) =~= mado_vars(sessions as nat, fps as nat, status@));
    out
}

/// `(sessions, fps)` of a mado MCP response: the `"sessions"` field, or
/// else the number of `"id":` occurrences (cut to 32 bits, as the
/// `as u32` conversion does); the `"fps"` field, or else 0.
pub open spec fn response_spec(s: Seq<char>) -> (nat, nat) {
    let sessions = match field_u32(s, "sessions"@) {
        Some(n) => n,
        None => count_matches(s, "\"id\":"@) % 0x1_0000_0000,
    };
    let fps = match field_u32(s, "fps"@) {
        Some(n) => n,
        None => 0,
    };
    (sessions, fps)
}

/// Parse the mado MCP response for `(sessions, fps)`; always `Some`.
pub fn parse_mado_response(body: &str) -> (r: Option<(u32, u32)>)
    ensures
        r matches Some(p) && (p.0 as nat, p.1 as nat) == response_spec(body@),
{
    let v = chars_of(body);
    let sessions: u32 = match extract_u32_field(&v, "sessions") {
        Some(n) => n,
        None => {
            let p = chars_of("\"id\":");
            proof {
                reveal_strlit("\"id\":");
            }
            let c = count_vec(&v, &p);
            ((c as u64) % 0x1_0000_0000u64) as u32
        },
    };
    let fps: u32 = match extract_u32_field(&v, "fps") {
        Some(n) => n,
        None => 0,
    };
    Some((sessions, fps))
}

// ── socket path ───────────────────────────────────────────────────

/// The fleet-state variables this crate reads, as named by the fleet's
/// cross-tool contract (`ishou_tokens::FleetStateVar`).
#[derive(Debug, Clone, Copy, PartialEq, Eq, Structural)]
pub enum FleetVar {
    MadoSocket,
    TearSessionName,
    TearPaneId,
}

/// The environment variable name of each fleet-state variable.
pub open spec fn fleet_var_spec(v: FleetVar) -> Seq<char> {
    match v {
        FleetVar::MadoSocket => "MADO_SOCKET"@,
        FleetVar::TearSessionName => "TEAR_SESSION_NAME"@,
        FleetVar::TearPaneId => "TEAR_PANE_ID"@,
    }
}

/// `ishou_tokens::FleetStateVar::name`: the contract states the names
/// its source gives these three variables.
#[verifier::external_body]
pub(crate) fn fleet_var_name(v: FleetVar) -> (s: &'static str)
    ensures
        s@ == fleet_var_spec(v),
{
    let x = match v {
        FleetVar::MadoSocket => ishou_tokens::FleetStateVar::MadoSocket,
        FleetVar::TearSessionName => ishou_tokens::FleetStateVar::TearSessionName,
        FleetVar::TearPaneId => ishou_tokens::FleetStateVar::TearPaneId,
    };
    x.name()
}

/// The characters of an optional `String`.
pub open spec fn opt_string_view(s: Option<String>) -> Option<Seq<char>> {
    match s {
        Some(x) => Some(x@),
        None => None,
    }
}

/// The socket for a `$env` setting, given what the `MADO_SOCKET` lookup
/// answered: its value, else `<home>/.local/share/mado/mado.sock`, else
/// nothing.
pub open spec fn env_socket_spec(found: Option<String>, home: Option<Seq<char>>) -> Option<
    Seq<char>,
> {
    match found {
        Some(p) => Some(p@),
        None => match home {
            Some(h) => Some(join_spec(h, ".local/share/mado/mado.sock"@)),
            None => None,
        },
    }
}

/// Resolves the mado socket: none for an empty setting; for `$env` the
/// `MADO_SOCKET` variable, defaulting to the socket under `home`;
/// otherwise the setting itself.
pub fn resolve_socket_path<F>(socket_path: &str, lookup: F, home: Option<&str>) -> (r: Option<
    String,
>)
    where
        F: Fn(&str) -> Option<String>,
    requires
        forall|k: &str| lookup.requires((k,)),
    ensures
        socket_path@.len() == 0 ==> r is None,
        socket_path@.len() != 0 && socket_path@ != "$env"@ ==> opt_string_view(r) == Some(
            socket_path@,
        ),
        socket_path@ == "$env"@ ==> exists|k: &str, v: Option<String>|
            {
                &&& k@ == fleet_var_spec(FleetVar::MadoSocket)
                &&& #[trigger] lookup.ensures((k,), v)
                &&& opt_string_view(r) == env_socket_spec(v, opt_view(home))
            },
{
    proof {
        reveal_strlit("$env");
    }
    if socket_path.unicode_len() == 0 {
        return None;
    }
    let sv = chars_of(socket_path);
    let env = chars_of("$env");
    if crate::text::vec_eq(&sv, &env) {
        let name = fleet_var_name(FleetVar::MadoSocket);
        let v = lookup(name);
        let ghost got = v;
        let r = match v {
            Some(p) => Some(p),
            None => match home {
                Some(h) => Some(join(h, ".local/share/mado/mado.sock")),
                None => None,
            },
        };
        assert(opt_string_view(r) == env_socket_spec(got, opt_view(home)));
        assert(lookup.ensures((name,), got));
        return r;
    }
    let mut a = String::new();
    a.append(socket_path);
    Some(a)
}

// ── one render ──────────────────────────────────────────────────────

/// One render of the segment: a fresh cached snapshot is shown as
/// current; otherwise nothing is shown (and the cache kept) unless the
/// socket resolved and exists (`socket_ok`); otherwise the probe's answer
/// `probe` is cached and shown, or, failing it, the cached snapshot is
/// shown as stale.
pub open spec fn mado_step_spec(
    cached: Option<Cached<(u32, u32)>>,
    now: u64,
    ttl: u64,
    socket_ok: bool,
    probe: Option<(u32, u32)>,
) -> (Option<Cached<(u32, u32)>>, Option<((u32, u32), bool)>) {
    probe_step_spec(cached, now, ttl, socket_ok, probe)
}

/// The next cache and the snapshot to show, for one render; `probe` is
/// the probe's answer, read only when the render probes (see
/// [`needs_probe`]).
pub fn mado_step(
    cached: Option<Cached<(u32, u32)>>,
    now: u64,
    ttl: u64,
    socket_ok: bool,
    probe: Option<(u32, u32)>,
) -> (r: (Option<Cached<(u32, u32)>>, Option<((u32, u32), bool)>))
    ensures
        r == mado_step_spec(cached, now, ttl, socket_ok, probe),
{
    probe_step(cached, now, ttl, socket_ok, probe)
}

/// The segment text for what a render shows: the format with the
/// snapshot's status label.
pub open spec fn mado_text_spec(fmt: Seq<char>, shown: Option<((u32, u32), bool)>) -> Option<
    Seq<char>,
> {
    match shown {
        Some(((s, f), stale)) => Some(
            render_spec(fmt, mado_vars(s as nat, f as nat, status_spec(s as nat, f as nat, stale)), true),
        ),
        None => None,
    }
}

pub fn mado_text(fmt: &str, shown: Option<((u32, u32), bool)>) -> (r: Option<String>)
    ensures
        opt_string_view(r) == mado_text_spec(fmt@, shown),
{
    match shown {
        Some(((s, f), stale)) => {
            let status = format_status(s, f, stale);
            Some(render_format(fmt, s, f, status.as_str()))
        },
        None => None,
    }
}

} // verus!
