//! Terminal and fleet capabilities sniffed from the environment: mado,
//! truecolor, nix shell, SSH, the pane width, and whether the terminal
//! can only take a plain prompt.

use vstd::prelude::*;
use crate::text::{chars_of, parse_uint, parse_uint_range, range_eq};

verus! {

broadcast use vstd::string::group_string_axioms;

/// Terminal + fleet capabilities sniffed from the environment.
#[derive(Debug, Clone, Copy, PartialEq, Eq)]
pub struct Detected {
    /// 24-bit colour is safe (mado, or `COLORTERM=truecolor|24bit`).
    pub truecolor: bool,
    /// Inside a mado session.
    pub mado: bool,
    /// Inside a nix shell (`IN_NIX_SHELL`).
    pub nix_shell: bool,
    /// Connected over SSH.
    pub ssh: bool,
    /// Terminal width in columns, when the shell exported it.
    pub columns: Option<u16>,
    /// A dumb / CI / `NO_COLOR` terminal.
    pub minimal: bool,
}

impl Default for Detected {
    fn default() -> (d: Detected)
        ensures
            !d.truecolor && !d.mado && !d.nix_shell && !d.ssh && d.columns is None && !d.minimal,
    {
        Detected {
            truecolor: false,
            mado: false,
            nix_shell: false,
            ssh: false,
            columns: None,
            minimal: false,
        }
    }
}

/// A variable's value when it is set and not empty.
pub open spec fn nonempty(v: Option<String>) -> Option<Seq<char>> {
    match v {
        Some(x) => if x@.len() > 0 {
            Some(x@)
        } else {
            None
        },
        None => None,
    }
}

pub open spec fn or_empty(v: Option<Seq<char>>) -> Seq<char> {
    match v {
        Some(x) => x,
        None => Seq::empty(),
    }
}

/// What the (non-empty) values of the sniffed variables say: mado when
/// `MADO_SOCKET` or `MADO_SESSION` is set; truecolor under mado or with
/// `COLORTERM` `truecolor` / `24bit`; minimal with `NO_COLOR`, or when
/// neither mado nor truecolor and `TERM` is `dumb` or `CI` is set; the
/// width when `COLUMNS` parses as a `u16`.
pub open spec fn detect_spec(
    mado_socket: Option<Seq<char>>,
    mado_session: Option<Seq<char>>,
    colorterm: Option<Seq<char>>,
    term: Option<Seq<char>>,
    no_color: Option<Seq<char>>,
    ci: Option<Seq<char>>,
    in_nix_shell: Option<Seq<char>>,
    ssh_connection: Option<Seq<char>>,
    ssh_tty: Option<Seq<char>>,
    columns: Option<Seq<char>>,
) -> Detected {
    let mado = mado_socket is Some || mado_session is Some;
    let ct = or_empty(colorterm);
    let truecolor = mado || ct == "truecolor"@ || ct == "24bit"@;
    let tm = or_empty(term);
    Detected {
        truecolor,
        mado,
        nix_shell: in_nix_shell is Some,
        ssh: ssh_connection is Some || ssh_tty is Some,
        columns: match columns {
            Some(c) => match parse_uint(c, 0xffff) {
                Some(n) => Some(n as u16),
                None => None,
            },
            None => None,
        },
        minimal: no_color is Some || (!mado && !truecolor && (tm == "dumb"@ || ci is Some)),
    }
}

/// The value of a set, non-empty variable.
fn present(v: Option<String>) -> (r: Option<String>)
    ensures
        match r {
            Some(x) => nonempty(v) == Some(x@),
            None => nonempty(v) is None,
        },
{
    match v {
        Some(x) => if x.unicode_len() > 0 {
            Some(x)
        } else {
            None
        },
        None => None,
    }
}

fn opt_is(v: &Option<String>, lit: &str) -> (b: bool)
    ensures
        b == (or_empty(
            match v {
                Some(x) => Some(x@),
                None => None,
            },
        ) == lit@),
{
    match v {
        Some(x) => {
            let c = chars_of(x.as_str());
            let r = range_eq(&c, 0, c.len(), lit);
            assert(c@.subrange(0, c@.len() as int) =~= c@);
            r
        },
        None => {
            let c = chars_of(lit);
            if c.len() == 0 {
                assert(lit@ =~= Seq::<char>::empty());
                true
            } else {
                false
            }
        },
    }
}

/// Sniffs [`Detected`] from an environment lookup; every variable is
/// asked for once, and an empty value counts as unset.
pub fn detect<F>(env: F) -> (d: Detected)
    where
        F: Fn(&str) -> Option<String>,
    requires
        forall|k: &str| env.requires((k,)),
    ensures
        exists|
            a: Option<String>,
            b: Option<String>,
            c: Option<String>,
            t: Option<String>,
            n: Option<String>,
            i: Option<String>,
            x: Option<String>,
            s1: Option<String>,
            s2: Option<String>,
            w: Option<String>,
        |
            {
                &&& env.ensures(("MADO_SOCKET",), a)
                &&& env.ensures(("MADO_SESSION",), b)
                &&& env.ensures(("COLORTERM",), c)
                &&& env.ensures(("TERM",), t)
                &&& env.ensures(("NO_COLOR",), n)
                &&& env.ensures(("CI",), i)
                &&& env.ensures(("IN_NIX_SHELL",), x)
                &&& env.ensures(("SSH_CONNECTION",), s1)
                &&& env.ensures(("SSH_TTY",), s2)
                &&& env.ensures(("COLUMNS",), w)
                &&& d == #[trigger] detect_spec(
                    nonempty(a),
                    nonempty(b),
                    nonempty(c),
                    nonempty(t),
                    nonempty(n),
                    nonempty(i),
                    nonempty(x),
                    nonempty(s1),
                    nonempty(s2),
                    nonempty(w),
                )
            },
{
    let a = env("MADO_SOCKET");
    let b = env("MADO_SESSION");
    let c = env("COLORTERM");
    let t = env("TERM");
    let n = env("NO_COLOR");
    let i = env("CI");
    let x = env("IN_NIX_SHELL");
    let s1 = env("SSH_CONNECTION");
    let s2 = env("SSH_TTY");
    let w = env("COLUMNS");
    let ghost (ga, gb, gc, gt, gn, gi, gx, gs1, gs2, gw) = (a, b, c, t, n, i, x, s1, s2, w);
    let d = classify(
        present(a),
        present(b),
        present(c),
        present(t),
        present(n),
        present(i),
        present(x),
        present(s1),
        present(s2),
        present(w),
    );
    assert(d == detect_spec(
        nonempty(ga),
        nonempty(gb),
        nonempty(gc),
        nonempty(gt),
        nonempty(gn),
        nonempty(gi),
        nonempty(gx),
        nonempty(gs1),
        nonempty(gs2),
        nonempty(gw),
    ));
    d
}

/// The views of an optional `String`.
pub open spec fn ov(v: Option<String>) -> Option<Seq<char>> {
    match v {
        Some(x) => Some(x@),
        None => None,
    }
}

/// [`Detected`] from the values of the sniffed variables (each `None`
/// when unset or empty).
pub fn classify(
    mado_socket: Option<String>,
    mado_session: Option<String>,
    colorterm: Option<String>,
    term: Option<String>,
    no_color: Option<String>,
    ci: Option<String>,
    in_nix_shell: Option<String>,
    ssh_connection: Option<String>,
    ssh_tty: Option<String>,
    columns: Option<String>,
) -> (d: Detected)
    ensures
        d == detect_spec(
            ov(mado_socket),
            ov(mado_session),
            ov(colorterm),
            ov(term),
            ov(no_color),
            ov(ci),
            ov(in_nix_shell),
            ov(ssh_connection),
            ov(ssh_tty),
            ov(columns),
        ),
{
    let mado = mado_socket.is_some() || mado_session.is_some();
    let truecolor = mado || opt_is(&colorterm, "truecolor") || opt_is(&colorterm, "24bit");
    let minimal = no_color.is_some() || (!mado && !truecolor && (opt_is(&term, "dumb")
        || ci.is_some()));
    let cols = match &columns {
        Some(cv) => {
            let v = chars_of(cv.as_str());
            match parse_uint_range(&v, 0, v.len(), 0xffff) {
                Some(k) => {
                    assert(v@.subrange(0, v@.len() as int) =~= v@);
                    Some(k as u16)
                },
                None => {
                    assert(v@.subrange(0, v@.len() as int) =~= v@);
                    None
                },
            }
        },
        None => None,
    };
    Detected {
        truecolor,
        mado,
        nix_shell: in_nix_shell.is_some(),
        ssh: ssh_connection.is_some() || ssh_tty.is_some(),
        columns: cols,
        minimal,
    }
}

/// `NO_COLOR` is an explicit opt-out: the prompt is then always plain.
pub proof fn law_no_color_is_minimal(
    mado_socket: Option<Seq<char>>,
    mado_session: Option<Seq<char>>,
    colorterm: Option<Seq<char>>,
    term: Option<Seq<char>>,
    no_color: Option<Seq<char>>,
    ci: Option<Seq<char>>,
    in_nix_shell: Option<Seq<char>>,
    ssh_connection: Option<Seq<char>>,
    ssh_tty: Option<Seq<char>>,
    columns: Option<Seq<char>>,
)
    requires
        no_color is Some,
    ensures
        detect_spec(
            mado_socket,
            mado_session,
            colorterm,
            term,
            no_color,
            ci,
            in_nix_shell,
            ssh_connection,
            ssh_tty,
            columns,
        ).minimal,
{
}

/// Inside mado the terminal is truecolor, and — unless `NO_COLOR` opts
/// out — never minimal, whatever `TERM` or `CI` say.
pub proof fn law_mado_is_rich(
    mado_socket: Option<Seq<char>>,
    mado_session: Option<Seq<char>>,
    colorterm: Option<Seq<char>>,
    term: Option<Seq<char>>,
    no_color: Option<Seq<char>>,
    ci: Option<Seq<char>>,
    in_nix_shell: Option<Seq<char>>,
    ssh_connection: Option<Seq<char>>,
    ssh_tty: Option<Seq<char>>,
    columns: Option<Seq<char>>,
)
    requires
        mado_socket is Some || mado_session is Some,
    ensures
        ({
            let d = detect_spec(
                mado_socket,
                mado_session,
                colorterm,
                term,
                no_color,
                ci,
                in_nix_shell,
                ssh_connection,
                ssh_tty,
                columns,
            );
            d.mado && d.truecolor && (no_color is None ==> !d.minimal)
        }),
{
}

/// A terminal that proves it is truecolor is never minimal unless
/// `NO_COLOR` opts out.
pub proof fn law_truecolor_is_not_minimal(
    mado_socket: Option<Seq<char>>,
    mado_session: Option<Seq<char>>,
    colorterm: Option<Seq<char>>,
    term: Option<Seq<char>>,
    ci: Option<Seq<char>>,
    in_nix_shell: Option<Seq<char>>,
    ssh_connection: Option<Seq<char>>,
    ssh_tty: Option<Seq<char>>,
    columns: Option<Seq<char>>,
)
    requires
        colorterm == Some("truecolor"@) || colorterm == Some("24bit"@),
    ensures
        ({
            let d = detect_spec(
                mado_socket,
                mado_session,
                colorterm,
                term,
                None,
                ci,
                in_nix_shell,
                ssh_connection,
                ssh_tty,
                columns,
            );
            d.truecolor && !d.minimal
        }),
{
}

/// Directory truncation for a pane `cols` columns wide: 1 below 60, 2
/// below 100, 4 from 200, 3 otherwise.
pub fn truncation_for_columns(cols: u16) -> (n: u32)
    ensures
        n == (if cols < 60 {
            1u32
        } else if cols < 100 {
            2u32
        } else if cols >= 200 {
            4u32
        } else {
            3u32
        }),
{
    if cols < 60 {
        1
    } else if cols < 100 {
        2
    } else if cols >= 200 {
        4
    } else {
        3
    }
}

/// Whether an environment variable's raw value is set and not empty.
pub open spec fn is_set(v: Option<String>) -> bool {
    v matches Some(x) && x@.len() > 0
}

/// A nix shell is reported exactly when `IN_NIX_SHELL` is set to a
/// non-empty value, whatever that value is (`pure`, `impure`, ...) and
/// whatever the other variables hold; likewise SSH exactly when
/// `SSH_CONNECTION` or `SSH_TTY` is set.
pub proof fn law_nix_shell_and_ssh_follow_their_variables(
    mado_socket: Option<String>,
    mado_session: Option<String>,
    colorterm: Option<String>,
    term: Option<String>,
    no_color: Option<String>,
    ci: Option<String>,
    in_nix_shell: Option<String>,
    ssh_connection: Option<String>,
    ssh_tty: Option<String>,
    columns: Option<String>,
)
    ensures
        ({
            let d = detect_spec(
                nonempty(mado_socket),
                nonempty(mado_session),
                nonempty(colorterm),
                nonempty(term),
                nonempty(no_color),
                nonempty(ci),
                nonempty(in_nix_shell),
                nonempty(ssh_connection),
                nonempty(ssh_tty),
                nonempty(columns),
            );
            &&& d.nix_shell == is_set(in_nix_shell)
            &&& d.ssh == (is_set(ssh_connection) || is_set(ssh_tty))
        }),
{
}

} // verus!
