//! `cmd_duration` segment — how long the last command took, as
//! `1h2m5s`, `2m5s`, `5s`, or with milliseconds `2345ms`.

use vstd::prelude::*;
use crate::text::{append_dec, dec, push_char};

verus! {

/// `n` in decimal, left-padded with zeros to at least three digits.
pub open spec fn pad3(n: nat) -> Seq<char> {
    let d = dec(n);
    if d.len() >= 3 {
        d
    } else {
        Seq::new((3 - d.len()) as nat, |i: int| '0') + d
    }
}

/// The duration `ms` as text: hours (when any) then minutes (when any
/// or when there are hours) each with its unit, then the seconds,
/// followed by `s`, or, when `show_ms` and the milliseconds are not
/// zero, by the three-digit milliseconds and `ms`.
pub open spec fn duration_spec(ms: nat, show_ms: bool) -> Seq<char> {
    let secs = ms / 1000;
    let rem_ms = ms % 1000;
    let mins = secs / 60;
    let rem_secs = secs % 60;
    let hours = mins / 60;
    let rem_mins = mins % 60;
    (if hours > 0 {
        dec(hours) + seq!['h']
    } else {
        Seq::empty()
    }) + (if rem_mins > 0 || hours > 0 {
        dec(rem_mins) + seq!['m']
    } else {
        Seq::empty()
    }) + dec(rem_secs) + (if show_ms && rem_ms > 0 {
        pad3(rem_ms) + seq!['m', 's']
    } else {
        seq!['s']
    })
}

/// Appends `n` padded to three digits.
fn append_3digit(s: &mut String, n: u64)
    ensures
        final(s)@ == old(s)@ + pad3(n as nat),
{
    let d = crate::text::dec_string(n);
    let len = d.unicode_len();
    let ghost before = s@;
    if len < 3 {
        let mut k: usize = 0;
        while k < 3 - len
            invariant
                len < 3,
                k <= 3 - len,
                s@ == before + Seq::new(k as nat, |i: int| '0'),
            decreases 3 - len - k,
        {
            push_char(s, '0');
            k = k + 1;
            assert(s@ =~= before + Seq::new(k as nat, |i: int| '0'));
        }
    }
    s.append(d.as_str());
    assert(s@ =~= before + pad3(n as nat));
}

pub fn format_duration(ms: u64, show_ms: bool) -> (out: String)
    ensures
        out@ == duration_spec(ms as nat, show_ms),
{
    let secs = ms / 1000;
    let rem_ms = ms % 1000;
    let mins = secs / 60;
    let rem_secs = secs % 60;
    let hours = mins / 60;
    let rem_mins = mins % 60;
    let mut s = String::new();
    let ghost a: Seq<char> = if hours > 0 {
        dec(hours as nat) + seq!['h']
    } else {
        Seq::empty()
    };
    let ghost b: Seq<char> = if rem_mins > 0 || hours > 0 {
        dec(rem_mins as nat) + seq!['m']
    } else {
        Seq::empty()
    };
    if hours > 0 {
        append_dec(&mut s, hours);
        push_char(&mut s, 'h');
    }
    assert(s@ =~= a);
    if rem_mins > 0 || hours > 0 {
        append_dec(&mut s, rem_mins);
        push_char(&mut s, 'm');
    }
    assert(s@ =~= a + b);
    append_dec(&mut s, rem_secs);
    if show_ms && rem_ms > 0 {
        append_3digit(&mut s, rem_ms);
        push_char(&mut s, 'm');
        push_char(&mut s, 's');
        assert(s@ =~= a + b + dec(rem_secs as nat) + (pad3(rem_ms as nat) + seq!['m', 's']));
    } else {
        push_char(&mut s, 's');
        assert(s@ =~= a + b + dec(rem_secs as nat) + seq!['s']);
    }
    s
}

/// The unit layout of a duration: hours with `h` when there are any,
/// minutes with `m` when there are any or there are hours, the seconds,
/// then `tail`.
pub open spec fn hms_text(h: nat, m: nat, sec: nat, tail: Seq<char>) -> Seq<char> {
    (if h > 0 {
        dec(h) + seq!['h']
    } else {
        Seq::empty()
    }) + (if m > 0 || h > 0 {
        dec(m) + seq!['m']
    } else {
        Seq::empty()
    }) + dec(sec) + tail
}

/// What follows the seconds: the three-digit milliseconds and `ms` when
/// they are asked for and not zero, else `s`.
pub open spec fn duration_tail(show_ms: bool, r: nat) -> Seq<char> {
    if show_ms && r > 0 {
        pad3(r) + seq!['m', 's']
    } else {
        seq!['s']
    }
}

/// The rendered hours, minutes, seconds and milliseconds recompose to the
/// duration: the text shows some `h`, `m < 60`, `s < 60` and `r < 1000`
/// with `ms == (3600 h + 60 m + s) * 1000 + r`, ending in the three-digit
/// milliseconds and `ms` when they are asked for and not zero, else `s`.
pub proof fn law_duration_recomposes(ms: nat, show_ms: bool)
    ensures
        exists|h: nat, m: nat, sec: nat, r: nat|
            m < 60 && sec < 60 && r < 1000 && ms == (3600 * h + 60 * m + sec) * 1000 + r
                && duration_spec(ms, show_ms) == #[trigger] hms_text(
                h,
                m,
                sec,
                duration_tail(show_ms, r),
            ),
{
    let secs = ms / 1000;
    let r = ms % 1000;
    let mins = secs / 60;
    let sec = secs % 60;
    let h = mins / 60;
    let m = mins % 60;
    assert(ms == secs * 1000 + r);
    assert(secs == mins * 60 + sec);
    assert(mins == h * 60 + m);
    assert(ms == (3600 * h + 60 * m + sec) * 1000 + r) by (nonlinear_arith)
        requires
            ms == secs * 1000 + r,
            secs == mins * 60 + sec,
            mins == h * 60 + m,
    ;
    assert(duration_spec(ms, show_ms) == hms_text(h, m, sec, duration_tail(show_ms, r)));
}

} // verus!
