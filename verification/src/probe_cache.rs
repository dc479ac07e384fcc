//! The time-to-live cache a probing segment keeps of its last answer: a
//! cached answer younger than the TTL is shown without probing; a probe
//! that answers replaces the cache; a probe that fails falls back to the
//! cached answer, shown as stale, or to nothing.

use vstd::prelude::*;

verus! {

/// A probed value and the monotonic-clock time (in milliseconds) it was
/// captured at.
#[derive(Debug, Clone, Copy, PartialEq, Eq)]
pub struct Cached<T> {
    pub value: T,
    pub captured_at: u64,
}

/// Time elapsed from `captured_at` to `now`, zero when `now` is earlier
/// (as `Instant::duration_since` saturates).
pub open spec fn age_spec(captured_at: u64, now: u64) -> nat {
    if now >= captured_at {
        (now - captured_at) as nat
    } else {
        0
    }
}

/// A capture is fresh while its age is below the TTL.
pub open spec fn is_fresh_spec(captured_at: u64, now: u64, ttl: u64) -> bool {
    age_spec(captured_at, now) < ttl
}

pub fn is_fresh(captured_at: u64, now: u64, ttl: u64) -> (b: bool)
    ensures
        b == is_fresh_spec(captured_at, now, ttl),
{
    let age = if now >= captured_at {
        now - captured_at
    } else {
        0
    };
    age < ttl
}

/// The cached value when it is still fresh.
pub open spec fn fresh_spec<T>(cached: Option<Cached<T>>, now: u64, ttl: u64) -> Option<T> {
    match cached {
        Some(c) => if is_fresh_spec(c.captured_at, now, ttl) {
            Some(c.value)
        } else {
            None
        },
        None => None,
    }
}

/// The value to show without probing, if the cache is still fresh.
pub fn fresh_value<T: Copy>(cached: Option<Cached<T>>, now: u64, ttl: u64) -> (r: Option<T>)
    ensures
        r == fresh_spec(cached, now, ttl),
{
    match cached {
        Some(c) => if is_fresh(c.captured_at, now, ttl) {
            Some(c.value)
        } else {
            None
        },
        None => None,
    }
}

/// The next cache and what to show after a probe at `now`: an answer is
/// cached and shown as current; without one the cache is kept and its
/// value, if any, is shown as stale.
pub open spec fn after_probe_spec<T>(cached: Option<Cached<T>>, probe: Option<T>, now: u64) -> (
    Option<Cached<T>>,
    Option<(T, bool)>,
) {
    match probe {
        Some(v) => (Some(Cached { value: v, captured_at: now }), Some((v, false))),
        None => (
            cached,
            match cached {
                Some(c) => Some((c.value, true)),
                None => None,
            },
        ),
    }
}

pub fn after_probe<T: Copy>(cached: Option<Cached<T>>, probe: Option<T>, now: u64) -> (r: (
    Option<Cached<T>>,
    Option<(T, bool)>,
))
    ensures
        r == after_probe_spec(cached, probe, now),
{
    match probe {
        Some(v) => (Some(Cached { value: v, captured_at: now }), Some((v, false))),
        None => match cached {
            Some(c) => (cached, Some((c.value, true))),
            None => (None, None),
        },
    }
}

/// Whether a render has to probe: the cache is not fresh and there is
/// something to probe (`can_probe`: the probe's target resolved).
pub open spec fn needs_probe_spec<T>(
    cached: Option<Cached<T>>,
    now: u64,
    ttl: u64,
    can_probe: bool,
) -> bool {
    fresh_spec(cached, now, ttl) is None && can_probe
}

pub fn needs_probe<T: Copy>(cached: Option<Cached<T>>, now: u64, ttl: u64, can_probe: bool) -> (b:
    bool)
    ensures
        b == needs_probe_spec(cached, now, ttl, can_probe),
{
    fresh_value(cached, now, ttl).is_none() && can_probe
}

/// One render of a probing segment: the next cache and what to show
/// (the value and whether it is stale). A fresh cache is shown as
/// current and kept; otherwise, when there is nothing to probe, nothing
/// is shown and the cache is kept; otherwise the probe's answer `probe`
/// decides (see [`after_probe_spec`]). `probe` is read only when
/// [`needs_probe_spec`] holds.
pub open spec fn probe_step_spec<T>(
    cached: Option<Cached<T>>,
    now: u64,
    ttl: u64,
    can_probe: bool,
    probe: Option<T>,
) -> (Option<Cached<T>>, Option<(T, bool)>) {
    match fresh_spec(cached, now, ttl) {
        Some(v) => (cached, Some((v, false))),
        None => if can_probe {
            after_probe_spec(cached, probe, now)
        } else {
            (cached, None)
        },
    }
}

pub fn probe_step<T: Copy>(
    cached: Option<Cached<T>>,
    now: u64,
    ttl: u64,
    can_probe: bool,
    probe: Option<T>,
) -> (r: (Option<Cached<T>>, Option<(T, bool)>))
    ensures
        r == probe_step_spec(cached, now, ttl, can_probe, probe),
{
    match fresh_value(cached, now, ttl) {
        Some(v) => (cached, Some((v, false))),
        None => if can_probe {
            after_probe(cached, probe, now)
        } else {
            (cached, None)
        },
    }
}

/// A value is shown as stale only when the probe failed, and it is then
/// the cached value.
pub proof fn law_stale_only_after_failed_probe<T>(
    cached: Option<Cached<T>>,
    probe: Option<T>,
    now: u64,
    v: T,
)
    requires
        after_probe_spec(cached, probe, now).1 == Some((v, true)),
    ensures
        probe is None,
        cached matches Some(c) && c.value == v,
{
}

/// A probe that answers is what is shown, as current, and what the cache
/// then holds, captured now and so fresh for any positive TTL.
pub proof fn law_answer_is_shown_and_cached<T>(cached: Option<Cached<T>>, v: T, now: u64, ttl: u64)
    requires
        ttl > 0,
    ensures
        after_probe_spec(cached, Some(v), now) == (
            Some(Cached { value: v, captured_at: now }),
            Some((v, false)),
        ),
        fresh_spec(after_probe_spec(cached, Some(v), now).0, now, ttl) == Some(v),
{
}

/// A segment whose target did not resolve shows a fresh cached value and
/// nothing else, even when a stale one is cached, and keeps its cache.
pub proof fn law_unresolved_target_shows_only_fresh<T>(
    cached: Option<Cached<T>>,
    now: u64,
    ttl: u64,
    probe: Option<T>,
)
    ensures
        probe_step_spec(cached, now, ttl, false, probe) == (
            cached,
            match fresh_spec(cached, now, ttl) {
                Some(v) => Some((v, false)),
                None => None,
            },
        ),
{
}

/// A segment is absent on failure: with nothing cached, a render whose
/// target did not resolve or whose probe failed shows nothing and caches
/// nothing.
pub proof fn law_absent_on_failure<T>(now: u64, ttl: u64, can_probe: bool)
    ensures
        probe_step_spec(None::<Cached<T>>, now, ttl, can_probe, None) == (
            None::<Cached<T>>,
            None::<(T, bool)>,
        ),
{
}

} // verus!
