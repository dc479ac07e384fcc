//! `shikumi_config` segment — shikumi apps running under a tier whose
//! configuration validates, rendered as `app:tier`.

use vstd::prelude::*;
use crate::markup::{render_markup, render_spec, vars_view};
use crate::probe_cache::{is_fresh, is_fresh_spec};
use crate::shikumi_tier::{names_view, pairs_view, scanned};
use crate::table::{distinct_keys, kv_map, lemma_kv_contains, lemma_kv_push, lemma_kv_update};
use crate::mado_session::opt_string_view;
use crate::text::{append_stale, chars_of, stale_suffix, vec_eq};

verus! {

/// The pairs of `xs` whose tier is non-empty, in order.
pub open spec fn nonempty_tiers(xs: Seq<(Seq<char>, Seq<char>)>) -> Seq<(Seq<char>, Seq<char>)>
    decreases xs.len(),
{
    if xs.len() == 0 {
        Seq::empty()
    } else {
        let init = nonempty_tiers(xs.drop_last());
        if xs.last().1.len() > 0 {
            init.push(xs.last())
        } else {
            init
        }
    }
}

/// `out` is what the config scan gives when `lookup` was asked for each
/// app's tier variable (`keys[i]`) and answered `found[i]`: the pairs the
/// tier scan keeps, less those whose tier is empty.
pub open spec fn config_scanned<F: Fn(&str) -> Option<String>>(
    lookup: F,
    apps: Seq<Seq<char>>,
    keys: Seq<&str>,
    found: Seq<Option<String>>,
    out: Seq<(Seq<char>, Seq<char>)>,
) -> bool {
    exists|all: Seq<(Seq<char>, Seq<char>)>|
        #[trigger] scanned(lookup, apps, keys, found, all) && out == nonempty_tiers(all)
}

/// For each app in order, looks up `<APP>_TIER` and returns the
/// `(app, tier)` pairs whose lookup answered a non-empty tier.
pub fn scan_env<F>(apps: &[String], lookup: F) -> (out: Vec<(String, String)>)
    where
        F: Fn(&str) -> Option<String>,
    requires
        forall|k: &str| lookup.requires((k,)),
    ensures
        exists|keys: Seq<&str>, found: Seq<Option<String>>|
            #[trigger] config_scanned(lookup, names_view(apps@), keys, found, pairs_view(out@)),
{
    let all = crate::shikumi_tier::scan_env(apps, lookup);
    let ghost kf = choose|keys: Seq<&str>, found: Seq<Option<String>>|
        #[trigger] scanned(lookup, names_view(apps@), keys, found, pairs_view(all@));
    let ghost av = pairs_view(all@);
    let mut out: Vec<(String, String)> = Vec::new();
    let mut i: usize = 0;
    assert(av.take(0) =~= Seq::<(Seq<char>, Seq<char>)>::empty());
    assert(pairs_view(out@) =~= Seq::<(Seq<char>, Seq<char>)>::empty());
    while i < all.len()
        invariant
            0 <= i <= all@.len(),
            av == pairs_view(all@),
            pairs_view(out@) == nonempty_tiers(av.take(i as int)),
        decreases all.len() - i,
    {
        let ghost old_out = out@;
        let t = chars_of(all[i].1.as_str());
        proof {
            assert(av.take(i + 1).drop_last() =~= av.take(i as int));
            assert(av.take(i + 1).last() == av[i as int]);
        }
        if t.len() > 0 {
            let a = all[i].0.clone();
            let b = all[i].1.clone();
            out.push((a, b));
            assert(pairs_view(out@) =~= pairs_view(old_out).push(av[i as int]));
        }
        i = i + 1;
    }
    assert(av.take(all@.len() as int) =~= av);
    assert(config_scanned(lookup, names_view(apps@), kf.0, kf.1, pairs_view(out@)));
    out
}

/// The bindings a `shikumi_config` format sees: `$app`, `$tier`.
pub open spec fn config_vars(app: Seq<char>, tier: Seq<char>) -> Seq<(Seq<char>, Seq<char>)> {
    seq![("app"@, app), ("tier"@, tier)]
}

/// Render the format string. Substitutions: `$app`, `$tier`.
pub fn render_format(fmt: &str, app: &str, tier: &str) -> (out: String)
    ensures
        out@ == render_spec(fmt@, config_vars(app@, tier@), true),
{
    let vars = [("app", app), ("tier", tier)];
    let out = render_markup(fmt, &vars, true);
    assert(vars_view(&vars) =~= config_vars(app@, tier@));
    out
}

// ── validated tiers ───────────────────────────────────────────────

/// A tier that `<app> config-show <tier>` validated, and when.
#[derive(Debug, Clone)]
pub struct CachedProbe {
    pub app: String,
    pub tier: String,
    /// Monotonic-clock time of the validation, in milliseconds.
    pub captured_at: u64,
}

/// The `((app, tier), captured_at)` view of cache entries.
pub open spec fn probes_view(s: Seq<CachedProbe>) -> Seq<((Seq<char>, Seq<char>), u64)> {
    s.map_values(|c: CachedProbe| ((c.app@, c.tier@), c.captured_at))
}

/// The `((app, tier), captured_at)` view of a cache summary.
pub open spec fn summary_view(v: Seq<((String, String), u64)>) -> Seq<((Seq<char>, Seq<char>), u64)> {
    v.map_values(|e: ((String, String), u64)| ((e.0.0@, e.0.1@), e.1))
}

fn str_eq(a: &str, b: &str) -> (r: bool)
    ensures
        r == (a@ == b@),
{
    let x = chars_of(a);
    let y = chars_of(b);
    vec_eq(&x, &y)
}

/// The cache as a table from `(app, tier)` to capture time; a later
/// entry for the same pair wins.
pub fn cache_view(snapshot: &[CachedProbe]) -> (v: Vec<((String, String), u64)>)
    ensures
        distinct_keys(summary_view(v@)),
        kv_map(summary_view(v@)) == kv_map(probes_view(snapshot@)),
{
    let mut v: Vec<((String, String), u64)> = Vec::new();
    let mut i: usize = 0;
    assert(summary_view(v@) =~= Seq::<((Seq<char>, Seq<char>), u64)>::empty());
    assert(probes_view(snapshot@).take(0) =~= Seq::<((Seq<char>, Seq<char>), u64)>::empty());
    while i < snapshot.len()
        invariant
            0 <= i <= snapshot@.len(),
            distinct_keys(summary_view(v@)),
            kv_map(summary_view(v@)) == kv_map(probes_view(snapshot@).take(i as int)),
        decreases snapshot.len() - i,
    {
        let c = &snapshot[i];
        let ghost key = (c.app@, c.tier@);
        let ghost before = summary_view(v@);
        proof {
            assert(probes_view(snapshot@).take(i + 1).drop_last() =~= probes_view(snapshot@).take(
                i as int,
            ));
            assert(probes_view(snapshot@).take(i + 1).last() == (key, c.captured_at));
        }
        let mut j: usize = 0;
        let mut found: Option<usize> = None;
        while j < v.len()
            invariant
                0 <= j <= v@.len(),
                before == summary_view(v@),
                key == (c.app@, c.tier@),
                found matches Some(k) ==> k < v@.len() && before[k as int].0 == key,
                found is None ==> forall|q: int| 0 <= q < j ==> (#[trigger] before[q]).0 != key,
            decreases v.len() - j,
        {
            if found.is_none() && str_eq(v[j].0.0.as_str(), c.app.as_str()) && str_eq(
                v[j].0.1.as_str(),
                c.tier.as_str(),
            ) {
                found = Some(j);
            }
            assert(before[j as int].0 == (v@[j as int].0.0@, v@[j as int].0.1@));
            j = j + 1;
        }
        match found {
            Some(k) => {
                let key_k = (v[k].0.0.clone(), v[k].0.1.clone());
                proof {
                    assert(key_k.0@ == v@[k as int].0.0@ && key_k.1@ == v@[k as int].0.1@);
                }
                v.set(k, (key_k, c.captured_at));
                proof {
                    lemma_kv_update(before, k as int, c.captured_at);
                    assert(summary_view(v@) =~= before.update(
                        k as int,
                        (before[k as int].0, c.captured_at),
                    ));
                }
            },
            None => {
                proof {
                    lemma_kv_contains(before, key);
                }
                v.push(((c.app.clone(), c.tier.clone()), c.captured_at));
                proof {
                    lemma_kv_push(before, key, c.captured_at);
                    assert(summary_view(v@) =~= before.push((key, c.captured_at)));
                }
            },
        }
        i = i + 1;
    }
    assert(probes_view(snapshot@).take(snapshot@.len() as int) =~= probes_view(snapshot@));
    v
}

/// The capture time of the first cache entry for `key`.
pub open spec fn first_match(
    snap: Seq<((Seq<char>, Seq<char>), u64)>,
    key: (Seq<char>, Seq<char>),
) -> Option<u64>
    decreases snap.len(),
{
    if snap.len() == 0 {
        None
    } else if snap[0].0 == key {
        Some(snap[0].1)
    } else {
        first_match(snap.drop_first(), key)
    }
}

/// A requested tier needs `config-show` unless a fresh cache entry vouches
/// for it.
pub open spec fn needs_probe(cached: Option<u64>, now: u64, ttl: u64) -> bool {
    !(cached matches Some(t) && is_fresh_spec(t, now, ttl))
}

/// What one requested tier becomes: `(shown stale?, cache entry's capture
/// time)`. A fresh entry is shown and kept; otherwise a validating probe
/// shows it and records it now; a failing probe falls back to the old
/// entry shown as stale; with no entry the tier is dropped.
pub open spec fn outcome(cached: Option<u64>, now: u64, ttl: u64, answer: bool) -> Option<
    (bool, u64),
> {
    match cached {
        Some(t) => if is_fresh_spec(t, now, ttl) {
            Some((false, t))
        } else if answer {
            Some((false, now))
        } else {
            Some((true, t))
        },
        None => if answer {
            Some((false, now))
        } else {
            None
        },
    }
}

/// The shown tiers and the next cache, for the requested tiers given the
/// probe answers.
pub open spec fn validate_spec(
    reqs: Seq<(Seq<char>, Seq<char>)>,
    snap: Seq<((Seq<char>, Seq<char>), u64)>,
    now: u64,
    ttl: u64,
    answers: Seq<bool>,
) -> (Seq<(Seq<char>, Seq<char>, bool)>, Seq<((Seq<char>, Seq<char>), u64)>)
    decreases reqs.len(),
{
    if reqs.len() == 0 || answers.len() == 0 {
        (Seq::empty(), Seq::empty())
    } else {
        let init = validate_spec(reqs.drop_last(), snap, now, ttl, answers.drop_last());
        let k = reqs.last();
        match outcome(first_match(snap, k), now, ttl, answers.last()) {
            Some((stale, t)) => (init.0.push((k.0, k.1, stale)), init.1.push((k, t))),
            None => init,
        }
    }
}

/// The `(app, tier)` view of requested tiers.
pub open spec fn reqs_view(r: Seq<(String, String)>) -> Seq<(Seq<char>, Seq<char>)> {
    r.map_values(|x: (String, String)| (x.0@, x.1@))
}

/// The `(app, tier, stale)` view of shown tiers.
pub open spec fn shown_view(r: Seq<(String, String, bool)>) -> Seq<(Seq<char>, Seq<char>, bool)> {
    r.map_values(|x: (String, String, bool)| (x.0@, x.1@, x.2))
}

/// `out` is what validating `reqs` gives when `probe` was asked about each
/// tier that needed it (`keys[i]`) and answered `answers[i]`.
pub open spec fn validated<F: Fn(&str, &str) -> bool>(
    probe: F,
    reqs: Seq<(Seq<char>, Seq<char>)>,
    snap: Seq<((Seq<char>, Seq<char>), u64)>,
    now: u64,
    ttl: u64,
    keys: Seq<(&str, &str)>,
    answers: Seq<bool>,
    out: (Seq<(Seq<char>, Seq<char>, bool)>, Seq<((Seq<char>, Seq<char>), u64)>),
) -> bool {
    &&& keys.len() == reqs.len()
    &&& answers.len() == reqs.len()
    &&& forall|i: int|
        0 <= i < reqs.len() && needs_probe(first_match(snap, reqs[i]), now, ttl) ==> (
        #[trigger] keys[i]).0@ == reqs[i].0 && keys[i].1@ == reqs[i].1 && probe.ensures(
            (keys[i].0, keys[i].1),
            answers[i],
        )
    &&& out == validate_spec(reqs, snap, now, ttl, answers)
}

/// Validates each requested `(app, tier)` against the cache and, when its
/// entry is not fresh, against `probe` (which runs `<app> config-show
/// <tier>`): returns the tiers to show, each with whether it is stale, and
/// the next cache.
pub fn validate_requested<F>(
    requested: &[(String, String)],
    snapshot: &[CachedProbe],
    now: u64,
    ttl: u64,
    probe: F,
) -> (r: (Vec<(String, String, bool)>, Vec<CachedProbe>))
    where
        F: Fn(&str, &str) -> bool,
    requires
        forall|a: &str, t: &str| probe.requires((a, t)),
    ensures
        exists|keys: Seq<(&str, &str)>, answers: Seq<bool>|
            #[trigger] validated(
                probe,
                reqs_view(requested@),
                probes_view(snapshot@),
                now,
                ttl,
                keys,
                answers,
                (shown_view(r.0@), probes_view(r.1@)),
            ),
{
    let ghost reqs = reqs_view(requested@);
    let ghost snap = probes_view(snapshot@);
    let mut shown: Vec<(String, String, bool)> = Vec::new();
    let mut next: Vec<CachedProbe> = Vec::new();
    let ghost mut keys: Seq<(&str, &str)> = Seq::empty();
    let ghost mut answers: Seq<bool> = Seq::empty();
    assert(shown_view(shown@) =~= Seq::<(Seq<char>, Seq<char>, bool)>::empty());
    assert(probes_view(next@) =~= Seq::<((Seq<char>, Seq<char>), u64)>::empty());
    let mut i: usize = 0;
    while i < requested.len()
        invariant
            0 <= i <= requested@.len(),
            reqs == reqs_view(requested@),
            snap == probes_view(snapshot@),
            forall|a: &str, t: &str| probe.requires((a, t)),
            validated(
                probe,
                reqs.take(i as int),
                snap,
                now,
                ttl,
                keys,
                answers,
                (shown_view(shown@), probes_view(next@)),
            ),
        decreases requested.len() - i,
    {
        let app = requested[i].0.as_str();
        let tier = requested[i].1.as_str();
        let ghost key = (app@, tier@);
        let cached = first_cached(snapshot, app, tier);
        let ghost ts = reqs.take(i + 1);
        proof {
            assert(ts.drop_last() =~= reqs.take(i as int));
            assert(ts.last() == key);
        }
        let fresh = match cached {
            Some(t) => is_fresh(t, now, ttl),
            None => false,
        };
        let answer = if fresh {
            false
        } else {
            probe(app, tier)
        };
        let ghost old_keys = keys;
        let ghost old_answers = answers;
        let ghost old_shown = shown_view(shown@);
        let ghost old_next = probes_view(next@);
        proof {
            keys = keys.push((app, tier));
            answers = answers.push(answer);
            assert(answers.drop_last() =~= old_answers);
            assert forall|q: int|
                0 <= q < ts.len() && needs_probe(first_match(snap, ts[q]), now, ttl) implies (
            #[trigger] keys[q]).0@ == ts[q].0 && keys[q].1@ == ts[q].1 && probe.ensures(
                (keys[q].0, keys[q].1),
                answers[q],
            ) by {
                if q < i {
                    assert(keys[q] == old_keys[q]);
                    assert(answers[q] == old_answers[q]);
                    assert(ts[q] == reqs.take(i as int)[q]);
                }
            }
        }
        if fresh || answer {
            let t = if fresh {
                match cached {
                    Some(t) => t,
                    None => now,
                }
            } else {
                now
            };
            shown.push((requested[i].0.clone(), requested[i].1.clone(), false));
            next.push(
                CachedProbe {
                    app: requested[i].0.clone(),
                    tier: requested[i].1.clone(),
                    captured_at: t,
                },
            );
            assert(shown_view(shown@) =~= old_shown.push((key.0, key.1, false)));
            assert(probes_view(next@) =~= old_next.push((key, t)));
        } else {
            match cached {
                Some(t) => {
                    shown.push((requested[i].0.clone(), requested[i].1.clone(), true));
                    next.push(
                        CachedProbe {
                            app: requested[i].0.clone(),
                            tier: requested[i].1.clone(),
                            captured_at: t,
                        },
                    );
                    assert(shown_view(shown@) =~= old_shown.push((key.0, key.1, true)));
                    assert(probes_view(next@) =~= old_next.push((key, t)));
                },
                None => {},
            }
        }
        assert((shown_view(shown@), probes_view(next@)) == validate_spec(ts, snap, now, ttl, answers));
        i = i + 1;
    }
    assert(reqs.take(requested@.len() as int) =~= reqs);
    let r = (shown, next);
    assert(validated(
        probe,
        reqs,
        snap,
        now,
        ttl,
        keys,
        answers,
        (shown_view(r.0@), probes_view(r.1@)),
    ));
    r
}

/// The capture time of the first cache entry for `(app, tier)`.
fn first_cached(snapshot: &[CachedProbe], app: &str, tier: &str) -> (r: Option<u64>)
    ensures
        r == first_match(probes_view(snapshot@), (app@, tier@)),
{
    let ghost snap = probes_view(snapshot@);
    let mut j: usize = 0;
    assert(snap.skip(0) =~= snap);
    while j < snapshot.len()
        invariant
            0 <= j <= snapshot@.len(),
            snap == probes_view(snapshot@),
            first_match(snap.skip(j as int), (app@, tier@)) == first_match(snap, (app@, tier@)),
        decreases snapshot.len() - j,
    {
        proof {
            assert(snap.skip(j as int)[0] == snap[j as int]);
            assert(snap.skip(j as int).drop_first() =~= snap.skip(j + 1));
        }
        if str_eq(snapshot[j].app.as_str(), app) && str_eq(snapshot[j].tier.as_str(), tier) {
            return Some(snapshot[j].captured_at);
        }
        j = j + 1;
    }
    assert(snap.skip(j as int) =~= Seq::<((Seq<char>, Seq<char>), u64)>::empty());
    None
}

// ── the segment text ───────────────────────────────────────────────

/// `words` joined with `sep` between neighbours.
pub open spec fn join_sep(words: Seq<Seq<char>>, sep: Seq<char>) -> Seq<char>
    decreases words.len(),
{
    if words.len() == 0 {
        Seq::empty()
    } else if words.len() == 1 {
        words[0]
    } else {
        join_sep(words.drop_last(), sep) + sep + words.last()
    }
}

/// The rendering of one shown tier: the format with `$app` and `$tier`,
/// plus ` (stale)` for a stale one.
pub open spec fn shown_piece(fmt: Seq<char>, x: (Seq<char>, Seq<char>, bool)) -> Seq<char> {
    render_spec(fmt, config_vars(x.0, x.1), true) + stale_suffix(x.2)
}

/// The segment text: nothing when no tier is shown, else each shown tier
/// rendered and the renderings joined with `sep`.
pub open spec fn shown_text_spec(
    fmt: Seq<char>,
    shown: Seq<(Seq<char>, Seq<char>, bool)>,
    sep: Seq<char>,
) -> Option<Seq<char>> {
    if shown.len() == 0 {
        None
    } else {
        Some(join_sep(shown.map_values(|x: (Seq<char>, Seq<char>, bool)| shown_piece(fmt, x)), sep))
    }
}

pub fn shown_text(fmt: &str, shown: &[(String, String, bool)], sep: &str) -> (r: Option<String>)
    ensures
        opt_string_view(r) == shown_text_spec(fmt@, shown_view(shown@), sep@),
{
    if shown.len() == 0 {
        return None;
    }
    let ghost sv = shown_view(shown@);
    let ghost pieces = sv.map_values(|x: (Seq<char>, Seq<char>, bool)| shown_piece(fmt@, x));
    let mut out = String::new();
    let mut i: usize = 0;
    assert(pieces.take(0) =~= Seq::<Seq<char>>::empty());
    while i < shown.len()
        invariant
            0 <= i <= shown@.len(),
            sv == shown_view(shown@),
            pieces == sv.map_values(|x: (Seq<char>, Seq<char>, bool)| shown_piece(fmt@, x)),
            out@ == join_sep(pieces.take(i as int), sep@),
        decreases shown.len() - i,
    {
        let ghost before = out@;
        if i > 0 {
            out.append(sep);
        }
        let mut piece = render_format(fmt, shown[i].0.as_str(), shown[i].1.as_str());
        append_stale(&mut piece, shown[i].2);
        out.append(piece.as_str());
        proof {
            assert(piece@ == pieces[i as int]);
            assert(pieces.take(i + 1).drop_last() =~= pieces.take(i as int));
            assert(pieces.take(i + 1).last() == pieces[i as int]);
            if i == 0 {
                assert(out@ =~= pieces[0]);
            } else {
                assert(out@ =~= before + sep@ + pieces[i as int]);
            }
        }
        i = i + 1;
    }
    assert(pieces.take(shown@.len() as int) =~= pieces);
    Some(out)
}

} // verus!
