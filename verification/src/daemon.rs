//! The refresh daemon's decisions: which watched repositories a burst of
//! file-system events dirties, and the generation-validated status cache
//! that never serves a status computed before the repository's last
//! change.
//!
//! Each watched repository carries a generation, bumped on every change
//! the watcher reports (and on every repository at once when the watcher
//! asks for a rescan or fails). A cached status is stored with the
//! generation it was computed at, and is served only while that
//! generation is still the repository's current one.

use vstd::prelude::*;
use crate::git_status::{from_wire_spec, law_wire_roundtrip, wire_spec, GitStatus};
use crate::paths::{strip_prefix, stripped_path};
use crate::table::{
    distinct_keys, kv_map, lemma_kv_contains, lemma_kv_index, lemma_kv_push, lemma_kv_update,
};
use crate::text::{chars_of, lemma_tokens_append_ws, push_char, vec_eq};

verus! {

broadcast use vstd::string::group_string_axioms;

/// The `(key, value)` view of a vector of string-keyed pairs.
pub open spec fn pairs<V>(v: Seq<(String, V)>) -> Seq<(Seq<char>, V)> {
    v.map_values(|e: (String, V)| (e.0@, e.1))
}

/// Whether two strings hold the same characters.
fn str_eq(a: &str, b: &str) -> (r: bool)
    ensures
        r == (a@ == b@),
{
    let x = chars_of(a);
    let y = chars_of(b);
    vec_eq(&x, &y)
}

/// Index of `key` in a vector of string-keyed pairs.
fn find_key<V>(v: &Vec<(String, V)>, key: &str) -> (r: Option<usize>)
    ensures
        r matches Some(i) ==> i < v@.len() && pairs(v@)[i as int].0 == key@,
        r is None ==> !kv_map(pairs(v@)).dom().contains(key@),
{
    let mut i: usize = 0;
    while i < v.len()
        invariant
            0 <= i <= v@.len(),
            forall|j: int| 0 <= j < i ==> (#[trigger] pairs(v@)[j]).0 != key@,
        decreases v.len() - i,
    {
        if str_eq(v[i].0.as_str(), key) {
            return Some(i);
        }
        i = i + 1;
    }
    proof {
        lemma_kv_contains(pairs(v@), key@);
    }
    None
}

// ── the generation-validated cache ─────────────────────────────────

/// A repository's current generation: 0 until first seen.
pub open spec fn gen_of(gens: Map<Seq<char>, u64>, root: Seq<char>) -> u64 {
    if gens.dom().contains(root) {
        gens[root]
    } else {
        0
    }
}

/// The status the cache may serve for `root`: the cached one, only if it
/// was computed at the repository's current generation.
pub open spec fn hot_spec(
    cached: Map<Seq<char>, (GitStatus, u64)>,
    gens: Map<Seq<char>, u64>,
    root: Seq<char>,
) -> Option<GitStatus> {
    if cached.dom().contains(root) && cached[root].1 == gen_of(gens, root) {
        Some(cached[root].0)
    } else {
        None
    }
}

/// No cached status claims a generation newer than its repository's.
pub open spec fn cache_consistent(
    cached: Map<Seq<char>, (GitStatus, u64)>,
    gens: Map<Seq<char>, u64>,
) -> bool {
    forall|k: Seq<char>| #[trigger] cached.dom().contains(k) ==> cached[k].1 <= gen_of(gens, k)
}

/// A cached status may be served iff its generation is still the live one.
pub fn servable(cached_gen: u64, live_gen: u64) -> (b: bool)
    ensures
        b == (cached_gen == live_gen),
{
    cached_gen == live_gen
}

/// Per-repository generations and the statuses cached against them.
pub struct RepoCache {
    gens: Vec<(String, u64)>,
    entries: Vec<(String, (GitStatus, u64))>,
}

impl RepoCache {
    /// Generation of each repository seen so far.
    pub closed spec fn generations(&self) -> Map<Seq<char>, u64> {
        kv_map(pairs(self.gens@))
    }

    /// Cached `(status, generation computed at)` of each repository.
    pub closed spec fn cached(&self) -> Map<Seq<char>, (GitStatus, u64)> {
        kv_map(pairs(self.entries@))
    }

    /// The tables are well formed and the cache is consistent.
    pub closed spec fn wf(&self) -> bool {
        &&& distinct_keys(pairs(self.gens@))
        &&& distinct_keys(pairs(self.entries@))
        &&& cache_consistent(self.cached(), self.generations())
    }

    /// An empty cache: no repository seen, nothing cached.
    pub fn new() -> (c: RepoCache)
        ensures
            c.wf(),
            c.generations() == Map::<Seq<char>, u64>::empty(),
            c.cached() == Map::<Seq<char>, (GitStatus, u64)>::empty(),
    {
        let c = RepoCache { gens: Vec::new(), entries: Vec::new() };
        assert(pairs(c.gens@) =~= Seq::<(Seq<char>, u64)>::empty());
        assert(pairs(c.entries@) =~= Seq::<(Seq<char>, (GitStatus, u64))>::empty());
        c
    }

    /// The repository's current generation (0 if never seen).
    pub fn generation_of(&self, root: &str) -> (g: u64)
        requires
            self.wf(),
        ensures
            g == gen_of(self.generations(), root@),
    {
        match find_key(&self.gens, root) {
            Some(i) => {
                proof {
                    lemma_kv_index(pairs(self.gens@), i as int);
                }
                self.gens[i].1
            },
            None => 0,
        }
    }

    /// Starts tracking `root` at generation 0 (no change if already seen).
    pub fn watch(&mut self, root: &str)
        requires
            old(self).wf(),
        ensures
            final(self).wf(),
            final(self).generations() == (if old(self).generations().dom().contains(root@) {
                old(self).generations()
            } else {
                old(self).generations().insert(root@, 0)
            }),
            final(self).cached() == old(self).cached(),
    {
        match find_key(&self.gens, root) {
            Some(i) => {
                proof {
                    lemma_kv_index(pairs(self.gens@), i as int);
                }
            },
            None => {
                let mut k = String::new();
                k.append(root);
                let ghost before = pairs(self.gens@);
                self.gens.push((k, 0));
                proof {
                    lemma_kv_push(before, root@, 0);
                    assert(pairs(self.gens@) =~= before.push((root@, 0u64)));
                    assert forall|r: Seq<char>| #[trigger] self.cached().dom().contains(r) implies self.cached()[r].1
                        <= gen_of(self.generations(), r) by {
                        assert(gen_of(kv_map(before), r) <= gen_of(self.generations(), r));
                    }
                }
            },
        }
    }

    /// Records a change in `root`: its generation goes up by one (from 0
    /// if never seen); the new generation is returned.
    pub fn bump(&mut self, root: &str) -> (g: u64)
        requires
            old(self).wf(),
            gen_of(old(self).generations(), root@) < u64::MAX,
        ensures
            final(self).wf(),
            g == gen_of(old(self).generations(), root@) + 1,
            final(self).generations() == old(self).generations().insert(root@, g),
            final(self).cached() == old(self).cached(),
    {
        let ghost before = pairs(self.gens@);
        let ghost old_gens = self.generations();
        match find_key(&self.gens, root) {
            Some(i) => {
                proof {
                    lemma_kv_index(before, i as int);
                }
                let g = self.gens[i].1 + 1;
                let k = self.gens[i].0.clone();
                self.gens.set(i, (k, g));
                proof {
                    lemma_kv_update(before, i as int, g);
                    assert(pairs(self.gens@) =~= before.update(i as int, (before[i as int].0, g)));
                    self.lemma_bump_consistent(old_gens, root@, g);
                }
                g
            },
            None => {
                let mut k = String::new();
                k.append(root);
                self.gens.push((k, 1));
                proof {
                    lemma_kv_push(before, root@, 1);
                    assert(pairs(self.gens@) =~= before.push((root@, 1u64)));
                    self.lemma_bump_consistent(old_gens, root@, 1);
                }
                1
            },
        }
    }

    proof fn lemma_bump_consistent(&self, old_gens: Map<Seq<char>, u64>, root: Seq<char>, g: u64)
        requires
            cache_consistent(self.cached(), old_gens),
            g == gen_of(old_gens, root) + 1,
            self.generations() == old_gens.insert(root, g),
        ensures
            cache_consistent(self.cached(), self.generations()),
    {
        assert forall|r: Seq<char>| #[trigger] self.cached().dom().contains(r) implies self.cached()[r].1
            <= gen_of(self.generations(), r) by {
            if r != root {
                assert(gen_of(self.generations(), r) == gen_of(old_gens, r));
            }
        }
    }

    /// Caches `st` for `root` as computed at generation `gen`, which may
    /// not be newer than the repository's current one.
    pub fn record(&mut self, root: &str, st: GitStatus, gen: u64)
        requires
            old(self).wf(),
            gen <= gen_of(old(self).generations(), root@),
        ensures
            final(self).wf(),
            final(self).generations() == old(self).generations(),
            final(self).cached() == old(self).cached().insert(root@, (st, gen)),
    {
        let ghost before = pairs(self.entries@);
        let ghost old_cached = self.cached();
        match find_key(&self.entries, root) {
            Some(i) => {
                let k = self.entries[i].0.clone();
                self.entries.set(i, (k, (st, gen)));
                proof {
                    lemma_kv_update(before, i as int, (st, gen));
                    assert(pairs(self.entries@) =~= before.update(
                        i as int,
                        (before[i as int].0, (st, gen)),
                    ));
                }
            },
            None => {
                let mut k = String::new();
                k.append(root);
                self.entries.push((k, (st, gen)));
                proof {
                    lemma_kv_push(before, root@, (st, gen));
                    assert(pairs(self.entries@) =~= before.push((root@, (st, gen))));
                }
            },
        }
        proof {
            assert forall|r: Seq<char>| #[trigger] self.cached().dom().contains(r) implies self.cached()[r].1
                <= gen_of(self.generations(), r) by {
                if r != root@ {
                    assert(old_cached.dom().contains(r));
                }
            }
        }
    }

    /// Takes a status computed for `root` after its generation was read as
    /// `cur`: caches it as computed at `cur` unless a change was recorded
    /// since, and hands it back (a failed computation, `None`, changes
    /// nothing).
    pub fn accept_computed(&mut self, root: &str, cur: u64, computed: Option<GitStatus>) -> (r:
        Option<GitStatus>)
        requires
            old(self).wf(),
        ensures
            final(self).wf(),
            r == computed,
            final(self).generations() == old(self).generations(),
            final(self).cached() == (match computed {
                Some(st) => if cur <= gen_of(old(self).generations(), root@) {
                    old(self).cached().insert(root@, (st, cur))
                } else {
                    old(self).cached()
                },
                None => old(self).cached(),
            }),
    {
        match computed {
            Some(st) => {
                if cur <= self.generation_of(root) {
                    self.record(root, st, cur);
                }
                Some(st)
            },
            None => None,
        }
    }

    /// The cached status of `root`, only if it was computed at the
    /// repository's current generation.
    pub fn hot(&self, root: &str) -> (r: Option<GitStatus>)
        requires
            self.wf(),
        ensures
            r == hot_spec(self.cached(), self.generations(), root@),
    {
        let cur = self.generation_of(root);
        match find_key(&self.entries, root) {
            Some(i) => {
                proof {
                    lemma_kv_index(pairs(self.entries@), i as int);
                }
                let (st, g) = self.entries[i].1;
                if servable(g, cur) {
                    Some(st)
                } else {
                    None
                }
            },
            None => None,
        }
    }
}

/// A cached status recorded at a repository's current generation is what
/// the cache then serves for it.
pub proof fn law_record_then_hot(
    cached: Map<Seq<char>, (GitStatus, u64)>,
    gens: Map<Seq<char>, u64>,
    root: Seq<char>,
    st: GitStatus,
)
    ensures
        hot_spec(cached.insert(root, (st, gen_of(gens, root))), gens, root) == Some(st),
{
}

/// Once a repository's generation is bumped, no status cached before the
/// bump is served for it.
pub proof fn law_bump_invalidates(
    cached: Map<Seq<char>, (GitStatus, u64)>,
    gens: Map<Seq<char>, u64>,
    root: Seq<char>,
)
    requires
        cache_consistent(cached, gens),
        gen_of(gens, root) < u64::MAX,
    ensures
        hot_spec(cached, gens.insert(root, (gen_of(gens, root) + 1) as u64), root) is None,
{
    if cached.dom().contains(root) {
        assert(cached[root].1 <= gen_of(gens, root));
    }
}

/// Bumping one repository's generation changes nothing the cache serves
/// for any other repository.
pub proof fn law_bump_isolated(
    cached: Map<Seq<char>, (GitStatus, u64)>,
    gens: Map<Seq<char>, u64>,
    root: Seq<char>,
    g: u64,
    other: Seq<char>,
)
    requires
        other != root,
    ensures
        hot_spec(cached, gens.insert(root, g), other) == hot_spec(cached, gens, other),
{
    assert(gen_of(gens.insert(root, g), other) == gen_of(gens, other));
}

// ── classifying a burst of events ──────────────────────────────────

/// One file-system event, reduced to what the classification needs.
pub struct EventFacts {
    /// The paths the event is about.
    pub paths: Vec<String>,
    /// The watcher coalesced or dropped events and asks for a rescan.
    pub need_rescan: bool,
    /// The watcher reported an error instead of an event.
    pub is_error: bool,
}

/// `path` lies at or under `root`, component-wise (`Path::starts_with`).
pub open spec fn under(path: Seq<char>, root: Seq<char>) -> bool {
    stripped_path(path, root) is Some
}

/// Some event of the burst asks for a rescan or is an error.
pub open spec fn rescan_all(events: Seq<EventFacts>) -> bool {
    exists|i: int| 0 <= i < events.len() && ((#[trigger] events[i]).need_rescan || events[i].is_error)
}

/// Some ordinary event of the burst has a path under `root`.
pub open spec fn touched(events: Seq<EventFacts>, root: Seq<char>) -> bool {
    exists|i: int, j: int|
        0 <= i < events.len() && !(#[trigger] events[i]).need_rescan && !events[i].is_error && 0
            <= j < events[i].paths@.len() && under((#[trigger] events[i].paths@[j])@, root)
}

/// The roots a burst dirties: all of them on a rescan or an error,
/// otherwise those some event's path falls under.
pub open spec fn dirtied(events: Seq<EventFacts>, root: Seq<char>) -> bool {
    rescan_all(events) || touched(events, root)
}

/// The views of a list of roots.
pub open spec fn roots_view(rs: Seq<String>) -> Seq<Seq<char>> {
    rs.map_values(|r: String| r@)
}

/// Decides which watched roots a burst of events dirties. The result
/// holds each dirtied root once, in the order of `roots`.
pub fn classify_events(events: &[EventFacts], roots: &[String]) -> (out: Vec<String>)
    ensures
        forall|i: int, j: int|
            0 <= i < j < out@.len() ==> (#[trigger] out@[i])@ != (#[trigger] out@[j])@,
        forall|k: int| 0 <= k < out@.len() ==> roots_view(roots@).contains(#[trigger] out@[k]@),
        forall|k: int| 0 <= k < out@.len() ==> dirtied(events@, #[trigger] out@[k]@),
        forall|r: int|
            0 <= r < roots@.len() && dirtied(events@, #[trigger] roots@[r]@) ==> exists|k: int|
                0 <= k < out@.len() && (#[trigger] out@[k])@ == roots@[r]@,
{
    let mut rescan = false;
    let mut e: usize = 0;
    while e < events.len()
        invariant
            0 <= e <= events@.len(),
            rescan == exists|i: int|
                0 <= i < e && ((#[trigger] events@[i]).need_rescan || events@[i].is_error),
        decreases events.len() - e,
    {
        if events[e].need_rescan || events[e].is_error {
            rescan = true;
        }
        e = e + 1;
    }
    let mut out: Vec<String> = Vec::new();
    let mut r: usize = 0;
    while r < roots.len()
        invariant
            0 <= r <= roots@.len(),
            rescan == rescan_all(events@),
            forall|i: int, j: int|
                0 <= i < j < out@.len() ==> (#[trigger] out@[i])@ != (#[trigger] out@[j])@,
            forall|k: int| 0 <= k < out@.len() ==> roots_view(roots@).contains(#[trigger] out@[k]@),
            forall|k: int| 0 <= k < out@.len() ==> dirtied(events@, #[trigger] out@[k]@),
            forall|q: int|
                0 <= q < r && dirtied(events@, #[trigger] roots@[q]@) ==> exists|k: int|
                    0 <= k < out@.len() && (#[trigger] out@[k])@ == roots@[q]@,
        decreases roots.len() - r,
    {
        let root = roots[r].as_str();
        let hit = rescan || touches(events, root);
        if hit {
            let mut seen = false;
            let mut k: usize = 0;
            while k < out.len()
                invariant
                    0 <= k <= out@.len(),
                    seen == exists|j: int| 0 <= j < k && (#[trigger] out@[j])@ == root@,
                decreases out.len() - k,
            {
                if str_eq(out[k].as_str(), root) {
                    seen = true;
                }
                k = k + 1;
            }
            if !seen {
                let ghost before = out@;
                let mut c = String::new();
                c.append(root);
                out.push(c);
                proof {
                    assert forall|i: int, j: int| 0 <= i < j < out@.len() implies (
                    #[trigger] out@[i])@ != (#[trigger] out@[j])@ by {
                        if j == before.len() {
                            assert(out@[i] == before[i]);
                        } else {
                            assert(out@[i] == before[i] && out@[j] == before[j]);
                        }
                    }
                    assert forall|q: int| 0 <= q < out@.len() implies roots_view(roots@).contains(
                        #[trigger] out@[q]@,
                    ) by {
                        if q < before.len() {
                            assert(out@[q] == before[q]);
                        } else {
                            assert(roots_view(roots@)[r as int] == root@);
                        }
                    }
                    assert forall|q: int| 0 <= q < out@.len() implies dirtied(
                        events@,
                        #[trigger] out@[q]@,
                    ) by {
                        if q < before.len() {
                            assert(out@[q] == before[q]);
                        }
                    }
                    assert forall|q: int|
                        0 <= q < r + 1 && dirtied(events@, #[trigger] roots@[q]@) implies exists|
                        k: int,
                    | 0 <= k < out@.len() && (#[trigger] out@[k])@ == roots@[q]@ by {
                        if q < r {
                            let k = choose|k: int|
                                0 <= k < before.len() && (#[trigger] before[k])@ == roots@[q]@;
                            assert(out@[k] == before[k]);
                        } else {
                            assert(out@[before.len() as int]@ == roots@[q]@);
                        }
                    }
                }
            }
        }
        r = r + 1;
    }
    out
}

/// Whether an ordinary event of the burst has a path under `root`.
fn touches(events: &[EventFacts], root: &str) -> (b: bool)
    ensures
        b == touched(events@, root@),
{
    let mut e: usize = 0;
    while e < events.len()
        invariant
            0 <= e <= events@.len(),
            forall|i: int, j: int|
                0 <= i < e && !(#[trigger] events@[i]).need_rescan && !events@[i].is_error && 0
                    <= j < events@[i].paths@.len() ==> !under(
                    (#[trigger] events@[i].paths@[j])@,
                    root@,
                ),
        decreases events.len() - e,
    {
        let ev = &events[e];
        if !ev.need_rescan && !ev.is_error {
            let mut p: usize = 0;
            while p < ev.paths.len()
                invariant
                    0 <= p <= ev.paths@.len(),
                    e < events@.len(),
                    *ev == events@[e as int],
                    !ev.need_rescan && !ev.is_error,
                    forall|j: int| 0 <= j < p ==> !under((#[trigger] ev.paths@[j])@, root@),
                decreases ev.paths.len() - p,
            {
                if strip_prefix(ev.paths[p].as_str(), root).is_some() {
                    assert(events@[e as int] == *ev);
                    assert(under(events@[e as int].paths@[p as int]@, root@));
                    return true;
                }
                p = p + 1;
            }
        }
        e = e + 1;
    }
    false
}

/// The daemon's reply line: the status's wire form and a newline, or an
/// empty reply when there is no status (the client then falls back to a
/// live computation).
pub open spec fn reply_spec(fresh: Option<GitStatus>) -> Seq<char> {
    match fresh {
        Some(st) => wire_spec(st) + seq!['\n'],
        None => Seq::empty(),
    }
}

pub fn reply_text(fresh: Option<GitStatus>) -> (out: String)
    ensures
        out@ == reply_spec(fresh),
{
    match fresh {
        Some(st) => {
            let mut w = st.to_wire();
            push_char(&mut w, '\n');
            w
        },
        None => String::new(),
    }
}

/// Replies carry only statuses: the reply to a status reads back, through
/// the wire parser, as that status.
pub proof fn law_reply_reads_back(st: GitStatus)
    ensures
        from_wire_spec(reply_spec(Some(st))) == Some(st),
{
    let w = wire_spec(st);
    law_wire_roundtrip(st);
    lemma_tokens_append_ws(w, '\n');
    assert(w + seq!['\n'] =~= w.push('\n'));
}

} // verus!
