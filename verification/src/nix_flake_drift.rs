//! `nix_flake_drift` segment — how many of a flake's tracked inputs lag
//! their upstream: the `drift: N` label, the `github:` input URL to git
//! remote conversion, and the scan of `nix flake metadata --json` for the
//! inputs under a URL prefix together with their locked revisions.

use vstd::prelude::*;
use crate::text::{
    append_dec, append_stale, boff, byte_len, byte_offsets, char_at_byte, char_at_byte_vec, chars_of,
    dec, find_from, find_vec, has_prefix, lemma_boff_mono,
    lemma_find_from, lemma_ws_end_bounds, occurs_at, skip_ws, stale_suffix, starts_with_vec, string_of,
    string_of_range, sub_vec, ws_end,
};

verus! {

broadcast use vstd::string::group_string_axioms;

/// `drift: N`, with ` (stale)` when served from an expired cache entry.
pub open spec fn status_spec(count: nat, stale: bool) -> Seq<char> {
    "drift: "@ + dec(count) + stale_suffix(stale)
}

pub fn format_status(count: u32, stale: bool) -> (out: String)
    ensures
        out@ == status_spec(count as nat, stale),
{
    let mut out = String::new();
    out.append("drift: ");
    append_dec(&mut out, count as u64);
    append_stale(&mut out, stale);
    out
}

// ── input URL → git remote ─────────────────────────────────────────

/// `s` up to (not including) its first `c`, or all of `s`.
pub open spec fn before_char(s: Seq<char>, c: char) -> Seq<char> {
    match find_from(s, seq![c], 0) {
        Some(i) => s.take(i),
        None => s,
    }
}

/// The first two `/`-separated parts of `s`, joined by `/`.
pub open spec fn first_two_parts(s: Seq<char>) -> Seq<char> {
    match find_from(s, seq!['/'], 0) {
        Some(i) => match find_from(s, seq!['/'], i + 1) {
            Some(j) => s.take(j),
            None => s,
        },
        None => s,
    }
}

/// `github:owner/repo[/…][?…]` → `https://github.com/owner/repo`; any
/// other URL → `None`.
pub open spec fn git_remote_spec(url: Seq<char>) -> Option<Seq<char>> {
    if has_prefix(url, "github:"@) {
        let rest = url.skip("github:"@.len() as int);
        Some("https://github.com/"@ + first_two_parts(before_char(rest, '?')))
    } else {
        None
    }
}

/// `github:owner/repo` → `https://github.com/owner/repo`.
pub fn convert_input_url_to_git(url: &str) -> (r: Option<String>)
    ensures
        r matches Some(s) ==> git_remote_spec(url@) == Some(s@),
        r is None ==> git_remote_spec(url@) is None,
{
    let v = chars_of(url);
    if !starts_with_vec(&v, "github:") {
        return None;
    }
    let plen = chars_of("github:").len();
    let rest = sub_vec(&v, plen, v.len());
    let ghost rs = url@.skip("github:"@.len() as int);
    assert(rest@ =~= rs);
    let q = match crate::text::find_char_vec(&rest, '?') {
        Some(i) => {
            proof {
                lemma_find_from(rs, seq!['?'], 0);
            }
            i
        },
        None => rest.len(),
    };
    let body = sub_vec(&rest, 0, q);
    assert(body@ =~= before_char(rs, '?'));
    let cut = match crate::text::find_char_vec(&body, '/') {
        Some(i) => {
            proof {
                lemma_find_from(body@, seq!['/'], 0);
            }
            let mut slash: Vec<char> = Vec::new();
            slash.push('/');
            assert(slash@ =~= seq!['/']);
            match find_vec(&body, &slash, i + 1) {
                Some(j) => {
                    proof {
                        lemma_find_from(body@, seq!['/'], i + 1);
                    }
                    j
                },
                None => body.len(),
            }
        },
        None => body.len(),
    };
    let mut out = String::new();
    out.append("https://github.com/");
    let tail = string_of_range(&body, 0, cut);
    out.append(tail.as_str());
    assert(body@.take(body@.len() as int) =~= body@);
    assert(tail@ =~= first_two_parts(body@));
    Some(out)
}

// ── nix flake metadata ─────────────────────────────────────────────

/// A tracked flake input: its URL and locked revision.
#[derive(Debug, Clone, PartialEq, Eq)]
pub struct FlakeInput {
    pub url: String,
    pub rev: String,
}

/// The `(url, rev)` pairs of a list of inputs.
pub open spec fn inputs_view(xs: Seq<FlakeInput>) -> Seq<(Seq<char>, Seq<char>)> {
    xs.map_values(|f: FlakeInput| (f.url@, f.rev@))
}

/// The value of the first `"rev": "<value>"` field of `w`.
pub open spec fn extract_rev_spec(w: Seq<char>) -> Option<Seq<char>> {
    let key = "\"rev\""@;
    match find_from(w, key, 0) {
        None => None,
        Some(i) => {
            let a1 = ws_end(w, i + key.len());
            if a1 < w.len() && w[a1] == ':' {
                let a2 = ws_end(w, a1 + 1);
                if a2 < w.len() && w[a2] == '"' {
                    match find_from(w, seq!['"'], a2 + 1) {
                        Some(e) => Some(w.subrange(a2 + 1, e)),
                        None => None,
                    }
                } else {
                    None
                }
            } else {
                None
            }
        },
    }
}

fn extract_rev(w: &Vec<char>) -> (r: Option<String>)
    ensures
        r matches Some(x) ==> extract_rev_spec(w@) == Some(x@),
        r is None ==> extract_rev_spec(w@) is None,
{
    let key = chars_of("\"rev\"");
    let i = match find_vec(w, &key, 0) {
        Some(i) => i,
        None => return None,
    };
    proof {
        lemma_find_from(w@, key@, 0);
    }
    let klen = key.len();
    assert(i + klen <= w.len());
    let a1 = skip_ws(w, i + klen, w.len());
    if a1 < w.len() && w[a1] == ':' {
        let a2 = skip_ws(w, a1 + 1, w.len());
        if a2 < w.len() && w[a2] == '"' {
            let mut quote: Vec<char> = Vec::new();
            quote.push('"');
            assert(quote@ =~= seq!['"']);
            match find_vec(w, &quote, a2 + 1) {
                Some(e) => {
                    proof {
                        lemma_find_from(w@, seq!['"'], a2 + 1);
                    }
                    Some(string_of_range(w, a2 + 1, e))
                },
                None => None,
            }
        } else {
            None
        }
    } else {
        None
    }
}

/// The `"url":` key the scan looks for.
pub open spec fn url_key() -> Seq<char> {
    "\"url\":"@
}

/// The sibling `rev` of a matching URL, read from the window of the next
/// 1024 characters after the URL's closing quote (fewer at the end of
/// `s`). The URL is located by its first occurrence at or after `a` (the
/// character just past the key).
pub open spec fn window_rev(s: Seq<char>, a: int, u0: int, q: int) -> Option<Seq<char>> {
    let url = s.subrange(u0, q);
    let start = match find_from(s, url, a) {
        Some(k) => k,
        None => a,
    };
    let ws = start + url.len() + 1;
    let we: int = if ws + 1024 < s.len() {
        ws + 1024
    } else {
        s.len() as int
    };
    extract_rev_spec(s.subrange(ws, we))
}

/// One step of the scan from character index `from`: whether it stays
/// on character boundaries, where the next step starts (`None`: the scan
/// ends), and the input it finds, if any. It finds the next `"url":` key;
/// when no `"` follows the key's whitespace it resumes just past the key;
/// otherwise it reads the quoted URL and, when the URL starts with `p`,
/// looks up its `rev` (see [`window_rev`]). It then resumes at the byte
/// offset of the key's end plus the URL's byte length plus one (which,
/// when whitespace separates the key from the opening quote, falls short
/// of the closing quote by that whitespace's width, and panics when that
/// offset is not a character boundary).
pub open spec fn step_outcome(s: Seq<char>, p: Seq<char>, from: int) -> (
    bool,
    Option<int>,
    Option<(Seq<char>, Seq<char>)>,
) {
    match find_from(s, url_key(), from) {
        None => (true, None, None),
        Some(idx) => {
            let a = idx + url_key().len();
            let b = ws_end(s, a);
            if b >= s.len() || s[b] != '"' {
                (true, Some(a), None)
            } else {
                let u0 = b + 1;
                match find_from(s, seq!['"'], u0) {
                    None => (true, None, None),
                    Some(q) => {
                        let url = s.subrange(u0, q);
                        let hit = if has_prefix(url, p) {
                            window_rev(s, a, u0, q)
                        } else {
                            None
                        };
                        let nb = boff(s, a) + (boff(s, q) - boff(s, u0)) + 1;
                        match char_at_byte(s, nb) {
                            Some(nf) => (
                                true,
                                Some(nf),
                                match hit {
                                    Some(rev) => Some((url, rev)),
                                    None => None,
                                },
                            ),
                            None => (false, None, None),
                        }
                    },
                }
            }
        },
    }
}

/// The inputs found scanning `s` from character index `from`: every
/// `"url": "<u>"` whose `<u>` starts with `p` and whose window holds a
/// `rev`, in order. `None` when the scan slices the text off a character
/// boundary, where it panics.
pub open spec fn scan_inputs(s: Seq<char>, p: Seq<char>, from: int) -> Option<
    Seq<(Seq<char>, Seq<char>)>,
>
    decreases s.len() + 1 - from,
{
    if from < 0 || from > s.len() {
        Some(Seq::empty())
    } else {
        let o = step_outcome(s, p, from);
        if !o.0 {
            None
        } else {
            match o.1 {
                None => Some(Seq::empty()),
                Some(nf) => if nf <= from || nf > s.len() {
                    Some(Seq::empty())
                } else {
                    match scan_inputs(s, p, nf) {
                        Some(rest) => Some(
                            match o.2 {
                                Some(x) => seq![x] + rest,
                                None => rest,
                            },
                        ),
                        None => None,
                    }
                },
            }
        }
    }
}

/// The view of what one scan step finds.
pub open spec fn found_view(f: Option<FlakeInput>) -> Option<(Seq<char>, Seq<char>)> {
    match f {
        Some(x) => Some((x.url@, x.rev@)),
        None => None,
    }
}

/// One step of the scan of `v` from `from` (see [`step_outcome`]).
fn scan_step(
    v: &Vec<char>,
    offs: &Vec<usize>,
    needle: &Vec<char>,
    prefix: &str,
    from: usize,
) -> (r: (bool, Option<usize>, Option<FlakeInput>))
    requires
        needle@ == url_key(),
        offs@.len() == v@.len() + 1,
        forall|i: int| 0 <= i <= v@.len() ==> #[trigger] offs@[i] == boff(v@, i),
        byte_len(v@) + 1025 <= usize::MAX,
        from <= v@.len(),
    ensures
        r.0 == step_outcome(v@, prefix@, from as int).0,
        r.0 ==> (r.1 matches Some(n) ==> step_outcome(v@, prefix@, from as int).1 == Some(
            n as int,
        )),
        r.0 ==> (r.1 is None ==> step_outcome(v@, prefix@, from as int).1 is None),
        r.0 ==> found_view(r.2) == step_outcome(v@, prefix@, from as int).2,
{
    let ghost s = v@;
    let ghost p = prefix@;
    let total = offs[v.len()];
    proof {
        assert(s.take(s.len() as int) =~= s);
    }
    let idx = match find_vec(v, needle, from) {
        Some(i) => i,
        None => return (true, None, None),
    };
    proof {
        lemma_find_from(s, url_key(), from as int);
    }
    let a = idx + needle.len();
    let b = skip_ws(v, a, v.len());
    proof {
        lemma_ws_end_bounds(s, a as int);
    }
    if b >= v.len() || v[b] != '"' {
        return (true, Some(a), None);
    }
    let u0 = b + 1;
    let mut quote: Vec<char> = Vec::new();
    quote.push('"');
    assert(quote@ =~= seq!['"']);
    let q = match find_vec(v, &quote, u0) {
        Some(q) => q,
        None => return (true, None, None),
    };
    proof {
        lemma_find_from(s, seq!['"'], u0 as int);
        lemma_boff_mono(s, a as int, u0 as int);
        lemma_boff_mono(s, u0 as int, q as int);
        lemma_boff_mono(s, q as int, s.len() as int);
    }
    let url = sub_vec(v, u0, q);
    let mut found: Option<String> = None;
    if starts_with_vec(&url, prefix) {
        proof {
            lemma_find_from(s, url@, a as int);
            assert(occurs_at(s, url@, u0 as int));
        }
        let start = match find_vec(v, &url, a) {
            Some(k) => k,
            None => a,
        };
        let ws = start + url.len() + 1;
        let we = if v.len() - ws > 1024 {
            ws + 1024
        } else {
            v.len()
        };
        let window = sub_vec(v, ws, we);
        found = extract_rev(&window);
        assert(window_rev(s, a as int, u0 as int, q as int) == extract_rev_spec(window@));
    }
    let nb = offs[a] + (offs[q] - offs[u0]) + 1;
    let nf = match char_at_byte_vec(v, offs, nb) {
        Some(k) => k,
        None => return (false, None, None),
    };
    match found {
        Some(rev) => (true, Some(nf), Some(FlakeInput { url: string_of(&url), rev })),
        None => (true, Some(nf), None),
    }
}

/// Parses `nix flake metadata --json` for inputs whose URL starts with
/// `prefix`. For each `"url": "<match>"` the next 1024 characters are
/// searched for a sibling `"rev"`.
pub fn parse_pleme_io_inputs(metadata_json: &str, prefix: &str) -> (out: Vec<FlakeInput>)
    requires
        byte_len(metadata_json@) + 1025 <= usize::MAX,
        scan_inputs(metadata_json@, prefix@, 0) is Some,
    ensures
        Some(inputs_view(out@)) == scan_inputs(metadata_json@, prefix@, 0),
{
    let v = chars_of(metadata_json);
    let ghost s = v@;
    let ghost p = prefix@;
    let needle = chars_of("\"url\":");
    let offs = byte_offsets(&v);
    let mut out: Vec<FlakeInput> = Vec::new();
    let mut from: usize = 0;
    loop
        invariant
            s == v@,
            s == metadata_json@,
            p == prefix@,
            needle@ == url_key(),
            offs@.len() == v@.len() + 1,
            forall|i: int| 0 <= i <= v@.len() ==> #[trigger] offs@[i] == boff(v@, i),
            byte_len(s) + 1025 <= usize::MAX,
            from <= s.len(),
            scan_inputs(s, p, from as int) is Some,
            scan_inputs(s, p, 0) == Some(
                inputs_view(out@) + scan_inputs(s, p, from as int)->Some_0,
            ),
        ensures
            scan_inputs(s, p, 0) == Some(inputs_view(out@)),
        decreases s.len() - from,
    {
        let ghost cur = out@;
        let (ok, next, item) = scan_step(&v, &offs, &needle, prefix, from);
        if !ok {
            assert(false);
            break;
        }
        let nf = match next {
            Some(n) => n,
            None => {
                assert(inputs_view(out@) + Seq::empty() =~= inputs_view(out@));
                break;
            },
        };
        if nf <= from || nf > v.len() {
            assert(inputs_view(out@) + Seq::empty() =~= inputs_view(out@));
            break;
        }
        let ghost rest = scan_inputs(s, p, nf as int)->Some_0;
        match item {
            Some(x) => {
                let ghost xv = (x.url@, x.rev@);
                out.push(x);
                assert(inputs_view(out@) =~= inputs_view(cur) + seq![xv]);
                assert(inputs_view(out@) + rest =~= inputs_view(cur) + (seq![xv] + rest));
            },
            None => {},
        }
        from = nf;
    }
    out
}

/// Whether [`parse_pleme_io_inputs`] can scan `metadata_json` without
/// slicing it off a character boundary.
pub fn scan_stays_on_boundaries(metadata_json: &str, prefix: &str) -> (b: bool)
    requires
        byte_len(metadata_json@) + 1025 <= usize::MAX,
    ensures
        b == scan_inputs(metadata_json@, prefix@, 0) is Some,
{
    let v = chars_of(metadata_json);
    let ghost s = v@;
    let ghost p = prefix@;
    let needle = chars_of("\"url\":");
    let offs = byte_offsets(&v);
    let mut from: usize = 0;
    loop
        invariant
            s == v@,
            s == metadata_json@,
            p == prefix@,
            needle@ == url_key(),
            offs@.len() == v@.len() + 1,
            forall|i: int| 0 <= i <= v@.len() ==> #[trigger] offs@[i] == boff(v@, i),
            byte_len(s) + 1025 <= usize::MAX,
            from <= s.len(),
            (scan_inputs(s, p, 0) is Some) == (scan_inputs(s, p, from as int) is Some),
        decreases s.len() - from,
    {
        let (ok, next, _item) = scan_step(&v, &offs, &needle, prefix, from);
        if !ok {
            return false;
        }
        match next {
            Some(nf) => {
                if nf <= from || nf > v.len() {
                    return true;
                }
                from = nf;
            },
            None => return true,
        }
    }
}

} // verus!
