//! `directory` segment — the working directory with the home directory
//! shown as a symbol, cut to its last components.

use vstd::prelude::*;
use crate::paths::{strip_prefix, stripped_path};
use crate::text::{chars_of, join_with, lemma_join_with_push, lemma_pieces_from_wf,
    lemma_pieces_join, piece_spans, pieces, push_char, string_of_range};

verus! {

broadcast use vstd::string::group_string_axioms;

/// `cwd` with a leading `home` replaced by `home_symbol`: the symbol
/// alone for the home directory itself, the symbol, `/` and the rest
/// below it; `cwd` unchanged outside it or without a home.
pub open spec fn home_display(
    cwd: Seq<char>,
    home: Option<Seq<char>>,
    home_symbol: Seq<char>,
) -> Seq<char> {
    match home {
        Some(h) => match stripped_path(cwd, h) {
            Some(rest) => if rest.len() == 0 {
                home_symbol
            } else {
                home_symbol + seq!['/'] + rest
            },
            None => cwd,
        },
        None => cwd,
    }
}

/// `d` unchanged when `n` is 0 or it has at most `n` non-empty
/// `/`-separated parts; otherwise `marker` followed by its last `n`
/// parts joined by `/`.
pub open spec fn truncate_spec(d: Seq<char>, n: nat, marker: Seq<char>) -> Seq<char> {
    let parts = pieces(d, '/');
    if n == 0 || parts.len() <= n {
        d
    } else {
        marker + join_with(parts.skip(parts.len() - n), '/')
    }
}

/// Cuts a displayed path to its last `truncation` parts (see
/// [`truncate_spec`]).
pub fn truncate_display(display: &str, truncation: usize, truncation_symbol: &str) -> (out: String)
    ensures
        out@ == truncate_spec(display@, truncation as nat, truncation_symbol@),
{
    let v = chars_of(display);
    let sp = piece_spans(&v, '/');
    let ghost parts = pieces(v@, '/');
    if truncation == 0 || sp.len() <= truncation {
        let mut d = String::new();
        d.append(display);
        return d;
    }
    let first = sp.len() - truncation;
    let ghost tail = parts.skip(first as int);
    let mut out = String::new();
    out.append(truncation_symbol);
    let ghost before = out@;
    let (a0, b0) = sp[first];
    let w0 = string_of_range(&v, a0, b0);
    out.append(w0.as_str());
    assert(tail.take(1) =~= seq![parts[first as int]]);
    assert(out@ =~= before + join_with(tail.take(1), '/'));
    let mut k: usize = first + 1;
    while k < sp.len()
        invariant
            first < k <= sp@.len() == parts.len(),
            tail == parts.skip(first as int),
            forall|j: int| 0 <= j < sp@.len() ==> #[trigger] sp@[j].0 <= sp@[j].1 <= v@.len(),
            forall|j: int|
                0 <= j < sp@.len() ==> v@.subrange(sp@[j].0 as int, sp@[j].1 as int)
                    == #[trigger] parts[j],
            out@ == before + join_with(tail.take(k - first), '/'),
        decreases sp.len() - k,
    {
        let (a, b) = sp[k];
        let w = string_of_range(&v, a, b);
        push_char(&mut out, '/');
        out.append(w.as_str());
        proof {
            lemma_join_with_push(tail.take(k - first), tail[k - first], '/');
            assert(tail.take(k - first).push(tail[k - first]) =~= tail.take(k + 1 - first));
        }
        k = k + 1;
    }
    assert(tail.take(sp@.len() - first) =~= tail);
    out
}

/// The working directory as the prompt shows it: `home` replaced by
/// `home_symbol`, then cut to the last `truncation` parts behind
/// `truncation_symbol`.
pub fn display_path(
    cwd: &str,
    home: Option<&str>,
    home_symbol: &str,
    truncation: usize,
    truncation_symbol: &str,
) -> (out: String)
    ensures
        out@ == truncate_spec(
            home_display(cwd@, crate::paths::opt_view(home), home_symbol@),
            truncation as nat,
            truncation_symbol@,
        ),
{
    let mut d = String::new();
    match home {
        Some(h) => match strip_prefix(cwd, h) {
            Some(rest) => {
                d.append(home_symbol);
                if rest.unicode_len() != 0 {
                    push_char(&mut d, '/');
                    d.append(rest.as_str());
                }
                assert(d@ == home_display(cwd@, crate::paths::opt_view(home), home_symbol@));
            },
            None => d.append(cwd),
        },
        None => d.append(cwd),
    }
    truncate_display(d.as_str(), truncation, truncation_symbol)
}

/// A cut path always starts with the marker, so it is never mistaken for
/// a whole path; a path with no more parts than the limit is kept whole.
pub proof fn law_truncation_is_marked(d: Seq<char>, n: nat, marker: Seq<char>)
    ensures
        pieces(d, '/').len() <= n || n == 0 ==> truncate_spec(d, n, marker) == d,
        pieces(d, '/').len() > n && n > 0 ==> truncate_spec(d, n, marker).take(marker.len() as int)
            == marker,
{
    let parts = pieces(d, '/');
    if parts.len() > n && n > 0 {
        let t = truncate_spec(d, n, marker);
        assert(t.take(marker.len() as int) =~= marker);
    }
}

/// A path with more than `n` (> 0) non-empty components is shown as the
/// marker followed by exactly its last `n` components, in order, joined
/// by `/`: what follows the marker splits into `n` components, the `j`-th
/// of them the path's component `len - n + j`, and the last of them the
/// path's last component.
pub proof fn law_truncation_keeps_last_components(d: Seq<char>, n: nat, marker: Seq<char>)
    requires
        n > 0,
        pieces(d, '/').len() > n,
    ensures
        ({
            let parts = pieces(d, '/');
            let out = truncate_spec(d, n, marker);
            let kept = pieces(out.skip(marker.len() as int), '/');
            &&& out.take(marker.len() as int) == marker
            &&& out.skip(marker.len() as int) == join_with(kept, '/')
            &&& kept.len() == n
            &&& forall|j: int| 0 <= j < n ==> #[trigger] kept[j] == parts[parts.len() - n + j]
            &&& kept.last() == parts.last()
        }),
{
    let parts = pieces(d, '/');
    let tail = parts.skip(parts.len() - n);
    lemma_pieces_from_wf(d, 0, '/');
    assert forall|k: int| 0 <= k < tail.len() implies (#[trigger] tail[k]).len() > 0 by {
        assert(tail[k] == parts[parts.len() - n + k]);
    }
    assert forall|k: int, j: int| 0 <= k < tail.len() && 0 <= j < tail[k].len() implies #[trigger] tail[k][j] != '/' by {
        assert(tail[k] == parts[parts.len() - n + k]);
    }
    lemma_pieces_join(Seq::empty(), tail, '/');
    let out = truncate_spec(d, n, marker);
    assert(out.skip(marker.len() as int) =~= Seq::<char>::empty() + join_with(tail, '/'));
    assert(out.take(marker.len() as int) =~= marker);
    assert(tail.len() == n);
    assert(tail.last() == parts.last());
}

} // verus!
