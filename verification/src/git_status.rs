//! `git_status` — working-tree status counts, the one-line wire form the
//! refresh daemon serves them in, and the `git status --porcelain=v2
//! --branch` parser that produces them.

use vstd::prelude::*;
use crate::markup::{render_markup, render_spec, vars_view};
use crate::text::{
    dec_string, replace_all, replace_str,
    append_dec, chars_of, join_with, lemma_join_with_push, dec, is_ws, lemma_dec_digits, lemma_ws_end_bounds, lines, lines_vec,
    parse_uint, parse_uint_range, push_char, range_eq, token_end, token_spans, tokens,
    tokens_from, ws_end,
};

verus! {

broadcast use vstd::string::group_string_axioms;

/// Typed working-tree status — one count per category.
#[derive(Debug, Clone, Copy, PartialEq, Eq, Structural)]
pub struct GitStatus {
    pub staged: u32,
    pub modified: u32,
    pub deleted: u32,
    pub renamed: u32,
    pub untracked: u32,
    pub conflicted: u32,
    pub stashed: u32,
    pub ahead: u32,
    pub behind: u32,
}

/// The all-zero status.
pub open spec fn zero_status() -> GitStatus {
    GitStatus {
        staged: 0,
        modified: 0,
        deleted: 0,
        renamed: 0,
        untracked: 0,
        conflicted: 0,
        stashed: 0,
        ahead: 0,
        behind: 0,
    }
}

impl Default for GitStatus {
    fn default() -> (st: GitStatus)
        ensures
            st == zero_status(),
    {
        GitStatus {
            staged: 0,
            modified: 0,
            deleted: 0,
            renamed: 0,
            untracked: 0,
            conflicted: 0,
            stashed: 0,
            ahead: 0,
            behind: 0,
        }
    }
}

/// The nine counts in wire order.
pub open spec fn status_counts(st: GitStatus) -> Seq<u32> {
    seq![
        st.staged,
        st.modified,
        st.deleted,
        st.renamed,
        st.untracked,
        st.conflicted,
        st.stashed,
        st.ahead,
        st.behind,
    ]
}

/// The decimal renderings of a sequence of counts.
pub open spec fn decimals(ns: Seq<u32>) -> Seq<Seq<char>> {
    ns.map_values(|n: u32| dec(n as nat))
}

/// The wire form: the nine counts in decimal, separated by single spaces.
pub open spec fn wire_spec(st: GitStatus) -> Seq<char> {
    join_with(decimals(status_counts(st)), ' ')
}

/// Every token parses as a `u32`.
pub open spec fn all_u32(toks: Seq<Seq<char>>) -> bool {
    forall|j: int| 0 <= j < toks.len() ==> (#[trigger] parse_uint(toks[j], u32::MAX as nat)) is Some
}

/// The `u32` value of each token (meaningful where [`all_u32`] holds).
pub open spec fn u32_values(toks: Seq<Seq<char>>) -> Seq<nat> {
    toks.map_values(|t: Seq<char>| parse_uint(t, u32::MAX as nat).unwrap())
}

/// A status from nine counts given in wire order.
pub open spec fn status_of(ns: Seq<nat>) -> GitStatus {
    GitStatus {
        staged: ns[0] as u32,
        modified: ns[1] as u32,
        deleted: ns[2] as u32,
        renamed: ns[3] as u32,
        untracked: ns[4] as u32,
        conflicted: ns[5] as u32,
        stashed: ns[6] as u32,
        ahead: ns[7] as u32,
        behind: ns[8] as u32,
    }
}

/// What [`GitStatus::from_wire`] gives for `line`: a status only when the
/// line holds exactly nine whitespace-separated tokens and every one of them
/// parses as a `u32`; any other line is rejected.
pub open spec fn from_wire_spec(line: Seq<char>) -> Option<GitStatus> {
    let toks = tokens(line);
    if toks.len() == 9 && all_u32(toks) {
        Some(status_of(u32_values(toks)))
    } else {
        None
    }
}

impl GitStatus {
    /// Every count is zero.
    pub open spec fn clean_spec(&self) -> bool {
        &&& self.staged == 0
        &&& self.modified == 0
        &&& self.deleted == 0
        &&& self.renamed == 0
        &&& self.untracked == 0
        &&& self.conflicted == 0
        &&& self.stashed == 0
        &&& self.ahead == 0
        &&& self.behind == 0
    }

    /// Nothing to show: a pristine, up-to-date, stash-free tree.
    pub fn is_clean(&self) -> (b: bool)
        ensures
            b == self.clean_spec(),
    {
        self.staged == 0 && self.modified == 0 && self.deleted == 0 && self.renamed == 0
            && self.untracked == 0 && self.conflicted == 0 && self.stashed == 0 && self.ahead
            == 0 && self.behind == 0
    }

    /// The nine counts as a single space-separated line.
    pub fn to_wire(&self) -> (out: String)
        ensures
            out@ == wire_spec(*self),
    {
        let vals: Vec<u32> = vec![
            self.staged,
            self.modified,
            self.deleted,
            self.renamed,
            self.untracked,
            self.conflicted,
            self.stashed,
            self.ahead,
            self.behind,
        ];
        let ghost words = decimals(status_counts(*self));
        assert(vals@ =~= status_counts(*self));
        let mut out = String::new();
        append_dec(&mut out, vals[0] as u64);
        assert(out@ =~= join_with(words.take(1), ' '));
        let mut i: usize = 1;
        while i < vals.len()
            invariant
                1 <= i <= vals@.len() == 9,
                vals@ == status_counts(*self),
                words == decimals(status_counts(*self)),
                out@ == join_with(words.take(i as int), ' '),
            decreases vals.len() - i,
        {
            push_char(&mut out, ' ');
            append_dec(&mut out, vals[i] as u64);
            proof {
                lemma_join_with_push(words.take(i as int), words[i as int], ' ');
                assert(words.take(i as int).push(words[i as int]) =~= words.take(i + 1));
            }
            i = i + 1;
        }
        assert(words.take(9) =~= words);
        out
    }

    /// Parses the wire form: `None` unless exactly nine `u32` fields are
    /// present.
    pub fn from_wire(line: &str) -> (r: Option<GitStatus>)
        ensures
            r == from_wire_spec(line@),
    {
        let v = chars_of(line);
        let sp = token_spans(&v);
        if sp.len() != 9 {
            return None;
        }
        let ghost toks = tokens(v@);
        let mut nums: Vec<u32> = Vec::new();
        let mut k: usize = 0;
        while k < sp.len()
            invariant
                0 <= k <= sp@.len() == toks.len() == 9,
                v@ == line@,
                toks == tokens(v@),
                forall|j: int| 0 <= j < sp@.len() ==> #[trigger] sp@[j].0 <= sp@[j].1 <= v@.len(),
                forall|j: int|
                    0 <= j < sp@.len() ==> v@.subrange(sp@[j].0 as int, sp@[j].1 as int)
                        == #[trigger] toks[j],
                nums@.len() == k,
                forall|j: int|
                    0 <= j < k ==> parse_uint(#[trigger] toks[j], u32::MAX as nat) == Some(
                        nums@[j] as nat,
                    ),
            decreases sp.len() - k,
        {
            let (a, b) = sp[k];
            proof {
                assert(v@.subrange(a as int, b as int) == toks[k as int]);
            }
            match parse_uint_range(&v, a, b, 0xffff_ffffu64) {
                Some(x) => {
                    nums.push(x as u32);
                },
                None => {
                    proof {
                        assert(!all_u32(toks));
                    }
                    return None;
                },
            }
            k = k + 1;
        }
        proof {
            assert(all_u32(toks));
            assert forall|j: int| 0 <= j < 9 implies #[trigger] u32_values(toks)[j] == nums@[j] as nat by {
                assert(parse_uint(toks[j], u32::MAX as nat) == Some(nums@[j] as nat));
            }
        }
        Some(
            GitStatus {
                staged: nums[0],
                modified: nums[1],
                deleted: nums[2],
                renamed: nums[3],
                untracked: nums[4],
                conflicted: nums[5],
                stashed: nums[6],
                ahead: nums[7],
                behind: nums[8],
            },
        )
    }
}

/// A run of non-whitespace characters ending at whitespace or at the end
/// is one token's extent.
proof fn lemma_token_end_run(s: Seq<char>, i: int, k: int)
    requires
        0 <= i <= k <= s.len(),
        forall|j: int| i <= j < k ==> !is_ws(#[trigger] s[j]),
        k == s.len() || is_ws(s[k]),
    ensures
        token_end(s, i) == k,
    decreases k - i,
{
    if i < k {
        lemma_token_end_run(s, i + 1, k);
    }
}

/// Whitespace before the next token does not change the tokens.
proof fn lemma_tokens_skip_ws(s: Seq<char>, i: int)
    requires
        0 <= i < s.len(),
        is_ws(s[i]),
    ensures
        tokens_from(s, i) == tokens_from(s, i + 1),
{
    lemma_ws_end_bounds(s, i + 1);
    assert(ws_end(s, i) == ws_end(s, i + 1));
}

/// Words free of whitespace, joined by single spaces, split back into
/// the same words.
proof fn lemma_tokens_join(p: Seq<char>, words: Seq<Seq<char>>)
    requires
        forall|k: int| 0 <= k < words.len() ==> (#[trigger] words[k]).len() > 0,
        forall|k: int, j: int|
            0 <= k < words.len() && 0 <= j < words[k].len() ==> !is_ws(#[trigger] words[k][j]),
    ensures
        tokens_from(p + join_with(words, ' '), p.len() as int) == words,
    decreases words.len(),
{
    let s = p + join_with(words, ' ');
    let n = p.len() as int;
    if words.len() == 0 {
        lemma_ws_end_bounds(s, n);
        assert(tokens_from(s, n) =~= words);
    } else {
        let w0 = words[0];
        assert(s[n] == w0[0]);
        assert(!is_ws(w0[0]));
        assert(ws_end(s, n) == n);
        if words.len() == 1 {
            assert(s =~= p + w0);
            assert forall|j: int| n <= j < s.len() implies !is_ws(#[trigger] s[j]) by {
                assert(s[j] == w0[j - n]);
            }
            lemma_token_end_run(s, n, s.len() as int);
            lemma_ws_end_bounds(s, s.len() as int);
            assert(tokens_from(s, s.len() as int) =~= Seq::<Seq<char>>::empty());
            assert(s.subrange(n, s.len() as int) =~= w0);
            assert(tokens_from(s, n) =~= words);
        } else {
            let rest = words.drop_first();
            let p2 = p + w0 + seq![' '];
            assert(s =~= p2 + join_with(rest, ' '));
            let k = n + w0.len();
            assert(s[k] == ' ');
            assert forall|j: int| n <= j < k implies !is_ws(#[trigger] s[j]) by {
                assert(s[j] == w0[j - n]);
            }
            lemma_token_end_run(s, n, k);
            lemma_tokens_skip_ws(s, k);
            assert forall|q: int| 0 <= q < rest.len() implies (#[trigger] rest[q]).len() > 0 by {
                assert(rest[q] == words[q + 1]);
            }
            assert forall|q: int, j: int| 0 <= q < rest.len() && 0 <= j < rest[q].len() implies !is_ws(
                #[trigger] rest[q][j],
            ) by {
                assert(rest[q] == words[q + 1]);
            }
            lemma_tokens_join(p2, rest);
            assert(p2.len() == k + 1);
            assert(s.subrange(n, k) =~= w0);
            assert(tokens_from(s, n) =~= seq![w0] + rest);
            assert(seq![w0] + rest =~= words);
        }
    }
}

/// Reading back the wire form of a status gives the same status.
pub proof fn law_wire_roundtrip(st: GitStatus)
    ensures
        from_wire_spec(wire_spec(st)) == Some(st),
{
    let ns = status_counts(st);
    let words = decimals(ns);
    assert forall|k: int| 0 <= k < words.len() implies (#[trigger] words[k]).len() > 0 by {
        lemma_dec_digits(ns[k] as nat);
    }
    assert forall|k: int, j: int| 0 <= k < words.len() && 0 <= j < words[k].len() implies !is_ws(
        #[trigger] words[k][j],
    ) by {
        lemma_dec_digits(ns[k] as nat);
        assert(crate::text::is_digit(words[k][j]));
    }
    lemma_tokens_join(Seq::empty(), words);
    assert(Seq::<char>::empty() + join_with(words, ' ') =~= join_with(words, ' '));
    assert forall|k: int| 0 <= k < words.len() implies #[trigger] parse_uint(
        words[k],
        u32::MAX as nat,
    ) == Some(ns[k] as nat) by {
        lemma_dec_digits(ns[k] as nat);
    }
    assert(all_u32(words));
    let vals = u32_values(words);
    assert(vals.len() == 9);
    assert forall|k: int| 0 <= k < 9 implies vals[k] == ns[k] as nat by {
        assert(parse_uint(words[k], u32::MAX as nat) == Some(ns[k] as nat));
    }
    assert(status_of(vals) == st);
}


// ── porcelain v2 ───────────────────────────────────────────────────

/// Index of the first `' '` at or after `i`, or the end of `s`.
pub open spec fn field_end(s: Seq<char>, i: int) -> int
    decreases s.len() - i,
{
    if i < 0 || i >= s.len() {
        s.len() as int
    } else if s[i] == ' ' {
        i
    } else {
        field_end(s, i + 1)
    }
}

proof fn lemma_field_end(s: Seq<char>, i: int)
    requires
        0 <= i <= s.len(),
    ensures
        i <= field_end(s, i) <= s.len(),
        field_end(s, i) < s.len() ==> s[field_end(s, i)] == ' ',
    decreases s.len() - i,
{
    if i < s.len() && s[i] != ' ' {
        lemma_field_end(s, i + 1);
    }
}

fn field_end_vec(v: &Vec<char>, i: usize) -> (e: usize)
    requires
        i <= v@.len(),
    ensures
        e == field_end(v@, i as int),
        i <= e <= v@.len(),
{
    let mut e: usize = i;
    while e < v.len() && v[e] != ' '
        invariant
            i <= e <= v@.len(),
            field_end(v@, e as int) == field_end(v@, i as int),
        decreases v.len() - e,
    {
        e = e + 1;
    }
    e
}

/// The text before the first `' '` of a line.
pub open spec fn first_field(l: Seq<char>) -> Seq<char> {
    l.subrange(0, field_end(l, 0))
}

/// The `<XY>` pair of an ordinary (`1`) or renamed/copied (`2`) entry,
/// a missing side read as `'.'`; `None` for any other line.
pub open spec fn entry_xy(l: Seq<char>) -> Option<(char, char)> {
    let e0 = field_end(l, 0);
    let f = l.subrange(0, e0);
    if (f == "1"@ || f == "2"@) && e0 < l.len() {
        let xy = l.subrange(e0 + 1, field_end(l, e0 + 1));
        Some(
            (
                if xy.len() > 0 {
                    xy[0]
                } else {
                    '.'
                },
                if xy.len() > 1 {
                    xy[1]
                } else {
                    '.'
                },
            ),
        )
    } else {
        None
    }
}

pub open spec fn flag(b: bool) -> nat {
    if b {
        1
    } else {
        0
    }
}

/// Index side changed.
pub open spec fn staged_in(l: Seq<char>) -> nat {
    match entry_xy(l) {
        Some(xy) => flag(xy.0 != '.'),
        None => 0,
    }
}

/// Worktree side modified or type-changed.
pub open spec fn modified_in(l: Seq<char>) -> nat {
    match entry_xy(l) {
        Some(xy) => flag(xy.1 == 'M' || xy.1 == 'T'),
        None => 0,
    }
}

/// Deletions, index side and worktree side each counted.
pub open spec fn deleted_in(l: Seq<char>) -> nat {
    match entry_xy(l) {
        Some(xy) => flag(xy.0 == 'D') + flag(xy.1 == 'D'),
        None => 0,
    }
}

/// Renames or copies, index side and worktree side each counted.
pub open spec fn renamed_in(l: Seq<char>) -> nat {
    match entry_xy(l) {
        Some(xy) => flag(xy.0 == 'R' || xy.0 == 'C') + flag(xy.1 == 'R' || xy.1 == 'C'),
        None => 0,
    }
}

pub open spec fn untracked_in(l: Seq<char>) -> nat {
    flag(first_field(l) == "?"@)
}

pub open spec fn conflicted_in(l: Seq<char>) -> nat {
    flag(first_field(l) == "u"@)
}

/// The sum of `f` over the lines `ls`.
pub open spec fn sum_over(ls: Seq<Seq<char>>, f: spec_fn(Seq<char>) -> nat) -> nat
    decreases ls.len(),
{
    if ls.len() == 0 {
        0
    } else {
        sum_over(ls.drop_last(), f) + f(ls.last())
    }
}

proof fn lemma_sum_over_prefix(ls: Seq<Seq<char>>, f: spec_fn(Seq<char>) -> nat, i: int)
    requires
        0 <= i <= ls.len(),
    ensures
        sum_over(ls.take(i), f) <= sum_over(ls, f),
    decreases ls.len() - i,
{
    if i < ls.len() {
        lemma_sum_over_prefix(ls, f, i + 1);
        assert(ls.take(i + 1).drop_last() =~= ls.take(i));
    } else {
        assert(ls.take(i) =~= ls);
    }
}

/// One `+A` / `-B` token of the `# branch.ab` header: a value that does
/// not parse counts as 0.
pub open spec fn ab_step(ab: (u32, u32), tok: Seq<char>) -> (u32, u32) {
    if tok.len() > 0 && tok[0] == '+' {
        (
            match parse_uint(tok.drop_first(), u32::MAX as nat) {
                Some(v) => v as u32,
                None => 0,
            },
            ab.1,
        )
    } else if tok.len() > 0 && tok[0] == '-' {
        (
            ab.0,
            match parse_uint(tok.drop_first(), u32::MAX as nat) {
                Some(v) => v as u32,
                None => 0,
            },
        )
    } else {
        ab
    }
}

/// `ab` after the `' '`-separated tokens of `l[i..]`, left to right.
pub open spec fn ab_from(l: Seq<char>, i: int, ab: (u32, u32)) -> (u32, u32)
    decreases l.len() + 1 - i,
{
    if i < 0 || i > l.len() {
        ab
    } else {
        let e = field_end(l, i);
        if e < i || e > l.len() {
            ab
        } else {
            ab_from(l, e + 1, ab_step(ab, l.subrange(i, e)))
        }
    }
}

/// `ab` after one line: only a `# branch.ab` header changes it.
pub open spec fn header_ab(l: Seq<char>, ab: (u32, u32)) -> (u32, u32) {
    let e0 = field_end(l, 0);
    if l.subrange(0, e0) == "#"@ && e0 < l.len() {
        let e1 = field_end(l, e0 + 1);
        if l.subrange(e0 + 1, e1) == "branch.ab"@ && e1 < l.len() {
            ab_from(l, e1 + 1, ab)
        } else {
            ab
        }
    } else {
        ab
    }
}

/// Ahead/behind after the lines `ls`, starting from zero.
pub open spec fn ab_over(ls: Seq<Seq<char>>) -> (u32, u32)
    decreases ls.len(),
{
    if ls.len() == 0 {
        (0, 0)
    } else {
        header_ab(ls.last(), ab_over(ls.drop_last()))
    }
}

/// The counts of `out`, as natural numbers, fit in a `u32`.
pub open spec fn porcelain_fits(out: Seq<char>) -> bool {
    let ls = lines(out);
    &&& sum_over(ls, |l: Seq<char>| staged_in(l)) <= u32::MAX
    &&& sum_over(ls, |l: Seq<char>| modified_in(l)) <= u32::MAX
    &&& sum_over(ls, |l: Seq<char>| deleted_in(l)) <= u32::MAX
    &&& sum_over(ls, |l: Seq<char>| renamed_in(l)) <= u32::MAX
    &&& sum_over(ls, |l: Seq<char>| untracked_in(l)) <= u32::MAX
    &&& sum_over(ls, |l: Seq<char>| conflicted_in(l)) <= u32::MAX
}

/// The status `git status --porcelain=v2 --branch` output `out` describes
/// (the stash count is not part of it and stays 0).
pub open spec fn porcelain_spec(out: Seq<char>) -> GitStatus {
    let ls = lines(out);
    GitStatus {
        staged: sum_over(ls, |l: Seq<char>| staged_in(l)) as u32,
        modified: sum_over(ls, |l: Seq<char>| modified_in(l)) as u32,
        deleted: sum_over(ls, |l: Seq<char>| deleted_in(l)) as u32,
        renamed: sum_over(ls, |l: Seq<char>| renamed_in(l)) as u32,
        untracked: sum_over(ls, |l: Seq<char>| untracked_in(l)) as u32,
        conflicted: sum_over(ls, |l: Seq<char>| conflicted_in(l)) as u32,
        stashed: 0,
        ahead: ab_over(ls).0,
        behind: ab_over(ls).1,
    }
}

/// Whether `l` is a `# branch.ab` header line (the only lines that move
/// ahead/behind).
pub open spec fn is_ab_header(l: Seq<char>) -> bool {
    let e0 = field_end(l, 0);
    let e1 = field_end(l, e0 + 1);
    &&& l.subrange(0, e0) == "#"@
    &&& e0 < l.len()
    &&& l.subrange(e0 + 1, e1) == "branch.ab"@
    &&& e1 < l.len()
}

proof fn lemma_sum_over_concat(x: Seq<Seq<char>>, y: Seq<Seq<char>>, f: spec_fn(Seq<char>) -> nat)
    ensures
        sum_over(x + y, f) == sum_over(x, f) + sum_over(y, f),
    decreases y.len(),
{
    if y.len() == 0 {
        assert(x + y =~= x);
    } else {
        lemma_sum_over_concat(x, y.drop_last(), f);
        assert((x + y).drop_last() =~= x + y.drop_last());
        assert((x + y).last() == y.last());
    }
}

proof fn lemma_ab_over_no_header(x: Seq<Seq<char>>, y: Seq<Seq<char>>)
    requires
        forall|k: int| 0 <= k < y.len() ==> !is_ab_header(#[trigger] y[k]),
    ensures
        ab_over(x + y) == ab_over(x),
    decreases y.len(),
{
    if y.len() == 0 {
        assert(x + y =~= x);
    } else {
        let y0 = y.drop_last();
        lemma_ab_over_no_header(x, y0);
        assert((x + y).drop_last() =~= x + y0);
        assert((x + y).last() == y.last());
        assert(!is_ab_header(y[y.len() - 1]));
    }
}

/// Reading two porcelain outputs one after the other, the first of them
/// complete (empty or ending in a newline), counts each kind of entry as
/// the two readings together: the six entry counts add up, the stash
/// count stays 0, a second part without a `# branch.ab` header keeps the
/// first part's ahead/behind, and with no such header anywhere both are 0.
pub proof fn law_porcelain_counts_add(a: Seq<char>, b: Seq<char>)
    requires
        a.len() > 0 ==> a.last() == '\n',
        porcelain_fits(a + b),
    ensures
        ({
            let (x, y, z) = (porcelain_spec(a), porcelain_spec(b), porcelain_spec(a + b));
            &&& z.staged == x.staged + y.staged
            &&& z.modified == x.modified + y.modified
            &&& z.deleted == x.deleted + y.deleted
            &&& z.renamed == x.renamed + y.renamed
            &&& z.untracked == x.untracked + y.untracked
            &&& z.conflicted == x.conflicted + y.conflicted
            &&& z.stashed == 0
            &&& (forall|k: int| 0 <= k < lines(b).len() ==> !is_ab_header(#[trigger] lines(b)[k]))
                ==> z.ahead == x.ahead && z.behind == x.behind
            &&& (forall|k: int|
                0 <= k < lines(a + b).len() ==> !is_ab_header(#[trigger] lines(a + b)[k]))
                ==> z.ahead == 0 && z.behind == 0
        }),
{
    crate::text::lemma_lines_concat(a, b);
    let la = lines(a);
    let lb = lines(b);
    let fs = |l: Seq<char>| staged_in(l);
    let fm = |l: Seq<char>| modified_in(l);
    let fd = |l: Seq<char>| deleted_in(l);
    let fr = |l: Seq<char>| renamed_in(l);
    let fu = |l: Seq<char>| untracked_in(l);
    let fc = |l: Seq<char>| conflicted_in(l);
    lemma_sum_over_concat(la, lb, fs);
    lemma_sum_over_concat(la, lb, fm);
    lemma_sum_over_concat(la, lb, fd);
    lemma_sum_over_concat(la, lb, fr);
    lemma_sum_over_concat(la, lb, fu);
    lemma_sum_over_concat(la, lb, fc);
    if forall|k: int| 0 <= k < lb.len() ==> !is_ab_header(#[trigger] lb[k]) {
        lemma_ab_over_no_header(la, lb);
    }
    if forall|k: int| 0 <= k < lines(a + b).len() ==> !is_ab_header(#[trigger] lines(a + b)[k]) {
        let e = Seq::<Seq<char>>::empty();
        lemma_ab_over_no_header(e, lines(a + b));
        assert(e + lines(a + b) =~= lines(a + b));
    }
}

/// Applies the `+A` / `-B` tokens of `l[i..]` to `ab`.
fn apply_ab_tokens(l: &Vec<char>, i: usize, ab: (u32, u32)) -> (r: (u32, u32))
    requires
        i <= l@.len(),
    ensures
        r == ab_from(l@, i as int, ab),
{
    let mut i: usize = i;
    let mut cur = ab;
    let ghost start = i;
    let ghost init = ab;
    loop
        invariant
            i <= l@.len(),
            ab_from(l@, i as int, cur) == ab_from(l@, start as int, init),
        ensures
            cur == ab_from(l@, start as int, init),
        decreases l@.len() - i,
    {
        let e = field_end_vec(l, i);
        proof {
            lemma_field_end(l@, i as int);
        }
        let ghost tok = l@.subrange(i as int, e as int);
        let ghost old_cur = cur;
        if i < e && l[i] == '+' {
            let p = parse_uint_range(l, i + 1, e, 0xffff_ffffu64);
            assert(tok.drop_first() =~= l@.subrange(i + 1, e as int));
            cur = (
                match p {
                    Some(v) => v as u32,
                    None => 0,
                },
                cur.1,
            );
        } else if i < e && l[i] == '-' {
            let p = parse_uint_range(l, i + 1, e, 0xffff_ffffu64);
            assert(tok.drop_first() =~= l@.subrange(i + 1, e as int));
            cur = (
                cur.0,
                match p {
                    Some(v) => v as u32,
                    None => 0,
                },
            );
        }
        assert(cur == ab_step(old_cur, tok));
        assert(ab_from(l@, i as int, old_cur) == ab_from(l@, e + 1, cur));
        if e >= l.len() {
            assert(ab_from(l@, e + 1, cur) == cur);
            break;
        }
        i = e + 1;
    }
    cur
}

/// Adds one porcelain line to the running counts.
fn tally_line(st: &mut GitStatus, l: &Vec<char>)
    requires
        old(st).staged + staged_in(l@) <= u32::MAX,
        old(st).modified + modified_in(l@) <= u32::MAX,
        old(st).deleted + deleted_in(l@) <= u32::MAX,
        old(st).renamed + renamed_in(l@) <= u32::MAX,
        old(st).untracked + untracked_in(l@) <= u32::MAX,
        old(st).conflicted + conflicted_in(l@) <= u32::MAX,
    ensures
        final(st).staged == old(st).staged + staged_in(l@),
        final(st).modified == old(st).modified + modified_in(l@),
        final(st).deleted == old(st).deleted + deleted_in(l@),
        final(st).renamed == old(st).renamed + renamed_in(l@),
        final(st).untracked == old(st).untracked + untracked_in(l@),
        final(st).conflicted == old(st).conflicted + conflicted_in(l@),
        final(st).stashed == old(st).stashed,
        (final(st).ahead, final(st).behind) == header_ab(l@, (old(st).ahead, old(st).behind)),
{
    let e0 = field_end_vec(l, 0);
    proof {
        lemma_field_end(l@, 0);
        reveal_strlit("#");
        reveal_strlit("?");
        reveal_strlit("u");
        reveal_strlit("1");
        reveal_strlit("2");
    }
    if range_eq(l, 0, e0, "#") {
        assert(l@.subrange(0, e0 as int)[0] == '#');
        if e0 < l.len() {
            let e1 = field_end_vec(l, e0 + 1);
            if range_eq(l, e0 + 1, e1, "branch.ab") && e1 < l.len() {
                let ab = apply_ab_tokens(l, e1 + 1, (st.ahead, st.behind));
                st.ahead = ab.0;
                st.behind = ab.1;
            }
        }
        assert(entry_xy(l@) is None);
    } else if range_eq(l, 0, e0, "?") {
        st.untracked = st.untracked + 1;
        assert(l@.subrange(0, e0 as int)[0] == '?');
        assert(entry_xy(l@) is None);
    } else if range_eq(l, 0, e0, "u") {
        st.conflicted = st.conflicted + 1;
        assert(l@.subrange(0, e0 as int)[0] == 'u');
        assert(entry_xy(l@) is None);
    } else if range_eq(l, 0, e0, "1") || range_eq(l, 0, e0, "2") {
        assert(l@.subrange(0, e0 as int)[0] == '1' || l@.subrange(0, e0 as int)[0] == '2');
        if e0 < l.len() {
            let e1 = field_end_vec(l, e0 + 1);
            proof {
                lemma_field_end(l@, e0 + 1);
            }
            let x = if e1 > e0 + 1 {
                l[e0 + 1]
            } else {
                '.'
            };
            let y = if e1 - e0 > 2 {
                l[e0 + 2]
            } else {
                '.'
            };
            assert(entry_xy(l@) == Some((x, y)));
            if x != '.' {
                st.staged = st.staged + 1;
            }
            if x == 'D' {
                st.deleted = st.deleted + 1;
            }
            if x == 'R' || x == 'C' {
                st.renamed = st.renamed + 1;
            }
            if y == 'M' || y == 'T' {
                st.modified = st.modified + 1;
            } else if y == 'D' {
                st.deleted = st.deleted + 1;
            } else if y == 'R' || y == 'C' {
                st.renamed = st.renamed + 1;
            }
        }
    }
}

/// Parses `git status --porcelain=v2 --branch` output into counts.
///
/// Each changed entry's `<XY>` field has X = the staged (index) side and
/// Y = the worktree side; both sides are counted. `# branch.ab +A -B`
/// gives ahead/behind. The stash count is left at 0.
pub fn parse_porcelain_v2(out: &str) -> (st: GitStatus)
    requires
        porcelain_fits(out@),
    ensures
        st == porcelain_spec(out@),
{
    let v = chars_of(out);
    let ls = lines_vec(&v);
    let ghost lsv = lines(out@);
    let ghost fs = |l: Seq<char>| staged_in(l);
    let ghost fm = |l: Seq<char>| modified_in(l);
    let ghost fd = |l: Seq<char>| deleted_in(l);
    let ghost fr = |l: Seq<char>| renamed_in(l);
    let ghost fu = |l: Seq<char>| untracked_in(l);
    let ghost fc = |l: Seq<char>| conflicted_in(l);
    let mut st = GitStatus::default();
    let mut i: usize = 0;
    while i < ls.len()
        invariant
            0 <= i <= ls@.len() == lsv.len(),
            lsv == lines(out@),
            forall|k: int| 0 <= k < ls@.len() ==> #[trigger] ls@[k]@ == lsv[k],
            porcelain_fits(out@),
            fs == (|l: Seq<char>| staged_in(l)),
            fm == (|l: Seq<char>| modified_in(l)),
            fd == (|l: Seq<char>| deleted_in(l)),
            fr == (|l: Seq<char>| renamed_in(l)),
            fu == (|l: Seq<char>| untracked_in(l)),
            fc == (|l: Seq<char>| conflicted_in(l)),
            st.staged == sum_over(lsv.take(i as int), fs),
            st.modified == sum_over(lsv.take(i as int), fm),
            st.deleted == sum_over(lsv.take(i as int), fd),
            st.renamed == sum_over(lsv.take(i as int), fr),
            st.untracked == sum_over(lsv.take(i as int), fu),
            st.conflicted == sum_over(lsv.take(i as int), fc),
            st.stashed == 0,
            (st.ahead, st.behind) == ab_over(lsv.take(i as int)),
        decreases ls.len() - i,
    {
        let ghost pre = lsv.take(i as int);
        let ghost next = lsv.take(i + 1);
        proof {
            assert(next.drop_last() =~= pre);
            assert(next.last() == lsv[i as int]);
            lemma_sum_over_prefix(lsv, fs, i + 1);
            lemma_sum_over_prefix(lsv, fm, i + 1);
            lemma_sum_over_prefix(lsv, fd, i + 1);
            lemma_sum_over_prefix(lsv, fr, i + 1);
            lemma_sum_over_prefix(lsv, fu, i + 1);
            lemma_sum_over_prefix(lsv, fc, i + 1);
        }
        tally_line(&mut st, &ls[i]);
        i = i + 1;
    }
    assert(lsv.take(ls@.len() as int) =~= lsv);
    st
}

/// Number of lines of `contents` that hold something besides whitespace,
/// truncated to `u32` (the stash reflog's entry count).
pub open spec fn nonblank_lines_spec(contents: Seq<char>) -> nat {
    sum_over(lines(contents), |l: Seq<char>| flag(crate::text::trim_start(l).len() > 0))
}

/// Counts the stash reflog's entries: its lines that are not blank,
/// truncated to `u32`.
pub fn count_stash_entries(contents: &str) -> (n: u32)
    ensures
        n as nat == nonblank_lines_spec(contents@) % 0x1_0000_0000,
{
    let v = chars_of(contents);
    let ls = lines_vec(&v);
    let ghost lsv = lines(contents@);
    let ghost f = |l: Seq<char>| flag(crate::text::trim_start(l).len() > 0);
    let mut n: u64 = 0;
    let mut i: usize = 0;
    while i < ls.len()
        invariant
            0 <= i <= ls@.len() == lsv.len(),
            lsv == lines(contents@),
            forall|k: int| 0 <= k < ls@.len() ==> #[trigger] ls@[k]@ == lsv[k],
            f == (|l: Seq<char>| flag(crate::text::trim_start(l).len() > 0)),
            n == sum_over(lsv.take(i as int), f),
            n <= i,
        decreases ls.len() - i,
    {
        proof {
            assert(lsv.take(i + 1).drop_last() =~= lsv.take(i as int));
            assert(lsv.take(i + 1).last() == lsv[i as int]);
        }
        let line = &ls[i];
        let a = crate::text::skip_ws(line, 0, line.len());
        proof {
            crate::text::lemma_ws_end_bounds(line@, 0);
        }
        if a < line.len() {
            n = n + 1;
        }
        i = i + 1;
    }
    assert(lsv.take(ls@.len() as int) =~= lsv);
    (n % 0x1_0000_0000u64) as u32
}

// ── rendering ─────────────────────────────────────────────────────

/// The symbols and format a `git_status` segment renders with.
pub struct GitStatusConfig {
    pub format: String,
    pub conflicted: String,
    pub stashed: String,
    pub deleted: String,
    pub renamed: String,
    pub modified: String,
    pub staged: String,
    pub untracked: String,
    /// Shown when only ahead; `${count}` is the distance.
    pub ahead: String,
    /// Shown when only behind; `${count}` is the distance.
    pub behind: String,
    /// Shown when both; `${ahead_count}`, `${behind_count}`.
    pub diverged: String,
    pub up_to_date: String,
    /// Shown for a clean tree; empty renders nothing.
    pub clean_symbol: String,
}

/// A category's symbol for `count` entries: nothing for none or for an
/// empty symbol, else the symbol with `${count}` replaced by the count.
pub open spec fn present_spec(symbol: Seq<char>, count: u32) -> Seq<char> {
    if count == 0 || symbol.len() == 0 {
        Seq::empty()
    } else {
        replace_all(symbol, "${count}"@, dec(count as nat))
    }
}

/// `$all_status`: the symbols of the non-zero categories, in the order
/// conflicted, stashed, deleted, renamed, modified, staged, untracked.
pub open spec fn all_status_spec(cfg: GitStatusConfig, st: GitStatus) -> Seq<char> {
    present_spec(cfg.conflicted@, st.conflicted) + present_spec(cfg.stashed@, st.stashed)
        + present_spec(cfg.deleted@, st.deleted) + present_spec(cfg.renamed@, st.renamed)
        + present_spec(cfg.modified@, st.modified) + present_spec(cfg.staged@, st.staged)
        + present_spec(cfg.untracked@, st.untracked)
}

/// `$ahead_behind`: `diverged` when both ahead and behind, the one-sided
/// symbol when one, `up_to_date` otherwise.
pub open spec fn ahead_behind_spec(cfg: GitStatusConfig, st: GitStatus) -> Seq<char> {
    if st.ahead > 0 && st.behind > 0 {
        replace_all(
            replace_all(cfg.diverged@, "${ahead_count}"@, dec(st.ahead as nat)),
            "${behind_count}"@,
            dec(st.behind as nat),
        )
    } else if st.ahead > 0 {
        replace_all(cfg.ahead@, "${count}"@, dec(st.ahead as nat))
    } else if st.behind > 0 {
        replace_all(cfg.behind@, "${count}"@, dec(st.behind as nat))
    } else {
        cfg.up_to_date@
    }
}

/// The bindings the format sees for a status that is not clean.
pub open spec fn status_vars(cfg: GitStatusConfig, st: GitStatus) -> Seq<(Seq<char>, Seq<char>)> {
    seq![
        ("all_status"@, all_status_spec(cfg, st)),
        ("ahead_behind"@, ahead_behind_spec(cfg, st)),
        ("conflicted"@, present_spec(cfg.conflicted@, st.conflicted)),
        ("stashed"@, present_spec(cfg.stashed@, st.stashed)),
        ("deleted"@, present_spec(cfg.deleted@, st.deleted)),
        ("renamed"@, present_spec(cfg.renamed@, st.renamed)),
        ("modified"@, present_spec(cfg.modified@, st.modified)),
        ("staged"@, present_spec(cfg.staged@, st.staged)),
        ("untracked"@, present_spec(cfg.untracked@, st.untracked)),
    ]
}

/// The segment text: for a clean status nothing, or the format with
/// `$all_status` bound to the clean symbol when one is set; otherwise
/// the format with the [`status_vars`].
pub open spec fn body_spec(cfg: GitStatusConfig, st: GitStatus) -> Seq<char> {
    if st.clean_spec() {
        if cfg.clean_symbol@.len() == 0 {
            Seq::empty()
        } else {
            render_spec(
                cfg.format@,
                seq![("all_status"@, cfg.clean_symbol@), ("ahead_behind"@, Seq::empty())],
                true,
            )
        }
    } else {
        render_spec(cfg.format@, status_vars(cfg, st), true)
    }
}

/// A category symbol for `count` entries (see [`present_spec`]).
fn present(symbol: &str, count: u32) -> (out: String)
    ensures
        out@ == present_spec(symbol@, count),
{
    if count == 0 || symbol.unicode_len() == 0 {
        return String::new();
    }
    proof {
        reveal_strlit("${count}");
    }
    let n = dec_string(count as u64);
    replace_str(symbol, "${count}", n.as_str())
}

/// `$all_status` (see [`all_status_spec`]).
fn build_all_status(cfg: &GitStatusConfig, st: &GitStatus) -> (out: String)
    ensures
        out@ == all_status_spec(*cfg, *st),
{
    let mut out = String::new();
    let p = present(cfg.conflicted.as_str(), st.conflicted);
    out.append(p.as_str());
    let p = present(cfg.stashed.as_str(), st.stashed);
    out.append(p.as_str());
    let p = present(cfg.deleted.as_str(), st.deleted);
    out.append(p.as_str());
    let p = present(cfg.renamed.as_str(), st.renamed);
    out.append(p.as_str());
    let p = present(cfg.modified.as_str(), st.modified);
    out.append(p.as_str());
    let p = present(cfg.staged.as_str(), st.staged);
    out.append(p.as_str());
    let p = present(cfg.untracked.as_str(), st.untracked);
    out.append(p.as_str());
    assert(out@ =~= all_status_spec(*cfg, *st));
    out
}

/// `$ahead_behind` (see [`ahead_behind_spec`]).
fn build_ahead_behind(cfg: &GitStatusConfig, st: &GitStatus) -> (out: String)
    ensures
        out@ == ahead_behind_spec(*cfg, *st),
{
    proof {
        reveal_strlit("${count}");
        reveal_strlit("${ahead_count}");
        reveal_strlit("${behind_count}");
    }
    if st.ahead > 0 && st.behind > 0 {
        let a = dec_string(st.ahead as u64);
        let b = dec_string(st.behind as u64);
        let d = replace_str(cfg.diverged.as_str(), "${ahead_count}", a.as_str());
        replace_str(d.as_str(), "${behind_count}", b.as_str())
    } else if st.ahead > 0 {
        let a = dec_string(st.ahead as u64);
        replace_str(cfg.ahead.as_str(), "${count}", a.as_str())
    } else if st.behind > 0 {
        let b = dec_string(st.behind as u64);
        replace_str(cfg.behind.as_str(), "${count}", b.as_str())
    } else {
        cfg.up_to_date.clone()
    }
}

/// The `git_status` segment text for `st` (see [`body_spec`]); empty when
/// there is nothing to show.
pub fn render_body(cfg: &GitStatusConfig, st: &GitStatus) -> (out: String)
    ensures
        out@ == body_spec(*cfg, *st),
{
    if st.is_clean() {
        if cfg.clean_symbol.unicode_len() == 0 {
            return String::new();
        }
        let vars = [("all_status", cfg.clean_symbol.as_str()), ("ahead_behind", "")];
        let out = render_markup(cfg.format.as_str(), &vars, true);
        proof {
            reveal_strlit("");
            assert(""@ =~= Seq::<char>::empty());
            assert(vars@[1].1@ == ""@);
        }
        assert(vars_view(&vars) =~= seq![
            ("all_status"@, cfg.clean_symbol@),
            ("ahead_behind"@, Seq::<char>::empty()),
        ]);
        return out;
    }
    let all = build_all_status(cfg, st);
    let ab = build_ahead_behind(cfg, st);
    let c = present(cfg.conflicted.as_str(), st.conflicted);
    let sh = present(cfg.stashed.as_str(), st.stashed);
    let d = present(cfg.deleted.as_str(), st.deleted);
    let r = present(cfg.renamed.as_str(), st.renamed);
    let m = present(cfg.modified.as_str(), st.modified);
    let sg = present(cfg.staged.as_str(), st.staged);
    let u = present(cfg.untracked.as_str(), st.untracked);
    let vars = [
        ("all_status", all.as_str()),
        ("ahead_behind", ab.as_str()),
        ("conflicted", c.as_str()),
        ("stashed", sh.as_str()),
        ("deleted", d.as_str()),
        ("renamed", r.as_str()),
        ("modified", m.as_str()),
        ("staged", sg.as_str()),
        ("untracked", u.as_str()),
    ];
    let out = render_markup(cfg.format.as_str(), &vars, true);
    assert(vars_view(&vars) =~= status_vars(*cfg, *st));
    out
}

/// A clean, up-to-date, stash-free tree renders nothing unless a clean
/// symbol is configured.
pub proof fn law_clean_tree_renders_nothing(cfg: GitStatusConfig, st: GitStatus)
    requires
        st.clean_spec(),
        cfg.clean_symbol@.len() == 0,
    ensures
        body_spec(cfg, st) == Seq::<char>::empty(),
{
}

/// A category symbol without a `${count}` placeholder is shown verbatim
/// whenever its count is not zero.
pub proof fn law_symbol_without_placeholder_is_verbatim(symbol: Seq<char>, count: u32)
    requires
        count > 0,
        symbol.len() > 0,
        forall|i: int| !crate::text::occurs_at(symbol, "${count}"@, i),
    ensures
        present_spec(symbol, count) == symbol,
{
    reveal_strlit("${count}");
    crate::text::lemma_replace_none(symbol, "${count}"@, dec(count as nat), 0);
    assert(symbol.skip(0) =~= symbol);
}

/// `t` occurs somewhere in `s`.
pub open spec fn has_infix(s: Seq<char>, t: Seq<char>) -> bool {
    exists|i: int| 0 <= i && i + t.len() <= s.len() && #[trigger] s.subrange(i, i + t.len()) == t
}

proof fn lemma_infix_mid(a: Seq<char>, t: Seq<char>, b: Seq<char>)
    ensures
        has_infix(a + t + b, t),
{
    let s = a + t + b;
    assert(s.subrange(a.len() as int, (a.len() + t.len()) as int) =~= t);
}

/// The status categories, each as `(symbol, count)`, in the order
/// conflicted, stashed, deleted, renamed, modified, staged, untracked.
pub open spec fn categories(cfg: GitStatusConfig, st: GitStatus) -> Seq<(Seq<char>, u32)> {
    seq![
        (cfg.conflicted@, st.conflicted),
        (cfg.stashed@, st.stashed),
        (cfg.deleted@, st.deleted),
        (cfg.renamed@, st.renamed),
        (cfg.modified@, st.modified),
        (cfg.staged@, st.staged),
        (cfg.untracked@, st.untracked),
    ]
}

/// `$all_status` shows every category that has entries and a symbol:
/// each such category's symbol (with its count filled in) occurs in it;
/// and when a single category has entries, `$all_status` is exactly that
/// category's symbol.
pub proof fn law_all_status_shows_each_category(cfg: GitStatusConfig, st: GitStatus)
    ensures
        forall|k: int|
            0 <= k < 7 && (#[trigger] categories(cfg, st)[k]).1 > 0
                && categories(cfg, st)[k].0.len() > 0 ==> has_infix(
                all_status_spec(cfg, st),
                present_spec(categories(cfg, st)[k].0, categories(cfg, st)[k].1),
            ),
        forall|k: int|
            0 <= k < 7 && (forall|j: int| 0 <= j < 7 && j != k ==> (#[trigger] categories(cfg, st)[j]).1 == 0)
                ==> all_status_spec(cfg, st) == present_spec(
                #[trigger] categories(cfg, st)[k].0,
                categories(cfg, st)[k].1,
            ),
{
    let cs = categories(cfg, st);
    let ps = Seq::new(7, |k: int| present_spec(cs[k].0, cs[k].1));
    let all = all_status_spec(cfg, st);
    assert(all =~= ps[0] + ps[1] + ps[2] + ps[3] + ps[4] + ps[5] + ps[6]);
    assert forall|k: int| 0 <= k < 7 implies has_infix(all, #[trigger] ps[k]) by {
        if k == 0 {
            lemma_infix_mid(Seq::empty(), ps[0], ps[1] + ps[2] + ps[3] + ps[4] + ps[5] + ps[6]);
            assert(all =~= Seq::<char>::empty() + ps[0] + (ps[1] + ps[2] + ps[3] + ps[4] + ps[5] + ps[6]));
        } else if k == 1 {
            lemma_infix_mid(ps[0], ps[1], ps[2] + ps[3] + ps[4] + ps[5] + ps[6]);
            assert(all =~= ps[0] + ps[1] + (ps[2] + ps[3] + ps[4] + ps[5] + ps[6]));
        } else if k == 2 {
            lemma_infix_mid(ps[0] + ps[1], ps[2], ps[3] + ps[4] + ps[5] + ps[6]);
            assert(all =~= (ps[0] + ps[1]) + ps[2] + (ps[3] + ps[4] + ps[5] + ps[6]));
        } else if k == 3 {
            lemma_infix_mid(ps[0] + ps[1] + ps[2], ps[3], ps[4] + ps[5] + ps[6]);
            assert(all =~= (ps[0] + ps[1] + ps[2]) + ps[3] + (ps[4] + ps[5] + ps[6]));
        } else if k == 4 {
            lemma_infix_mid(ps[0] + ps[1] + ps[2] + ps[3], ps[4], ps[5] + ps[6]);
            assert(all =~= (ps[0] + ps[1] + ps[2] + ps[3]) + ps[4] + (ps[5] + ps[6]));
        } else if k == 5 {
            lemma_infix_mid(ps[0] + ps[1] + ps[2] + ps[3] + ps[4], ps[5], ps[6]);
            assert(all =~= (ps[0] + ps[1] + ps[2] + ps[3] + ps[4]) + ps[5] + ps[6]);
        } else {
            lemma_infix_mid(ps[0] + ps[1] + ps[2] + ps[3] + ps[4] + ps[5], ps[6], Seq::empty());
            assert(all =~= (ps[0] + ps[1] + ps[2] + ps[3] + ps[4] + ps[5]) + ps[6] + Seq::<char>::empty());
        }
    }
    assert forall|k: int|
        0 <= k < 7 && (forall|j: int| 0 <= j < 7 && j != k ==> (#[trigger] cs[j]).1 == 0) implies all
        == present_spec(#[trigger] cs[k].0, cs[k].1) by {
        assert forall|j: int| 0 <= j < 7 && j != k implies ps[j] == Seq::<char>::empty() by {
            assert(cs[j].1 == 0);
        }
        assert(ps[k] == present_spec(cs[k].0, cs[k].1));
        if k == 0 {
            assert(all =~= ps[0]);
        } else if k == 1 {
            assert(ps[0] == Seq::<char>::empty());
            assert(all =~= ps[1]);
        } else if k == 2 {
            assert(ps[0] == Seq::<char>::empty() && ps[1] == Seq::<char>::empty());
            assert(all =~= ps[2]);
        } else if k == 3 {
            assert(ps[0] == Seq::<char>::empty() && ps[1] == Seq::<char>::empty() && ps[2] == Seq::<char>::empty());
            assert(all =~= ps[3]);
        } else if k == 4 {
            assert(ps[0] == Seq::<char>::empty() && ps[1] == Seq::<char>::empty() && ps[2] == Seq::<char>::empty() && ps[3] == Seq::<char>::empty());
            assert(all =~= ps[4]);
        } else if k == 5 {
            assert(ps[0] == Seq::<char>::empty() && ps[1] == Seq::<char>::empty() && ps[2] == Seq::<char>::empty() && ps[3] == Seq::<char>::empty() && ps[4] == Seq::<char>::empty());
            assert(all =~= ps[5]);
        } else {
            assert(ps[0] == Seq::<char>::empty() && ps[1] == Seq::<char>::empty() && ps[2] == Seq::<char>::empty() && ps[3] == Seq::<char>::empty() && ps[4] == Seq::<char>::empty() && ps[5] == Seq::<char>::empty());
            assert(all =~= ps[6]);
        }
    }
}

/// The concatenation of `ps`, in order.
pub open spec fn concat_all(ps: Seq<Seq<char>>) -> Seq<char>
    decreases ps.len(),
{
    if ps.len() == 0 {
        Seq::empty()
    } else {
        concat_all(ps.drop_last()) + ps.last()
    }
}

proof fn lemma_concat_two(ps: Seq<Seq<char>>, k: int, j: int, n: int)
    requires
        0 <= k < j,
        0 <= n <= ps.len(),
        forall|i: int| 0 <= i < ps.len() && i != k && i != j ==> #[trigger] ps[i] == Seq::<char>::empty(),
    ensures
        concat_all(ps.take(n)) == (if k < n {
            ps[k]
        } else {
            Seq::empty()
        }) + (if j < n {
            ps[j]
        } else {
            Seq::empty()
        }),
    decreases n,
{
    if n == 0 {
        assert(ps.take(0) =~= Seq::<Seq<char>>::empty());
    } else {
        lemma_concat_two(ps, k, j, n - 1);
        assert(ps.take(n).drop_last() =~= ps.take(n - 1));
        assert(ps.take(n).last() == ps[n - 1]);
        let a = if k < n - 1 { ps[k] } else { Seq::<char>::empty() };
        let b = if j < n - 1 { ps[j] } else { Seq::<char>::empty() };
        if n - 1 == k {
            assert(b == Seq::<char>::empty());
            assert(a == Seq::<char>::empty());
            assert(concat_all(ps.take(n)) =~= ps[k]);
        } else if n - 1 == j {
            assert(concat_all(ps.take(n)) =~= a + ps[j]);
        } else {
            assert(concat_all(ps.take(n)) =~= a + b);
        }
    }
}

/// `$all_status` keeps the category order conflicted, stashed, deleted,
/// renamed, modified, staged, untracked: when exactly two categories `k`
/// before `j` have entries, it is `k`'s symbol followed by `j`'s.
pub proof fn law_all_status_order(cfg: GitStatusConfig, st: GitStatus, k: int, j: int)
    requires
        0 <= k < j < 7,
        forall|i: int| 0 <= i < 7 && i != k && i != j ==> (#[trigger] categories(cfg, st)[i]).1 == 0,
    ensures
        all_status_spec(cfg, st) == present_spec(categories(cfg, st)[k].0, categories(cfg, st)[k].1)
            + present_spec(categories(cfg, st)[j].0, categories(cfg, st)[j].1),
{
    let cs = categories(cfg, st);
    let ps = Seq::new(7, |i: int| present_spec(cs[i].0, cs[i].1));
    assert forall|i: int| 0 <= i < ps.len() && i != k && i != j implies #[trigger] ps[i] == Seq::<char>::empty() by {
        assert(cs[i].1 == 0);
    }
    lemma_concat_two(ps, k, j, 7);
    assert(ps.take(7) =~= ps);
    assert(ps.drop_last().drop_last().drop_last().drop_last().drop_last().drop_last().drop_last() =~= Seq::<Seq<char>>::empty());
    assert(concat_all(ps) =~= ps[0] + ps[1] + ps[2] + ps[3] + ps[4] + ps[5] + ps[6]) by {
        reveal_with_fuel(concat_all, 8);
        assert(ps.drop_last() =~= seq![ps[0], ps[1], ps[2], ps[3], ps[4], ps[5]]);
    }
    assert(all_status_spec(cfg, st) =~= ps[0] + ps[1] + ps[2] + ps[3] + ps[4] + ps[5] + ps[6]);
}

/// An entry changed on both sides counts on both: a staged file modified
/// again in the worktree lights both the staged and the modified count.
pub proof fn law_both_sides_counted(l: Seq<char>)
    requires
        entry_xy(l) matches Some(xy) && xy.0 != '.' && (xy.1 == 'M' || xy.1 == 'T'),
    ensures
        staged_in(l) == 1,
        modified_in(l) == 1,
{
}

} // verus!
