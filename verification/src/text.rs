//! Character-level text primitives shared by every segment: conversion
//! between `str` and character vectors, whitespace trimming, substring
//! search, decimal rendering and decimal parsing. Every primitive is
//! specified over the character sequence of its input (`s@`).

use vstd::prelude::*;

verus! {

broadcast use vstd::string::group_string_axioms;

// ── Character classes ──────────────────────────────────────────────

/// Unicode `White_Space` — the set `char::is_whitespace` tests (and so
/// the one `str::trim*` and `str::split_whitespace` use).
pub open spec fn is_ws(c: char) -> bool {
    ||| c == ' '
    ||| ('\t' <= c && c <= '\r')
    ||| c == '\u{85}'
    ||| c == '\u{A0}'
    ||| c == '\u{1680}'
    ||| ('\u{2000}' <= c && c <= '\u{200A}')
    ||| c == '\u{2028}'
    ||| c == '\u{2029}'
    ||| c == '\u{202F}'
    ||| c == '\u{205F}'
    ||| c == '\u{3000}'
}

pub fn is_ws_exec(c: char) -> (b: bool)
    ensures
        b == is_ws(c),
{
    c == ' ' || ('\t' <= c && c <= '\r') || c == '\u{85}' || c == '\u{A0}' || c == '\u{1680}'
        || ('\u{2000}' <= c && c <= '\u{200A}') || c == '\u{2028}' || c == '\u{2029}' || c
        == '\u{202F}' || c == '\u{205F}' || c == '\u{3000}'
}

/// ASCII whitespace as `u8::is_ascii_whitespace` defines it.
pub open spec fn is_ascii_ws(c: char) -> bool {
    c == ' ' || c == '\t' || c == '\n' || c == '\x0C' || c == '\r'
}

pub fn is_ascii_ws_exec(c: char) -> (b: bool)
    ensures
        b == is_ascii_ws(c),
{
    c == ' ' || c == '\t' || c == '\n' || c == '\x0C' || c == '\r'
}

pub open spec fn is_digit(c: char) -> bool {
    '0' <= c && c <= '9'
}

/// `char::is_ascii_alphanumeric`.
pub open spec fn is_ascii_alnum(c: char) -> bool {
    ('0' <= c && c <= '9') || ('a' <= c && c <= 'z') || ('A' <= c && c <= 'Z')
}

pub fn is_ascii_alnum_exec(c: char) -> (b: bool)
    ensures
        b == is_ascii_alnum(c),
{
    ('0' <= c && c <= '9') || ('a' <= c && c <= 'z') || ('A' <= c && c <= 'Z')
}

// ── Conversions between str / String and character vectors ─────────

/// `String::push`: the contract claims the string's characters are the
/// old ones followed by `c`.
#[verifier::external_body]
pub(crate) fn push_char(s: &mut String, c: char)
    ensures
        final(s)@ == old(s)@.push(c),
{
    s.push(c);
}

/// What `str::to_uppercase` gives for `s` (the Unicode uppercase
/// mapping, which may change the number of characters).
pub uninterp spec fn uppercase(s: Seq<char>) -> Seq<char>;

/// `str::to_uppercase`; the contract names its result [`uppercase`] and
/// says nothing more of the Unicode case tables.
#[verifier::external_body]
pub(crate) fn to_uppercase(s: &str) -> (r: String)
    ensures
        r@ == uppercase(s@),
{
    s.to_uppercase()
}

/// The characters of `s`, in order.
pub fn chars_of(s: &str) -> (v: Vec<char>)
    ensures
        v@ == s@,
{
    let mut v: Vec<char> = Vec::new();
    let mut it = s.chars();
    loop
        invariant
            v@ + vstd::std_specs::iter::IteratorSpec::remaining(&it) == s@,
        ensures
            v@ == s@,
        decreases s@.len() - v@.len(),
    {
        match it.next() {
            Some(c) => {
                v.push(c);
                assert(v@ + vstd::std_specs::iter::IteratorSpec::remaining(&it) =~= s@);
            },
            None => {
                assert(v@ =~= s@);
                break ;
            },
        }
    }
    v
}

/// The string made of the characters `v[from..to]`.
pub fn string_of_range(v: &Vec<char>, from: usize, to: usize) -> (s: String)
    requires
        from <= to <= v@.len(),
    ensures
        s@ == v@.subrange(from as int, to as int),
{
    let mut s = String::new();
    let mut i: usize = from;
    while i < to
        invariant
            from <= i <= to <= v@.len(),
            s@ == v@.subrange(from as int, i as int),
        decreases to - i,
    {
        push_char(&mut s, v[i]);
        i = i + 1;
        assert(s@ =~= v@.subrange(from as int, i as int));
    }
    s
}

/// The string made of all the characters of `v`.
pub fn string_of(v: &Vec<char>) -> (s: String)
    ensures
        s@ == v@,
{
    let s = string_of_range(v, 0, v.len());
    assert(v@.subrange(0, v@.len() as int) =~= v@);
    s
}

// ── Whitespace ─────────────────────────────────────────────────────

/// Index of the first non-whitespace character at or after `i`.
pub open spec fn ws_end(s: Seq<char>, i: int) -> int
    decreases s.len() - i,
{
    if 0 <= i < s.len() && is_ws(s[i]) {
        ws_end(s, i + 1)
    } else {
        i
    }
}

/// `str::trim_start`.
pub open spec fn trim_start(s: Seq<char>) -> Seq<char> {
    s.skip(ws_end(s, 0))
}

pub proof fn lemma_ws_end_bounds(s: Seq<char>, i: int)
    requires
        0 <= i <= s.len(),
    ensures
        i <= ws_end(s, i) <= s.len(),
        ws_end(s, i) < s.len() ==> !is_ws(s[ws_end(s, i)]),
        forall|k: int| i <= k < ws_end(s, i) ==> is_ws(#[trigger] s[k]),
    decreases s.len() - i,
{
    if i < s.len() && is_ws(s[i]) {
        lemma_ws_end_bounds(s, i + 1);
    }
}

/// Index just past the last non-whitespace character before `j`.
pub open spec fn ws_back(s: Seq<char>, j: int) -> int
    decreases j,
{
    if 0 < j <= s.len() && is_ws(s[j - 1]) {
        ws_back(s, j - 1)
    } else {
        j
    }
}

/// `str::trim`: `s` without leading and trailing whitespace.
pub open spec fn trim(s: Seq<char>) -> Seq<char> {
    let a = ws_end(s, 0);
    let e = ws_back(s, s.len() as int);
    if a < e {
        s.subrange(a, e)
    } else {
        Seq::empty()
    }
}

pub proof fn lemma_ws_back_bounds(s: Seq<char>, j: int)
    requires
        0 <= j <= s.len(),
    ensures
        0 <= ws_back(s, j) <= j,
    decreases j,
{
    if 0 < j && is_ws(s[j - 1]) {
        lemma_ws_back_bounds(s, j - 1);
    }
}

/// `trim(v)` as a copy.
pub fn trim_vec(v: &Vec<char>) -> (t: Vec<char>)
    ensures
        t@ == trim(v@),
{
    let a = skip_ws(v, 0, v.len());
    let mut e: usize = v.len();
    while e > 0 && is_ws_exec(v[e - 1])
        invariant
            0 <= e <= v@.len(),
            ws_back(v@, e as int) == ws_back(v@, v@.len() as int),
        decreases e,
    {
        e = e - 1;
    }
    if a < e {
        sub_vec(v, a, e)
    } else {
        Vec::new()
    }
}

/// First index at or after `i` that is not whitespace (in `v[..end]`).
pub fn skip_ws(v: &Vec<char>, i: usize, end: usize) -> (j: usize)
    requires
        i <= end == v@.len(),
    ensures
        j == ws_end(v@, i as int),
        i <= j <= end,
{
    let mut j: usize = i;
    while j < end && is_ws_exec(v[j])
        invariant
            i <= j <= end == v@.len(),
            ws_end(v@, j as int) == ws_end(v@, i as int),
        decreases end - j,
    {
        j = j + 1;
    }
    j
}

// ── Substring search ───────────────────────────────────────────────

/// `pat` occurs in `s` at position `i`.
pub open spec fn occurs_at(s: Seq<char>, pat: Seq<char>, i: int) -> bool {
    0 <= i && i + pat.len() <= s.len() && s.subrange(i, i + pat.len()) == pat
}

/// Leftmost occurrence of `pat` in `s` at or after `i` (`str::find`).
pub open spec fn find_from(s: Seq<char>, pat: Seq<char>, i: int) -> Option<int>
    decreases s.len() + 1 - i,
{
    if i < 0 || i + pat.len() > s.len() {
        None
    } else if s.subrange(i, i + pat.len()) == pat {
        Some(i)
    } else {
        find_from(s, pat, i + 1)
    }
}

pub open spec fn find(s: Seq<char>, pat: Seq<char>) -> Option<int> {
    find_from(s, pat, 0)
}

pub proof fn lemma_find_from(s: Seq<char>, pat: Seq<char>, i: int)
    requires
        0 <= i,
    ensures
        find_from(s, pat, i) matches Some(k) ==> i <= k && occurs_at(s, pat, k) && forall|
            j: int,
        | i <= j < k ==> !occurs_at(s, pat, j),
        find_from(s, pat, i) is None ==> forall|j: int| i <= j ==> !occurs_at(s, pat, j),
    decreases s.len() + 1 - i,
{
    if i + pat.len() <= s.len() && s.subrange(i, i + pat.len()) != pat {
        lemma_find_from(s, pat, i + 1);
    }
}

/// Whether `pat` occurs in `v` at `i`.
pub fn matches_at(v: &Vec<char>, pat: &Vec<char>, i: usize) -> (b: bool)
    ensures
        b == occurs_at(v@, pat@, i as int),
{
    if i > v.len() || pat.len() > v.len() - i {
        return false;
    }
    let mut k: usize = 0;
    while k < pat.len()
        invariant
            i + pat@.len() <= v@.len(),
            v@.len() == v.len(),
            0 <= k <= pat@.len(),
            forall|j: int| 0 <= j < k ==> v@[i + j] == pat@[j],
        decreases pat.len() - k,
    {
        if v[i + k] != pat[k] {
            assert(v@.subrange(i as int, i + pat@.len())[k as int] != pat@[k as int]);
            return false;
        }
        k = k + 1;
    }
    assert(v@.subrange(i as int, i + pat@.len()) =~= pat@);
    true
}

/// `str::find` over character vectors, searching from `from`.
pub fn find_vec(v: &Vec<char>, pat: &Vec<char>, from: usize) -> (r: Option<usize>)
    ensures
        r matches Some(k) ==> find_from(v@, pat@, from as int) == Some(k as int),
        r is None ==> find_from(v@, pat@, from as int) is None,
{
    let mut i: usize = from;
    if i > v.len() || pat.len() > v.len() - i {
        return None;
    }
    let last: usize = v.len() - pat.len();
    loop
        invariant
            from <= i <= last,
            last + pat@.len() == v@.len(),
            find_from(v@, pat@, i as int) == find_from(v@, pat@, from as int),
        decreases last - i,
    {
        if matches_at(v, pat, i) {
            return Some(i);
        }
        if i == last {
            assert(find_from(v@, pat@, i + 1) is None);
            return None;
        }
        i = i + 1;
    }
}

/// Number of leftmost, non-overlapping occurrences of a non-empty
/// `pat` in `s[i..]` (`str::matches(..).count()`).
pub open spec fn count_from(s: Seq<char>, pat: Seq<char>, i: int) -> nat
    decreases s.len() - i,
{
    if i < 0 || pat.len() == 0 || i + pat.len() > s.len() {
        0
    } else if s.subrange(i, i + pat.len()) == pat {
        1 + count_from(s, pat, i + pat.len())
    } else {
        count_from(s, pat, i + 1)
    }
}

pub open spec fn count_matches(s: Seq<char>, pat: Seq<char>) -> nat {
    count_from(s, pat, 0)
}

pub proof fn lemma_count_from_bound(s: Seq<char>, pat: Seq<char>, i: int)
    requires
        0 <= i <= s.len(),
        pat.len() > 0,
    ensures
        count_from(s, pat, i) <= s.len() - i,
        count_from(s, pat, i) * pat.len() <= s.len() - i,
    decreases s.len() - i,
{
    if i + pat.len() <= s.len() {
        if s.subrange(i, i + pat.len()) == pat {
            lemma_count_from_bound(s, pat, i + pat.len());
            assert(count_from(s, pat, i) * pat.len() == pat.len() + count_from(
                s,
                pat,
                i + pat.len(),
            ) * pat.len()) by (nonlinear_arith)
                requires
                    count_from(s, pat, i) == 1 + count_from(s, pat, i + pat.len()),
            ;
            assert(count_from(s, pat, i + pat.len()) * pat.len() <= s.len() - (i + pat.len()));
        } else {
            lemma_count_from_bound(s, pat, i + 1);
            assert(count_from(s, pat, i) == count_from(s, pat, i + 1));
            assert(count_from(s, pat, i) * pat.len() == count_from(s, pat, i + 1) * pat.len());
        }
    } else {
        assert(count_from(s, pat, i) == 0);
        assert(count_from(s, pat, i) * pat.len() == 0) by (nonlinear_arith)
            requires
                count_from(s, pat, i) == 0,
        ;
    }
}

/// `s[i..]` with each leftmost, non-overlapping occurrence of the
/// non-empty `pat` replaced by `rep`.
pub open spec fn replace_from(s: Seq<char>, pat: Seq<char>, rep: Seq<char>, i: int) -> Seq<char>
    decreases s.len() - i,
{
    if i < 0 || i >= s.len() || pat.len() == 0 {
        if 0 <= i < s.len() {
            s.skip(i)
        } else {
            Seq::empty()
        }
    } else if occurs_at(s, pat, i) {
        rep + replace_from(s, pat, rep, i + pat.len())
    } else {
        seq![s[i]] + replace_from(s, pat, rep, i + 1)
    }
}

/// `str::replace` with a non-empty pattern.
pub open spec fn replace_all(s: Seq<char>, pat: Seq<char>, rep: Seq<char>) -> Seq<char> {
    replace_from(s, pat, rep, 0)
}

/// Without an occurrence of `pat` from `i` on, replacing changes nothing.
pub proof fn lemma_replace_none(s: Seq<char>, pat: Seq<char>, rep: Seq<char>, i: int)
    requires
        0 <= i <= s.len(),
        pat.len() > 0,
        forall|j: int| i <= j ==> !occurs_at(s, pat, j),
    ensures
        replace_from(s, pat, rep, i) == s.skip(i),
    decreases s.len() - i,
{
    if i < s.len() {
        lemma_replace_none(s, pat, rep, i + 1);
        assert(s.skip(i) =~= seq![s[i]] + s.skip(i + 1));
    } else {
        assert(s.skip(i) =~= Seq::<char>::empty());
    }
}

/// `s.replace(pat, rep)` for a non-empty `pat`.
pub fn replace_str(s: &str, pat: &str, rep: &str) -> (out: String)
    requires
        pat@.len() > 0,
    ensures
        out@ == replace_all(s@, pat@, rep@),
{
    let v = chars_of(s);
    let p = chars_of(pat);
    let mut out = String::new();
    let mut i: usize = 0;
    assert(out@ + replace_from(v@, p@, rep@, 0) =~= replace_all(s@, pat@, rep@));
    while i < v.len()
        invariant
            0 <= i <= v@.len(),
            v@ == s@,
            p@ == pat@,
            p@.len() > 0,
            out@ + replace_from(v@, p@, rep@, i as int) == replace_all(s@, pat@, rep@),
        decreases v.len() - i,
    {
        if matches_at(&v, &p, i) {
            let ghost before = out@;
            out.append(rep);
            assert(out@ + replace_from(v@, p@, rep@, i + p@.len()) =~= before + replace_from(
                v@,
                p@,
                rep@,
                i as int,
            ));
            i = i + p.len();
        } else {
            let ghost before = out@;
            push_char(&mut out, v[i]);
            assert(out@ + replace_from(v@, p@, rep@, i + 1) =~= before + replace_from(
                v@,
                p@,
                rep@,
                i as int,
            ));
            i = i + 1;
        }
    }
    assert(replace_from(v@, p@, rep@, i as int) =~= Seq::<char>::empty());
    assert(out@ =~= out@ + Seq::<char>::empty());
    out
}

/// Count of non-overlapping occurrences of `pat` in `v`.
pub fn count_vec(v: &Vec<char>, pat: &Vec<char>) -> (n: usize)
    requires
        pat@.len() > 0,
    ensures
        n == count_matches(v@, pat@),
{
    proof {
        lemma_count_from_bound(v@, pat@, 0);
    }
    let mut i: usize = 0;
    let mut n: usize = 0;
    while i < v.len() && pat.len() <= v.len() - i
        invariant
            0 <= i <= v@.len(),
            pat@.len() > 0,
            n + count_from(v@, pat@, i as int) == count_matches(v@, pat@),
            count_matches(v@, pat@) <= v@.len(),
        decreases v.len() - i,
    {
        if matches_at(v, pat, i) {
            n = n + 1;
            i = i + pat.len();
        } else {
            i = i + 1;
        }
    }
    n
}

// ── Lines and whitespace-separated tokens ──────────────────────────

/// Index of the first `'\n'` at or after `i`, or the end of `s`.
pub open spec fn line_end(s: Seq<char>, i: int) -> int
    decreases s.len() - i,
{
    if i < 0 || i >= s.len() {
        s.len() as int
    } else if s[i] == '\n' {
        i
    } else {
        line_end(s, i + 1)
    }
}

/// End of the content of the line that starts at `i`: a line ended by
/// `"\r\n"` loses its `'\r'` (as `str::lines` does).
pub open spec fn line_content_end(s: Seq<char>, i: int) -> int {
    let e = line_end(s, i);
    if e < s.len() && e > i && s[e - 1] == '\r' {
        e - 1
    } else {
        e
    }
}

/// The lines of `s[i..]`, as `str::lines` yields them.
pub open spec fn lines_from(s: Seq<char>, i: int) -> Seq<Seq<char>>
    decreases s.len() + 1 - i,
{
    if i < 0 || i >= s.len() {
        Seq::empty()
    } else {
        let e = line_end(s, i);
        if e < i || e > s.len() {
            Seq::empty()
        } else {
            seq![s.subrange(i, line_content_end(s, i))] + lines_from(s, e + 1)
        }
    }
}

/// `str::lines`.
pub open spec fn lines(s: Seq<char>) -> Seq<Seq<char>> {
    lines_from(s, 0)
}

pub proof fn lemma_line_end(s: Seq<char>, i: int)
    requires
        0 <= i <= s.len(),
    ensures
        i <= line_end(s, i) <= s.len(),
        line_end(s, i) < s.len() ==> s[line_end(s, i)] == '\n',
        forall|k: int| i <= k < line_end(s, i) ==> s[k] != '\n',
    decreases s.len() - i,
{
    if i < s.len() && s[i] != '\n' {
        lemma_line_end(s, i + 1);
    }
}

proof fn lemma_line_end_prefix(a: Seq<char>, b: Seq<char>, i: int)
    requires
        0 <= i <= a.len(),
        line_end(a, i) < a.len(),
    ensures
        line_end(a + b, i) == line_end(a, i),
    decreases a.len() - i,
{
    if a[i] != '\n' {
        lemma_line_end_prefix(a, b, i + 1);
    }
}

proof fn lemma_line_end_shift(a: Seq<char>, b: Seq<char>, j: int)
    requires
        0 <= j <= b.len(),
    ensures
        line_end(a + b, a.len() + j) == a.len() + line_end(b, j),
    decreases b.len() - j,
{
    if j < b.len() && b[j] != '\n' {
        lemma_line_end_shift(a, b, j + 1);
    }
}

proof fn lemma_lines_shift(a: Seq<char>, b: Seq<char>, j: int)
    requires
        0 <= j <= b.len(),
    ensures
        lines_from(a + b, a.len() + j) == lines_from(b, j),
    decreases b.len() + 1 - j,
{
    let s = a + b;
    if j < b.len() {
        lemma_line_end_shift(a, b, j);
        lemma_line_end(b, j);
        let e = line_end(b, j);
        let c = line_content_end(b, j);
        assert(line_content_end(s, a.len() + j) == a.len() + c);
        assert(s.subrange(a.len() + j, a.len() + c) =~= b.subrange(j, c));
        if e + 1 <= b.len() {
            lemma_lines_shift(a, b, e + 1);
        } else {
            assert(lines_from(b, e + 1) =~= Seq::<Seq<char>>::empty());
            assert(lines_from(s, a.len() + e + 1) =~= Seq::<Seq<char>>::empty());
        }
        assert(lines_from(s, a.len() + j) == seq![s.subrange(a.len() + j, line_content_end(s, a.len() + j))] + lines_from(s, a.len() + e + 1));
        assert(lines_from(b, j) == seq![b.subrange(j, c)] + lines_from(b, e + 1));
    }
}

proof fn lemma_lines_prefix(a: Seq<char>, b: Seq<char>, i: int)
    requires
        0 <= i <= a.len(),
        a.len() > 0 ==> a.last() == '\n',
    ensures
        lines_from(a + b, i) == lines_from(a, i) + lines_from(b, 0),
    decreases a.len() + 1 - i,
{
    let s = a + b;
    if i == a.len() {
        lemma_lines_shift(a, b, 0);
        assert(lines_from(a, i) + lines_from(b, 0) =~= lines_from(b, 0));
    } else {
        lemma_line_end(a, i);
        let e = line_end(a, i);
        if e == a.len() {
            assert(a[a.len() - 1] != '\n');
        }
        lemma_line_end_prefix(a, b, i);
        assert(line_content_end(s, i) == line_content_end(a, i));
        assert(s.subrange(i, line_content_end(a, i)) =~= a.subrange(i, line_content_end(a, i)));
        lemma_lines_prefix(a, b, e + 1);
        assert(seq![a.subrange(i, line_content_end(a, i))] + (lines_from(a, e + 1) + lines_from(b, 0))
            =~= (seq![a.subrange(i, line_content_end(a, i))] + lines_from(a, e + 1)) + lines_from(b, 0));
    }
}

/// The lines of a text that is empty or ends with a newline, followed by
/// any text, are its own lines followed by those of the rest.
pub proof fn lemma_lines_concat(a: Seq<char>, b: Seq<char>)
    requires
        a.len() > 0 ==> a.last() == '\n',
    ensures
        lines(a + b) == lines(a) + lines(b),
{
    lemma_lines_prefix(a, b, 0);
}

/// End of the whitespace-free run that starts at `i`.
pub open spec fn token_end(s: Seq<char>, i: int) -> int
    decreases s.len() - i,
{
    if 0 <= i < s.len() && !is_ws(s[i]) {
        token_end(s, i + 1)
    } else {
        i
    }
}

pub proof fn lemma_token_end(s: Seq<char>, i: int)
    requires
        0 <= i <= s.len(),
    ensures
        i <= token_end(s, i) <= s.len(),
        token_end(s, i) < s.len() ==> is_ws(s[token_end(s, i)]),
    decreases s.len() - i,
{
    if i < s.len() && !is_ws(s[i]) {
        lemma_token_end(s, i + 1);
    }
}

/// The whitespace-separated tokens of `s[i..]` (`str::split_whitespace`).
pub open spec fn tokens_from(s: Seq<char>, i: int) -> Seq<Seq<char>>
    decreases s.len() - i,
{
    let a = ws_end(s, i);
    if i < 0 || a >= s.len() || a < i {
        Seq::empty()
    } else {
        let b = token_end(s, a);
        if b <= a || b > s.len() {
            Seq::empty()
        } else {
            seq![s.subrange(a, b)] + tokens_from(s, b)
        }
    }
}

proof fn lemma_ws_end_append(s: Seq<char>, c: char, i: int)
    requires
        0 <= i <= s.len(),
        is_ws(c),
    ensures
        ws_end(s.push(c), i) == (if ws_end(s, i) < s.len() {
            ws_end(s, i)
        } else {
            s.len() + 1int
        }),
    decreases s.len() - i,
{
    let t = s.push(c);
    if i < s.len() {
        assert(t[i] == s[i]);
        if is_ws(s[i]) {
            lemma_ws_end_append(s, c, i + 1);
        }
    } else {
        assert(t[i] == c);
        assert(ws_end(t, i + 1) == i + 1);
    }
}

proof fn lemma_token_end_append(s: Seq<char>, c: char, i: int)
    requires
        0 <= i <= s.len(),
        is_ws(c),
    ensures
        token_end(s.push(c), i) == token_end(s, i),
    decreases s.len() - i,
{
    let t = s.push(c);
    if i < s.len() {
        assert(t[i] == s[i]);
        if !is_ws(s[i]) {
            lemma_token_end_append(s, c, i + 1);
        }
    } else {
        assert(t[i] == c);
    }
}

proof fn lemma_tokens_from_append_ws(s: Seq<char>, c: char, i: int)
    requires
        0 <= i <= s.len(),
        is_ws(c),
    ensures
        tokens_from(s.push(c), i) == tokens_from(s, i),
    decreases s.len() - i,
{
    let t = s.push(c);
    lemma_ws_end_append(s, c, i);
    let a = ws_end(s, i);
    if a < s.len() {
        lemma_ws_end_bounds(s, i);
        lemma_token_end_append(s, c, a);
        lemma_token_end(s, a);
        let b = token_end(s, a);
        if b > a {
            assert(t.subrange(a, b) =~= s.subrange(a, b));
            lemma_tokens_from_append_ws(s, c, b);
        }
    }
}

/// A trailing whitespace character adds no token.
pub proof fn lemma_tokens_append_ws(s: Seq<char>, c: char)
    requires
        is_ws(c),
    ensures
        tokens(s.push(c)) == tokens(s),
{
    lemma_tokens_from_append_ws(s, c, 0);
}

/// `str::split_whitespace`.
pub open spec fn tokens(s: Seq<char>) -> Seq<Seq<char>> {
    tokens_from(s, 0)
}

/// First index at or after `i` that is not `c`.
pub open spec fn skip_char_end(s: Seq<char>, i: int, c: char) -> int
    decreases s.len() - i,
{
    if 0 <= i < s.len() && s[i] == c {
        skip_char_end(s, i + 1, c)
    } else {
        i
    }
}

/// First index at or after `i` that is `c`, or the end.
pub open spec fn run_end(s: Seq<char>, i: int, c: char) -> int
    decreases s.len() - i,
{
    if 0 <= i < s.len() && s[i] != c {
        run_end(s, i + 1, c)
    } else {
        i
    }
}

/// The non-empty `c`-separated pieces of `s[i..]`.
pub open spec fn pieces_from(s: Seq<char>, i: int, c: char) -> Seq<Seq<char>>
    decreases s.len() - i,
{
    let a = skip_char_end(s, i, c);
    if i < 0 || a >= s.len() || a < i {
        Seq::empty()
    } else {
        let b = run_end(s, a, c);
        if b <= a || b > s.len() {
            Seq::empty()
        } else {
            seq![s.subrange(a, b)] + pieces_from(s, b, c)
        }
    }
}

/// `s.split(c).filter(|p| !p.is_empty())`.
pub open spec fn pieces(s: Seq<char>, c: char) -> Seq<Seq<char>> {
    pieces_from(s, 0, c)
}

proof fn lemma_run_end_run(s: Seq<char>, i: int, k: int, c: char)
    requires
        0 <= i <= k <= s.len(),
        forall|j: int| i <= j < k ==> #[trigger] s[j] != c,
        k == s.len() || s[k] == c,
    ensures
        run_end(s, i, c) == k,
    decreases k - i,
{
    if i < k {
        lemma_run_end_run(s, i + 1, k, c);
    }
}

proof fn lemma_run_end_bounds(s: Seq<char>, i: int, c: char)
    requires
        0 <= i <= s.len(),
    ensures
        i <= run_end(s, i, c) <= s.len(),
        forall|j: int| i <= j < run_end(s, i, c) ==> #[trigger] s[j] != c,
    decreases s.len() - i,
{
    if i < s.len() && s[i] != c {
        lemma_run_end_bounds(s, i + 1, c);
    }
}

proof fn lemma_skip_char_end_bounds(s: Seq<char>, i: int, c: char)
    requires
        0 <= i <= s.len(),
    ensures
        i <= skip_char_end(s, i, c) <= s.len(),
        skip_char_end(s, i, c) < s.len() ==> s[skip_char_end(s, i, c)] != c,
    decreases s.len() - i,
{
    if i < s.len() && s[i] == c {
        lemma_skip_char_end_bounds(s, i + 1, c);
    }
}

/// Every piece is non-empty and free of the separator.
pub proof fn lemma_pieces_from_wf(s: Seq<char>, i: int, c: char)
    requires
        0 <= i <= s.len(),
    ensures
        forall|k: int| 0 <= k < pieces_from(s, i, c).len() ==> (#[trigger] pieces_from(s, i, c)[k]).len() > 0,
        forall|k: int, j: int|
            0 <= k < pieces_from(s, i, c).len() && 0 <= j < pieces_from(s, i, c)[k].len()
                ==> #[trigger] pieces_from(s, i, c)[k][j] != c,
    decreases s.len() - i,
{
    lemma_skip_char_end_bounds(s, i, c);
    let a = skip_char_end(s, i, c);
    if a < s.len() {
        lemma_run_end_bounds(s, a, c);
        let b = run_end(s, a, c);
        if b > a {
            lemma_pieces_from_wf(s, b, c);
            let ps = pieces_from(s, i, c);
            let rest = pieces_from(s, b, c);
            assert(ps == seq![s.subrange(a, b)] + rest);
            assert forall|k: int, j: int| 0 <= k < ps.len() && 0 <= j < ps[k].len() implies #[trigger] ps[k][j] != c by {
                if k == 0 {
                    assert(ps[0][j] == s[a + j]);
                } else {
                    assert(ps[k] == rest[k - 1]);
                }
            }
            assert forall|k: int| 0 <= k < ps.len() implies (#[trigger] ps[k]).len() > 0 by {
                if k > 0 {
                    assert(ps[k] == rest[k - 1]);
                }
            }
        }
    }
}

/// Non-empty words free of `c`, joined by `c`, split back into the same
/// words.
pub proof fn lemma_pieces_join(p: Seq<char>, words: Seq<Seq<char>>, c: char)
    requires
        forall|k: int| 0 <= k < words.len() ==> (#[trigger] words[k]).len() > 0,
        forall|k: int, j: int| 0 <= k < words.len() && 0 <= j < words[k].len() ==> #[trigger] words[k][j] != c,
    ensures
        pieces_from(p + join_with(words, c), p.len() as int, c) == words,
    decreases words.len(),
{
    let s = p + join_with(words, c);
    let n = p.len() as int;
    if words.len() == 0 {
        assert(s =~= p);
        assert(pieces_from(s, n, c) =~= words);
    } else {
        let w0 = words[0];
        assert(s[n] == w0[0]);
        assert(skip_char_end(s, n, c) == n);
        if words.len() == 1 {
            assert(s =~= p + w0);
            assert forall|j: int| n <= j < s.len() implies #[trigger] s[j] != c by {
                assert(s[j] == w0[j - n]);
            }
            lemma_run_end_run(s, n, s.len() as int, c);
            assert(pieces_from(s, s.len() as int, c) =~= Seq::<Seq<char>>::empty());
            assert(s.subrange(n, s.len() as int) =~= w0);
            assert(pieces_from(s, n, c) =~= words);
        } else {
            let rest = words.drop_first();
            let p2 = p + w0 + seq![c];
            assert(s =~= p2 + join_with(rest, c));
            let k = n + w0.len();
            assert(s[k] == c);
            assert forall|j: int| n <= j < k implies #[trigger] s[j] != c by {
                assert(s[j] == w0[j - n]);
            }
            lemma_run_end_run(s, n, k, c);
            assert forall|q: int| 0 <= q < rest.len() implies (#[trigger] rest[q]).len() > 0 by {
                assert(rest[q] == words[q + 1]);
            }
            assert forall|q: int, j: int| 0 <= q < rest.len() && 0 <= j < rest[q].len() implies #[trigger] rest[q][j] != c by {
                assert(rest[q] == words[q + 1]);
            }
            lemma_pieces_join(p2, rest, c);
            assert(p2.len() == k + 1);
            // the separator at k is skipped
            assert(rest[0].len() > 0);
            assert(s[k + 1] == rest[0][0]);
            assert(skip_char_end(s, k, c) == skip_char_end(s, k + 1, c));
            assert(pieces_from(s, k, c) == pieces_from(s, k + 1, c));
            assert(s.subrange(n, k) =~= w0);
            assert(pieces_from(s, n, c) =~= seq![w0] + rest);
            assert(seq![w0] + rest =~= words);
        }
    }
}

/// `words` joined with `c` between neighbours (`[..].join`).
pub open spec fn join_with(words: Seq<Seq<char>>, c: char) -> Seq<char>
    decreases words.len(),
{
    if words.len() == 0 {
        Seq::empty()
    } else if words.len() == 1 {
        words[0]
    } else {
        words[0] + seq![c] + join_with(words.drop_first(), c)
    }
}

/// Joining one more word appends the separator and the word.
pub proof fn lemma_join_with_push(words: Seq<Seq<char>>, w: Seq<char>, c: char)
    requires
        words.len() >= 1,
    ensures
        join_with(words.push(w), c) == join_with(words, c) + seq![c] + w,
    decreases words.len(),
{
    if words.len() == 1 {
        assert(words.push(w).drop_first() =~= seq![w]);
        assert(join_with(seq![w], c) == w);
    } else {
        lemma_join_with_push(words.drop_first(), w, c);
        assert(words.push(w).drop_first() =~= words.drop_first().push(w));
    }
}

/// The `(start, end)` spans of the non-empty `c`-separated pieces of `v`.
#[verifier::spinoff_prover]
pub fn piece_spans(v: &Vec<char>, c: char) -> (sp: Vec<(usize, usize)>)
    ensures
        sp@.len() == pieces(v@, c).len(),
        forall|k: int| 0 <= k < sp@.len() ==> #[trigger] sp@[k].0 <= sp@[k].1 <= v@.len(),
        forall|k: int|
            0 <= k < sp@.len() ==> v@.subrange(sp@[k].0 as int, sp@[k].1 as int)
                == #[trigger] pieces(v@, c)[k],
{
    let n = v.len();
    let mut sp: Vec<(usize, usize)> = Vec::new();
    let mut i: usize = 0;
    while i < n
        invariant
            n == v@.len(),
            0 <= i <= n,
            sp@.len() + pieces_from(v@, i as int, c).len() == pieces(v@, c).len(),
            forall|k: int| 0 <= k < sp@.len() ==> #[trigger] sp@[k].0 <= sp@[k].1 <= v@.len(),
            forall|k: int|
                0 <= k < sp@.len() ==> v@.subrange(sp@[k].0 as int, sp@[k].1 as int)
                    == #[trigger] pieces(v@, c)[k],
            forall|k: int|
                0 <= k < pieces_from(v@, i as int, c).len() ==> #[trigger] pieces_from(
                    v@,
                    i as int,
                    c,
                )[k] == pieces(v@, c)[sp@.len() + k],
        decreases n - i,
    {
        let mut a: usize = i;
        while a < n && v[a] == c
            invariant
                i <= a <= n == v@.len(),
                skip_char_end(v@, a as int, c) == skip_char_end(v@, i as int, c),
            decreases n - a,
        {
            a = a + 1;
        }
        if a == n {
            assert(pieces_from(v@, i as int, c) =~= Seq::<Seq<char>>::empty());
            i = n;
        } else {
            let mut b: usize = a;
            while b < n && v[b] != c
                invariant
                    a <= b <= n == v@.len(),
                    run_end(v@, b as int, c) == run_end(v@, a as int, c),
                decreases n - b,
            {
                b = b + 1;
            }
            proof {
                let rest = pieces_from(v@, b as int, c);
                assert(pieces_from(v@, i as int, c) == seq![v@.subrange(a as int, b as int)] + rest);
                assert forall|k: int| 0 <= k < rest.len() implies #[trigger] rest[k] == pieces(
                    v@,
                    c,
                )[sp@.len() + 1 + k] by {
                    assert(pieces_from(v@, i as int, c)[k + 1] == rest[k]);
                }
                assert(pieces_from(v@, i as int, c)[0] == v@.subrange(a as int, b as int));
            }
            let ghost old_sp = sp@;
            sp.push((a, b));
            proof {
                assert forall|k: int| 0 <= k < sp@.len() implies #[trigger] sp@[k].0 <= sp@[k].1
                    <= v@.len() by {
                    if k < old_sp.len() {
                        assert(sp@[k] == old_sp[k]);
                    }
                }
                assert forall|k: int| 0 <= k < sp@.len() implies v@.subrange(
                    sp@[k].0 as int,
                    sp@[k].1 as int,
                ) == #[trigger] pieces(v@, c)[k] by {
                    if k < old_sp.len() {
                        assert(sp@[k] == old_sp[k]);
                        assert(v@.subrange(old_sp[k].0 as int, old_sp[k].1 as int) == pieces(
                            v@,
                            c,
                        )[k]);
                    } else {
                        assert(sp@[k] == (a, b));
                        assert(pieces_from(v@, i as int, c)[0] == pieces(v@, c)[old_sp.len() as int]);
                    }
                }
            }
            i = b;
        }
    }
    assert(pieces_from(v@, n as int, c) =~= Seq::<Seq<char>>::empty());
    sp
}

/// A copy of `v[from..to]`.
pub fn sub_vec(v: &Vec<char>, from: usize, to: usize) -> (w: Vec<char>)
    requires
        from <= to <= v@.len(),
    ensures
        w@ == v@.subrange(from as int, to as int),
{
    let mut w: Vec<char> = Vec::new();
    let mut i: usize = from;
    while i < to
        invariant
            from <= i <= to <= v@.len(),
            w@ == v@.subrange(from as int, i as int),
        decreases to - i,
    {
        w.push(v[i]);
        i = i + 1;
        assert(w@ =~= v@.subrange(from as int, i as int));
    }
    w
}

/// The lines of `v`, each as a copy of its characters.
pub fn lines_vec(v: &Vec<char>) -> (ls: Vec<Vec<char>>)
    ensures
        ls@.len() == lines(v@).len(),
        forall|k: int| 0 <= k < ls@.len() ==> #[trigger] ls@[k]@ == lines(v@)[k],
{
    let n = v.len();
    let mut ls: Vec<Vec<char>> = Vec::new();
    let mut i: usize = 0;
    while i < n
        invariant
            n == v@.len(),
            0 <= i <= n,
            ls@.len() + lines_from(v@, i as int).len() == lines(v@).len(),
            forall|k: int| 0 <= k < ls@.len() ==> #[trigger] ls@[k]@ == lines(v@)[k],
            forall|k: int|
                0 <= k < lines_from(v@, i as int).len() ==> #[trigger] lines_from(v@, i as int)[k]
                    == lines(v@)[ls@.len() + k],
        decreases n - i,
    {
        let mut e: usize = i;
        while e < n && v[e] != '\n'
            invariant
                i <= e <= n == v@.len(),
                line_end(v@, e as int) == line_end(v@, i as int),
            decreases n - e,
        {
            e = e + 1;
        }
        let ce: usize = if e < n && e > i && v[e - 1] == '\r' {
            e - 1
        } else {
            e
        };
        let line = sub_vec(v, i, ce);
        proof {
            let rest = lines_from(v@, e + 1);
            assert(lines_from(v@, i as int) == seq![v@.subrange(i as int, ce as int)] + rest);
            assert forall|k: int| 0 <= k < rest.len() implies #[trigger] rest[k] == lines(v@)[ls@.len()
                + 1 + k] by {
                assert(lines_from(v@, i as int)[k + 1] == rest[k]);
            }
            assert(lines_from(v@, i as int)[0] == line@);
        }
        ls.push(line);
        if e == n {
            proof {
                assert(lines_from(v@, e + 1) =~= Seq::<Seq<char>>::empty());
            }
            i = n;
        } else {
            i = e + 1;
        }
    }
    ls
}

/// The `(start, end)` spans of the whitespace-separated tokens of `v`.
#[verifier::spinoff_prover]
pub fn token_spans(v: &Vec<char>) -> (sp: Vec<(usize, usize)>)
    ensures
        sp@.len() == tokens(v@).len(),
        forall|k: int| 0 <= k < sp@.len() ==> #[trigger] sp@[k].0 <= sp@[k].1 <= v@.len(),
        forall|k: int|
            0 <= k < sp@.len() ==> v@.subrange(sp@[k].0 as int, sp@[k].1 as int)
                == #[trigger] tokens(v@)[k],
{
    let n = v.len();
    let mut sp: Vec<(usize, usize)> = Vec::new();
    let mut i: usize = 0;
    while i < n
        invariant
            n == v@.len(),
            0 <= i <= n,
            sp@.len() + tokens_from(v@, i as int).len() == tokens(v@).len(),
            forall|k: int| 0 <= k < sp@.len() ==> #[trigger] sp@[k].0 <= sp@[k].1 <= v@.len(),
            forall|k: int|
                0 <= k < sp@.len() ==> v@.subrange(sp@[k].0 as int, sp@[k].1 as int)
                    == #[trigger] tokens(v@)[k],
            forall|k: int|
                0 <= k < tokens_from(v@, i as int).len() ==> #[trigger] tokens_from(
                    v@,
                    i as int,
                )[k] == tokens(v@)[sp@.len() + k],
        decreases n - i,
    {
        let a = skip_ws(v, i, n);
        proof {
            lemma_ws_end_bounds(v@, i as int);
        }
        if a == n {
            assert(tokens_from(v@, i as int) =~= Seq::<Seq<char>>::empty());
            i = n;
        } else {
            let mut b: usize = a;
            while b < n && !is_ws_exec(v[b])
                invariant
                    a <= b <= n == v@.len(),
                    token_end(v@, b as int) == token_end(v@, a as int),
                decreases n - b,
            {
                b = b + 1;
            }
            proof {
                let rest = tokens_from(v@, b as int);
                assert(tokens_from(v@, i as int) == seq![v@.subrange(a as int, b as int)] + rest);
                assert forall|k: int| 0 <= k < rest.len() implies #[trigger] rest[k] == tokens(
                    v@,
                )[sp@.len() + 1 + k] by {
                    assert(tokens_from(v@, i as int)[k + 1] == rest[k]);
                }
                assert(tokens_from(v@, i as int)[0] == v@.subrange(a as int, b as int));
            }
            let ghost old_sp = sp@;
            sp.push((a, b));
            proof {
                assert forall|k: int| 0 <= k < sp@.len() implies #[trigger] sp@[k].0 <= sp@[k].1
                    <= v@.len() by {
                    if k < old_sp.len() {
                        assert(sp@[k] == old_sp[k]);
                    }
                }
                assert forall|k: int| 0 <= k < sp@.len() implies v@.subrange(
                    sp@[k].0 as int,
                    sp@[k].1 as int,
                ) == #[trigger] tokens(v@)[k] by {
                    if k < old_sp.len() {
                        assert(sp@[k] == old_sp[k]);
                        assert(v@.subrange(old_sp[k].0 as int, old_sp[k].1 as int) == tokens(v@)[k]);
                    } else {
                        assert(k == old_sp.len());
                        assert(sp@[k] == (a, b));
                        assert(tokens_from(v@, i as int)[0] == tokens(v@)[old_sp.len() as int]);
                        assert(tokens_from(v@, i as int)[0] == v@.subrange(a as int, b as int));
                    }
                }
            }
            i = b;
        }
    }
    assert(tokens_from(v@, n as int) =~= Seq::<Seq<char>>::empty());
    sp
}

/// Whether `v` and `w` hold the same characters.
pub fn vec_eq(v: &Vec<char>, w: &Vec<char>) -> (b: bool)
    ensures
        b == (v@ == w@),
{
    if v.len() != w.len() {
        return false;
    }
    let mut k: usize = 0;
    while k < w.len()
        invariant
            v@.len() == w@.len(),
            0 <= k <= w@.len(),
            forall|j: int| 0 <= j < k ==> v@[j] == w@[j],
        decreases w.len() - k,
    {
        if v[k] != w[k] {
            return false;
        }
        k = k + 1;
    }
    assert(v@ =~= w@);
    true
}

/// Whether `v[from..to]` spells `w`.
pub fn range_eq(v: &Vec<char>, from: usize, to: usize, w: &str) -> (b: bool)
    requires
        from <= to <= v@.len(),
    ensures
        b == (v@.subrange(from as int, to as int) == w@),
{
    let wv = chars_of(w);
    if to - from != wv.len() {
        return false;
    }
    let mut k: usize = 0;
    while k < wv.len()
        invariant
            from <= to <= v@.len(),
            to - from == wv@.len(),
            wv@ == w@,
            0 <= k <= wv@.len(),
            forall|j: int| 0 <= j < k ==> v@[from + j] == wv@[j],
        decreases wv.len() - k,
    {
        if v[from + k] != wv[k] {
            assert(v@.subrange(from as int, to as int)[k as int] != wv@[k as int]);
            return false;
        }
        k = k + 1;
    }
    assert(v@.subrange(from as int, to as int) =~= wv@);
    true
}

// ── Prefixes, suffixes and last occurrences ───────────────────────

/// `s` starts with `p`.
pub open spec fn has_prefix(s: Seq<char>, p: Seq<char>) -> bool {
    p.len() <= s.len() && s.take(p.len() as int) == p
}

/// Whether `v` starts with `p`.
pub fn starts_with_vec(v: &Vec<char>, p: &str) -> (b: bool)
    ensures
        b == has_prefix(v@, p@),
{
    let pv = chars_of(p);
    if pv.len() > v.len() {
        return false;
    }
    let r = range_eq(v, 0, pv.len(), p);
    assert(v@.subrange(0, pv@.len() as int) =~= v@.take(pv@.len() as int));
    r
}

/// Index of the last `c` in `s` (`str::rfind` with a `char`).
pub open spec fn rfind_char(s: Seq<char>, c: char) -> Option<int>
    decreases s.len(),
{
    if s.len() == 0 {
        None
    } else if s.last() == c {
        Some(s.len() - 1)
    } else {
        rfind_char(s.drop_last(), c)
    }
}

pub proof fn lemma_rfind_char(s: Seq<char>, c: char)
    ensures
        rfind_char(s, c) matches Some(k) ==> 0 <= k < s.len() && s[k] == c && forall|j: int|
            k < j < s.len() ==> s[j] != c,
        rfind_char(s, c) is None ==> forall|j: int| 0 <= j < s.len() ==> s[j] != c,
    decreases s.len(),
{
    if s.len() > 0 && s.last() != c {
        let t = s.drop_last();
        lemma_rfind_char(t, c);
        assert forall|j: int| 0 <= j < t.len() implies t[j] == s[j] by {}
    }
}

pub proof fn lemma_rfind_char_bound(s: Seq<char>, c: char)
    ensures
        rfind_char(s, c) matches Some(k) ==> 0 <= k < s.len(),
{
    lemma_rfind_char(s, c);
}

/// Last index of `c` in `v`.
pub fn rfind_char_vec(v: &Vec<char>, c: char) -> (r: Option<usize>)
    ensures
        r matches Some(k) ==> rfind_char(v@, c) == Some(k as int),
        r is None ==> rfind_char(v@, c) is None,
{
    let mut k: usize = v.len();
    assert(v@.take(k as int) =~= v@);
    while k > 0
        invariant
            0 <= k <= v@.len(),
            rfind_char(v@.take(k as int), c) == rfind_char(v@, c),
        decreases k,
    {
        assert(v@.take(k as int).drop_last() =~= v@.take(k - 1));
        if v[k - 1] == c {
            return Some(k - 1);
        }
        k = k - 1;
    }
    None
}

/// Index of the first `c` in `v`.
pub fn find_char_vec(v: &Vec<char>, c: char) -> (r: Option<usize>)
    ensures
        r matches Some(k) ==> find(v@, seq![c]) == Some(k as int),
        r is None ==> find(v@, seq![c]) is None,
{
    let mut pat: Vec<char> = Vec::new();
    pat.push(c);
    assert(pat@ =~= seq![c]);
    find_vec(v, &pat, 0)
}

/// `s` with every trailing `c` removed (`str::trim_end_matches`).
pub open spec fn trim_end_char(s: Seq<char>, c: char) -> Seq<char>
    decreases s.len(),
{
    if s.len() > 0 && s.last() == c {
        trim_end_char(s.drop_last(), c)
    } else {
        s
    }
}

/// Length of `trim_end_char(v, c)`.
pub fn trim_end_char_len(v: &Vec<char>, c: char) -> (k: usize)
    ensures
        k <= v@.len(),
        v@.take(k as int) == trim_end_char(v@, c),
{
    let mut k: usize = v.len();
    assert(v@.take(k as int) =~= v@);
    while k > 0 && v[k - 1] == c
        invariant
            0 <= k <= v@.len(),
            trim_end_char(v@.take(k as int), c) == trim_end_char(v@, c),
        decreases k,
    {
        assert(v@.take(k as int).drop_last() =~= v@.take(k - 1));
        k = k - 1;
    }
    k
}

// ── Decimal numbers ────────────────────────────────────────────────

pub open spec fn digit_char(d: nat) -> char {
    ('0' as nat + d) as char
}

pub open spec fn digit_val(c: char) -> nat {
    (c as nat - '0' as nat) as nat
}

/// The decimal representation of `n` (what `n.to_string()` gives).
pub open spec fn dec(n: nat) -> Seq<char>
    decreases n,
{
    if n < 10 {
        seq![digit_char(n)]
    } else {
        dec(n / 10).push(digit_char(n % 10))
    }
}

/// The value of a string of decimal digits.
pub open spec fn digits_value(s: Seq<char>) -> nat
    decreases s.len(),
{
    if s.len() == 0 {
        0
    } else {
        digits_value(s.drop_last()) * 10 + digit_val(s.last())
    }
}

pub open spec fn all_digits(s: Seq<char>) -> bool {
    forall|i: int| 0 <= i < s.len() ==> is_digit(#[trigger] s[i])
}

/// `str::parse` for an unsigned integer type whose largest value is
/// `max`: an optional `+`, then one or more decimal digits, whose value
/// must not exceed `max`.
pub open spec fn parse_uint(s: Seq<char>, max: nat) -> Option<nat> {
    let d = if s.len() > 0 && s[0] == '+' {
        s.drop_first()
    } else {
        s
    };
    if d.len() == 0 || !all_digits(d) || digits_value(d) > max {
        None
    } else {
        Some(digits_value(d))
    }
}

pub proof fn lemma_dec_digits(n: nat)
    ensures
        dec(n).len() > 0,
        all_digits(dec(n)),
        digits_value(dec(n)) == n,
        dec(n)[0] != '+',
    decreases n,
{
    lemma_digit_char(n % 10);
    let s = dec(n);
    assert(digits_value(s) == digits_value(s.drop_last()) * 10 + digit_val(s.last()));
    if n >= 10 {
        lemma_dec_digits(n / 10);
        assert(dec(n).drop_last() =~= dec(n / 10));
        assert(dec(n).last() == digit_char(n % 10));
        assert(n == (n / 10) * 10 + n % 10);
    } else {
        assert(n % 10 == n);
        assert(dec(n).drop_last() =~= Seq::<char>::empty());
    }
}

pub proof fn lemma_digit_char(d: nat)
    requires
        d < 10,
    ensures
        is_digit(digit_char(d)),
        digit_val(digit_char(d)) == d,
        digit_char(d) != '+',
{
    assert(('0' as nat + d) as char as nat == '0' as nat + d);
}

pub proof fn lemma_digits_value_monotone(s: Seq<char>, k: int)
    requires
        0 <= k <= s.len(),
        all_digits(s),
    ensures
        digits_value(s.take(k)) <= digits_value(s),
    decreases s.len() - k,
{
    if k < s.len() {
        lemma_digits_value_monotone(s, k + 1);
        assert(s.take(k + 1).drop_last() =~= s.take(k));
    } else {
        assert(s.take(k) =~= s);
    }
}

/// `n.to_string()` for `u64`.
pub fn dec_string(n: u64) -> (s: String)
    ensures
        s@ == dec(n as nat),
    decreases n,
{
    if n < 10 {
        let mut s = String::new();
        push_char(&mut s, digit_of(n));
        assert(s@ =~= dec(n as nat));
        s
    } else {
        let mut s = dec_string(n / 10);
        push_char(&mut s, digit_of(n % 10));
        s
    }
}

fn digit_of(d: u64) -> (c: char)
    requires
        d < 10,
    ensures
        c == digit_char(d as nat),
{
    let b: u8 = 48u8 + d as u8;
    b as char
}

/// Appends the decimal representation of `n`.
pub fn append_dec(s: &mut String, n: u64)
    ensures
        final(s)@ == old(s)@ + dec(n as nat),
{
    let d = dec_string(n);
    s.append(d.as_str());
}

/// The ` (stale)` marker a status label carries when it was served
/// from an expired cache entry.
pub open spec fn stale_suffix(stale: bool) -> Seq<char> {
    if stale {
        " (stale)"@
    } else {
        Seq::empty()
    }
}

/// Appends [`stale_suffix`].
pub fn append_stale(s: &mut String, stale: bool)
    ensures
        final(s)@ == old(s)@ + stale_suffix(stale),
{
    if stale {
        s.append(" (stale)");
    } else {
        assert(s@ + stale_suffix(stale) =~= s@);
    }
}

/// Parses the characters `v[from..to]` as an unsigned integer no larger
/// than `max`, with `str::parse` rules (see [`parse_uint`]).
pub fn parse_uint_range(v: &Vec<char>, from: usize, to: usize, max: u64) -> (r: Option<u64>)
    requires
        from <= to <= v@.len(),
    ensures
        r matches Some(x) ==> parse_uint(v@.subrange(from as int, to as int), max as nat) == Some(
            x as nat,
        ),
        r is None ==> parse_uint(v@.subrange(from as int, to as int), max as nat) is None,
{
    let ghost s = v@.subrange(from as int, to as int);
    let mut i: usize = from;
    if i < to && v[i] == '+' {
        i = i + 1;
    }
    let ghost d = v@.subrange(i as int, to as int);
    assert(d =~= (if s.len() > 0 && s[0] == '+' {
        s.drop_first()
    } else {
        s
    }));
    assert(parse_uint(s, max as nat) == (if d.len() == 0 || !all_digits(d) || digits_value(d)
        > max as nat {
        None
    } else {
        Some(digits_value(d))
    }));
    if i == to {
        return None;
    }
    let start: usize = i;
    let mut acc: u64 = 0;
    while i < to
        invariant
            from <= start <= i <= to <= v@.len(),
            start < to,
            d == v@.subrange(start as int, to as int),
            s == v@.subrange(from as int, to as int),
            parse_uint(s, max as nat) == (if d.len() == 0 || !all_digits(d) || digits_value(d)
                > max as nat {
                None
            } else {
                Some(digits_value(d))
            }),
            all_digits(v@.subrange(start as int, i as int)),
            acc as nat == digits_value(v@.subrange(start as int, i as int)),
            acc <= max,
        decreases to - i,
    {
        let c = v[i];
        if !('0' <= c && c <= '9') {
            assert(d[i - start] == c);
            assert(!all_digits(d));
            assert(parse_uint(s, max as nat) is None);
            return None;
        }
        let dv: u64 = (c as u32 - 48u32) as u64;
        proof {
            let p = v@.subrange(start as int, i as int);
            let q = v@.subrange(start as int, i + 1);
            assert(q.drop_last() =~= p);
            assert(q.last() == c);
        }
        if dv > max || acc > (max - dv) / 10 {
            proof {
                let q = v@.subrange(start as int, i + 1);
                assert(all_digits(q));
                assert(digits_value(q) == acc * 10 + dv);
                if dv <= max {
                    assert(acc * 10 + dv > max) by (nonlinear_arith)
                        requires
                            acc > (max - dv) / 10,
                            dv <= max,
                    ;
                }
                // the rest of the digits only increase the value
                if all_digits(d) {
                    assert(d.take(i + 1 - start) =~= q);
                    lemma_digits_value_monotone(d, i + 1 - start);
                }
                assert(parse_uint(s, max as nat) is None);
            }
            return None;
        }
        acc = acc * 10 + dv;
        i = i + 1;
    }
    assert(v@.subrange(start as int, i as int) =~= d);
    Some(acc)
}

// ── UTF-8 byte offsets ───────────────────────────────────────────────────

/// The number of bytes `c` takes in UTF-8.
pub open spec fn utf8_width(c: char) -> nat {
    if (c as u32) < 0x80 {
        1
    } else if (c as u32) < 0x800 {
        2
    } else if (c as u32) < 0x10000 {
        3
    } else {
        4
    }
}

/// The UTF-8 length of `s` in bytes (`str::len`).
pub open spec fn byte_len(s: Seq<char>) -> nat
    decreases s.len(),
{
    if s.len() == 0 {
        0
    } else {
        byte_len(s.drop_last()) + utf8_width(s.last())
    }
}

/// Byte offset of the character at index `i`.
pub open spec fn boff(s: Seq<char>, i: int) -> nat {
    byte_len(s.take(i))
}

/// The character index whose byte offset is `x`, searching from `i`
/// (`None` when `x` is not a character boundary of `s`).
pub open spec fn byte_index_from(s: Seq<char>, x: int, i: int) -> Option<int>
    decreases s.len() + 1 - i,
{
    if i < 0 || i > s.len() {
        None
    } else if boff(s, i) == x {
        Some(i)
    } else {
        byte_index_from(s, x, i + 1)
    }
}

/// The character index at byte offset `x`, when `x` is a boundary.
pub open spec fn char_at_byte(s: Seq<char>, x: int) -> Option<int> {
    byte_index_from(s, x, 0)
}

pub proof fn lemma_boff_step(s: Seq<char>, i: int)
    requires
        0 <= i < s.len(),
    ensures
        boff(s, i + 1) == boff(s, i) + utf8_width(s[i]),
{
    assert(s.take(i + 1).drop_last() =~= s.take(i));
}

pub proof fn lemma_boff_mono(s: Seq<char>, i: int, j: int)
    requires
        0 <= i <= j <= s.len(),
    ensures
        boff(s, i) <= boff(s, j),
        i < j ==> boff(s, i) < boff(s, j),
    decreases j - i,
{
    if i < j {
        lemma_boff_mono(s, i, j - 1);
        lemma_boff_step(s, j - 1);
    }
}

pub proof fn lemma_boff_sub(s: Seq<char>, i: int, j: int)
    requires
        0 <= i <= j <= s.len(),
    ensures
        boff(s, j) == boff(s, i) + byte_len(s.subrange(i, j)),
    decreases j - i,
{
    if i == j {
        assert(s.subrange(i, j) =~= Seq::<char>::empty());
    } else {
        lemma_boff_sub(s, i, j - 1);
        lemma_boff_step(s, j - 1);
        assert(s.subrange(i, j).drop_last() =~= s.subrange(i, j - 1));
    }
}

pub proof fn lemma_byte_index_from(s: Seq<char>, x: int, i: int)
    requires
        0 <= i,
    ensures
        byte_index_from(s, x, i) matches Some(k) ==> i <= k <= s.len() && boff(s, k) == x,
    decreases s.len() + 1 - i,
{
    if i <= s.len() && boff(s, i) != x {
        lemma_byte_index_from(s, x, i + 1);
    }
}

pub fn utf8_width_exec(c: char) -> (w: usize)
    ensures
        w == utf8_width(c),
{
    let u = c as u32;
    if u < 0x80 {
        1
    } else if u < 0x800 {
        2
    } else if u < 0x10000 {
        3
    } else {
        4
    }
}

/// The byte offset of every character index of `v`, end included.
pub fn byte_offsets(v: &Vec<char>) -> (offs: Vec<usize>)
    requires
        byte_len(v@) <= usize::MAX,
    ensures
        offs@.len() == v@.len() + 1,
        forall|i: int| 0 <= i <= v@.len() ==> #[trigger] offs@[i] == boff(v@, i),
{
    let mut offs: Vec<usize> = Vec::new();
    let mut acc: usize = 0;
    offs.push(0);
    assert(v@.take(0) =~= Seq::<char>::empty());
    let mut i: usize = 0;
    while i < v.len()
        invariant
            0 <= i <= v@.len(),
            byte_len(v@) <= usize::MAX,
            offs@.len() == i + 1,
            acc == boff(v@, i as int),
            forall|k: int| 0 <= k <= i ==> #[trigger] offs@[k] == boff(v@, k),
        decreases v.len() - i,
    {
        proof {
            lemma_boff_step(v@, i as int);
            lemma_boff_mono(v@, i + 1, v@.len() as int);
            assert(v@.take(v@.len() as int) =~= v@);
        }
        acc = acc + utf8_width_exec(v[i]);
        offs.push(acc);
        i = i + 1;
    }
    offs
}

/// The character index at byte offset `x`, if `x` is a boundary.
pub fn char_at_byte_vec(v: &Vec<char>, offs: &Vec<usize>, x: usize) -> (r: Option<usize>)
    requires
        offs@.len() == v@.len() + 1,
        forall|i: int| 0 <= i <= v@.len() ==> #[trigger] offs@[i] == boff(v@, i),
    ensures
        r matches Some(k) ==> char_at_byte(v@, x as int) == Some(k as int),
        r is None ==> char_at_byte(v@, x as int) is None,
{
    let mut i: usize = 0;
    while i < offs.len()
        invariant
            0 <= i <= offs@.len() == v@.len() + 1,
            forall|j: int| 0 <= j <= v@.len() ==> #[trigger] offs@[j] == boff(v@, j),
            byte_index_from(v@, x as int, i as int) == char_at_byte(v@, x as int),
        decreases offs.len() - i,
    {
        if offs[i] == x {
            return Some(i);
        }
        i = i + 1;
    }
    None
}

/// The first index from `i` whose byte offset is `x`.
pub proof fn lemma_byte_index_first(s: Seq<char>, x: int, i: int, k: int)
    requires
        0 <= i <= k <= s.len(),
        forall|j: int| i <= j < k ==> boff(s, j) != x,
        boff(s, k) == x,
    ensures
        byte_index_from(s, x, i) == Some(k),
    decreases k - i,
{
    if i < k {
        lemma_byte_index_first(s, x, i + 1, k);
    }
}

/// No index from `i` has byte offset `x`.
pub proof fn lemma_byte_index_none(s: Seq<char>, x: int, i: int)
    requires
        0 <= i,
        forall|j: int| i <= j <= s.len() ==> boff(s, j) != x,
    ensures
        byte_index_from(s, x, i) is None,
    decreases s.len() + 1 - i,
{
    if i <= s.len() {
        lemma_byte_index_none(s, x, i + 1);
    }
}

} // verus!
