//! `git_branch` segment — the current branch name, cut to
//! `truncation_length` characters.

use vstd::prelude::*;
use crate::tear::truncate_spec;
use vstd::string::StringSliceAdditionalSpecFns;
use crate::text::{
    boff, byte_len, char_at_byte, chars_of, has_prefix, lemma_boff_mono, lemma_boff_step,
    lemma_byte_index_first, lemma_byte_index_none, starts_with_vec, string_of, string_of_range,
    sub_vec, trim, trim_vec, utf8_width_exec,
};

verus! {

/// The branch as is when `max` is 0 or `usize::MAX` or its UTF-8 byte
/// length is within `max`; otherwise its first `max` characters followed
/// by `suffix`.
pub open spec fn truncate_branch_spec(branch: &str, max: usize, suffix: Seq<char>) -> Seq<char> {
    if max == 0 || max == usize::MAX || branch.spec_bytes().len() <= max {
        branch@
    } else {
        truncate_spec(branch@, max as nat) + suffix
    }
}

pub fn truncate_branch(branch: &str, max: usize, suffix: &str) -> (out: String)
    ensures
        out@ == truncate_branch_spec(branch, max, suffix@),
{
    let v = chars_of(branch);
    if max == 0 || max == usize::MAX || branch.as_bytes().len() <= max {
        return string_of(&v);
    }
    let end = if max < v.len() {
        max
    } else {
        v.len()
    };
    let mut s = string_of_range(&v, 0, end);
    s.append(suffix);
    assert(s@ =~= truncate_spec(branch@, max as nat) + suffix@);
    s
}

/// The symbolic-ref marker of a `.git/HEAD` naming a branch.
pub open spec fn head_ref_prefix() -> Seq<char> {
    "ref: refs/heads/"@
}

/// The short SHA cut of a detached HEAD falls on a character boundary
/// (or is not taken at all); slicing off a boundary panics.
pub open spec fn head_cut_ok(head: Seq<char>) -> bool {
    let t = trim(head);
    has_prefix(t, head_ref_prefix()) || byte_len(t) < 7 || char_at_byte(t, 7) is Some
}

/// The branch a `.git/HEAD` text names: after trimming, `ref:
/// refs/heads/<branch>` gives `<branch>`; otherwise a text of at least 7
/// bytes gives its first 7 bytes (the short detached SHA); otherwise
/// nothing.
pub open spec fn head_branch_spec(head: Seq<char>) -> Option<Seq<char>> {
    let t = trim(head);
    if has_prefix(t, head_ref_prefix()) {
        Some(t.skip(head_ref_prefix().len() as int))
    } else if byte_len(t) >= 7 {
        match char_at_byte(t, 7) {
            Some(k) => Some(t.take(k)),
            None => None,
        }
    } else {
        None
    }
}

/// Whether [`parse_head`] can read `head` without cutting a character:
/// the trimmed text names a branch, is shorter than 7 bytes, or has a
/// character boundary at byte 7.
pub fn head_cut_is_safe(head: &str) -> (b: bool)
    ensures
        b == head_cut_ok(head@),
{
    let v = chars_of(head);
    let t = trim_vec(&v);
    if starts_with_vec(&t, "ref: refs/heads/") {
        return true;
    }
    let mut acc: usize = 0;
    let mut i: usize = 0;
    while i < t.len() && acc < 7
        invariant
            0 <= i <= t@.len(),
            acc == boff(t@, i as int),
            acc <= 7 + 4,
            forall|j: int| 0 <= j < i ==> boff(t@, j) < 7,
        decreases t.len() - i,
    {
        proof {
            lemma_boff_step(t@, i as int);
        }
        acc = acc + utf8_width_exec(t[i]);
        i = i + 1;
    }
    proof {
        assert(t@.take(t@.len() as int) =~= t@);
        lemma_boff_mono(t@, i as int, t@.len() as int);
    }
    if acc < 7 {
        assert(i == t@.len());
        return true;
    }
    if acc == 7 {
        proof {
            lemma_byte_index_first(t@, 7, 0, i as int);
        }
        return true;
    }
    proof {
        assert forall|j: int| 0 <= j <= t@.len() implies boff(t@, j) != 7 by {
            if j >= i {
                lemma_boff_mono(t@, i as int, j);
            }
        }
        lemma_byte_index_none(t@, 7, 0);
    }
    false
}

/// Reads the branch out of the text of `.git/HEAD`.
pub fn parse_head(head: &str) -> (r: Option<String>)
    requires
        head_cut_ok(head@),
    ensures
        r matches Some(x) ==> head_branch_spec(head@) == Some(x@),
        r is None ==> head_branch_spec(head@) is None,
{
    let v = chars_of(head);
    let t = trim_vec(&v);
    if starts_with_vec(&t, "ref: refs/heads/") {
        let plen = chars_of("ref: refs/heads/").len();
        let rest = sub_vec(&t, plen, t.len());
        assert(rest@ =~= t@.skip(head_ref_prefix().len() as int));
        return Some(string_of(&rest));
    }
    let mut acc: usize = 0;
    let mut i: usize = 0;
    assert(t@.take(0) =~= Seq::<char>::empty());
    while i < t.len() && acc < 7
        invariant
            0 <= i <= t@.len(),
            acc == boff(t@, i as int),
            acc <= 7 + 4,
            forall|j: int| 0 <= j < i ==> boff(t@, j) < 7,
        decreases t.len() - i,
    {
        proof {
            lemma_boff_step(t@, i as int);
        }
        acc = acc + utf8_width_exec(t[i]);
        i = i + 1;
    }
    proof {
        assert(t@.take(t@.len() as int) =~= t@);
        lemma_boff_mono(t@, i as int, t@.len() as int);
    }
    if acc < 7 {
        assert(i == t@.len());
        return None;
    }
    if acc == 7 {
        proof {
            lemma_byte_index_first(t@, 7, 0, i as int);
        }
        let out = string_of_range(&t, 0, i);
        assert(out@ =~= t@.take(i as int));
        return Some(out);
    }
    proof {
        assert forall|j: int| 0 <= j <= t@.len() implies boff(t@, j) != 7 by {
            if j >= i {
                lemma_boff_mono(t@, i as int, j);
            }
        }
        lemma_byte_index_none(t@, 7, 0);
    }
    None
}

} // verus!
