//! `hostname` segment — the system hostname, cut at `trim_at`.

use vstd::prelude::*;
use crate::text::{chars_of, find, find_vec, lemma_find_from, string_of, string_of_range};

verus! {

/// `host` up to the first occurrence of `sep` (all of it when `sep` is
/// empty or absent).
pub open spec fn trim_at_spec(host: Seq<char>, sep: Seq<char>) -> Seq<char> {
    if sep.len() == 0 {
        host
    } else {
        match find(host, sep) {
            Some(i) => host.take(i),
            None => host,
        }
    }
}

pub fn trim_at(host: &str, sep: &str) -> (out: String)
    ensures
        out@ == trim_at_spec(host@, sep@),
{
    let h = chars_of(host);
    let s = chars_of(sep);
    if s.len() == 0 {
        return string_of(&h);
    }
    proof {
        lemma_find_from(h@, s@, 0);
    }
    match find_vec(&h, &s, 0) {
        Some(i) => {
            let out = string_of_range(&h, 0, i);
            assert(out@ =~= h@.take(i as int));
            out
        },
        None => string_of(&h),
    }
}

} // verus!
