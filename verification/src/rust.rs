//! `rust` segment — the toolchain channel a project pins, read from the
//! text of `rust-toolchain.toml` or of a plain `rust-toolchain` file.

use vstd::prelude::*;
use crate::text::{
    chars_of, has_prefix, lines, lines_vec, starts_with_vec, string_of, sub_vec, trim, trim_end_char,
    trim_end_char_len, trim_vec,
};

verus! {

broadcast use vstd::string::group_string_axioms;

/// First index at or after `i` that is not a space, `=` or `"`.
pub open spec fn assign_end(s: Seq<char>, i: int) -> int
    decreases s.len() - i,
{
    if 0 <= i < s.len() && (s[i] == ' ' || s[i] == '=' || s[i] == '"') {
        assign_end(s, i + 1)
    } else {
        i
    }
}

/// The value of a `channel = "<v>"` line: after trimming the line and
/// the word `channel`, spaces, `=` and `"` are skipped, trailing `"`
/// dropped and the rest trimmed; a non-empty rest is the channel.
pub open spec fn channel_line(l: Seq<char>) -> Option<Seq<char>> {
    let t = trim(l);
    if has_prefix(t, "channel"@) {
        let r = t.skip(assign_end(t, "channel"@.len() as int));
        let v = trim(trim_end_char(r, '"'));
        if v.len() > 0 {
            Some(v)
        } else {
            None
        }
    } else {
        None
    }
}

/// The first line that names a channel.
pub open spec fn first_channel(ls: Seq<Seq<char>>) -> Option<Seq<char>>
    decreases ls.len(),
{
    if ls.len() == 0 {
        None
    } else {
        match channel_line(ls[0]) {
            Some(v) => Some(v),
            None => first_channel(ls.drop_first()),
        }
    }
}

/// The channel a `rust-toolchain.toml` text pins.
pub fn channel_from_toml(content: &str) -> (r: Option<String>)
    ensures
        r matches Some(x) ==> first_channel(lines(content@)) == Some(x@),
        r is None ==> first_channel(lines(content@)) is None,
{
    let v = chars_of(content);
    let ls = lines_vec(&v);
    let ghost lsv = lines(content@);
    let word = chars_of("channel");
    let mut i: usize = 0;
    assert(lsv.skip(0) =~= lsv);
    while i < ls.len()
        invariant
            0 <= i <= ls@.len() == lsv.len(),
            lsv == lines(content@),
            word@ == "channel"@,
            forall|k: int| 0 <= k < ls@.len() ==> #[trigger] ls@[k]@ == lsv[k],
            first_channel(lsv.skip(i as int)) == first_channel(lsv),
        decreases ls.len() - i,
    {
        proof {
            assert(lsv.skip(i as int)[0] == lsv[i as int]);
            assert(lsv.skip(i as int).drop_first() =~= lsv.skip(i + 1));
        }
        let t = trim_vec(&ls[i]);
        if starts_with_vec(&t, "channel") {
            let mut a: usize = word.len();
            while a < t.len() && (t[a] == ' ' || t[a] == '=' || t[a] == '"')
                invariant
                    word@.len() <= a <= t@.len(),
                    assign_end(t@, a as int) == assign_end(t@, word@.len() as int),
                decreases t.len() - a,
            {
                a = a + 1;
            }
            let r = sub_vec(&t, a, t.len());
            assert(r@ =~= t@.skip(a as int));
            let k = trim_end_char_len(&r, '"');
            let r2 = sub_vec(&r, 0, k);
            assert(r2@ =~= r@.take(k as int));
            let val = trim_vec(&r2);
            if val.len() > 0 {
                return Some(string_of(&val));
            }
        }
        i = i + 1;
    }
    assert(lsv.skip(ls@.len() as int) =~= Seq::<Seq<char>>::empty());
    None
}

/// The channel a plain `rust-toolchain` text names: the trimmed text,
/// when not empty.
pub fn channel_from_plain(content: &str) -> (r: Option<String>)
    ensures
        r matches Some(x) ==> trim(content@).len() > 0 && x@ == trim(content@),
        r is None ==> trim(content@).len() == 0,
{
    let v = chars_of(content);
    let t = trim_vec(&v);
    if t.len() > 0 {
        Some(string_of(&t))
    } else {
        None
    }
}

} // verus!
