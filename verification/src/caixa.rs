//! `caixa` segment — the typed kind a `caixa.lisp` declares in its
//! `(defcaixa …)` form, and the file's path relative to the working
//! directory.

use vstd::prelude::*;
use crate::paths::{strip_prefix, stripped_path};
use crate::text::{
    chars_of, find_from, find_vec, has_prefix, is_ascii_alnum, is_ascii_alnum_exec,
    lemma_find_from, skip_ws, starts_with_vec, sub_vec, trim_start, ws_end,
};

verus! {

broadcast use vstd::string::group_string_axioms;

/// The five typed caixa kinds, in the order they are tried.
pub open spec fn caixa_kinds() -> Seq<Seq<char>> {
    seq!["Servico"@, "Biblioteca"@, "Aplicacao"@, "Supervisor"@, "Binario"@]
}

/// Characters that may continue a lisp symbol.
pub open spec fn is_lisp_symbol_char(c: char) -> bool {
    is_ascii_alnum(c) || c == '-' || c == '_'
}

/// `t` has a word boundary at `n`: the end, or a non-symbol character.
pub open spec fn boundary_at(t: Seq<char>, n: int) -> bool {
    n >= t.len() || !is_lisp_symbol_char(t[n])
}

/// The first of `ks` that `t` starts with as a whole word.
pub open spec fn first_kind(t: Seq<char>, ks: Seq<Seq<char>>) -> Option<Seq<char>>
    decreases ks.len(),
{
    if ks.len() == 0 {
        None
    } else if has_prefix(t, ks[0]) && boundary_at(t, ks[0].len() as int) {
        Some(ks[0])
    } else {
        first_kind(t, ks.drop_first())
    }
}

/// The `:kind` of the first `(defcaixa` form: the first `:kind` after
/// it, then whitespace, then one of the five kinds as a whole word.
pub open spec fn caixa_kind_spec(body: Seq<char>) -> Option<Seq<char>> {
    match find_from(body, "(defcaixa"@, 0) {
        None => None,
        Some(st) => match find_from(body, ":kind"@, st) {
            None => None,
            Some(k) => first_kind(trim_start(body.skip(k + ":kind"@.len())), caixa_kinds()),
        },
    }
}

/// Scans the leading `(defcaixa …)` form for its `:kind` slot.
pub fn parse_caixa_kind(body: &str) -> (r: Option<String>)
    ensures
        r matches Some(x) ==> caixa_kind_spec(body@) == Some(x@),
        r is None ==> caixa_kind_spec(body@) is None,
{
    let v = chars_of(body);
    let open = chars_of("(defcaixa");
    let st = match find_vec(&v, &open, 0) {
        Some(i) => i,
        None => return None,
    };
    let key = chars_of(":kind");
    let k = match find_vec(&v, &key, st) {
        Some(k) => k,
        None => return None,
    };
    proof {
        lemma_find_from(v@, key@, st as int);
    }
    let klen = key.len();
    assert(k + klen <= v.len());
    let a = k + klen;
    let b = skip_ws(&v, a, v.len());
    let t = sub_vec(&v, b, v.len());
    proof {
        let rest = v@.skip(a as int);
        crate::text::lemma_ws_end_bounds(rest, 0);
        lemma_ws_end_shift(v@, a as int, 0);
        assert(t@ =~= trim_start(rest));
    }
    let kinds = ["Servico", "Biblioteca", "Aplicacao", "Supervisor", "Binario"];
    let ghost ks = caixa_kinds();
    assert(ks.len() == 5);
    assert(ks.skip(0) =~= ks);
    assert(caixa_kind_spec(body@) == first_kind(t@, ks));
    let mut i: usize = 0;
    while i < 5
        invariant
            0 <= i <= 5,
            ks == caixa_kinds(),
            forall|j: int| 0 <= j < 5 ==> (#[trigger] kinds@[j])@ == ks[j],
            first_kind(t@, ks.skip(i as int)) == first_kind(t@, ks),
            caixa_kind_spec(body@) == first_kind(t@, ks),
        decreases 5 - i,
    {
        let kd = kinds[i];
        let n = kd.unicode_len();
        proof {
            assert(ks.skip(i as int)[0] == ks[i as int]);
            assert(ks.skip(i as int).drop_first() =~= ks.skip(i + 1));
        }
        if starts_with_vec(&t, kd) {
            if n >= t.len() || !(is_ascii_alnum_exec(t[n]) || t[n] == '-' || t[n] == '_') {
                let mut r = String::new();
                r.append(kd);
                assert(kd@ == ks[i as int]);
                assert(boundary_at(t@, n as int));
                assert(first_kind(t@, ks.skip(i as int)) == Some(ks[i as int]));
                return Some(r);
            }
        }
        i = i + 1;
    }
    None
}

/// Skipping whitespace in a suffix is skipping it in the whole.
proof fn lemma_ws_end_shift(s: Seq<char>, a: int, i: int)
    requires
        0 <= a <= s.len(),
        0 <= i <= s.len() - a,
    ensures
        ws_end(s, a + i) == a + ws_end(s.skip(a), i),
    decreases s.len() - a - i,
{
    if a + i < s.len() && crate::text::is_ws(s[a + i]) {
        lemma_ws_end_shift(s, a, i + 1);
    }
}

/// `caixa_path` relative to `cwd`: `.` when it is `cwd` itself, the rest
/// of the path when under `cwd`, the whole path otherwise.
pub open spec fn relative_spec(cwd: Seq<char>, caixa_path: Seq<char>) -> Seq<char> {
    match stripped_path(caixa_path, cwd) {
        Some(rel) => if rel.len() == 0 {
            "."@
        } else {
            rel
        },
        None => caixa_path,
    }
}

pub fn relative_path(cwd: &str, caixa_path: &str) -> (out: String)
    ensures
        out@ == relative_spec(cwd@, caixa_path@),
{
    match strip_prefix(caixa_path, cwd) {
        Some(rel) => {
            if rel.unicode_len() == 0 {
                let mut d = String::new();
                d.append(".");
                d
            } else {
                rel
            }
        },
        None => {
            let mut d = String::new();
            d.append(caixa_path);
            d
        },
    }
}

} // verus!
