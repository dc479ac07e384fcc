//! The starship-style format-string renderer every segment shares.
//!
//! A format such as `"[~ $session] [pane $pane]($style)"` renders to
//! plain text: `$name` is replaced by the value bound to `name` (an
//! unbound name renders as nothing), the bracket markup `[` `]` is
//! dropped, a parenthesised group (the style marker, with nesting) is
//! skipped whole, and — when escapes are on — a backslash renders the
//! character after it literally.

use vstd::prelude::*;
use crate::text::{chars_of, is_ascii_alnum, is_ascii_alnum_exec, push_char};

verus! {

broadcast use vstd::string::group_string_axioms;

/// Characters a `$name` variable reference is made of.
pub open spec fn is_ident_char(c: char) -> bool {
    is_ascii_alnum(c) || c == '_'
}

/// End of the identifier that starts at `i`.
pub open spec fn ident_end(s: Seq<char>, i: int) -> int
    decreases s.len() - i,
{
    if 0 <= i < s.len() && is_ident_char(s[i]) {
        ident_end(s, i + 1)
    } else {
        i
    }
}

/// Position just after the `)` that closes a group opened before `i`
/// (`depth` groups are open), or the end of `s` when it never closes.
pub open spec fn group_end(s: Seq<char>, i: int, depth: nat) -> int
    decreases s.len() - i,
{
    if i < 0 || i >= s.len() {
        s.len() as int
    } else if s[i] == '(' {
        group_end(s, i + 1, depth + 1)
    } else if s[i] == ')' {
        if depth <= 1 {
            i + 1
        } else {
            group_end(s, i + 1, (depth - 1) as nat)
        }
    } else {
        group_end(s, i + 1, depth)
    }
}

pub proof fn lemma_ident_end(s: Seq<char>, i: int)
    requires
        0 <= i <= s.len(),
    ensures
        i <= ident_end(s, i) <= s.len(),
    decreases s.len() - i,
{
    if i < s.len() && is_ident_char(s[i]) {
        lemma_ident_end(s, i + 1);
    }
}

pub proof fn lemma_group_end(s: Seq<char>, i: int, depth: nat)
    requires
        0 <= i <= s.len(),
    ensures
        i <= group_end(s, i, depth) <= s.len(),
    decreases s.len() - i,
{
    if i < s.len() {
        if s[i] == '(' {
            lemma_group_end(s, i + 1, depth + 1);
        } else if s[i] == ')' {
            if depth > 1 {
                lemma_group_end(s, i + 1, (depth - 1) as nat);
            }
        } else {
            lemma_group_end(s, i + 1, depth);
        }
    }
}

/// The value bound to `name` (the first binding wins), or nothing.
pub open spec fn lookup(vars: Seq<(Seq<char>, Seq<char>)>, name: Seq<char>) -> Seq<char>
    decreases vars.len(),
{
    if vars.len() == 0 {
        Seq::empty()
    } else if vars[0].0 == name {
        vars[0].1
    } else {
        lookup(vars.drop_first(), name)
    }
}

/// Rendering of `f[i..]`.
pub open spec fn render_from(
    f: Seq<char>,
    vars: Seq<(Seq<char>, Seq<char>)>,
    escapes: bool,
    i: int,
) -> Seq<char>
    decreases f.len() - i,
{
    if i < 0 || i >= f.len() {
        Seq::empty()
    } else if f[i] == '$' {
        let e = ident_end(f, i + 1);
        if e <= i || e > f.len() {
            Seq::empty()
        } else {
            lookup(vars, f.subrange(i + 1, e)) + render_from(f, vars, escapes, e)
        }
    } else if f[i] == '[' || f[i] == ']' {
        render_from(f, vars, escapes, i + 1)
    } else if f[i] == '(' {
        let e = group_end(f, i + 1, 1);
        if e <= i || e > f.len() {
            Seq::empty()
        } else {
            render_from(f, vars, escapes, e)
        }
    } else if f[i] == '\\' && escapes {
        if i + 1 < f.len() {
            seq![f[i + 1]] + render_from(f, vars, escapes, i + 2)
        } else {
            Seq::empty()
        }
    } else {
        seq![f[i]] + render_from(f, vars, escapes, i + 1)
    }
}

/// The rendering of the whole format `f`.
pub open spec fn render_spec(f: Seq<char>, vars: Seq<(Seq<char>, Seq<char>)>, escapes: bool) -> Seq<
    char,
> {
    render_from(f, vars, escapes, 0)
}

/// The bindings of `vars` as character sequences.
pub open spec fn vars_view(vars: &[(&str, &str)]) -> Seq<(Seq<char>, Seq<char>)> {
    vars@.map_values(|p: (&str, &str)| (p.0@, p.1@))
}

fn chars_eq_range(v: &Vec<char>, from: usize, to: usize, w: &Vec<char>) -> (b: bool)
    requires
        from <= to <= v@.len(),
    ensures
        b == (v@.subrange(from as int, to as int) == w@),
{
    if to - from != w.len() {
        return false;
    }
    let mut k: usize = 0;
    while k < w.len()
        invariant
            from <= to <= v@.len(),
            to - from == w@.len(),
            0 <= k <= w@.len(),
            forall|j: int| 0 <= j < k ==> v@[from + j] == w@[j],
        decreases w.len() - k,
    {
        if v[from + k] != w[k] {
            assert(v@.subrange(from as int, to as int)[k as int] != w@[k as int]);
            return false;
        }
        k = k + 1;
    }
    assert(v@.subrange(from as int, to as int) =~= w@);
    true
}

/// Index of the first binding whose name is `f[from..to]`.
fn find_binding(vars: &[(&str, &str)], f: &Vec<char>, from: usize, to: usize) -> (r: Option<
    usize,
>)
    requires
        from <= to <= f@.len(),
    ensures
        r matches Some(k) ==> k < vars@.len() && lookup(vars_view(vars), f@.subrange(
            from as int,
            to as int,
        )) == vars@[k as int].1@,
        r is None ==> lookup(vars_view(vars), f@.subrange(from as int, to as int))
            == Seq::<char>::empty(),
{
    let ghost name = f@.subrange(from as int, to as int);
    let mut k: usize = 0;
    assert(vars_view(vars).skip(0) =~= vars_view(vars));
    while k < vars.len()
        invariant
            0 <= k <= vars@.len(),
            name == f@.subrange(from as int, to as int),
            from <= to <= f@.len(),
            lookup(vars_view(vars), name) == lookup(vars_view(vars).skip(k as int), name),
        decreases vars.len() - k,
    {
        let key = chars_of(vars[k].0);
        proof {
            let vv = vars_view(vars).skip(k as int);
            assert(vv[0] == (vars@[k as int].0@, vars@[k as int].1@));
            assert(vv.drop_first() =~= vars_view(vars).skip(k + 1));
        }
        if chars_eq_range(f, from, to, &key) {
            return Some(k);
        }
        k = k + 1;
    }
    assert(vars_view(vars).skip(k as int).len() == 0);
    None
}

/// Renders the format `fmt` with the bindings `vars`; a backslash
/// escapes the next character when `escapes` holds.
pub fn render_markup(fmt: &str, vars: &[(&str, &str)], escapes: bool) -> (out: String)
    ensures
        out@ == render_spec(fmt@, vars_view(vars), escapes),
{
    let f = chars_of(fmt);
    let n = f.len();
    let ghost fv = f@;
    let ghost vv = vars_view(vars);
    let mut out = String::new();
    let mut i: usize = 0;
    while i < n
        invariant
            fv == f@,
            fv == fmt@,
            vv == vars_view(vars),
            n == fv.len(),
            0 <= i <= n,
            out@ + render_from(fv, vv, escapes, i as int) == render_spec(fv, vv, escapes),
        decreases n - i,
    {
        let c = f[i];
        if c == '$' {
            let mut e: usize = i + 1;
            while e < n && (is_ascii_alnum_exec(f[e]) || f[e] == '_')
                invariant
                    i < e <= n == fv.len(),
                    fv == f@,
                    ident_end(fv, e as int) == ident_end(fv, i + 1),
                decreases n - e,
            {
                e = e + 1;
            }
            proof {
                lemma_ident_end(fv, i + 1);
            }
            match find_binding(vars, &f, i + 1, e) {
                Some(k) => {
                    out.append(vars[k].1);
                },
                None => {},
            }
            proof {
                assert(out@ + render_from(fv, vv, escapes, e as int) == render_spec(
                    fv,
                    vv,
                    escapes,
                )) by {
                    assert(render_from(fv, vv, escapes, i as int) == lookup(
                        vv,
                        fv.subrange(i + 1, e as int),
                    ) + render_from(fv, vv, escapes, e as int));
                }
            }
            i = e;
        } else if c == '[' || c == ']' {
            i = i + 1;
        } else if c == '(' {
            let mut depth: usize = 1;
            let mut j: usize = i + 1;
            let mut closed = false;
            while j < n && !closed
                invariant
                    i < j <= n == fv.len(),
                    fv == f@,
                    1 <= depth <= j - i,
                    !closed ==> group_end(fv, j as int, depth as nat) == group_end(
                        fv,
                        i + 1,
                        1,
                    ),
                    closed ==> j == group_end(fv, i + 1, 1),
                decreases n - j,
            {
                if f[j] == '(' {
                    depth = depth + 1;
                } else if f[j] == ')' {
                    if depth <= 1 {
                        closed = true;
                    } else {
                        depth = depth - 1;
                    }
                }
                j = j + 1;
            }
            proof {
                lemma_group_end(fv, i + 1, 1);
            }
            i = j;
        } else if c == '\\' && escapes {
            if i + 1 < n {
                push_char(&mut out, f[i + 1]);
                proof {
                    assert(render_from(fv, vv, escapes, i as int) == seq![fv[i + 1]]
                        + render_from(fv, vv, escapes, i + 2));
                    assert((out@.drop_last() + seq![fv[i + 1]]) =~= out@);
                }
                i = i + 2;
            } else {
                i = n;
            }
        } else {
            push_char(&mut out, c);
            proof {
                assert(render_from(fv, vv, escapes, i as int) == seq![c] + render_from(
                    fv,
                    vv,
                    escapes,
                    i + 1,
                ));
            }
            i = i + 1;
        }
    }
    out
}

/// A character the renderer reads as markup.
pub open spec fn is_markup(c: char, escapes: bool) -> bool {
    c == '$' || c == '[' || c == ']' || c == '(' || (escapes && c == '\\')
}

proof fn lemma_plain_from(f: Seq<char>, vars: Seq<(Seq<char>, Seq<char>)>, escapes: bool, i: int)
    requires
        0 <= i <= f.len(),
        forall|k: int| 0 <= k < f.len() ==> !is_markup(#[trigger] f[k], escapes),
    ensures
        render_from(f, vars, escapes, i) == f.skip(i),
    decreases f.len() - i,
{
    if i < f.len() {
        lemma_plain_from(f, vars, escapes, i + 1);
        assert(f.skip(i) =~= seq![f[i]] + f.skip(i + 1));
    } else {
        assert(f.skip(i) =~= Seq::<char>::empty());
    }
}

/// A format without markup characters renders as itself, whatever the
/// bindings.
pub proof fn law_plain_text_renders_as_itself(
    f: Seq<char>,
    vars: Seq<(Seq<char>, Seq<char>)>,
    escapes: bool,
)
    requires
        forall|k: int| 0 <= k < f.len() ==> !is_markup(#[trigger] f[k], escapes),
    ensures
        render_spec(f, vars, escapes) == f,
{
    lemma_plain_from(f, vars, escapes, 0);
    assert(f.skip(0) =~= f);
}

/// `$name` alone renders as the value bound to `name` (nothing when
/// unbound).
pub proof fn law_variable_renders_its_value(
    name: Seq<char>,
    vars: Seq<(Seq<char>, Seq<char>)>,
    escapes: bool,
)
    requires
        forall|k: int| 0 <= k < name.len() ==> is_ident_char(#[trigger] name[k]),
    ensures
        render_spec(seq!['$'] + name, vars, escapes) == lookup(vars, name),
{
    let f = seq!['$'] + name;
    assert forall|k: int| 1 <= k < f.len() implies is_ident_char(#[trigger] f[k]) by {
        assert(f[k] == name[k - 1]);
    }
    lemma_ident_run(f, 1);
    assert(f.subrange(1, f.len() as int) =~= name);
    assert(render_from(f, vars, escapes, f.len() as int) == Seq::<char>::empty());
    assert(lookup(vars, name) + Seq::<char>::empty() =~= lookup(vars, name));
}

proof fn lemma_ident_run(f: Seq<char>, i: int)
    requires
        0 <= i <= f.len(),
        forall|k: int| i <= k < f.len() ==> is_ident_char(#[trigger] f[k]),
    ensures
        ident_end(f, i) == f.len(),
    decreases f.len() - i,
{
    if i < f.len() {
        lemma_ident_run(f, i + 1);
    }
}

/// `[$name](style)` — a bound variable inside bracket markup with a
/// style group — renders as the variable's value alone.
pub proof fn law_styled_variable_renders_its_value(
    name: Seq<char>,
    style: Seq<char>,
    vars: Seq<(Seq<char>, Seq<char>)>,
    escapes: bool,
)
    requires
        name.len() > 0,
        forall|k: int| 0 <= k < name.len() ==> is_ident_char(#[trigger] name[k]),
        forall|k: int| 0 <= k < style.len() ==> (#[trigger] style[k]) != '(' && style[k] != ')',
    ensures
        render_spec(seq!['[', '$'] + name + seq![']', '('] + style + seq![')'], vars, escapes)
            == lookup(vars, name),
{
    let f = seq!['[', '$'] + name + seq![']', '('] + style + seq![')'];
    let n = name.len() as int;
    assert(f[0] == '[');
    assert(f[1] == '$');
    assert forall|k: int| 2 <= k < 2 + n implies is_ident_char(#[trigger] f[k]) by {
        assert(f[k] == name[k - 2]);
    }
    assert(f[2 + n] == ']');
    assert(!is_ident_char(f[2 + n]));
    lemma_ident_stop(f, 2, 2 + n);
    assert(f.subrange(2, 2 + n) =~= name);
    assert(f[3 + n] == '(');
    let close = 4 + n + style.len();
    assert(f[close] == ')');
    assert forall|k: int| 4 + n <= k < close implies (#[trigger] f[k]) != '(' && f[k] != ')' by {
        assert(f[k] == style[k - 4 - n]);
    }
    lemma_group_plain(f, 4 + n, close);
    assert(close + 1 == f.len());
    assert(render_from(f, vars, escapes, 3 + n) == render_from(f, vars, escapes, close + 1));
    assert(render_from(f, vars, escapes, close + 1) == Seq::<char>::empty());
    assert(render_from(f, vars, escapes, 2 + n) == render_from(f, vars, escapes, 3 + n));
    assert(render_from(f, vars, escapes, 1) == lookup(vars, name) + render_from(
        f,
        vars,
        escapes,
        2 + n,
    ));
    assert(lookup(vars, name) + Seq::<char>::empty() =~= lookup(vars, name));
}

proof fn lemma_ident_stop(f: Seq<char>, i: int, e: int)
    requires
        0 <= i <= e < f.len(),
        forall|k: int| i <= k < e ==> is_ident_char(#[trigger] f[k]),
        !is_ident_char(f[e]),
    ensures
        ident_end(f, i) == e,
    decreases e - i,
{
    if i < e {
        lemma_ident_stop(f, i + 1, e);
    }
}

proof fn lemma_group_plain(f: Seq<char>, i: int, close: int)
    requires
        0 <= i <= close < f.len(),
        f[close] == ')',
        forall|k: int| i <= k < close ==> (#[trigger] f[k]) != '(' && f[k] != ')',
    ensures
        group_end(f, i, 1) == close + 1,
    decreases close - i,
{
    if i < close {
        lemma_group_plain(f, i + 1, close);
    }
}

} // verus!
