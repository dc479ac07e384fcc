//! `blackmatter` segment — how many blackmatter components are
//! installed: the `$XDG_CONFIG_HOME` resolution and the label format.

use vstd::prelude::*;
use crate::markup::{render_markup, render_spec, vars_view};
use crate::paths::{join, join_spec, opt_view};
use crate::text::{dec, dec_string};

verus! {

broadcast use vstd::string::group_string_axioms;

/// The configuration home for a non-empty `$XDG_CONFIG_HOME` value
/// `xdg`; otherwise `<home>/.config`, or nothing without a home.
pub open spec fn xdg_spec(home: Option<Seq<char>>, xdg: Option<String>) -> Option<Seq<char>> {
    match xdg {
        Some(v) if v@.len() > 0 => Some(v@),
        _ => match home {
            Some(h) => Some(join_spec(h, ".config"@)),
            None => None,
        },
    }
}

/// Resolves `$XDG_CONFIG_HOME`: the variable when set and non-empty,
/// else `<home>/.config`, else `None`.
pub fn xdg_config_home<F>(home: Option<&str>, lookup: F) -> (r: Option<String>)
    where
        F: Fn(&str) -> Option<String>,
    requires
        forall|k: &str| lookup.requires((k,)),
    ensures
        exists|v: Option<String>|
            {
                &&& lookup.ensures(("XDG_CONFIG_HOME",), v)
                &&& opt_view_string(r) == xdg_spec(opt_view(home), v)
            },
{
    let v = lookup("XDG_CONFIG_HOME");
    let ghost got = v;
    let r = match v {
        Some(x) => {
            if x.unicode_len() != 0 {
                Some(x)
            } else {
                match home {
                    Some(h) => Some(join(h, ".config")),
                    None => None,
                }
            }
        },
        None => match home {
            Some(h) => Some(join(h, ".config")),
            None => None,
        },
    };
    assert(lookup.ensures(("XDG_CONFIG_HOME",), got));
    assert(opt_view_string(r) == xdg_spec(opt_view(home), got));
    r
}

/// The characters of an optional `String`.
pub open spec fn opt_view_string(s: Option<String>) -> Option<Seq<char>> {
    match s {
        Some(x) => Some(x@),
        None => None,
    }
}

/// The bindings a `blackmatter` format sees: `$count`.
pub open spec fn blackmatter_vars(count: nat) -> Seq<(Seq<char>, Seq<char>)> {
    seq![("count"@, dec(count))]
}

/// Render the format string. Substitutions: `$count`.
pub fn render_format(fmt: &str, count: usize) -> (out: String)
    ensures
        out@ == render_spec(fmt@, blackmatter_vars(count as nat), true),
{
    let c = dec_string(count as u64);
    let vars = [("count", c.as_str())];
    let out = render_markup(fmt, &vars, true);
    assert(vars_view(&vars) =~= blackmatter_vars(count as nat));
    out
}

/// The component count: the manifest's count whenever it was read (even
/// 0); otherwise the count of known component directories, when it is
/// not 0.
pub fn choose_count(manifest_count: Option<usize>, dir_count: Option<usize>) -> (r: Option<usize>)
    ensures
        r == (match manifest_count {
            Some(n) => Some(n),
            None => match dir_count {
                Some(c) => if c == 0 {
                    None
                } else {
                    Some(c)
                },
                None => None,
            },
        }),
{
    match manifest_count {
        Some(n) => Some(n),
        None => match dir_count {
            Some(c) => if c == 0 {
                None
            } else {
                Some(c)
            },
            None => None,
        },
    }
}

} // verus!
