//! `stylix` segment — the active base16 scheme, rendered through the
//! segment format.

use vstd::prelude::*;
use crate::markup::{render_markup, render_spec, vars_view};

verus! {

/// The bindings a `stylix` format sees: `$name`.
pub open spec fn stylix_vars(name: Seq<char>) -> Seq<(Seq<char>, Seq<char>)> {
    seq![("name"@, name)]
}

/// Render the format string. Substitutions: `$name`.
pub fn render_format(fmt: &str, name: &str) -> (out: String)
    ensures
        out@ == render_spec(fmt@, stylix_vars(name@), true),
{
    let vars = [("name", name)];
    let out = render_markup(fmt, &vars, true);
    assert(vars_view(&vars) =~= stylix_vars(name@));
    out
}

/// The scheme given the manifest's scheme and the variable's answer: a
/// non-empty manifest scheme, else a non-empty variable value, else none.
pub open spec fn scheme_spec(manifest: Option<Seq<char>>, env: Option<String>) -> Option<Seq<char>> {
    match manifest {
        Some(m) if m.len() > 0 => Some(m),
        _ => match env {
            Some(v) => if v@.len() > 0 {
                Some(v@)
            } else {
                None
            },
            None => None,
        },
    }
}

/// The characters of an optional `String`.
pub open spec fn ov(s: Option<String>) -> Option<Seq<char>> {
    match s {
        Some(x) => Some(x@),
        None => None,
    }
}

/// Picks the active scheme: the manifest's `base16_scheme` when present
/// and not empty, else the `env_var` variable when set and not empty.
pub fn choose_scheme<F>(manifest_scheme: Option<&str>, env_var: &str, lookup: F) -> (r: Option<
    String,
>)
    where
        F: Fn(&str) -> Option<String>,
    requires
        forall|k: &str| lookup.requires((k,)),
    ensures
        (manifest_scheme matches Some(m) && m@.len() > 0) ==> ov(r) == Some(
            manifest_scheme->Some_0@,
        ),
        !(manifest_scheme matches Some(m) && m@.len() > 0) ==> exists|v: Option<String>|
            {
                &&& #[trigger] lookup.ensures((env_var,), v)
                &&& ov(r) == scheme_spec(None, v)
            },
{
    if let Some(m) = manifest_scheme {
        if m.unicode_len() > 0 {
            let mut s = String::new();
            s.append(m);
            return Some(s);
        }
    }
    let v = lookup(env_var);
    let ghost got = v;
    let r = match v {
        Some(x) => if x.unicode_len() > 0 {
            Some(x)
        } else {
            None
        },
        None => None,
    };
    assert(ov(r) == scheme_spec(None, got));
    r
}

} // verus!
