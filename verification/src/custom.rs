//! `custom` segment — the output of a user command, rendered through
//! the segment format (a backslash is not an escape here).

use vstd::prelude::*;
use crate::markup::{render_markup, render_spec, vars_view};

verus! {

/// The bindings a `custom` format sees: `$output`.
pub open spec fn custom_vars(output: Seq<char>) -> Seq<(Seq<char>, Seq<char>)> {
    seq![("output"@, output)]
}

/// Render the format string. Substitutions: `$output`; backslashes are
/// kept as they are.
pub fn render_format(fmt: &str, output: &str) -> (out: String)
    ensures
        out@ == render_spec(fmt@, custom_vars(output@), false),
{
    let vars = [("output", output)];
    let out = render_markup(fmt, &vars, false);
    assert(vars_view(&vars) =~= custom_vars(output@));
    out
}

} // verus!
