//! `cofre_tier` segment — the active cofre secret backend, read from
//! the cofre manifest under `$HOME`.

use vstd::prelude::*;
use crate::fleet_node::manifest_path_spec;
use crate::markup::{render_markup, render_spec, vars_view};

verus! {

/// The cofre manifest: only the `backend` field is read.
pub struct CofreManifest {
    pub backend: String,
}

/// Join `$HOME` with the manifest path; the same guard as
/// `fleet_node::resolve_manifest_path`.
pub fn resolve_manifest_path(home: &str, rel: &str) -> (p: String)
    ensures
        p@ == manifest_path_spec(home@, rel@),
{
    crate::fleet_node::resolve_manifest_path(home, rel)
}

/// The bindings a `cofre_tier` format sees: `$backend`.
pub open spec fn cofre_vars(backend: Seq<char>) -> Seq<(Seq<char>, Seq<char>)> {
    seq![("backend"@, backend)]
}

/// Render the format string. Substitutions: `$backend`.
pub fn render_format(fmt: &str, backend: &str) -> (out: String)
    ensures
        out@ == render_spec(fmt@, cofre_vars(backend@), true),
{
    let vars = [("backend", backend)];
    let out = render_markup(fmt, &vars, true);
    assert(vars_view(&vars) =~= cofre_vars(backend@));
    out
}

} // verus!
