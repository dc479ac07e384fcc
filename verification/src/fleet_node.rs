//! `fleet_node` segment — the current node identity and cluster role,
//! read from the kindling node manifest under `$HOME`.

use vstd::prelude::*;
use crate::paths::{has_parent_dir, has_parent_dir_exec, is_absolute, join, join_spec};
use crate::text::chars_of;

verus! {

broadcast use vstd::string::group_string_axioms;

/// The kindling node manifest: the fields the segment renders.
pub struct NodeManifest {
    pub node_name: String,
    pub cluster: String,
    pub role: String,
}

/// The manifest path: an absolute setting is taken as is; a relative
/// one is joined to `home`, unless it has a `..` component, in which
/// case the path names the `__rejected_traversal__` marker under `home`.
pub open spec fn manifest_path_spec(home: Seq<char>, rel: Seq<char>) -> Seq<char> {
    if is_absolute(rel) {
        rel
    } else if has_parent_dir(rel) {
        join_spec(home, "__rejected_traversal__"@)
    } else {
        join_spec(home, rel)
    }
}

/// Join `$HOME` with the manifest path. Rejects `..` segments to
/// prevent path-traversal escape from `$HOME`; absolute paths pass
/// through.
pub fn resolve_manifest_path(home: &str, rel: &str) -> (p: String)
    ensures
        p@ == manifest_path_spec(home@, rel@),
{
    let rv = chars_of(rel);
    if rv.len() > 0 && rv[0] == '/' {
        let mut p = String::new();
        p.append(rel);
        return p;
    }
    if has_parent_dir_exec(rel) {
        return join(home, "__rejected_traversal__");
    }
    join(home, rel)
}

} // verus!
