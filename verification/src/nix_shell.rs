//! `nix_shell` segment — whether the shell runs inside a nix shell,
//! from `IN_NIX_SHELL`.

use vstd::prelude::*;
use crate::text::{chars_of, range_eq};

verus! {

broadcast use vstd::string::group_string_axioms;

#[derive(Debug, Clone, Copy, PartialEq, Eq, Structural)]
pub enum NixState {
    NoShell,
    Pure,
    Impure,
    Unknown,
}

/// Unset or empty → `NoShell`; `pure` / `impure`; anything else `Unknown`.
pub open spec fn state_spec(in_nix_shell: Option<Seq<char>>) -> NixState {
    match in_nix_shell {
        None => NixState::NoShell,
        Some(v) => if v.len() == 0 {
            NixState::NoShell
        } else if v == "pure"@ {
            NixState::Pure
        } else if v == "impure"@ {
            NixState::Impure
        } else {
            NixState::Unknown
        },
    }
}

pub fn detect_state(in_nix_shell: Option<&str>) -> (st: NixState)
    ensures
        st == state_spec(crate::paths::opt_view(in_nix_shell)),
{
    match in_nix_shell {
        None => NixState::NoShell,
        Some(v) => {
            let c = chars_of(v);
            if c.len() == 0 {
                NixState::NoShell
            } else if range_eq(&c, 0, c.len(), "pure") {
                assert(c@.subrange(0, c@.len() as int) =~= c@);
                NixState::Pure
            } else if range_eq(&c, 0, c.len(), "impure") {
                assert(c@.subrange(0, c@.len() as int) =~= c@);
                NixState::Impure
            } else {
                assert(c@.subrange(0, c@.len() as int) =~= c@);
                NixState::Unknown
            }
        },
    }
}

} // verus!
