//! Borealis prompt palette — the prompt accents by meaning, and the
//! style strings built from an accent's hex.

use vstd::prelude::*;

verus! {

broadcast use vstd::string::group_string_axioms;

/// The prompt accents, by semantic, each a `#RRGGBB` hex.
pub struct PromptPalette {
    /// The ❄ glyph, primary accent, hostname.
    pub ice_cyan: String,
    /// Links / directory / continuation ❄ / mado_session.
    pub ice_steel: String,
    /// Command / success / vicmd / git_branch.
    pub aurora_green: String,
    /// Error / read-only / drift.
    pub aurora_red: String,
    /// Warning / git_status / search.
    pub first_light: String,
    /// Keyword / vim replace.
    pub solar_magenta: String,
    /// cmd_duration / rust / annotations.
    pub ember: String,
    /// The agent accent (vigy / MCP / AI surfaces).
    pub fable_violet: String,
    /// Agent attention state.
    pub violet_bright: String,
    /// Comments / muted / fresh-drift.
    pub shadow1: String,
    /// fleet_node / ishou_theme dim facts.
    pub snow0: String,
}

impl PromptPalette {
    /// `bold <hex>` style string for an accent.
    pub fn bold(accent: &str) -> (s: String)
        ensures
            s@ == "bold "@ + accent@,
    {
        let mut s = String::new();
        s.append("bold ");
        s.append(accent);
        s
    }

    /// `dimmed <hex>` style string for an accent.
    pub fn dimmed(accent: &str) -> (s: String)
        ensures
            s@ == "dimmed "@ + accent@,
    {
        let mut s = String::new();
        s.append("dimmed ");
        s.append(accent);
        s
    }

    /// `[❄](bold <hex>)` symbol markup for a character / continuation
    /// glyph.
    pub fn snowflake_bold(accent: &str) -> (s: String)
        ensures
            s@ == "[❄](bold "@ + accent@ + ")"@,
    {
        let mut s = String::new();
        s.append("[❄](bold ");
        s.append(accent);
        s.append(")");
        s
    }
}

} // verus!
