use seki::nix_shell::{detect_state, NixState};

#[test]
fn detect_pure_impure_unknown_none() {
    assert_eq!(detect_state(Some("pure")), NixState::Pure);
    assert_eq!(detect_state(Some("impure")), NixState::Impure);
    assert_eq!(detect_state(Some("weird")), NixState::Unknown);
    assert_eq!(detect_state(None), NixState::NoShell);
    assert_eq!(detect_state(Some("")), NixState::NoShell);
}
