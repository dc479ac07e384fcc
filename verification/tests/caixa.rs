use seki::caixa::{parse_caixa_kind, relative_path};

#[test]
fn parses_aligned_kind_slot() {
    let body = "(defcaixa\n  :nome \"foo\"\n  :kind        Binario\n  :versao \"0.1.0\")";
    assert_eq!(parse_caixa_kind(body), Some("Binario".to_owned()));
}

#[test]
fn parses_single_space_kind_slot() {
    let body = "(defcaixa :kind Servico :nome \"svc\")";
    assert_eq!(parse_caixa_kind(body), Some("Servico".to_owned()));
}

#[test]
fn rejects_unknown_kind() {
    let body = "(defcaixa :kind Bogus)";
    assert_eq!(parse_caixa_kind(body), None);
}

#[test]
fn rejects_substring_kind() {
    let body = "(defcaixa :kind ServicoFoo)";
    assert_eq!(parse_caixa_kind(body), None);
}

#[test]
fn parses_all_five_typed_kinds() {
    for k in ["Servico", "Biblioteca", "Aplicacao", "Supervisor", "Binario"] {
        let body = format!("(defcaixa :kind {k})");
        assert_eq!(parse_caixa_kind(&body), Some(k.to_owned()));
    }
}

#[test]
fn ignores_caixa_keyword_outside_defcaixa() {
    let body = ";; mentions defcaixa but no form\n";
    assert_eq!(parse_caixa_kind(body), None);
}

#[test]
fn kind_boundary_characters() {
    assert_eq!(parse_caixa_kind("(defcaixa :kind Servico-x)"), None);
    assert_eq!(parse_caixa_kind("(defcaixa :kind Servico_x)"), None);
    assert_eq!(parse_caixa_kind("(defcaixa :kind Supervisor;comment"), Some("Supervisor".to_owned()));
    assert_eq!(parse_caixa_kind("(defcaixa :kind\n\tAplicacao)"), Some("Aplicacao".to_owned()));
    assert_eq!(parse_caixa_kind(":kind Servico (defcaixa)"), None);
}

#[test]
fn relative_path_cases() {
    assert_eq!(relative_path("/repo", "/repo/caixa.lisp"), "caixa.lisp");
    assert_eq!(relative_path("/repo/a", "/repo/caixa.lisp"), "/repo/caixa.lisp");
    assert_eq!(relative_path("/repo/caixa.lisp", "/repo/caixa.lisp"), ".");
}
