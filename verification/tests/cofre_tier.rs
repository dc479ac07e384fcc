use seki::cofre_tier::{render_format, resolve_manifest_path};

#[test]
fn render_format_substitutes_backend() {
    let out = render_format("[cofre: $backend]($style)", "akeyless");
    assert_eq!(out, "cofre: akeyless");
}

#[test]
fn cofre_tier_resolve_manifest_path_rejects_traversal() {
    let p = resolve_manifest_path("/home/op", "../etc/cofre.yaml");
    assert!(p.contains("__rejected_traversal__"));
}

#[test]
fn cofre_resolve_manifest_path_joins_home() {
    assert_eq!(
        resolve_manifest_path("/home/op", ".config/cofre/cofre.yaml"),
        "/home/op/.config/cofre/cofre.yaml"
    );
}
