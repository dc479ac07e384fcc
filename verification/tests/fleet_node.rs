use seki::fleet_node::resolve_manifest_path;

#[test]
fn resolve_manifest_path_joins_home() {
    let p = resolve_manifest_path("/home/op", ".config/kindling/node.yaml");
    assert_eq!(p, "/home/op/.config/kindling/node.yaml");
}

#[test]
fn fleet_node_resolve_manifest_path_rejects_traversal() {
    let p = resolve_manifest_path("/home/op", "../../etc/passwd");
    assert!(p.contains("__rejected_traversal__"));
}

#[test]
fn resolve_manifest_path_passes_absolute_through() {
    let p = resolve_manifest_path("/home/op", "/etc/seki/node.yaml");
    assert_eq!(p, "/etc/seki/node.yaml");
}
