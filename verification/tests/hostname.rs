use seki::hostname::trim_at;

#[test]
fn trim_at_dot() {
    assert_eq!(trim_at("foo.example.com", "."), "foo");
    assert_eq!(trim_at("foo", "."), "foo");
    assert_eq!(trim_at("foo.example.com", ""), "foo.example.com");
}

#[test]
fn trim_at_multichar_separator() {
    assert_eq!(trim_at("a--b--c", "--"), "a");
    assert_eq!(trim_at(".lead", "."), "");
}
