use seki::rust::{channel_from_plain, channel_from_toml};

#[test]
fn channel_from_toolchain_toml_text() {
    assert_eq!(
        channel_from_toml("[toolchain]\nchannel = \"nightly-2026-01-01\"\n").as_deref(),
        Some("nightly-2026-01-01")
    );
    assert_eq!(channel_from_toml("[toolchain]\ncomponents = []\n"), None);
    assert_eq!(channel_from_toml("  channel=\"\"\nchannel = stable\n").as_deref(), Some("stable"));
}

#[test]
fn channel_from_plain_toolchain_text() {
    assert_eq!(channel_from_plain("1.89.0\n").as_deref(), Some("1.89.0"));
    assert_eq!(channel_from_plain(" \n\t"), None);
}
