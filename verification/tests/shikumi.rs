use seki::shikumi_config;
use seki::shikumi_tier::{self, tier_var_from_upper};
use std::collections::HashMap;

fn stub_lookup(map: HashMap<&'static str, &'static str>) -> impl Fn(&str) -> Option<String> {
    move |name: &str| map.get(name).map(|s| (*s).to_owned())
}

#[test]
fn shikumi_tier_scan_env_picks_up_set_vars() {
    let lookup = stub_lookup(HashMap::from([("MADO_TIER", "bare"), ("KENSHI_TIER", "default")]));
    let apps = vec!["mado".to_string(), "kenshi".to_string(), "tatara".to_string()];
    let hits = shikumi_tier::scan_env(&apps, lookup);
    assert_eq!(hits.len(), 2);
    assert_eq!(hits[0], ("mado".to_string(), "bare".to_string()));
    assert_eq!(hits[1], ("kenshi".to_string(), "default".to_string()));
}

#[test]
fn scan_env_skips_unset() {
    let lookup = stub_lookup(HashMap::new());
    let apps = vec!["mado".to_string()];
    assert!(shikumi_tier::scan_env(&apps, lookup).is_empty());
}

#[test]
fn shikumi_tier_scan_env_translates_hyphen_to_underscore() {
    let lookup = stub_lookup(HashMap::from([("ZOEKT_MCP_TIER", "discovered")]));
    let apps = vec!["zoekt-mcp".to_string()];
    let hits = shikumi_tier::scan_env(&apps, lookup);
    assert_eq!(hits, vec![("zoekt-mcp".to_string(), "discovered".to_string())]);
}

#[test]
fn shikumi_config_scan_env_picks_up_set_vars() {
    let lookup = stub_lookup(HashMap::from([("MADO_TIER", "bare"), ("KENSHI_TIER", "default")]));
    let apps = vec!["mado".to_string(), "kenshi".to_string(), "tatara".to_string()];
    let hits = shikumi_config::scan_env(&apps, lookup);
    assert_eq!(hits.len(), 2);
    assert_eq!(hits[0], ("mado".to_string(), "bare".to_string()));
    assert_eq!(hits[1], ("kenshi".to_string(), "default".to_string()));
}

#[test]
fn shikumi_config_scan_env_translates_hyphen_to_underscore() {
    let lookup = stub_lookup(HashMap::from([("ZOEKT_MCP_TIER", "discovered")]));
    let apps = vec!["zoekt-mcp".to_string()];
    let hits = shikumi_config::scan_env(&apps, lookup);
    assert_eq!(hits, vec![("zoekt-mcp".to_string(), "discovered".to_string())]);
}

#[test]
fn shikumi_config_render_format_app_and_tier_substitution() {
    let out = shikumi_config::render_format("[$app:$tier]($style)", "mado", "bare");
    assert_eq!(out, "mado:bare");
}

#[test]
fn tier_var_name_from_uppercased_app() {
    assert_eq!(tier_var_from_upper("ZOEKT-MCP-X"), "ZOEKT_MCP_X_TIER");
    assert_eq!(tier_var_from_upper(""), "_TIER");
}

use seki::shikumi_config::{cache_view, validate_requested, CachedProbe};

#[test]
fn cache_view_aggregates() {
    let now = 1_000u64;
    let snap = vec![
        CachedProbe { app: "mado".to_owned(), tier: "bare".to_owned(), captured_at: now },
        CachedProbe { app: "kenshi".to_owned(), tier: "default".to_owned(), captured_at: now },
    ];
    let view = cache_view(&snap);
    assert_eq!(view.len(), 2);
    assert!(view.iter().any(|(k, _)| k == &("mado".to_owned(), "bare".to_owned())));
}

#[test]
fn cache_view_later_entry_wins() {
    let snap = vec![
        CachedProbe { app: "a".to_owned(), tier: "t".to_owned(), captured_at: 1 },
        CachedProbe { app: "a".to_owned(), tier: "t".to_owned(), captured_at: 2 },
    ];
    assert_eq!(cache_view(&snap), vec![(("a".to_owned(), "t".to_owned()), 2)]);
}

#[test]
fn validate_uses_fresh_cache_probe_and_stale_fallback() {
    let snap = vec![
        CachedProbe { app: "fresh".to_owned(), tier: "t".to_owned(), captured_at: 900 },
        CachedProbe { app: "old".to_owned(), tier: "t".to_owned(), captured_at: 10 },
    ];
    let req = vec![
        ("fresh".to_owned(), "t".to_owned()),
        ("old".to_owned(), "t".to_owned()),
        ("new".to_owned(), "t".to_owned()),
        ("gone".to_owned(), "t".to_owned()),
    ];
    let probe = |app: &str, _tier: &str| app == "new";
    let (shown, next) = validate_requested(&req, &snap, 1_000, 500, probe);
    assert_eq!(
        shown,
        vec![
            ("fresh".to_owned(), "t".to_owned(), false),
            ("old".to_owned(), "t".to_owned(), true),
            ("new".to_owned(), "t".to_owned(), false),
        ]
    );
    let times: Vec<(String, u64)> = next.iter().map(|c| (c.app.clone(), c.captured_at)).collect();
    assert_eq!(times, vec![("fresh".to_owned(), 900), ("old".to_owned(), 10), ("new".to_owned(), 1_000)]);
}

#[test]
fn shikumi_config_scan_env_drops_empty_tier() {
    let lookup = |k: &str| if k == "MADO_TIER" { Some(String::new()) } else { None };
    assert!(shikumi_config::scan_env(&["mado".to_string()], lookup).is_empty());
    let lookup = stub_lookup(HashMap::from([("MADO_TIER", ""), ("KENSHI_TIER", "bare")]));
    let apps = vec!["mado".to_string(), "kenshi".to_string()];
    assert_eq!(
        shikumi_config::scan_env(&apps, lookup),
        vec![("kenshi".to_string(), "bare".to_string())]
    );
}

#[test]
fn shikumi_config_shown_text_joins_and_marks_stale() {
    let shown = vec![
        ("mado".to_string(), "bare".to_string(), false),
        ("kenshi".to_string(), "default".to_string(), true),
    ];
    assert_eq!(
        shikumi_config::shown_text("$app:$tier", &shown, " | "),
        Some("mado:bare | kenshi:default (stale)".to_string())
    );
    assert_eq!(shikumi_config::shown_text("$app:$tier", &[], " | "), None);
}
