use seki::probe_cache::{after_probe, fresh_value, is_fresh, Cached};

#[test]
fn fresh_within_ttl_only() {
    let c = Some(Cached { value: 5u32, captured_at: 1_000 });
    assert_eq!(fresh_value(c, 1_500, 1_000), Some(5));
    assert_eq!(fresh_value(c, 2_000, 1_000), None);
    assert_eq!(fresh_value(c, 500, 1), Some(5));
    assert!(!is_fresh(0, 0, 0));
}

#[test]
fn probe_answer_replaces_and_failure_goes_stale() {
    let c = Some(Cached { value: (1u32, 2u32), captured_at: 10 });
    assert_eq!(after_probe(c, Some((3, 4)), 99), (Some(Cached { value: (3, 4), captured_at: 99 }), Some(((3, 4), false))));
    assert_eq!(after_probe(c, None, 99), (c, Some(((1, 2), true))));
    assert_eq!(after_probe::<u32>(None, None, 99), (None, None));
}

use seki::probe_cache::{needs_probe, probe_step};

#[test]
fn probe_step_decisions() {
    let c = Some(Cached { value: 7u32, captured_at: 1_000 });
    // fresh: shown as current, no probe needed
    assert!(!needs_probe(c, 1_500, 1_000, true));
    assert_eq!(probe_step(c, 1_500, 1_000, true, Some(9)), (c, Some((7, false))));
    // expired, nothing to probe: nothing shown, cache kept
    assert!(!needs_probe(c, 5_000, 1_000, false));
    assert_eq!(probe_step(c, 5_000, 1_000, false, Some(9)), (c, None));
    // expired, probe answers: cached and shown
    assert!(needs_probe(c, 5_000, 1_000, true));
    assert_eq!(
        probe_step(c, 5_000, 1_000, true, Some(9)),
        (Some(Cached { value: 9, captured_at: 5_000 }), Some((9, false)))
    );
    // expired, probe fails: stale
    assert_eq!(probe_step(c, 5_000, 1_000, true, None), (c, Some((7, true))));
    assert_eq!(probe_step::<u32>(None, 5_000, 1_000, true, None), (None, None));
}
