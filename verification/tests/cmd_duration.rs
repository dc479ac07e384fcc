use seki::cmd_duration::format_duration;

#[test]
fn format_seconds() {
    assert_eq!(format_duration(5_000, false), "5s");
}

#[test]
fn format_minutes_and_seconds() {
    assert_eq!(format_duration(125_000, false), "2m5s");
}

#[test]
fn format_hours_minutes_seconds() {
    assert_eq!(format_duration(3_725_000, false), "1h2m5s");
}

#[test]
fn format_with_milliseconds() {
    assert_eq!(format_duration(2_345, true), "2345ms");
}

#[test]
fn format_duration_edges() {
    assert_eq!(format_duration(0, true), "0s");
    assert_eq!(format_duration(5, true), "0005ms");
    assert_eq!(format_duration(3_600_000, false), "1h0m0s");
    assert_eq!(format_duration(1_999, false), "1s");
    assert_eq!(format_duration(60_050, true), "1m0050ms");
}
