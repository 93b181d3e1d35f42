use glare_worker::cron::{compute_next_run_at, cron_matches_now, parse_cron_expression, parse_cron_field};
use glare_worker::timepoint::MinuteStamp;

fn at(year: u32, month: u32, day: u32, hour: u32, minute: u32) -> MinuteStamp {
    MinuteStamp { year, month, day, hour, minute }
}

#[test]
fn parse_five_field_expression_succeeds() {
    assert!(parse_cron_expression("0 0 1 * 1").is_some());
}

#[test]
fn parse_rejects_day_of_month_out_of_range() {
    assert!(parse_cron_expression("0 0 32 * *").is_none());
}

#[test]
fn parse_rejects_step_zero() {
    assert!(parse_cron_expression("*/0 * * * *").is_none());
}

#[test]
fn parse_rejects_wrong_field_count() {
    assert!(parse_cron_expression("* * * *").is_none());
    assert!(parse_cron_expression("* * * * * *").is_none());
    assert!(parse_cron_expression("").is_none());
}

#[test]
fn parse_field_step_values() {
    let f = parse_cron_field("*/15", 0, 59).expect("valid field");
    for v in 0..60 {
        assert_eq!(f.set_contains(v), v % 15 == 0, "value {v}");
    }
}

#[test]
fn parse_field_range_and_list() {
    let f = parse_cron_field("1-5,30", 0, 59).expect("valid field");
    for v in 0..60 {
        let expected = (1..=5).contains(&v) || v == 30;
        assert_eq!(f.set_contains(v), expected, "value {v}");
    }
}

#[test]
fn parse_field_range_with_step() {
    let f = parse_cron_field("10-20/5", 0, 59).expect("valid field");
    for v in 0..60 {
        assert_eq!(f.set_contains(v), v == 10 || v == 15 || v == 20, "value {v}");
    }
}

#[test]
fn parse_field_rejects_reversed_range() {
    assert!(parse_cron_field("5-1", 0, 59).is_none());
}

#[test]
fn parse_field_rejects_empty_chunk() {
    assert!(parse_cron_field("1,,2", 0, 59).is_none());
}

#[test]
fn day_fields_combine_with_or() {
    // Midnight on the 1st OR any Monday.
    let parsed = parse_cron_expression("0 0 1 * 1").expect("valid cron");
    // 2024-01-01 is a Monday and the 1st: matches.
    assert!(cron_matches_now(&parsed, &at(2024, 1, 1, 0, 0)));
    // 2024-01-08 is a Monday but not the 1st: still matches (OR rule).
    assert!(cron_matches_now(&parsed, &at(2024, 1, 8, 0, 0)));
    // 2024-02-01 is a Thursday but the 1st: still matches (OR rule).
    assert!(cron_matches_now(&parsed, &at(2024, 2, 1, 0, 0)));
    // 2024-01-02 is a Tuesday and not the 1st: no match.
    assert!(!cron_matches_now(&parsed, &at(2024, 1, 2, 0, 0)));
    // Wrong minute never matches.
    assert!(!cron_matches_now(&parsed, &at(2024, 1, 1, 0, 1)));
}

#[test]
fn one_restricted_day_field_governs() {
    // Day-of-week restricted, day-of-month wildcard: only Mondays.
    let parsed = parse_cron_expression("0 0 * * 1").expect("valid cron");
    assert!(cron_matches_now(&parsed, &at(2024, 1, 8, 0, 0)));
    assert!(!cron_matches_now(&parsed, &at(2024, 1, 2, 0, 0)));
    // Day-of-month restricted, day-of-week wildcard: only the 1st.
    let parsed = parse_cron_expression("0 0 1 * *").expect("valid cron");
    assert!(cron_matches_now(&parsed, &at(2024, 2, 1, 0, 0)));
    assert!(!cron_matches_now(&parsed, &at(2024, 2, 2, 0, 0)));
}

#[test]
fn wildcard_cron_matches_every_minute() {
    let parsed = parse_cron_expression("* * * * *").expect("valid cron");
    assert!(cron_matches_now(&parsed, &at(2024, 6, 15, 13, 37)));
    assert!(cron_matches_now(&parsed, &at(1999, 12, 31, 23, 59)));
}

#[test]
fn next_run_after_daily_spec() {
    let now = at(2024, 1, 1, 0, 0);
    let next = compute_next_run_at("30 2 * * *", &now).expect("has a next run");
    assert_eq!(next, at(2024, 1, 1, 2, 30));
}

#[test]
fn next_run_is_strictly_after_now() {
    // The current minute itself never counts, even when it matches.
    let now = at(2024, 1, 1, 2, 30);
    let next = compute_next_run_at("30 2 * * *", &now).expect("has a next run");
    assert_eq!(next, at(2024, 1, 2, 2, 30));
}

#[test]
fn next_run_crosses_month_and_leap_day() {
    let now = at(2024, 2, 28, 23, 59);
    let next = compute_next_run_at("0 12 29 2 *", &now).expect("leap day exists in 2024");
    assert_eq!(next, at(2024, 2, 29, 12, 0));
}

#[test]
fn next_run_none_for_invalid_cron() {
    let now = at(2024, 1, 1, 0, 0);
    assert!(compute_next_run_at("not a cron", &now).is_none());
}

#[test]
fn next_run_none_for_unsatisfiable_spec() {
    // February the 31st parses but never occurs; the bounded search must
    // come back empty rather than crash.
    let now = at(2024, 1, 1, 0, 0);
    assert!(parse_cron_expression("0 0 31 2 *").is_some());
    assert!(compute_next_run_at("0 0 31 2 *", &now).is_none());
}
