use shift_scheduler::errors::{ApiError, ValidationFault};
use shift_scheduler::recur::{parse_rrule, expand, Frequency};

const DAY: i64 = 86400;
const WEEK: i64 = 604800;
// 2024-01-01 09:00:00 UTC and 17:00:00 UTC.
const D_0900: i64 = 1704099600;
const D_1700: i64 = 1704128400;

#[test]
fn weekly_count_three_scenario() {
    // Rule "weekly, count=3" on a 09:00-17:00 template: three shifts,
    // starting a week apart, each eight hours long.
    let rule = parse_rrule("FREQ=WEEKLY;COUNT=3").unwrap();
    let occs = expand(&rule, D_0900, D_1700);
    assert_eq!(occs.len(), 3);
    assert_eq!(occs[0], (D_0900, D_1700));
    assert_eq!(occs[1], (D_0900 + WEEK, D_1700 + WEEK));
    assert_eq!(occs[2], (D_0900 + 2 * WEEK, D_1700 + 2 * WEEK));
    for &(s, e) in &occs {
        assert_eq!(e - s, 8 * 3600);
    }
}

#[test]
fn daily_count_five() {
    let rule = parse_rrule("FREQ=DAILY;COUNT=5").unwrap();
    assert_eq!(rule.freq, Frequency::Daily);
    assert_eq!(rule.interval, 1);
    let occs = expand(&rule, D_0900, D_1700);
    assert_eq!(occs.len(), 5);
    let mut prev = occs[0].0;
    for &(s, e) in &occs[1..] {
        assert!(s > prev);
        assert_eq!(s - prev, DAY);
        assert_eq!(e - s, D_1700 - D_0900);
        prev = s;
    }
}

#[test]
fn interval_and_prefix() {
    let rule = parse_rrule("RRULE:FREQ=DAILY;INTERVAL=2;COUNT=4").unwrap();
    assert_eq!(rule.interval, 2);
    let occs = expand(&rule, D_0900, D_1700);
    assert_eq!(occs.len(), 4);
    assert_eq!(occs[1].0 - occs[0].0, 2 * DAY);
}

#[test]
fn unbounded_rule_capped_at_ceiling() {
    let rule = parse_rrule("FREQ=DAILY").unwrap();
    let occs = expand(&rule, D_0900, D_1700);
    assert_eq!(occs.len(), 100);
}

#[test]
fn count_above_ceiling_capped() {
    let rule = parse_rrule("FREQ=DAILY;COUNT=500").unwrap();
    let occs = expand(&rule, D_0900, D_1700);
    assert_eq!(occs.len(), 100);
}

#[test]
fn count_zero_yields_empty_sequence() {
    let rule = parse_rrule("FREQ=DAILY;COUNT=0").unwrap();
    let occs = expand(&rule, D_0900, D_1700);
    assert_eq!(occs.len(), 0);
}

#[test]
fn until_is_inclusive() {
    // Daily from 2024-01-01 09:00 until 2024-01-03 09:00: three occurrences.
    let rule = parse_rrule("FREQ=DAILY;UNTIL=20240103T090000Z").unwrap();
    assert_eq!(rule.until, Some(D_0900 + 2 * DAY));
    let occs = expand(&rule, D_0900, D_1700);
    assert_eq!(occs.len(), 3);
}

#[test]
fn until_before_start_yields_empty_sequence() {
    let rule = parse_rrule("FREQ=WEEKLY;UNTIL=20230101T000000Z").unwrap();
    let occs = expand(&rule, D_0900, D_1700);
    assert_eq!(occs.len(), 0);
}

#[test]
fn invalid_rules_are_validation_errors() {
    let bad = [
        "",
        "FREQ=MONTHLY",
        "COUNT=3",
        "FREQ=DAILY;COUNT=2;UNTIL=20240201T000000Z",
        "FREQ=DAILY;INTERVAL=0",
        "FREQ=DAILY;",
        "FREQ=DAILY;COUNT=",
        "FREQ=DAILY;COUNT=abc",
        "FREQ=DAILY;FREQ=DAILY",
        "FREQ=DAILY;UNTIL=20240230T000000Z",
        "FREQ=DAILY;UNTIL=2024-02-01T00:00:00Z",
        "garbage",
        "FREQ=DAILY;COUNT=99999999999",
    ];
    for s in bad {
        assert_eq!(
            parse_rrule(s),
            Err(ApiError::Validation(ValidationFault::BadRecurrenceRule)),
            "rule {s:?} should be rejected"
        );
    }
}

#[test]
fn leap_year_until_parses() {
    let rule = parse_rrule("FREQ=DAILY;UNTIL=20240229T120000Z").unwrap();
    // 2024-02-29 12:00:00 UTC.
    assert_eq!(rule.until, Some(1709208000));
}

#[test]
fn until_before_1970_is_an_exhausted_bound() {
    // A pre-1970 UNTIL is a well-formed instant, not a syntax error: the
    // rule is already exhausted and expands to nothing.
    let rule = parse_rrule("FREQ=WEEKLY;UNTIL=19651224T000000Z").unwrap();
    assert!(rule.until.unwrap() < 0);
    let occs = expand(&rule, D_0900, D_1700);
    assert_eq!(occs.len(), 0);
}

#[test]
fn pre_1970_template_expands() {
    // 1969-12-30 00:00:00 UTC to 08:00:00, daily, twice.
    let start: i64 = -2 * 86400;
    let end: i64 = start + 8 * 3600;
    let rule = parse_rrule("FREQ=DAILY;COUNT=2").unwrap();
    let occs = expand(&rule, start, end);
    assert_eq!(occs, vec![(start, end), (start + DAY, end + DAY)]);
}

#[test]
fn epoch_boundary_until_parses() {
    let rule = parse_rrule("FREQ=DAILY;UNTIL=19700101T000000Z").unwrap();
    assert_eq!(rule.until, Some(0));
}
