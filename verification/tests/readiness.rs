use kanjikoto::readiness::{day_boundary, is_due};

const DAY: i64 = 86400;
const HOUR: i64 = 3600;
const MINUTE: i64 = 60;

#[test]
fn never_passed_is_due_at_any_time() {
    for now in [i64::MIN, -5 * DAY - 1, -1, 0, 1, 3 * HOUR, 100 * DAY + 12 * HOUR, i64::MAX] {
        assert!(is_due(None, None, now));
        assert!(is_due(None, Some(now), now));
        assert!(is_due(None, Some(0), now));
    }
}

#[test]
fn passed_late_yesterday_is_due_before_the_cutover() {
    let today = 200 * DAY;
    let passed = today - MINUTE;
    assert!(is_due(Some(passed), None, today + 2 * HOUR + 59 * MINUTE));
}

#[test]
fn passed_before_todays_cutover_is_due_for_the_rest_of_the_day() {
    let today = 200 * DAY;
    let passed = today - MINUTE;
    assert!(is_due(Some(passed), None, today + 3 * HOUR + MINUTE));
    assert!(is_due(Some(today + 2 * HOUR), None, today + 23 * HOUR));
}

#[test]
fn passed_after_todays_cutover_rests_until_midnight() {
    let today = 200 * DAY;
    let passed = today + 3 * HOUR + MINUTE;
    assert!(!is_due(Some(passed), None, today + 4 * HOUR));
    assert!(!is_due(Some(passed), None, today + 23 * HOUR + 59 * MINUTE));
    assert!(!is_due(Some(passed), None, today + DAY - 1));
    assert!(is_due(Some(passed), None, today + DAY));
    assert!(is_due(Some(passed), None, today + DAY + 2 * HOUR + 59 * MINUTE));
}

#[test]
fn passed_exactly_at_the_cutover_is_not_due() {
    let today = 200 * DAY;
    assert!(!is_due(Some(today + 3 * HOUR), None, today + 5 * HOUR));
    assert!(is_due(Some(today + 3 * HOUR - 1), None, today + 5 * HOUR));
}

#[test]
fn content_changed_after_the_pass_is_due() {
    let today = 200 * DAY;
    let now = today + 12 * HOUR;
    let passed = now - MINUTE;
    assert!(!is_due(Some(passed), None, now));
    assert!(!is_due(Some(passed), Some(passed - 1), now));
    assert!(!is_due(Some(passed), Some(passed), now));
    assert!(is_due(Some(passed), Some(passed + 1), now));
}

#[test]
fn day_boundary_is_three_hours_after_midnight() {
    assert_eq!(day_boundary(0), 10800);
    assert_eq!(day_boundary(86399), 10800);
    assert_eq!(day_boundary(86400), 97200);
    assert_eq!(day_boundary(200 * DAY + 12 * HOUR), (200 * DAY + 3 * HOUR) as i128);
}

#[test]
fn day_boundary_before_the_epoch() {
    assert_eq!(day_boundary(-1), -86400 + 10800);
    assert_eq!(day_boundary(-86400), -86400 + 10800);
    assert_eq!(day_boundary(-86401), -172800 + 10800);
}

#[test]
fn day_boundary_at_the_ends_of_the_range() {
    let max = i64::MAX as i128;
    assert_eq!(day_boundary(i64::MAX), max - max % 86400 + 10800);
    let min = i64::MIN as i128;
    assert_eq!(day_boundary(i64::MIN), min - min.rem_euclid(86400) + 10800);
    assert!(is_due(Some(i64::MAX - 86400), None, i64::MAX));
    assert!(!is_due(Some(i64::MAX), None, i64::MAX));
}
