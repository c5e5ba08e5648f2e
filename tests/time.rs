use gwbot::csv::CSVFile;
use gwbot::time::days_left_in_week;
use gwbot::time::get_next_day;
use gwbot::time::get_next_week;
use gwbot::time::get_special_events_time_range;
use gwbot::time::get_time_left;
use gwbot::time::get_utc_start;
use gwbot::time::reset_countdown;
use gwbot::time::rotation_index;
use gwbot::time::DateTimeRange;
use gwbot::time::DateTimeRangeComparison;
use gwbot::time::SECONDS_PER_DAY;
use gwbot::time::SECONDS_PER_WEEK;

// 2024-01-01, a Monday, is day 19723; 2024-05-15 12:00 UTC is 1715774400.
const MONDAY: i64 = 19723;
const MAY_15_NOON: i64 = 1715774400;

#[test]
fn range_comparison() {
    let range = DateTimeRange::new(100, 200);
    assert_eq!(range.compare(99), DateTimeRangeComparison::After);
    assert_eq!(range.compare(100), DateTimeRangeComparison::Within);
    assert_eq!(range.compare(200), DateTimeRangeComparison::Within);
    assert_eq!(range.compare(201), DateTimeRangeComparison::Before);
}

#[test]
fn time_left_in_parts() {
    let since = 1_000_000;
    let gap = 2 * 86400 + 3 * 3600 + 4 * 60 + 5;
    assert_eq!(get_time_left(since + gap, since), (2, 3, 4, 5));
    assert_eq!(get_time_left(since - gap, since), (-2, -3, -4, -5));
    assert_eq!(get_time_left(since, since), (0, 0, 0, 0));
}

#[test]
fn next_week_starts_on_monday() {
    let monday_noon = MONDAY * SECONDS_PER_DAY + 12 * 3600;
    assert_eq!(get_next_week(monday_noon), MONDAY);
    assert_eq!(get_next_week(monday_noon + SECONDS_PER_DAY), MONDAY + 7);
    assert_eq!(get_next_week(monday_noon - SECONDS_PER_DAY), MONDAY);
    assert_eq!(days_left_in_week(monday_noon), 6);
    assert_eq!(days_left_in_week(monday_noon - SECONDS_PER_DAY), 0);
    // 1969-12-29 was a Monday too
    assert_eq!(get_next_week(-3 * SECONDS_PER_DAY + 1), -3);
}

#[test]
fn next_day_after_reference_hour() {
    let day_start = MONDAY * SECONDS_PER_DAY;
    assert_eq!(get_next_day(day_start + 15 * 3600 + 3599, 16), MONDAY);
    assert_eq!(get_next_day(day_start + 16 * 3600, 16), MONDAY + 1);
    assert_eq!(get_utc_start(MONDAY), day_start + 16 * 3600);
    assert_eq!(get_next_day(-1, 16), 0);
}

#[test]
fn rotations() {
    // the Zaishen missions began on 2011-03-03 (day 15036) with 69 of them
    assert_eq!(rotation_index(MAY_15_NOON, 15036, SECONDS_PER_DAY, 69), 60);
    // the weekly bonuses began on 2020-08-10 (day 18484) with 9 PvE ones
    assert_eq!(rotation_index(MAY_15_NOON, 18484, SECONDS_PER_WEEK, 9), 7);
    assert_eq!(rotation_index(15036 * SECONDS_PER_DAY, 15036, SECONDS_PER_DAY, 69), 0);
    assert_eq!(rotation_index(15035 * SECONDS_PER_DAY, 15036, SECONDS_PER_DAY, 69), -1);
}

#[test]
fn countdown_to_reset() {
    let day_start = MONDAY * SECONDS_PER_DAY;
    assert_eq!(reset_countdown(day_start + 10 * 3600 + 20 * 60 + 30), (7, 39, 29));
    assert_eq!(reset_countdown(day_start + 20 * 3600), (21, 59, 59));
}

#[test]
fn special_event_calendar() {
    let lines: Vec<String> = vec![
        "id;start;end".to_string(),
        "3;2024-02-10T00:00:00+00:00;2024-02-17T21:59:59+00:00".to_string(),
    ];
    let csv = CSVFile::parse(&lines).unwrap();
    let periods = get_special_events_time_range(&csv).unwrap();
    assert_eq!(periods.len(), 1);
    assert_eq!(periods[0].0, 3);
    assert_eq!((periods[0].1).0, 1707523200);
    assert_eq!((periods[0].1).1, 1708207199);
    assert!(periods[0].within(1707523200));
    assert!(periods[0].after(1707523199));
    assert!(periods[0].before(1708207200));
    let bad = CSVFile::parse(&vec!["h".to_string(), "3;yesterday;2024-02-17T21:59:59+00:00".to_string()]).unwrap();
    assert!(get_special_events_time_range(&bad).is_none());
    // an offset other than UTC's is refused
    let shifted = CSVFile::parse(&vec!["h".to_string(), "3;2024-02-10T00:00:00+00:00;2024-02-17T23:59:59+02:00".to_string()]).unwrap();
    assert!(get_special_events_time_range(&shifted).is_none());
}
