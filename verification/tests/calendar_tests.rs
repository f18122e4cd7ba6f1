use aiindex::calendar::{
    pick_timestamp, resolve_timestamp, timestamp_text, MAX_CALENDAR_TIMESTAMP,
    MIN_CALENDAR_TIMESTAMP,
};

#[test]
fn timestamp_text_of_the_epoch() {
    assert_eq!(timestamp_text(0), Some("1970-01-01T00:00:00+00:00".to_string()));
}

#[test]
fn timestamp_text_of_a_close_of_day() {
    assert_eq!(
        timestamp_text(1_431_648_000 + 57_600),
        Some("2015-05-15T16:00:00+00:00".to_string())
    );
    assert_eq!(timestamp_text(-1), Some("1969-12-31T23:59:59+00:00".to_string()));
}

#[test]
fn timestamp_text_outside_the_calendar() {
    assert_eq!(timestamp_text(i64::MAX), None);
    assert_eq!(timestamp_text(i64::MIN), None);
}

#[test]
fn resolve_timestamp_keeps_calendar_times() {
    assert_eq!(resolve_timestamp(1_700_000_000, 5), 1_700_000_000);
    assert_eq!(resolve_timestamp(0, 5), 0);
    assert_eq!(resolve_timestamp(-86_400, 5), -86_400);
}

#[test]
fn resolve_timestamp_falls_back_outside_the_calendar() {
    assert_eq!(resolve_timestamp(i64::MAX, 5), 5);
    assert_eq!(resolve_timestamp(i64::MIN, 1_700_000_000), 1_700_000_000);
}

#[test]
fn pick_timestamp_follows_the_flag() {
    assert_eq!(pick_timestamp(7, true, 9), 7);
    assert_eq!(pick_timestamp(7, false, 9), 9);
}

#[test]
fn calendar_ends_where_chrono_ends() {
    assert_eq!(
        timestamp_text(MIN_CALENDAR_TIMESTAMP),
        Some("-262143-01-01T00:00:00+00:00".to_string())
    );
    assert_eq!(timestamp_text(MIN_CALENDAR_TIMESTAMP - 1), None);
    assert_eq!(
        timestamp_text(MAX_CALENDAR_TIMESTAMP),
        Some("+262142-12-31T23:59:59+00:00".to_string())
    );
    assert_eq!(timestamp_text(MAX_CALENDAR_TIMESTAMP + 1), None);
}

#[test]
fn resolve_timestamp_at_the_ends_of_the_calendar() {
    assert_eq!(resolve_timestamp(MIN_CALENDAR_TIMESTAMP, 5), MIN_CALENDAR_TIMESTAMP);
    assert_eq!(resolve_timestamp(MIN_CALENDAR_TIMESTAMP - 1, 5), 5);
    assert_eq!(resolve_timestamp(MAX_CALENDAR_TIMESTAMP, 5), MAX_CALENDAR_TIMESTAMP);
    assert_eq!(resolve_timestamp(MAX_CALENDAR_TIMESTAMP + 1, 5), 5);
}
