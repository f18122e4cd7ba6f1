use aiindex::snapshot::{changes, IndexSnapshot};

const UNIT: u64 = 1_000_000;

fn snapshot(value: u64, timestamp: i64) -> IndexSnapshot {
    IndexSnapshot { value, daily_change: None, daily_change_pct: None, timestamp }
}

#[test]
fn first_snapshot_has_no_changes() {
    let s = IndexSnapshot::following(None, 1234 * UNIT, 77);
    assert_eq!(s.value, 1234 * UNIT);
    assert_eq!(s.daily_change, None);
    assert_eq!(s.daily_change_pct, None);
    assert_eq!(s.timestamp, 77);
}

#[test]
fn snapshot_after_hundred_at_hundred_and_ten() {
    let s = IndexSnapshot::following(Some(snapshot(100 * UNIT, 1)), 110 * UNIT, 2);
    assert_eq!(s.daily_change, Some(10_000_000));
    assert_eq!(s.daily_change_pct, Some(10_000_000));
    assert_eq!(s.value, 110 * UNIT);
    assert_eq!(s.timestamp, 2);
}

#[test]
fn snapshot_after_zero_value_has_no_changes() {
    for new_value in [0u64, 1, 110 * UNIT, u64::MAX] {
        let s = IndexSnapshot::following(Some(snapshot(0, 1)), new_value, 2);
        assert_eq!(s.daily_change, None);
        assert_eq!(s.daily_change_pct, None);
        assert_eq!(s.value, new_value);
    }
}

#[test]
fn snapshot_falling_value_has_negative_changes() {
    let s = IndexSnapshot::following(Some(snapshot(200 * UNIT, 1)), 150 * UNIT, 2);
    assert_eq!(s.daily_change, Some(-50_000_000));
    assert_eq!(s.daily_change_pct, Some(-25_000_000));
}

#[test]
fn changes_round_towards_zero() {
    // 1 / 3 = 33.333333 %, -1 / 3 = -33.333333 %
    assert_eq!(changes(Some(3), 4), (Some(1), Some(33_333_333)));
    assert_eq!(changes(Some(3), 2), (Some(-1), Some(-33_333_333)));
    assert_eq!(changes(Some(3), 3), (Some(0), Some(0)));
}

#[test]
fn changes_at_the_limits() {
    assert_eq!(
        changes(Some(1), u64::MAX),
        (Some(u64::MAX as i128 - 1), Some((u64::MAX as i128 - 1) * 100_000_000))
    );
    assert_eq!(changes(Some(u64::MAX), 0), (Some(-(u64::MAX as i128)), Some(-100_000_000)));
    assert_eq!(changes(None, 5), (None, None));
    assert_eq!(changes(Some(0), 5), (None, None));
}
