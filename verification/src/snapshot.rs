//! Index snapshots and the change from one snapshot to the next.

use crate::units::PERCENT_MICROS;
use vstd::prelude::*;

verus! {

/// One point of the index series.
#[derive(Debug, Clone, Copy)]
pub struct IndexSnapshot {
    /// The index value, in millionths.
    pub value: u64,
    /// The value less the previous value, in millionths.
    pub daily_change: Option<i128>,
    /// That change relative to the previous value, in millionths of a percent.
    pub daily_change_pct: Option<i128>,
    /// Seconds since the epoch.
    pub timestamp: i64,
}

/// The change of a value against the value before it.
pub open spec fn change_from(previous: int, current: int) -> int {
    current - previous
}

/// The change relative to the value before it, in millionths of a percent,
/// rounded towards zero.
pub open spec fn percent_change_from(previous: int, current: int) -> int {
    if current >= previous {
        ((current - previous) * PERCENT_MICROS) / previous
    } else {
        -(((previous - current) * PERCENT_MICROS) / previous)
    }
}

/// The pair of changes against a previous value: absent where there is no
/// previous value or where it is not positive.
pub open spec fn changes_from(previous: Option<u64>, current: u64) -> (Option<i128>, Option<i128>) {
    match previous {
        Some(p) if p > 0 => (
            Some(change_from(p as int, current as int) as i128),
            Some(percent_change_from(p as int, current as int) as i128),
        ),
        _ => (None, None),
    }
}

/// The snapshot that follows `previous` with the value `value` at the time `at`.
pub open spec fn snapshot_after(previous: Option<IndexSnapshot>, value: u64, at: i64)
    -> IndexSnapshot {
    let previous_value = match previous {
        Some(p) => Some(p.value),
        None => None,
    };
    IndexSnapshot {
        value,
        daily_change: changes_from(previous_value, value).0,
        daily_change_pct: changes_from(previous_value, value).1,
        timestamp: at,
    }
}

/// Both changes fit the type that holds them.
pub proof fn lemma_changes_in_range(previous: u64, current: u64)
    requires
        previous > 0,
    ensures
        -(u64::MAX as int) <= change_from(previous as int, current as int) <= u64::MAX,
        -(u64::MAX * PERCENT_MICROS) <= percent_change_from(previous as int, current as int)
            <= u64::MAX * PERCENT_MICROS,
{
    let p = previous as int;
    let c = current as int;
    let scale = PERCENT_MICROS as int;
    if c >= p {
        assert(0 <= (c - p) * scale <= u64::MAX * scale) by (nonlinear_arith)
            requires
                0 <= c - p <= u64::MAX,
                scale == 100_000_000,
        ;
        vstd::arithmetic::div_mod::lemma_div_pos_is_pos((c - p) * scale, p);
        vstd::arithmetic::div_mod::lemma_div_is_ordered_by_denominator((c - p) * scale, 1, p);
    } else {
        assert(0 <= (p - c) * scale <= u64::MAX * scale) by (nonlinear_arith)
            requires
                0 <= p - c <= u64::MAX,
                scale == 100_000_000,
        ;
        vstd::arithmetic::div_mod::lemma_div_pos_is_pos((p - c) * scale, p);
        vstd::arithmetic::div_mod::lemma_div_is_ordered_by_denominator((p - c) * scale, 1, p);
    }
}

/// Computes the change of `current` against `previous`, absolute and in
/// millionths of a percent. Both are absent where there is no previous value
/// or where it is zero.
pub fn changes(previous: Option<u64>, current: u64) -> (r: (Option<i128>, Option<i128>))
    ensures
        r == changes_from(previous, current),
{
    match previous {
        Some(p) => {
            if p > 0 {
                proof {
                    lemma_changes_in_range(p, current);
                    assert(u64::MAX * PERCENT_MICROS <= i128::MAX) by (nonlinear_arith)
                        requires
                            PERCENT_MICROS == 100_000_000,
                    ;
                }
                let scale: u128 = PERCENT_MICROS as u128;
                if current >= p {
                    let diff: u64 = current - p;
                    proof {
                        assert(diff * scale <= u64::MAX * PERCENT_MICROS) by (nonlinear_arith)
                            requires
                                diff <= u64::MAX,
                                scale == PERCENT_MICROS,
                        ;
                    }
                    let pct: u128 = (diff as u128) * scale / (p as u128);
                    (Some(diff as i128), Some(pct as i128))
                } else {
                    let diff: u64 = p - current;
                    proof {
                        assert(diff * scale <= u64::MAX * PERCENT_MICROS) by (nonlinear_arith)
                            requires
                                diff <= u64::MAX,
                                scale == PERCENT_MICROS,
                        ;
                    }
                    let pct: u128 = (diff as u128) * scale / (p as u128);
                    (Some(-(diff as i128)), Some(-(pct as i128)))
                }
            } else {
                (None, None)
            }
        },
        None => (None, None),
    }
}

impl IndexSnapshot {
    /// Makes the snapshot that follows `previous`: the value `value` at the
    /// time `at`, with its change against the previous snapshot. The changes
    /// are absent where there is no previous snapshot or where its value is zero.
    pub fn following(previous: Option<IndexSnapshot>, value: u64, at: i64) -> (s: IndexSnapshot)
        ensures
            s == snapshot_after(previous, value, at),
            previous is None ==> s.daily_change is None && s.daily_change_pct is None,
            previous matches Some(p) ==> (p.value == 0 ==> s.daily_change is None
                && s.daily_change_pct is None),
            previous matches Some(p) ==> (p.value > 0 ==> s.daily_change == Some(
                (value - p.value) as i128,
            ) && s.daily_change_pct is Some),
    {
        let previous_value = match previous {
            Some(p) => Some(p.value),
            None => None,
        };
        let (daily_change, daily_change_pct) = changes(previous_value, value);
        IndexSnapshot { value, daily_change, daily_change_pct, timestamp: at }
    }
}

} // verus!
