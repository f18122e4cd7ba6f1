//! Scales of the fixed-point amounts used throughout the engine.

use vstd::prelude::*;

verus! {

/// Millionths in one unit of price, market capitalisation or index value.
pub const MICROS_PER_UNIT: u64 = 1_000_000;

/// The weight that stands for the whole basket.
pub const WEIGHT_ONE: u64 = 1_000_000_000_000_000_000;

/// Market capitalisation assumed for a symbol whose capitalisation is unknown: one unit.
pub const DEFAULT_MARKET_CAP: u64 = 1_000_000;

/// The largest market-cap share, in percent.
pub const FULL_PERCENT: u32 = 100;

/// Scale of a percentage change: millionths of a percent per unit ratio.
pub const PERCENT_MICROS: u64 = 100_000_000;

/// Seconds in one calendar day.
pub const SECONDS_PER_DAY: i64 = 86_400;

} // verus!
