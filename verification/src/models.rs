//! The records that the price store keeps.

use vstd::prelude::*;

verus! {

/// One price observation of a symbol.
#[derive(Debug, Clone)]
pub struct PriceRecord {
    pub symbol: String,
    /// The observed price, in millionths.
    pub price: u64,
    /// The price less the previous close, in millionths, where that is known.
    pub change: Option<i128>,
    /// That change relative to the previous close, in millionths of a percent.
    pub change_pct: Option<i128>,
    /// The market capitalisation known when the price was observed, in millionths.
    pub market_cap: Option<u64>,
    /// Seconds since the epoch.
    pub timestamp: i64,
}

/// The first price ever recorded for a symbol: the denominator of its return.
#[derive(Debug, Clone)]
pub struct BasePrice {
    pub symbol: String,
    /// The price, in millionths.
    pub price: u64,
    /// Seconds since the epoch.
    pub recorded_at: i64,
}

} // verus!
