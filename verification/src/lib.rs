//! A verified engine for a blended stock index.
//!
//! Every amount is a fixed-point integer: prices, market capitalisations and
//! index values count millionths of a unit, weights count parts of
//! [`units::WEIGHT_ONE`], and the market-cap share is a whole percentage.
//! All rounding is towards zero and is part of each contract.

pub mod arith;
pub mod calendar;
pub mod config;
pub mod engine;
pub mod history;
pub mod error;
pub mod models;
pub mod routes;
pub mod snapshot;
pub mod store;
pub mod units;
pub mod valuation;
pub mod weights;
