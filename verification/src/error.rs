//! Reasons for which no index value can be produced.

use vstd::prelude::*;

verus! {

#[derive(Debug, Clone, Copy, PartialEq, Eq, Structural)]
pub enum IndexError {
    /// The basket holds no symbol at all.
    EmptyBasket,
    /// The basket holds symbols, but none has both a positive current price
    /// and a positive base price.
    NoEligibleQuotes,
    /// The index value exists but is larger than a `u64` of millionths.
    ValueOutOfRange,
}

} // verus!
