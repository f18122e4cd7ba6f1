//! The weight blender: each symbol's share of the index, part by market
//! capitalisation and part in equal shares.

use crate::arith::{lemma_div_brackets, lemma_share_at_most_whole, seq_sum};
use crate::error::IndexError;
use crate::units::{DEFAULT_MARKET_CAP, FULL_PERCENT, WEIGHT_ONE};
use vstd::prelude::*;

verus! {

/// The capitalisation a symbol counts with: its own, or the default where unknown.
pub open spec fn cap_or_default(cap: Option<u64>) -> int {
    match cap {
        Some(c) => c as int,
        None => DEFAULT_MARKET_CAP as int,
    }
}

/// Total capitalisation of a basket, unknown ones counted with the default.
pub open spec fn total_cap(caps: Seq<Option<u64>>) -> int
    decreases caps.len(),
{
    if caps.len() == 0 {
        0
    } else {
        total_cap(caps.drop_last()) + cap_or_default(caps.last())
    }
}

/// The equal share of one symbol among `n`.
pub open spec fn equal_weight(n: int) -> int {
    WEIGHT_ONE as int / n
}

/// A symbol's share by capitalisation; the equal share where the basket has no capitalisation.
pub open spec fn mcap_weight(cap: int, total: int, n: int) -> int {
    if total > 0 {
        (cap * WEIGHT_ONE as int) / total
    } else {
        equal_weight(n)
    }
}

/// `pct` percent of the capitalisation share plus the rest of the equal share.
pub open spec fn blend_shares(pct: int, by_cap: int, equal: int) -> int {
    (pct * by_cap + (100 - pct) * equal) / 100
}

/// The blended weight of a symbol with capitalisation `cap` in a basket of
/// `n` symbols whose capitalisations total `total`.
pub open spec fn blended_weight(cap: int, total: int, n: int, pct: int) -> int {
    blend_shares(pct, mcap_weight(cap, total, n), equal_weight(n))
}

/// The blended weight of the `i`-th symbol of the basket.
pub open spec fn weight_of(caps: Seq<Option<u64>>, pct: int, i: int) -> int {
    blended_weight(cap_or_default(caps[i]), total_cap(caps), caps.len() as int, pct)
}

/// The blended weights of the whole basket, in basket order.
pub open spec fn weights(caps: Seq<Option<u64>>, pct: int) -> Seq<int> {
    Seq::new(caps.len(), |i: int| weight_of(caps, pct, i))
}

/// The capitalisation shares of the whole basket, in basket order.
pub open spec fn mcap_weights(caps: Seq<Option<u64>>) -> Seq<int> {
    Seq::new(
        caps.len(),
        |i: int| mcap_weight(cap_or_default(caps[i]), total_cap(caps), caps.len() as int),
    )
}

/// The total capitalisation is not negative and at most as many times the
/// largest capitalisation as the basket has symbols.
pub proof fn lemma_total_cap_bounds(caps: Seq<Option<u64>>)
    ensures
        0 <= total_cap(caps) <= caps.len() * u64::MAX,
    decreases caps.len(),
{
    if caps.len() > 0 {
        lemma_total_cap_bounds(caps.drop_last());
        assert(caps.len() * u64::MAX == (caps.len() - 1) * u64::MAX + u64::MAX)
            by (nonlinear_arith);
    }
}

/// No symbol counts for more than the whole basket.
pub proof fn lemma_cap_within_total(caps: Seq<Option<u64>>, i: int)
    requires
        0 <= i < caps.len(),
    ensures
        0 <= cap_or_default(caps[i]) <= total_cap(caps),
    decreases caps.len(),
{
    lemma_total_cap_bounds(caps.drop_last());
    if i < caps.len() - 1 {
        lemma_cap_within_total(caps.drop_last(), i);
    }
}

/// Every share lies between nothing and the whole.
pub proof fn lemma_blended_weight_range(cap: int, total: int, n: int, pct: int)
    requires
        0 <= cap <= total,
        0 < n,
        0 <= pct <= 100,
    ensures
        0 <= equal_weight(n) <= WEIGHT_ONE,
        0 <= mcap_weight(cap, total, n) <= WEIGHT_ONE,
        0 <= blended_weight(cap, total, n, pct) <= WEIGHT_ONE,
{
    let one = WEIGHT_ONE as int;
    lemma_share_at_most_whole(1, one, n);
    if total > 0 {
        lemma_share_at_most_whole(cap, one, total);
    }
    let by_cap = mcap_weight(cap, total, n);
    let equal = equal_weight(n);
    assert(0 <= pct * by_cap <= pct * one) by (nonlinear_arith)
        requires
            0 <= pct,
            0 <= by_cap <= one,
    ;
    assert(0 <= (100 - pct) * equal <= (100 - pct) * one) by (nonlinear_arith)
        requires
            0 <= 100 - pct,
            0 <= equal <= one,
    ;
    assert(pct * one + (100 - pct) * one == 100 * one) by (nonlinear_arith);
}

/// Running totals over the first `k` symbols: the capitalisation shares stay
/// within `k` parts of the capitalisation counted so far, and the blended
/// weights within `k` parts of the blend of the two running totals.
proof fn lemma_prefix_sums(caps: Seq<Option<u64>>, pct: int, k: int)
    requires
        0 <= k <= caps.len(),
        0 <= pct <= 100,
    ensures
        ({
            let n = caps.len() as int;
            let total = total_cap(caps);
            let by_cap = seq_sum(mcap_weights(caps).take(k));
            let blended = seq_sum(weights(caps, pct).take(k));
            let equal = equal_weight(n);
            &&& 0 <= by_cap
            &&& 0 <= blended
            &&& total > 0 ==> total * by_cap <= WEIGHT_ONE * total_cap(caps.take(k)) <= total
                * by_cap + k * (total - 1)
            &&& total <= 0 ==> by_cap == k * equal
            &&& 100 * blended <= pct * by_cap + (100 - pct) * (k * equal) <= 100 * blended + 99
                * k
        }),
    decreases k,
{
    let n = caps.len() as int;
    let total = total_cap(caps);
    let equal = equal_weight(n);
    let one = WEIGHT_ONE as int;
    if k == 0 {
        assert(mcap_weights(caps).take(0) =~= Seq::<int>::empty());
        assert(weights(caps, pct).take(0) =~= Seq::<int>::empty());
        assert(caps.take(0) =~= Seq::<Option<u64>>::empty());
        assert(pct * 0 + (100 - pct) * (0 * equal) == 0) by (nonlinear_arith);
        assert(total * 0 == 0 && one * 0 == 0 && 0 * (total - 1) == 0 && 0 * equal == 0)
            by (nonlinear_arith);
    } else {
        lemma_prefix_sums(caps, pct, k - 1);
        let i = k - 1;
        let cap = cap_or_default(caps[i]);
        let m0 = seq_sum(mcap_weights(caps).take(i));
        let w0 = seq_sum(weights(caps, pct).take(i));
        let c0 = total_cap(caps.take(i));
        let m = mcap_weight(cap, total, n);
        let w = blended_weight(cap, total, n, pct);
        assert(mcap_weights(caps).take(k).drop_last() =~= mcap_weights(caps).take(i));
        assert(weights(caps, pct).take(k).drop_last() =~= weights(caps, pct).take(i));
        assert(caps.take(k).drop_last() =~= caps.take(i));
        assert(seq_sum(mcap_weights(caps).take(k)) == m0 + m);
        assert(seq_sum(weights(caps, pct).take(k)) == w0 + w);
        assert(total_cap(caps.take(k)) == c0 + cap);
        lemma_cap_within_total(caps, i);
        lemma_blended_weight_range(cap, total, n, pct);
        if total > 0 {
            lemma_div_brackets(cap * one, total);
            assert(total * (m0 + m) <= one * (c0 + cap) <= total * (m0 + m) + k * (total - 1))
                by (nonlinear_arith)
                requires
                    total * m0 <= one * c0 <= total * m0 + (k - 1) * (total - 1),
                    total * m <= cap * one < total * m + total,
            ;
        } else {
            assert(k * equal == (k - 1) * equal + equal) by (nonlinear_arith);
        }
        let x = pct * m + (100 - pct) * equal;
        assert(w == x / 100);
        assert(0 <= x) by (nonlinear_arith)
            requires
                0 <= pct <= 100,
                0 <= m,
                0 <= equal,
                x == pct * m + (100 - pct) * equal,
        ;
        assert(100 * w <= x <= 100 * w + 99);
        assert(pct * (m0 + m) + (100 - pct) * (k * equal) == pct * m0 + (100 - pct) * ((k - 1)
            * equal) + x) by (nonlinear_arith)
            requires
                x == pct * m + (100 - pct) * equal,
        ;
    }
}

/// The blended weights of a basket add up to the whole, short of it by less
/// than two parts per symbol, which is what rounding down can take away. For
/// a basket of no more than five hundred million symbols that is less than a
/// thousand-millionth of the whole.
pub proof fn lemma_weights_sum_to_one(caps: Seq<Option<u64>>, pct: int)
    requires
        caps.len() > 0,
        0 <= pct <= 100,
    ensures
        WEIGHT_ONE - 2 * caps.len() < seq_sum(weights(caps, pct)) <= WEIGHT_ONE,
        caps.len() <= 500_000_000 ==> WEIGHT_ONE - seq_sum(weights(caps, pct))
            < 1_000_000_000,
{
    let n = caps.len() as int;
    let total = total_cap(caps);
    let equal = equal_weight(n);
    let one = WEIGHT_ONE as int;
    let by_cap = seq_sum(mcap_weights(caps));
    let blended = seq_sum(weights(caps, pct));
    lemma_prefix_sums(caps, pct, n);
    assert(mcap_weights(caps).take(n) =~= mcap_weights(caps));
    assert(weights(caps, pct).take(n) =~= weights(caps, pct));
    assert(caps.take(n) =~= caps);
    lemma_div_brackets(one, n);
    lemma_total_cap_bounds(caps);
    assert(n * equal <= one <= n * equal + (n - 1));
    assert(one - n < by_cap <= one) by {
        if total > 0 {
            assert(by_cap <= one) by (nonlinear_arith)
                requires
                    total > 0,
                    total * by_cap <= one * total,
            ;
            let gap = one - by_cap;
            assert(total * gap == one * total - total * by_cap) by (nonlinear_arith)
                requires
                    gap == one - by_cap,
            ;
            assert(gap < n) by (nonlinear_arith)
                requires
                    total > 0,
                    n > 0,
                    total * gap <= n * (total - 1),
            ;
        }
    }
    assert(100 * blended <= 100 * one && 100 * (one - n + 1) <= 100 * blended + 99 * n)
        by (nonlinear_arith)
        requires
            0 <= pct <= 100,
            one - n + 1 <= by_cap <= one,
            one - n + 1 <= n * equal <= one,
            100 * blended <= pct * by_cap + (100 - pct) * (n * equal) <= 100 * blended + 99 * n,
    ;
}

/// With no share given to capitalisation, every symbol has the equal share,
/// whatever the capitalisations are.
pub proof fn lemma_equal_weights_without_cap_share(caps: Seq<Option<u64>>, i: int)
    requires
        0 <= i < caps.len(),
    ensures
        weight_of(caps, 0, i) == equal_weight(caps.len() as int),
{
    let n = caps.len() as int;
    lemma_cap_within_total(caps, i);
    lemma_blended_weight_range(cap_or_default(caps[i]), total_cap(caps), n, 0);
}

/// A basket without any capitalisation is weighted as if capitalisation had
/// no share in the blend.
pub proof fn lemma_zero_total_cap_is_equal_weighting(caps: Seq<Option<u64>>, pct: int)
    requires
        total_cap(caps) == 0,
        0 <= pct <= 100,
    ensures
        weights(caps, pct) == weights(caps, 0),
{
    let n = caps.len() as int;
    let equal = equal_weight(n);
    assert(pct * equal + (100 - pct) * equal == 100 * equal) by (nonlinear_arith);
    assert(weights(caps, pct) =~= weights(caps, 0));
}

/// While equal weighting has a share in the blend, every symbol of a basket
/// of at most ten thousand million million symbols has a weight above nothing,
/// whatever its capitalisation.
pub proof fn lemma_weight_floor(caps: Seq<Option<u64>>, pct: int, i: int)
    requires
        0 <= i < caps.len() <= 10_000_000_000_000_000,
        0 <= pct < 100,
    ensures
        0 < blend_shares(pct, 0, equal_weight(caps.len() as int)) <= weight_of(caps, pct, i),
{
    let n = caps.len() as int;
    let equal = equal_weight(n);
    let cap = cap_or_default(caps[i]);
    lemma_cap_within_total(caps, i);
    lemma_blended_weight_range(cap, total_cap(caps), n, pct);
    let m = mcap_weight(cap, total_cap(caps), n);
    lemma_div_brackets(WEIGHT_ONE as int, n);
    assert(equal >= 100) by (nonlinear_arith)
        requires
            0 < n <= 10_000_000_000_000_000,
            WEIGHT_ONE < n * equal + n,
            WEIGHT_ONE == 1_000_000_000_000_000_000,
    ;
    assert((100 - pct) * equal >= 100 && pct * m >= 0) by (nonlinear_arith)
        requires
            0 <= pct < 100,
            equal >= 100,
            m >= 0,
    ;
    assert(pct * 0 == 0);
}

/// Adds up the capitalisations of a basket.
fn sum_caps(caps: &Vec<Option<u64>>) -> (total: u128)
    ensures
        total == total_cap(caps@),
{
    let n = caps.len();
    let mut total: u128 = 0;
    let mut i: usize = 0;
    while i < n
        invariant
            n == caps.len(),
            i <= n,
            total == total_cap(caps@.take(i as int)),
            total <= i * u64::MAX,
        decreases n - i,
    {
        let cap: u64 = match caps[i] {
            Some(c) => c,
            None => DEFAULT_MARKET_CAP,
        };
        proof {
            assert(caps@.take(i + 1).drop_last() =~= caps@.take(i as int));
            assert((i + 1) * u64::MAX == i * u64::MAX + u64::MAX) by (nonlinear_arith);
            assert(i * u64::MAX <= usize::MAX * u64::MAX) by (nonlinear_arith)
                requires
                    i <= usize::MAX,
            ;
        }
        total = total + cap as u128;
        i = i + 1;
    }
    proof {
        assert(caps@.take(n as int) =~= caps@);
    }
    total
}

/// Computes the blended weights of a basket that is not empty.
pub(crate) fn blend_nonempty(caps: &Vec<Option<u64>>, mcap_pct: u32) -> (w: Vec<u64>)
    requires
        caps.len() > 0,
        mcap_pct <= FULL_PERCENT,
    ensures
        w.len() == caps.len(),
        forall|i: int|
            0 <= i < caps.len() ==> w[i] as int == #[trigger] weight_of(caps@, mcap_pct as int, i),
{
    let n = caps.len();
    let total = sum_caps(caps);
    let one: u128 = WEIGHT_ONE as u128;
    let pct: u128 = mcap_pct as u128;
    let equal: u128 = one / (n as u128);
    let mut out: Vec<u64> = Vec::new();
    let mut i: usize = 0;
    while i < n
        invariant
            0 < n == caps.len(),
            i <= n,
            one == WEIGHT_ONE,
            pct == mcap_pct <= 100,
            total == total_cap(caps@),
            equal == equal_weight(n as int),
            out.len() == i,
            forall|j: int| 0 <= j < i ==> out[j] as int == #[trigger] weight_of(caps@, pct as int, j),
        decreases n - i,
    {
        let cap: u128 = match caps[i] {
            Some(c) => c as u128,
            None => DEFAULT_MARKET_CAP as u128,
        };
        proof {
            lemma_cap_within_total(caps@, i as int);
            lemma_blended_weight_range(cap as int, total as int, n as int, pct as int);
            assert(cap * one <= u64::MAX * WEIGHT_ONE) by (nonlinear_arith)
                requires
                    cap <= u64::MAX,
                    one == WEIGHT_ONE,
            ;
        }
        let by_cap: u128 = if total > 0 {
            cap * one / total
        } else {
            equal
        };
        assert(by_cap == mcap_weight(cap as int, total as int, n as int));
        proof {
            assert(pct * by_cap <= 100 * WEIGHT_ONE) by (nonlinear_arith)
                requires
                    pct <= 100,
                    by_cap <= WEIGHT_ONE,
            ;
            assert((100 - pct) * equal <= 100 * WEIGHT_ONE) by (nonlinear_arith)
                requires
                    0 <= 100 - pct <= 100,
                    equal <= WEIGHT_ONE,
            ;
        }
        let w: u128 = (pct * by_cap + (100 - pct) * equal) / 100;
        assert(w == weight_of(caps@, pct as int, i as int));
        out.push(w as u64);
        i = i + 1;
    }
    out
}

/// Computes the blended weight of every symbol of a basket.
///
/// `caps` holds the market capitalisation of each symbol, `None` where it is
/// unknown; `mcap_pct` is the share, in percent, that capitalisation weighting
/// has in the blend. The result holds one weight per symbol, in the same
/// order, in parts of `WEIGHT_ONE`. An empty basket is the only failure.
pub fn blend(caps: &Vec<Option<u64>>, mcap_pct: u32) -> (r: Result<Vec<u64>, IndexError>)
    requires
        mcap_pct <= FULL_PERCENT,
    ensures
        r is Err <==> caps.len() == 0,
        r is Err ==> r == Err::<Vec<u64>, IndexError>(IndexError::EmptyBasket),
        r matches Ok(w) ==> w.len() == caps.len() && forall|i: int|
            0 <= i < caps.len() ==> w[i] as int == #[trigger] weight_of(caps@, mcap_pct as int, i),
{
    if caps.len() == 0 {
        Err(IndexError::EmptyBasket)
    } else {
        Ok(blend_nonempty(caps, mcap_pct))
    }
}

} // verus!
