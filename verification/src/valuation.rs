//! The index valuator: one index value from the quotes of a basket.

use crate::arith::{
    lemma_div_hoist, lemma_seq_sum_prefix, lemma_sum_by_permutation, seq_sum, sum_by,
};
use crate::error::IndexError;
use crate::units::{FULL_PERCENT, WEIGHT_ONE};
use crate::weights::{
    blend_nonempty, blended_weight, cap_or_default, lemma_blended_weight_range, lemma_cap_within_total,
    lemma_weights_sum_to_one, total_cap, weight_of, weights,
};
use vstd::prelude::*;

verus! {

/// What the valuator reads of one symbol of the basket.
#[derive(Debug, Clone, Copy)]
pub struct Quote {
    /// The latest price, in millionths; zero where there is none.
    pub current_price: u64,
    /// The symbol's first recorded price, in millionths; zero where there is none.
    pub base_price: u64,
    /// The market capitalisation, in millionths, where it is known.
    pub market_cap: Option<u64>,
}

impl Quote {
    /// A quote counts only with a positive current price and a positive base price.
    pub open spec fn eligible(self) -> bool {
        self.current_price > 0 && self.base_price > 0
    }

    pub fn is_eligible(&self) -> (r: bool)
        ensures
            r == self.eligible(),
    {
        self.current_price > 0 && self.base_price > 0
    }
}

/// The eligible quotes of a basket, in basket order.
pub open spec fn eligible_quotes(quotes: Seq<Quote>) -> Seq<Quote>
    decreases quotes.len(),
{
    if quotes.len() == 0 {
        Seq::empty()
    } else if quotes.last().eligible() {
        eligible_quotes(quotes.drop_last()).push(quotes.last())
    } else {
        eligible_quotes(quotes.drop_last())
    }
}

/// The capitalisations of a sequence of quotes.
pub open spec fn caps_of(quotes: Seq<Quote>) -> Seq<Option<u64>> {
    quotes.map_values(|q: Quote| q.market_cap)
}

/// A symbol's return since its base price, scaled by its weight.
pub open spec fn weighted_return(weight: int, q: Quote) -> int {
    (weight * q.current_price) / (q.base_price as int)
}

/// The weighted returns of quotes that are weighted as members of a basket
/// of `n` symbols whose capitalisations total `total`.
pub open spec fn returns_in_basket(quotes: Seq<Quote>, total: int, n: int, pct: int) -> Seq<int> {
    Seq::new(
        quotes.len(),
        |i: int|
            weighted_return(
                blended_weight(cap_or_default(quotes[i].market_cap), total, n, pct),
                quotes[i],
            ),
    )
}

/// The weighted returns of a basket in which every quote counts.
pub open spec fn weighted_returns(quotes: Seq<Quote>, pct: int) -> Seq<int> {
    returns_in_basket(quotes, total_cap(caps_of(quotes)), quotes.len() as int, pct)
}

/// The return of the basket, in parts of `WEIGHT_ONE`: the weighted returns
/// of its eligible quotes, which are weighted among themselves.
pub open spec fn basket_return(quotes: Seq<Quote>, pct: int) -> int {
    seq_sum(weighted_returns(eligible_quotes(quotes), pct))
}

/// The index value: the base value times the return of the basket.
pub open spec fn index_value(quotes: Seq<Quote>, pct: int, base_value: int) -> int {
    (base_value * basket_return(quotes, pct)) / (WEIGHT_ONE as int)
}

/// What one quote adds to the return of a basket of `n` eligible symbols
/// whose capitalisations total `total`: nothing, unless it is eligible.
pub open spec fn contribution(q: Quote, total: int, n: int, pct: int) -> int {
    if q.eligible() {
        weighted_return(blended_weight(cap_or_default(q.market_cap), total, n, pct), q)
    } else {
        0
    }
}

/// `contribution` as a function of the quote alone.
pub open spec fn contribution_in(total: int, n: int, pct: int) -> spec_fn(Quote) -> int {
    |q: Quote| contribution(q, total, n, pct)
}

/// One for an eligible quote, nothing for another: the summand of the size
/// of the eligible part.
pub open spec fn counts_one() -> spec_fn(Quote) -> int {
    |q: Quote|
        if q.eligible() {
            1int
        } else {
            0int
        }
}

/// The capitalisation of an eligible quote, nothing for another: the summand
/// of the capitalisation of the eligible part.
pub open spec fn counts_cap() -> spec_fn(Quote) -> int {
    |q: Quote|
        if q.eligible() {
            cap_or_default(q.market_cap)
        } else {
            0int
        }
}

/// The eligible quotes are the quotes that are eligible, and nothing else.
pub proof fn lemma_eligible_quotes_are_eligible(quotes: Seq<Quote>)
    ensures
        eligible_quotes(quotes).len() <= quotes.len(),
        forall|i: int|
            0 <= i < eligible_quotes(quotes).len() ==> (#[trigger] eligible_quotes(
                quotes,
            )[i]).eligible(),
        forall|i: int|
            0 <= i < eligible_quotes(quotes).len() ==> quotes.contains(
                #[trigger] eligible_quotes(quotes)[i],
            ),
        forall|j: int|
            0 <= j < quotes.len() && (#[trigger] quotes[j]).eligible() ==> eligible_quotes(
                quotes,
            ).contains(quotes[j]),
    decreases quotes.len(),
{
    if quotes.len() > 0 {
        let rest = quotes.drop_last();
        lemma_eligible_quotes_are_eligible(rest);
        let e = eligible_quotes(quotes);
        let e0 = eligible_quotes(rest);
        assert forall|i: int| 0 <= i < e.len() implies quotes.contains(#[trigger] e[i]) by {
            if i < e0.len() {
                assert(rest.contains(e0[i]));
                let k = choose|k: int| 0 <= k < rest.len() && rest[k] == e0[i];
                assert(quotes[k] == e[i]);
            } else {
                assert(quotes[quotes.len() - 1] == e[i]);
            }
        }
        assert forall|j: int| 0 <= j < quotes.len() && (#[trigger] quotes[j]).eligible() implies e.contains(
            quotes[j],
        ) by {
            if j < rest.len() {
                assert(rest[j] == quotes[j]);
                assert(e0.contains(rest[j]));
                let k = choose|k: int| 0 <= k < e0.len() && e0[k] == rest[j];
                assert(e[k] == quotes[j]);
            } else {
                assert(e[e.len() - 1] == quotes[j]);
            }
        }
    }
}

/// The eligible part of a basket, told by sums over the whole basket: its
/// size, its capitalisation, and its weighted returns as members of any basket.
pub proof fn lemma_eligible_sums(quotes: Seq<Quote>, total: int, n: int, pct: int)
    ensures
        eligible_quotes(quotes).len() == sum_by(quotes, counts_one()),
        total_cap(caps_of(eligible_quotes(quotes))) == sum_by(quotes, counts_cap()),
        seq_sum(returns_in_basket(eligible_quotes(quotes), total, n, pct)) == sum_by(
            quotes,
            contribution_in(total, n, pct),
        ),
    decreases quotes.len(),
{
    if quotes.len() > 0 {
        let rest = quotes.drop_last();
        let q = quotes.last();
        lemma_eligible_sums(rest, total, n, pct);
        if q.eligible() {
            let e0 = eligible_quotes(rest);
            let e = eligible_quotes(quotes);
            assert(e.drop_last() =~= e0);
            assert(caps_of(e).drop_last() =~= caps_of(e0));
            assert(returns_in_basket(e, total, n, pct).drop_last() =~= returns_in_basket(
                e0,
                total,
                n,
                pct,
            ));
        }
    } else {
        assert(caps_of(eligible_quotes(quotes)) =~= Seq::<Option<u64>>::empty());
        assert(returns_in_basket(eligible_quotes(quotes), total, n, pct) =~= Seq::<int>::empty());
    }
}

/// The return of a basket is a sum over all its quotes, each adding its
/// contribution to a basket of the size and capitalisation of the eligible part.
pub proof fn lemma_basket_return_as_sum(quotes: Seq<Quote>, pct: int)
    ensures
        basket_return(quotes, pct) == sum_by(
            quotes,
            contribution_in(sum_by(quotes, counts_cap()), sum_by(quotes, counts_one()), pct),
        ),
{
    let e = eligible_quotes(quotes);
    lemma_eligible_sums(quotes, total_cap(caps_of(e)), e.len() as int, pct);
}

/// The index value does not depend on the order in which the quotes are given.
pub proof fn lemma_value_ignores_order(a: Seq<Quote>, b: Seq<Quote>, pct: int, base_value: int)
    requires
        a.to_multiset() == b.to_multiset(),
    ensures
        eligible_quotes(a).len() == eligible_quotes(b).len(),
        basket_return(a, pct) == basket_return(b, pct),
        index_value(a, pct, base_value) == index_value(b, pct, base_value),
        valuation(a, pct, base_value) == valuation(b, pct, base_value),
{
    vstd::seq_lib::to_multiset_len(a);
    vstd::seq_lib::to_multiset_len(b);
    lemma_sum_by_permutation(a, b, counts_one());
    lemma_sum_by_permutation(a, b, counts_cap());
    let total = sum_by(a, counts_cap());
    let n = sum_by(a, counts_one());
    lemma_sum_by_permutation(a, b, contribution_in(total, n, pct));
    lemma_basket_return_as_sum(a, pct);
    lemma_basket_return_as_sum(b, pct);
    lemma_eligible_sums(a, total, n, pct);
    lemma_eligible_sums(b, total, n, pct);
}

/// A quote without a positive current price or without a positive base price
/// is left out: wherever it stands in the basket, the eligible quotes, their
/// weights and the index value are those of the basket without it.
pub proof fn lemma_ineligible_quote_is_left_out(
    quotes: Seq<Quote>,
    q: Quote,
    at: int,
    pct: int,
    base_value: int,
)
    requires
        0 <= at <= quotes.len(),
        q.current_price == 0 || q.base_price == 0,
    ensures
        eligible_quotes(quotes.insert(at, q)) == eligible_quotes(quotes),
        weights(caps_of(eligible_quotes(quotes.insert(at, q))), pct) == weights(
            caps_of(eligible_quotes(quotes)),
            pct,
        ),
        index_value(quotes.insert(at, q), pct, base_value) == index_value(quotes, pct, base_value),
        quotes.len() > 0 ==> valuation(quotes.insert(at, q), pct, base_value) == valuation(
            quotes,
            pct,
            base_value,
        ),
    decreases quotes.len() - at,
{
    let with_q = quotes.insert(at, q);
    if at == quotes.len() {
        assert(with_q.drop_last() =~= quotes);
    } else {
        let rest = quotes.drop_last();
        lemma_ineligible_quote_is_left_out(rest, q, at, pct, base_value);
        assert(with_q.drop_last() =~= rest.insert(at, q));
        assert(with_q.last() == quotes.last());
    }
}

/// Collects the eligible quotes of a basket, in basket order.
fn collect_eligible(quotes: &Vec<Quote>) -> (out: Vec<Quote>)
    ensures
        out@ == eligible_quotes(quotes@),
{
    let n = quotes.len();
    let mut out: Vec<Quote> = Vec::new();
    let mut i: usize = 0;
    while i < n
        invariant
            n == quotes.len(),
            i <= n,
            out@ == eligible_quotes(quotes@.take(i as int)),
        decreases n - i,
    {
        let q = quotes[i];
        proof {
            assert(quotes@.take(i + 1).drop_last() =~= quotes@.take(i as int));
        }
        if q.is_eligible() {
            out.push(q);
        }
        i = i + 1;
    }
    proof {
        assert(quotes@.take(n as int) =~= quotes@);
    }
    out
}

/// Tells whether a basket has a value to compute: whether any of its quotes
/// has both a positive current price and a positive base price.
pub fn has_eligible(quotes: &Vec<Quote>) -> (r: bool)
    ensures
        r == (eligible_quotes(quotes@).len() > 0),
{
    let n = quotes.len();
    let mut i: usize = 0;
    while i < n
        invariant
            n == quotes.len(),
            i <= n,
            eligible_quotes(quotes@.take(i as int)).len() == 0,
        decreases n - i,
    {
        proof {
            assert(quotes@.take(i + 1).drop_last() =~= quotes@.take(i as int));
        }
        if quotes[i].is_eligible() {
            proof {
                lemma_eligible_quotes_are_eligible(quotes@);
                assert(quotes@[i as int].eligible());
                assert(eligible_quotes(quotes@).contains(quotes@[i as int]));
            }
            return true;
        }
        i = i + 1;
    }
    proof {
        assert(quotes@.take(n as int) =~= quotes@);
    }
    false
}

/// Lists the capitalisations of a sequence of quotes.
fn collect_caps(quotes: &Vec<Quote>) -> (out: Vec<Option<u64>>)
    ensures
        out@ == caps_of(quotes@),
{
    let n = quotes.len();
    let mut out: Vec<Option<u64>> = Vec::new();
    let mut i: usize = 0;
    while i < n
        invariant
            n == quotes.len(),
            i <= n,
            out@ == caps_of(quotes@.take(i as int)),
        decreases n - i,
    {
        proof {
            assert(caps_of(quotes@.take(i + 1)) =~= caps_of(quotes@.take(i as int)).push(
                quotes@[i as int].market_cap,
            ));
        }
        out.push(quotes[i].market_cap);
        i = i + 1;
    }
    proof {
        assert(quotes@.take(n as int) =~= quotes@);
    }
    out
}

/// Adds up the weighted returns of a basket in which every quote is eligible.
fn sum_weighted_returns(quotes: &Vec<Quote>, mcap_pct: u32) -> (acc: u128)
    requires
        quotes.len() > 0,
        mcap_pct <= FULL_PERCENT,
        forall|i: int| 0 <= i < quotes.len() ==> (#[trigger] quotes[i]).eligible(),
    ensures
        acc == seq_sum(weighted_returns(quotes@, mcap_pct as int)),
        acc <= WEIGHT_ONE * u64::MAX,
{
    let n = quotes.len();
    let caps = collect_caps(quotes);
    let ghost pct = mcap_pct as int;
    let ghost ws = weights(caps@, pct);
    let ghost rs = weighted_returns(quotes@, pct);
    let w = blend_nonempty(&caps, mcap_pct);
    proof {
        assert forall|i: int| 0 <= i < n implies 0 <= #[trigger] ws[i] <= WEIGHT_ONE by {
            lemma_cap_within_total(caps@, i);
            lemma_blended_weight_range(
                cap_or_default(caps@[i]),
                total_cap(caps@),
                n as int,
                pct,
            );
        }
        lemma_weights_sum_to_one(caps@, pct);
    }
    let mut acc: u128 = 0;
    let mut i: usize = 0;
    while i < n
        invariant
            n == quotes.len() == caps.len() == w.len(),
            i <= n,
            pct == mcap_pct,
            caps@ == caps_of(quotes@),
            ws == weights(caps@, pct),
            rs == weighted_returns(quotes@, pct),
            forall|j: int| 0 <= j < n ==> w[j] as int == #[trigger] weight_of(caps@, pct, j),
            forall|j: int| 0 <= j < n ==> 0 <= #[trigger] ws[j] <= WEIGHT_ONE,
            forall|j: int| 0 <= j < n ==> (#[trigger] quotes[j]).eligible(),
            seq_sum(ws) <= WEIGHT_ONE,
            acc == seq_sum(rs.take(i as int)),
            acc <= seq_sum(ws.take(i as int)) * u64::MAX,
        decreases n - i,
    {
        let q = quotes[i];
        let wi: u128 = w[i] as u128;
        proof {
            assert(wi == weight_of(caps@, pct, i as int) == ws[i as int]);
            assert(q.eligible());
            assert(rs.take(i + 1).drop_last() =~= rs.take(i as int));
            assert(ws.take(i + 1).drop_last() =~= ws.take(i as int));
            lemma_seq_sum_prefix(ws, i + 1);
            let cur = q.current_price as int;
            let base = q.base_price as int;
            assert(0 <= wi * cur <= wi * u64::MAX <= WEIGHT_ONE * u64::MAX) by (nonlinear_arith)
                requires
                    0 <= wi <= WEIGHT_ONE,
                    0 <= cur <= u64::MAX,
            ;
            assert((wi * cur) / base <= wi * cur) by {
                vstd::arithmetic::div_mod::lemma_div_is_ordered_by_denominator(wi * cur, 1, base);
            }
            let s0 = seq_sum(ws.take(i as int));
            assert((s0 + wi) * u64::MAX == s0 * u64::MAX + wi * u64::MAX) by (nonlinear_arith);
            assert((s0 + wi) * u64::MAX <= WEIGHT_ONE * u64::MAX) by (nonlinear_arith)
                requires
                    s0 + wi <= WEIGHT_ONE,
            ;
        }
        let term: u128 = wi * (q.current_price as u128) / (q.base_price as u128);
        assert(term == rs[i as int]);
        acc = acc + term;
        i = i + 1;
    }
    proof {
        assert(rs.take(n as int) =~= rs);
        assert(ws.take(n as int) =~= ws);
        assert(seq_sum(ws) * u64::MAX <= WEIGHT_ONE * u64::MAX) by (nonlinear_arith)
            requires
                seq_sum(ws) <= WEIGHT_ONE,
        ;
    }
    acc
}

/// Scales a basket return by the base value.
fn scale_by_base_value(basket: u128, base_value: u64) -> (v: u128)
    requires
        basket <= WEIGHT_ONE * u64::MAX,
    ensures
        v == (base_value * basket) / (WEIGHT_ONE as int),
{
    let one: u128 = WEIGHT_ONE as u128;
    let whole: u128 = basket / one;
    let part: u128 = basket % one;
    let bv: u128 = base_value as u128;
    proof {
        assert(whole <= u64::MAX) by {
            vstd::arithmetic::div_mod::lemma_div_is_ordered(
                basket as int,
                WEIGHT_ONE * u64::MAX,
                one as int,
            );
            vstd::arithmetic::div_mod::lemma_div_multiples_vanish(u64::MAX as int, one as int);
        }
        assert(bv * whole <= u64::MAX * u64::MAX) by (nonlinear_arith)
            requires
                bv <= u64::MAX,
                whole <= u64::MAX,
        ;
        assert(bv * part <= u64::MAX * WEIGHT_ONE) by (nonlinear_arith)
            requires
                bv <= u64::MAX,
                part <= WEIGHT_ONE,
        ;
        assert((bv * part) / (one as int) <= bv) by {
            crate::arith::lemma_share_at_most_whole(part as int, bv as int, one as int);
            assert(part * bv == bv * part) by (nonlinear_arith);
        }
        assert(basket == one * whole + part) by {
            vstd::arithmetic::div_mod::lemma_fundamental_div_mod(basket as int, one as int);
        }
        assert(base_value * basket == (bv * whole) * one + bv * part) by (nonlinear_arith)
            requires
                basket == one * whole + part,
                bv == base_value,
        ;
        lemma_div_hoist(bv * part, bv * whole, one as int);
    }
    bv * whole + bv * part / one
}

/// The outcome of a valuation: the index value, or the reason for which
/// there is none.
pub open spec fn valuation(quotes: Seq<Quote>, pct: int, base_value: int) -> Result<
    u64,
    IndexError,
> {
    if quotes.len() == 0 {
        Err(IndexError::EmptyBasket)
    } else if eligible_quotes(quotes).len() == 0 {
        Err(IndexError::NoEligibleQuotes)
    } else if index_value(quotes, pct, base_value) > u64::MAX {
        Err(IndexError::ValueOutOfRange)
    } else {
        Ok(index_value(quotes, pct, base_value) as u64)
    }
}

/// Computes the index value of a basket.
///
/// Quotes without a positive current price or without a positive base price
/// are left out, and the remaining ones are weighted among themselves. The
/// value is the base value times the sum of their weighted returns, rounded
/// down at each division. There is no value for an empty basket, for a basket
/// without an eligible quote, and where the value does not fit a `u64`.
pub fn value(quotes: &Vec<Quote>, mcap_pct: u32, base_value: u64) -> (r: Result<u64, IndexError>)
    requires
        mcap_pct <= FULL_PERCENT,
    ensures
        r == valuation(quotes@, mcap_pct as int, base_value as int),
        r matches Ok(v) ==> v == index_value(quotes@, mcap_pct as int, base_value as int),
{
    if quotes.len() == 0 {
        return Err(IndexError::EmptyBasket);
    }
    let eligible = collect_eligible(quotes);
    if eligible.len() == 0 {
        return Err(IndexError::NoEligibleQuotes);
    }
    proof {
        lemma_eligible_quotes_are_eligible(quotes@);
    }
    let basket = sum_weighted_returns(&eligible, mcap_pct);
    let v = scale_by_base_value(basket, base_value);
    if v > u64::MAX as u128 {
        Err(IndexError::ValueOutOfRange)
    } else {
        Ok(v as u64)
    }
}

} // verus!
