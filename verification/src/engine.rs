//! The live path: from the store to the current index value, its snapshot
//! and the weights on display.

use crate::calendar::utc_now_seconds;
use crate::config::StocksConfig;
use crate::models::{BasePrice, PriceRecord};
use crate::snapshot::{snapshot_after, IndexSnapshot};
use crate::store::{
    base_price_of, known_market_cap, last_snapshot, lemma_newest_index, newest, newest_index,
    selects, with_base_price, with_snapshot, PriceStore,
};
use crate::valuation::{valuation, value, Quote};
use crate::arith::seq_sum;
use crate::units::WEIGHT_ONE;
use crate::weights::{
    blend, cap_or_default, lemma_blended_weight_range, lemma_cap_within_total,
    lemma_weights_sum_to_one, total_cap, weight_of, weights,
};
use vstd::prelude::*;

verus! {

/// The quote made of a price record, a capitalisation and a base price;
/// zero stands for a price that is missing.
pub open spec fn quote_from(row: Option<PriceRecord>, market_cap: Option<u64>, base: Option<u64>) -> Quote {
    Quote {
        current_price: match row {
            Some(r) => r.price,
            None => 0,
        },
        base_price: match base {
            Some(b) => b,
            None => 0,
        },
        market_cap,
    }
}

/// The quote of a symbol: its newest price and the capitalisation that is
/// known last for it, both of a day not after `max_day` where one is given,
/// and its base price.
pub open spec fn quote_of(
    prices: Seq<PriceRecord>,
    bases: Seq<BasePrice>,
    symbol: Seq<char>,
    max_day: Option<i64>,
) -> Quote {
    quote_from(
        newest(prices, symbol, max_day, false),
        known_market_cap(prices, symbol, max_day),
        base_price_of(bases, symbol),
    )
}

/// The capitalisation of a quote is the one that is known last: that of the
/// newest record of the symbol, up to the day, among those that have one. It
/// is unknown only where no record of the symbol up to the day has one.
pub proof fn lemma_quote_cap_is_latest_known(
    prices: Seq<PriceRecord>,
    bases: Seq<BasePrice>,
    symbol: Seq<char>,
    max_day: Option<i64>,
)
    ensures
        match quote_of(prices, bases, symbol, max_day).market_cap {
            Some(m) => exists|i: int|
                {
                    &&& 0 <= i < prices.len()
                    &&& selects(#[trigger] prices[i], symbol, max_day, false)
                    &&& prices[i].market_cap == Some(m)
                    &&& forall|j: int|
                        0 <= j < prices.len() && selects(
                            #[trigger] prices[j],
                            symbol,
                            max_day,
                            false,
                        ) && prices[j].market_cap is Some ==> prices[j].timestamp
                            < prices[i].timestamp || (prices[j].timestamp == prices[i].timestamp
                            && j <= i)
                },
            None => forall|j: int|
                0 <= j < prices.len() && selects(#[trigger] prices[j], symbol, max_day, false)
                    ==> prices[j].market_cap is None,
        },
{
    lemma_newest_index(prices, symbol, max_day, true);
    match newest_index(prices, symbol, max_day, true) {
        Some(i) => {
            assert(selects(prices[i], symbol, max_day, false));
            assert forall|j: int|
                0 <= j < prices.len() && selects(#[trigger] prices[j], symbol, max_day, false)
                    && prices[j].market_cap is Some implies prices[j].timestamp
                < prices[i].timestamp || (prices[j].timestamp == prices[i].timestamp && j <= i) by {
                assert(selects(prices[j], symbol, max_day, true));
            }
        },
        None => {
            assert forall|j: int|
                0 <= j < prices.len() && selects(
                    #[trigger] prices[j],
                    symbol,
                    max_day,
                    false,
                ) implies prices[j].market_cap is None by {
                assert(!selects(prices[j], symbol, max_day, true));
            }
        },
    }
}

/// The quotes of a list of symbols, in the order of the list.
pub open spec fn quotes_of(
    prices: Seq<PriceRecord>,
    bases: Seq<BasePrice>,
    symbols: Seq<String>,
    max_day: Option<i64>,
) -> Seq<Quote> {
    Seq::new(symbols.len(), |i: int| quote_of(prices, bases, symbols[i]@, max_day))
}

/// Reads the quote of every symbol of a list from the store.
pub fn collect_quotes(store: &PriceStore, symbols: &Vec<String>, max_day: Option<i64>) -> (quotes:
    Vec<Quote>)
    ensures
        quotes@ == quotes_of(store.prices(), store.base_prices(), symbols@, max_day),
{
    let n = symbols.len();
    let mut quotes: Vec<Quote> = Vec::new();
    let mut i: usize = 0;
    while i < n
        invariant
            n == symbols.len(),
            i <= n,
            quotes.len() == i,
            forall|j: int|
                0 <= j < i ==> quotes[j] == quote_of(
                    store.prices(),
                    store.base_prices(),
                    #[trigger] symbols[j]@,
                    max_day,
                ),
        decreases n - i,
    {
        let symbol = &symbols[i];
        let current_price = match max_day {
            Some(day) => match store.price_as_of_or_before(symbol, day) {
                Some((price, _)) => price,
                None => 0,
            },
            None => match store.latest_price(symbol) {
                Some((price, _, _)) => price,
                None => 0,
            },
        };
        let market_cap = match max_day {
            Some(day) => store.market_cap_as_of_or_before(symbol, day),
            None => store.latest_market_cap(symbol),
        };
        let base_price = match store.base_price(symbol) {
            Some(b) => b,
            None => 0,
        };
        quotes.push(Quote { current_price, base_price, market_cap });
        i = i + 1;
    }
    proof {
        assert(quotes@ =~= quotes_of(store.prices(), store.base_prices(), symbols@, max_day));
    }
    quotes
}

/// The snapshot that the live path makes at the time `now`: the value of the
/// basket at its latest prices, following the latest snapshot of the series.
pub open spec fn live_snapshot(
    prices: Seq<PriceRecord>,
    bases: Seq<BasePrice>,
    snapshots: Seq<IndexSnapshot>,
    config: StocksConfig,
    now: i64,
) -> Option<IndexSnapshot> {
    match valuation(
        quotes_of(prices, bases, config.index_symbol_seq(), None),
        config.settings.market_cap_weight_pct as int,
        config.settings.base_value as int,
    ) {
        Ok(v) => Some(snapshot_after(last_snapshot(snapshots), v, now)),
        Err(_) => None,
    }
}

/// A snapshot with the word on whether the series took it.
#[derive(Debug, Clone, Copy)]
pub struct Recorded {
    pub snapshot: IndexSnapshot,
    /// False where the series already holds a snapshot of that time or later.
    pub stored: bool,
}

/// Records a newly computed index value: makes the snapshot that follows
/// `previous` and appends it to the series, unless the series already holds
/// a snapshot of that time or later. The snapshot is returned either way.
pub fn record(store: &mut PriceStore, new_value: u64, previous: Option<IndexSnapshot>, at: i64) -> (r:
    Recorded)
    ensures
        r.snapshot == snapshot_after(previous, new_value, at),
        r.snapshot.value == new_value && r.snapshot.timestamp == at,
        previous is None ==> r.snapshot.daily_change is None && r.snapshot.daily_change_pct
            is None,
        previous matches Some(p) ==> (p.value == 0 ==> r.snapshot.daily_change is None
            && r.snapshot.daily_change_pct is None),
        r.stored == (old(store).snapshots().len() == 0 || old(store).snapshots().last().timestamp
            < at),
        final(store).snapshots() == with_snapshot(old(store).snapshots(), r.snapshot),
        final(store).prices() == old(store).prices(),
        final(store).base_prices() == old(store).base_prices(),
        old(store).wf() ==> final(store).wf(),
{
    let snapshot = IndexSnapshot::following(previous, new_value, at);
    let stored = store.append_snapshot(snapshot);
    Recorded { snapshot, stored }
}

/// Whether the series takes a snapshot of the time `at`: whether it is empty
/// or its last snapshot is earlier.
pub open spec fn takes_snapshot_at(snapshots: Seq<IndexSnapshot>, at: i64) -> bool {
    snapshots.len() == 0 || snapshots.last().timestamp < at
}

/// What the live path gives back at the time `now`: its snapshot, with the
/// word on whether the series takes it.
pub open spec fn live_record(
    prices: Seq<PriceRecord>,
    bases: Seq<BasePrice>,
    snapshots: Seq<IndexSnapshot>,
    config: StocksConfig,
    now: i64,
) -> Option<Recorded> {
    match live_snapshot(prices, bases, snapshots, config, now) {
        Some(s) => Some(Recorded { snapshot: s, stored: takes_snapshot_at(snapshots, now) }),
        None => None,
    }
}

/// The first snapshot of a series has no changes, and neither has a snapshot
/// that follows a value of zero, whatever the new value is.
pub proof fn lemma_live_snapshot_without_changes(
    prices: Seq<PriceRecord>,
    bases: Seq<BasePrice>,
    snapshots: Seq<IndexSnapshot>,
    config: StocksConfig,
    now: i64,
)
    requires
        snapshots.len() == 0 || snapshots.last().value == 0,
    ensures
        live_snapshot(prices, bases, snapshots, config, now) matches Some(s) ==> s.daily_change
            is None && s.daily_change_pct is None,
{
}

/// Computes the index value from the latest prices in the store and records
/// it at the time `now`. There is no snapshot where the basket is empty, where
/// no symbol has both a positive price and a positive base price, and where
/// the value does not fit. The snapshot is given back with the word on
/// whether the series took it; it did not where it holds a snapshot of that
/// time or later.
pub fn compute_and_store_at(store: &mut PriceStore, config: &StocksConfig, now: i64) -> (r: Option<
    Recorded,
>)
    requires
        config.valid(),
    ensures
        r == live_record(
            old(store).prices(),
            old(store).base_prices(),
            old(store).snapshots(),
            *config,
            now,
        ),
        final(store).snapshots() == match r {
            Some(rec) => with_snapshot(old(store).snapshots(), rec.snapshot),
            None => old(store).snapshots(),
        },
        r matches Some(rec) ==> (old(store).snapshots().len() == 0 || old(
            store,
        ).snapshots().last().value == 0 ==> rec.snapshot.daily_change is None
            && rec.snapshot.daily_change_pct is None),
        final(store).prices() == old(store).prices(),
        final(store).base_prices() == old(store).base_prices(),
        old(store).wf() ==> final(store).wf(),
{
    let symbols = config.index_symbols();
    let quotes = collect_quotes(store, &symbols, None);
    match value(&quotes, config.mcap_pct(), config.settings.base_value) {
        Ok(v) => {
            let previous = store.latest_snapshot();
            Some(record(store, v, previous, now))
        },
        Err(_) => None,
    }
}

/// Compute the hybrid-weighted index value and store a snapshot, at the time
/// that the clock gives. Whatever that time is, the result is what the live
/// path gives back at it.
pub fn compute_and_store(store: &mut PriceStore, config: &StocksConfig) -> (r: Option<Recorded>)
    requires
        config.valid(),
    ensures
        match r {
            Some(rec) => r == live_record(
                old(store).prices(),
                old(store).base_prices(),
                old(store).snapshots(),
                *config,
                rec.snapshot.timestamp,
            ) && final(store).snapshots() == with_snapshot(
                old(store).snapshots(),
                rec.snapshot,
            ),
            None => live_snapshot(
                old(store).prices(),
                old(store).base_prices(),
                old(store).snapshots(),
                *config,
                0,
            ) is None && final(store).snapshots() == old(store).snapshots(),
        },
        r matches Some(rec) ==> (old(store).snapshots().len() == 0 || old(
            store,
        ).snapshots().last().value == 0 ==> rec.snapshot.daily_change is None
            && rec.snapshot.daily_change_pct is None),
        final(store).prices() == old(store).prices(),
        final(store).base_prices() == old(store).base_prices(),
        old(store).wf() ==> final(store).wf(),
{
    let now = utc_now_seconds();
    compute_and_store_at(store, config, now)
}

/// The weight of a symbol, for display.
#[derive(Debug)]
pub struct SymbolWeight {
    pub symbol: String,
    /// In parts of `WEIGHT_ONE`.
    pub weight: u64,
}

/// The capitalisation that is known last for each symbol of a list.
pub open spec fn latest_caps(prices: Seq<PriceRecord>, symbols: Seq<String>) -> Seq<Option<u64>> {
    Seq::new(symbols.len(), |i: int| known_market_cap(prices, symbols[i]@, None))
}

/// The weight that a list of symbol weights gives for a symbol: that of its
/// last entry for the symbol.
pub open spec fn listed_weight(weights: Seq<SymbolWeight>, symbol: Seq<char>) -> Option<u64>
    decreases weights.len(),
{
    if weights.len() == 0 {
        None
    } else if weights.last().symbol@ == symbol {
        Some(weights.last().weight)
    } else {
        listed_weight(weights.drop_last(), symbol)
    }
}

/// Looks a symbol up in a list of symbol weights.
pub fn weight_for(weights: &Vec<SymbolWeight>, symbol: &String) -> (r: Option<u64>)
    ensures
        r == listed_weight(weights@, symbol@),
{
    let n = weights.len();
    let mut i: usize = n;
    proof {
        assert(weights@.take(n as int) =~= weights@);
    }
    while i > 0
        invariant
            n == weights.len(),
            i <= n,
            listed_weight(weights@, symbol@) == listed_weight(weights@.take(i as int), symbol@),
        decreases i,
    {
        i = i - 1;
        proof {
            assert(weights@.take(i + 1).drop_last() =~= weights@.take(i as int));
            assert(weights@.take(i + 1).last() == weights@[i as int]);
        }
        if weights[i].symbol == *symbol {
            return Some(weights[i].weight);
        }
    }
    None
}

/// The index symbols, each with its blended weight in a basket in which
/// every index symbol counts, with the capitalisation that is known last for it.
pub open spec fn weight_list(prices: Seq<PriceRecord>, config: StocksConfig) -> Seq<SymbolWeight> {
    let symbols = config.index_symbol_seq();
    Seq::new(
        symbols.len(),
        |i: int|
            SymbolWeight {
                symbol: symbols[i],
                weight: weight_of(
                    latest_caps(prices, symbols),
                    config.settings.market_cap_weight_pct as int,
                    i,
                ) as u64,
            },
    )
}

/// The weights on display add up to the whole within a thousand-millionth of
/// it, for a basket of no more than five hundred million symbols.
pub proof fn lemma_weight_list_sums_to_one(prices: Seq<PriceRecord>, config: StocksConfig)
    requires
        config.valid(),
        0 < config.index_symbol_seq().len() <= 500_000_000,
    ensures
        WEIGHT_ONE - 1_000_000_000 < seq_sum(
            Seq::new(
                weight_list(prices, config).len(),
                |i: int| weight_list(prices, config)[i].weight as int,
            ),
        ) <= WEIGHT_ONE,
{
    let symbols = config.index_symbol_seq();
    let caps = latest_caps(prices, symbols);
    let pct = config.settings.market_cap_weight_pct as int;
    let shown = Seq::new(
        weight_list(prices, config).len(),
        |i: int| weight_list(prices, config)[i].weight as int,
    );
    assert forall|i: int| 0 <= i < caps.len() implies shown[i] == #[trigger] weights(caps, pct)[i] by {
        lemma_cap_within_total(caps, i);
        lemma_blended_weight_range(
            cap_or_default(caps[i]),
            total_cap(caps),
            caps.len() as int,
            pct,
        );
    }
    assert(shown =~= weights(caps, pct));
    lemma_weights_sum_to_one(caps, pct);
}

/// Compute blended weights for all index symbols: every index symbol counts,
/// with the capitalisation that is known last for it. The result lists
/// the index symbols in their order, each with its weight; it is empty for an
/// empty basket.
pub fn compute_weights(store: &PriceStore, config: &StocksConfig) -> (out: Vec<SymbolWeight>)
    requires
        config.valid(),
    ensures
        out@ == weight_list(store.prices(), *config),
{
    let symbols = config.index_symbols();
    let n = symbols.len();
    let mut caps: Vec<Option<u64>> = Vec::new();
    let mut i: usize = 0;
    while i < n
        invariant
            n == symbols.len(),
            i <= n,
            caps.len() == i,
            forall|j: int|
                0 <= j < i ==> caps[j] == #[trigger] latest_caps(store.prices(), symbols@)[j],
        decreases n - i,
    {
        caps.push(store.latest_market_cap(&symbols[i]));
        i = i + 1;
    }
    proof {
        assert(caps@ =~= latest_caps(store.prices(), symbols@));
    }
    let mut out: Vec<SymbolWeight> = Vec::new();
    match blend(&caps, config.mcap_pct()) {
        Ok(w) => {
            let mut k: usize = 0;
            while k < n
                invariant
                    n == symbols.len() == w.len(),
                    k <= n,
                    out.len() == k,
                    forall|j: int|
                        0 <= j < k ==> (#[trigger] out[j]).symbol == symbols[j] && out[j].weight
                            == w[j],
                decreases n - k,
            {
                out.push(SymbolWeight { symbol: symbols[k].clone(), weight: w[k] });
                k = k + 1;
            }
        },
        Err(_) => {},
    }
    proof {
        assert(out@ =~= weight_list(store.prices(), *config));
    }
    out
}

/// A quote as the market-data provider gives it.
#[derive(Debug, Clone, Copy)]
pub struct FinnhubQuote {
    /// Current price, in millionths; zero where the provider has none.
    pub c: u64,
    /// Change, in millionths.
    pub d: Option<i128>,
    /// Percent change, in millionths of a percent.
    pub dp: Option<i128>,
}

/// What the engine reads of a company profile of the market-data provider.
#[derive(Debug, Clone, Copy)]
pub struct FinnhubProfile {
    /// The market capitalisation, in millionths, where the provider gives one.
    pub market_capitalization: Option<u64>,
}

/// The price record that a quote becomes.
pub open spec fn quote_record(
    prices: Seq<PriceRecord>,
    symbol: String,
    quote: FinnhubQuote,
    now: i64,
) -> PriceRecord {
    PriceRecord {
        symbol,
        price: quote.c,
        change: quote.d,
        change_pct: quote.dp,
        market_cap: known_market_cap(prices, symbol@, None),
        timestamp: now,
    }
}

/// Takes a freshly fetched quote into the store. A quote without a price is
/// skipped. Else the price is appended with the capitalisation that is
/// known last for the symbol, and it becomes the symbol's base price if
/// the symbol has none. Tells whether the quote was taken.
pub fn record_quote(store: &mut PriceStore, symbol: &String, quote: &FinnhubQuote, now: i64) -> (taken:
    bool)
    ensures
        taken == (quote.c > 0),
        final(store).prices() == if quote.c > 0 {
            old(store).prices().push(quote_record(old(store).prices(), *symbol, *quote, now))
        } else {
            old(store).prices()
        },
        final(store).base_prices() == if quote.c > 0 {
            with_base_price(
                old(store).base_prices(),
                BasePrice { symbol: *symbol, price: quote.c, recorded_at: now },
            )
        } else {
            old(store).base_prices()
        },
        final(store).snapshots() == old(store).snapshots(),
        old(store).wf() ==> final(store).wf(),
{
    if quote.c == 0 {
        return false;
    }
    let market_cap = store.latest_market_cap(symbol);
    store.append_price_observation(
        PriceRecord {
            symbol: symbol.clone(),
            price: quote.c,
            change: quote.d,
            change_pct: quote.dp,
            market_cap,
            timestamp: now,
        },
    );
    store.set_base_price_if_absent(symbol.clone(), quote.c, now);
    true
}

/// Takes a freshly fetched company profile into the store: its
/// capitalisation, where it gives one, is attached to the latest price record
/// of the symbol. Tells whether a record was changed.
pub fn record_profile(store: &mut PriceStore, symbol: &String, profile: &FinnhubProfile) -> (changed:
    bool)
    ensures
        changed == (profile.market_capitalization is Some && newest_index(
            old(store).prices(),
            symbol@,
            None,
            false,
        ) is Some),
        final(store).prices() == match (
            profile.market_capitalization,
            newest_index(old(store).prices(), symbol@, None, false),
        ) {
            (Some(cap), Some(i)) => old(store).prices().update(
                i,
                PriceRecord { market_cap: Some(cap), ..old(store).prices()[i] },
            ),
            _ => old(store).prices(),
        },
        final(store).base_prices() == old(store).base_prices(),
        final(store).snapshots() == old(store).snapshots(),
        old(store).wf() ==> final(store).wf(),
{
    match profile.market_capitalization {
        Some(cap) => store.attach_market_cap(symbol, cap),
        None => false,
    }
}

} // verus!
