//! The historical reconstructor: daily closes taken into the store, and the
//! index series replayed over them, one snapshot per day with a price.

use crate::calendar::{calendar_time_or, resolve_timestamp};
use crate::config::StocksConfig;
use crate::engine::{collect_quotes, live_snapshot, quote_of, quotes_of, record};
use crate::models::{BasePrice, PriceRecord};
use crate::snapshot::{changes, changes_from, snapshot_after, IndexSnapshot};
use crate::store::{
    day_of, day_of_timestamp, known_market_cap, last_snapshot_before,
    lemma_newest_without_later_records, with_base_price, with_snapshot, PriceStore,
};
use crate::units::SECONDS_PER_DAY;
use crate::valuation::{valuation, value};
use vstd::prelude::*;
use vstd::string::StringExecFns;

verus! {

/// The number of price observations above which the store counts as filled
/// and no history is taken in.
pub const BACKFILL_ROW_THRESHOLD: usize = 100;

/// The length of the history that is asked for, in seconds: 365 days.
pub const BACKFILL_SPAN_SECONDS: i64 = 31_536_000;

/// The time of day of a reconstructed snapshot, in seconds after midnight: 16:00.
pub const CLOSE_OF_DAY_SECONDS: i64 = 57_600;

/// One daily close.
#[derive(Debug, Clone, Copy)]
pub struct Candle {
    /// Seconds since the epoch.
    pub timestamp: i64,
    /// The closing price, in millionths.
    pub close: u64,
}

/// A series of daily candles as the market-data provider gives it.
#[derive(Debug)]
pub struct FinnhubCandle {
    /// The status of the answer; `ok` where it holds data.
    pub s: String,
    /// Closing prices, in millionths.
    pub c: Option<Vec<u64>>,
    /// Their timestamps, in seconds since the epoch.
    pub t: Option<Vec<i64>>,
}

/// The closes of an answer paired with their timestamps, as many as have both.
pub open spec fn paired(closes: Seq<u64>, timestamps: Seq<i64>) -> Seq<Candle> {
    Seq::new(
        if closes.len() <= timestamps.len() {
            closes.len()
        } else {
            timestamps.len()
        },
        |i: int| Candle { timestamp: timestamps[i], close: closes[i] },
    )
}

impl FinnhubCandle {
    /// The candles of the answer: none unless its status is `ok` and it
    /// holds both closes and timestamps.
    pub open spec fn candle_seq(&self) -> Seq<Candle> {
        match (self.c, self.t) {
            (Some(closes), Some(timestamps)) if self.s@ == "ok"@ => paired(closes@, timestamps@),
            _ => Seq::empty(),
        }
    }

    /// Lists the candles of the answer.
    pub fn candles(&self) -> (out: Vec<Candle>)
        ensures
            out@ == self.candle_seq(),
    {
        let mut out: Vec<Candle> = Vec::new();
        let ok = String::from_str("ok");
        if self.s == ok {
            match (&self.c, &self.t) {
                (Some(closes), Some(timestamps)) => {
                    let n = if closes.len() <= timestamps.len() {
                        closes.len()
                    } else {
                        timestamps.len()
                    };
                    let mut i: usize = 0;
                    while i < n
                        invariant
                            n <= closes.len(),
                            n <= timestamps.len(),
                            i <= n,
                            out.len() == i,
                            forall|j: int|
                                0 <= j < i ==> out[j] == (Candle {
                                    timestamp: timestamps[j],
                                    close: closes[j],
                                }),
                        decreases n - i,
                    {
                        out.push(Candle { timestamp: timestamps[i], close: closes[i] });
                        i = i + 1;
                    }
                    proof {
                        assert(out@ =~= paired(closes@, timestamps@));
                    }
                },
                _ => {},
            }
        }
        out
    }
}

/// The candles with each timestamp that the calendar does not have replaced by `now`.
pub open spec fn resolved_candles(candles: Seq<Candle>, now: i64) -> Seq<Candle> {
    Seq::new(
        candles.len(),
        |i: int|
            Candle {
                timestamp: calendar_time_or(candles[i].timestamp, now),
                close: candles[i].close,
            },
    )
}

/// Replaces by `now` each timestamp that the calendar does not have.
pub fn resolve_candles(candles: &Vec<Candle>, now: i64) -> (out: Vec<Candle>)
    ensures
        out@ == resolved_candles(candles@, now),
{
    let n = candles.len();
    let mut out: Vec<Candle> = Vec::new();
    let mut i: usize = 0;
    while i < n
        invariant
            n == candles.len(),
            i <= n,
            out.len() == i,
            forall|j: int| 0 <= j < i ==> out[j] == #[trigger] resolved_candles(candles@, now)[j],
        decreases n - i,
    {
        let c = candles[i];
        out.push(Candle { timestamp: resolve_timestamp(c.timestamp, now), close: c.close });
        i = i + 1;
    }
    proof {
        assert(out@ =~= resolved_candles(candles@, now));
    }
    out
}

/// The price record of the `i`-th candle of a series: its close, with the
/// change against the close before it where there is one and it is positive.
pub open spec fn candle_record(
    symbol: String,
    candles: Seq<Candle>,
    market_cap: Option<u64>,
    i: int,
) -> PriceRecord {
    let previous = if i > 0 {
        Some(candles[i - 1].close)
    } else {
        None
    };
    PriceRecord {
        symbol,
        price: candles[i].close,
        change: changes_from(previous, candles[i].close).0,
        change_pct: changes_from(previous, candles[i].close).1,
        market_cap,
        timestamp: candles[i].timestamp,
    }
}

/// The price records of a series of candles.
pub open spec fn candle_records(symbol: String, candles: Seq<Candle>, market_cap: Option<u64>) -> Seq<
    PriceRecord,
> {
    Seq::new(candles.len(), |i: int| candle_record(symbol, candles, market_cap, i))
}

/// The base prices after a series of candles was taken in: the first close
/// is the base price of a symbol that had none.
pub open spec fn bases_after_candles(bases: Seq<BasePrice>, symbol: String, candles: Seq<Candle>) -> Seq<
    BasePrice,
> {
    if candles.len() == 0 {
        bases
    } else {
        with_base_price(
            bases,
            BasePrice { symbol, price: candles[0].close, recorded_at: candles[0].timestamp },
        )
    }
}

/// Takes the daily closes of a symbol into the store, with the timestamps as
/// they are given. The first close becomes the base price if the symbol has
/// none. Every close is appended as a price record with the capitalisation
/// that was known last for the symbol before, and with its change against
/// the close before it. Returns the number of records appended.
pub fn ingest_resolved(store: &mut PriceStore, symbol: &String, candles: &Vec<Candle>) -> (count:
    usize)
    ensures
        count == candles.len(),
        final(store).prices() == old(store).prices() + candle_records(
            *symbol,
            candles@,
            known_market_cap(old(store).prices(), symbol@, None),
        ),
        final(store).base_prices() == bases_after_candles(
            old(store).base_prices(),
            *symbol,
            candles@,
        ),
        final(store).snapshots() == old(store).snapshots(),
        old(store).wf() ==> final(store).wf(),
{
    let n = candles.len();
    if n == 0 {
        proof {
            assert(old(store).prices() + candle_records(
                *symbol,
                candles@,
                known_market_cap(old(store).prices(), symbol@, None),
            ) =~= old(store).prices());
        }
        return 0;
    }
    store.set_base_price_if_absent(symbol.clone(), candles[0].close, candles[0].timestamp);
    let market_cap = store.latest_market_cap(symbol);
    let ghost records = candle_records(*symbol, candles@, market_cap);
    let mut i: usize = 0;
    while i < n
        invariant
            n == candles.len(),
            i <= n,
            records == candle_records(*symbol, candles@, market_cap),
            store.prices() == old(store).prices() + records.take(i as int),
            store.base_prices() == bases_after_candles(old(store).base_prices(), *symbol, candles@),
            store.snapshots() == old(store).snapshots(),
            old(store).wf() ==> store.wf(),
        decreases n - i,
    {
        let c = candles[i];
        let previous = if i > 0 {
            Some(candles[i - 1].close)
        } else {
            None
        };
        let (change, change_pct) = changes(previous, c.close);
        let row = PriceRecord {
            symbol: symbol.clone(),
            price: c.close,
            change,
            change_pct,
            market_cap,
            timestamp: c.timestamp,
        };
        proof {
            assert(row == records[i as int]);
            assert((old(store).prices() + records.take(i as int)).push(row) =~= old(
                store,
            ).prices() + records.take(i + 1));
        }
        store.append_price_observation(row);
        i = i + 1;
    }
    proof {
        assert(records.take(n as int) =~= records);
    }
    n
}

/// Takes the daily closes of a symbol into the store as `ingest_resolved`
/// does, after each timestamp that the calendar does not have was replaced by `now`.
pub fn ingest_candles(store: &mut PriceStore, symbol: &String, candles: &Vec<Candle>, now: i64) -> (count:
    usize)
    ensures
        count == candles.len(),
        final(store).prices() == old(store).prices() + candle_records(
            *symbol,
            resolved_candles(candles@, now),
            known_market_cap(old(store).prices(), symbol@, None),
        ),
        final(store).base_prices() == bases_after_candles(
            old(store).base_prices(),
            *symbol,
            resolved_candles(candles@, now),
        ),
        final(store).snapshots() == old(store).snapshots(),
        old(store).wf() ==> final(store).wf(),
{
    let resolved = resolve_candles(candles, now);
    ingest_resolved(store, symbol, &resolved)
}

/// Whether the store holds a price of the day `day`.
pub open spec fn has_day(prices: Seq<PriceRecord>, day: i64) -> bool {
    exists|j: int| 0 <= j < prices.len() && day_of((#[trigger] prices[j]).timestamp as int) == day
}

/// Each day is later than the one before it.
pub open spec fn ascending_days(days: Seq<i64>) -> bool {
    forall|i: int, j: int| 0 <= i < j < days.len() ==> days[i] < days[j]
}

/// `days` lists the days of which the store holds a price, each once, in ascending order.
pub open spec fn is_trading_days(days: Seq<i64>, prices: Seq<PriceRecord>) -> bool {
    &&& ascending_days(days)
    &&& forall|d: i64| days.contains(d) <==> has_day(prices, d)
}

/// The days of which the store holds a price, each once, in ascending order.
pub open spec fn trading_days(prices: Seq<PriceRecord>) -> Seq<i64> {
    choose|days: Seq<i64>| is_trading_days(days, prices)
}

/// Two ascending lists of the same days are the same list.
pub proof fn lemma_ascending_days_unique(a: Seq<i64>, b: Seq<i64>)
    requires
        ascending_days(a),
        ascending_days(b),
        forall|d: i64| a.contains(d) <==> b.contains(d),
    ensures
        a == b,
    decreases a.len(),
{
    if a.len() == 0 {
        if b.len() > 0 {
            assert(b.contains(b[0]));
        }
        assert(a =~= b);
    } else {
        let x = a.last();
        assert(a.contains(x));
        assert(b.contains(x));
        let y = b.last();
        assert(b.contains(y));
        assert(a.contains(y));
        let ja = choose|j: int| 0 <= j < a.len() && a[j] == y;
        let jb = choose|j: int| 0 <= j < b.len() && b[j] == x;
        assert(x == y);
        let a0 = a.drop_last();
        let b0 = b.drop_last();
        assert forall|d: i64| a0.contains(d) <==> b0.contains(d) by {
            if a0.contains(d) {
                let j = choose|j: int| 0 <= j < a0.len() && a0[j] == d;
                assert(a[j] == d);
                assert(a.contains(d));
                let k = choose|k: int| 0 <= k < b.len() && b[k] == d;
                assert(d < x);
                assert(b0[k] == d);
            }
            if b0.contains(d) {
                let j = choose|j: int| 0 <= j < b0.len() && b0[j] == d;
                assert(b[j] == d);
                assert(b.contains(d));
                let k = choose|k: int| 0 <= k < a.len() && a[k] == d;
                assert(d < y);
                assert(a0[k] == d);
            }
        }
        lemma_ascending_days_unique(a0, b0);
        assert(a =~= a0.push(x));
        assert(b =~= b0.push(y));
    }
}

/// Puts a day into an ascending list of days, unless the list has it.
fn insert_day(days: &mut Vec<i64>, day: i64)
    requires
        ascending_days(old(days)@),
    ensures
        ascending_days(final(days)@),
        forall|d: i64| final(days)@.contains(d) <==> (old(days)@.contains(d) || d == day),
{
    let n = days.len();
    let mut p: usize = 0;
    while p < n && days[p] < day
        invariant
            n == days.len(),
            p <= n,
            days@ == old(days)@,
            ascending_days(days@),
            forall|j: int| 0 <= j < p ==> days[j] < day,
        decreases n - p,
    {
        p = p + 1;
    }
    if p < n && days[p] == day {
        assert(days@.contains(day));
        return ;
    }
    let ghost before = days@;
    days.insert(p, day);
    proof {
        before.insert_ensures(p as int, day);
        let after = days@;
        assert forall|i: int, j: int| 0 <= i < j < after.len() implies after[i] < after[j] by {
            if j < p {
                assert(after[i] == before[i] && after[j] == before[j]);
            } else if j == p {
                assert(after[i] == before[i]);
            } else if i < p {
                assert(after[i] == before[i] && after[j] == before[j - 1]);
                assert(before[i] < day);
                if p < n {
                    assert(day < before[p as int]);
                    assert(before[p as int] <= before[j - 1]);
                }
            } else if i == p {
                assert(after[j] == before[j - 1]);
                assert(before[p as int] <= before[j - 1]);
            } else {
                assert(after[i] == before[i - 1] && after[j] == before[j - 1]);
            }
        }
        assert forall|d: i64| after.contains(d) <==> (before.contains(d) || d == day) by {
            if after.contains(d) {
                let j = choose|j: int| 0 <= j < after.len() && after[j] == d;
                if j < p {
                    assert(before[j] == d);
                } else if j > p {
                    assert(before[j - 1] == d);
                }
            }
            if before.contains(d) {
                let j = choose|j: int| 0 <= j < before.len() && before[j] == d;
                if j < p {
                    assert(after[j] == d);
                } else {
                    assert(after[j + 1] == d);
                }
            }
            if d == day {
                assert(after[p as int] == d);
            }
        }
    }
}

/// Lists the days of which the store holds a price, each once, in ascending order.
pub fn distinct_days(store: &PriceStore) -> (days: Vec<i64>)
    ensures
        is_trading_days(days@, store.prices()),
        days@ == trading_days(store.prices()),
{
    let rows = store.price_records();
    let n = rows.len();
    let mut days: Vec<i64> = Vec::new();
    let mut i: usize = 0;
    while i < n
        invariant
            n == rows.len(),
            i <= n,
            is_trading_days(days@, rows@.take(i as int)),
        decreases n - i,
    {
        let day = day_of_timestamp(rows[i].timestamp);
        let ghost before = days@;
        insert_day(&mut days, day);
        proof {
            let shorter = rows@.take(i as int);
            let longer = rows@.take(i + 1);
            assert forall|d: i64| days@.contains(d) <==> has_day(longer, d) by {
                if has_day(longer, d) {
                    let j = choose|j: int|
                        0 <= j < longer.len() && day_of((#[trigger] longer[j]).timestamp as int)
                            == d;
                    if j < i {
                        assert(shorter[j] == longer[j]);
                        assert(has_day(shorter, d));
                    }
                }
                if before.contains(d) {
                    assert(has_day(shorter, d));
                    let j = choose|j: int|
                        0 <= j < shorter.len() && day_of((#[trigger] shorter[j]).timestamp as int)
                            == d;
                    assert(longer[j] == shorter[j]);
                }
                if d == day {
                    assert(day_of(longer[i as int].timestamp as int) == d);
                }
            }
        }
        i = i + 1;
    }
    proof {
        assert(rows@.take(n as int) =~= rows@);
        let chosen = trading_days(store.prices());
        assert(is_trading_days(chosen, store.prices()));
        lemma_ascending_days_unique(days@, chosen);
    }
    days
}

/// The time of the snapshot of a day: 16:00 of that day, where that is a timestamp.
pub open spec fn close_of_day(day: i64) -> Option<i64> {
    let at = day * SECONDS_PER_DAY + CLOSE_OF_DAY_SECONDS;
    if i64::MIN <= at <= i64::MAX {
        Some(at as i64)
    } else {
        None
    }
}

/// Computes the time of the snapshot of a day.
pub fn close_of_day_timestamp(day: i64) -> (r: Option<i64>)
    ensures
        r == close_of_day(day),
{
    let at: i128 = (day as i128) * (SECONDS_PER_DAY as i128) + (CLOSE_OF_DAY_SECONDS as i128);
    if at < i64::MIN as i128 || at > i64::MAX as i128 {
        None
    } else {
        Some(at as i64)
    }
}

/// The index series after the replay of one day: the value of the basket at
/// the newest prices up to that day follows the latest snapshot of an earlier
/// day, at the close of the day. A day without a value or without a close
/// leaves the series as it is.
pub open spec fn replay_day(
    prices: Seq<PriceRecord>,
    bases: Seq<BasePrice>,
    config: StocksConfig,
    snapshots: Seq<IndexSnapshot>,
    day: i64,
) -> Seq<IndexSnapshot> {
    match (
        valuation(
            quotes_of(prices, bases, config.index_symbol_seq(), Some(day)),
            config.settings.market_cap_weight_pct as int,
            config.settings.base_value as int,
        ),
        close_of_day(day),
    ) {
        (Ok(v), Some(at)) => with_snapshot(
            snapshots,
            snapshot_after(last_snapshot_before(snapshots, day), v, at),
        ),
        _ => snapshots,
    }
}

/// The index series after the replay of a list of days, in the order of the list.
pub open spec fn replay(
    prices: Seq<PriceRecord>,
    bases: Seq<BasePrice>,
    config: StocksConfig,
    snapshots: Seq<IndexSnapshot>,
    days: Seq<i64>,
) -> Seq<IndexSnapshot>
    decreases days.len(),
{
    if days.len() == 0 {
        snapshots
    } else {
        replay_day(
            prices,
            bases,
            config,
            replay(prices, bases, config, snapshots, days.drop_last()),
            days.last(),
        )
    }
}

/// The replay of a day does what the live path does at the close of that
/// day: where the store holds no price of a later day and no snapshot of that
/// day or a later one, the series after the replay is the series after the
/// live path ran at the close of the day.
pub proof fn lemma_replay_day_is_live_path(
    prices: Seq<PriceRecord>,
    bases: Seq<BasePrice>,
    config: StocksConfig,
    snapshots: Seq<IndexSnapshot>,
    day: i64,
)
    requires
        forall|j: int|
            0 <= j < prices.len() ==> day_of((#[trigger] prices[j]).timestamp as int) <= day,
        forall|k: int|
            0 <= k < snapshots.len() ==> day_of((#[trigger] snapshots[k]).timestamp as int) < day,
        close_of_day(day) is Some,
    ensures
        replay_day(prices, bases, config, snapshots, day) == match live_snapshot(
            prices,
            bases,
            snapshots,
            config,
            close_of_day(day).unwrap(),
        ) {
            Some(s) => with_snapshot(snapshots, s),
            None => snapshots,
        },
{
    let symbols = config.index_symbol_seq();
    assert forall|i: int| 0 <= i < symbols.len() implies #[trigger] quote_of(
        prices,
        bases,
        symbols[i]@,
        Some(day),
    ) == quote_of(prices, bases, symbols[i]@, None) by {
        lemma_newest_without_later_records(prices, symbols[i]@, day, false);
        lemma_newest_without_later_records(prices, symbols[i]@, day, true);
    }
    assert(quotes_of(prices, bases, symbols, Some(day)) =~= quotes_of(
        prices,
        bases,
        symbols,
        None,
    ));
    if snapshots.len() > 0 {
        assert(snapshots.last() == snapshots[snapshots.len() - 1]);
    }
}

/// After a replay the series reaches the close of every replayed day that
/// has a value: its last snapshot is of that time or later.
pub proof fn lemma_replay_reaches_every_day(
    prices: Seq<PriceRecord>,
    bases: Seq<BasePrice>,
    config: StocksConfig,
    snapshots: Seq<IndexSnapshot>,
    days: Seq<i64>,
    i: int,
)
    requires
        0 <= i < days.len(),
        valuation(
            quotes_of(prices, bases, config.index_symbol_seq(), Some(days[i])),
            config.settings.market_cap_weight_pct as int,
            config.settings.base_value as int,
        ) is Ok,
        close_of_day(days[i]) is Some,
    ensures
        replay(prices, bases, config, snapshots, days).len() > 0,
        replay(prices, bases, config, snapshots, days).last().timestamp >= close_of_day(
            days[i],
        ).unwrap(),
    decreases days.len(),
{
    if i < days.len() - 1 {
        assert(days.drop_last()[i] == days[i]);
        lemma_replay_reaches_every_day(prices, bases, config, snapshots, days.drop_last(), i);
    }
}

/// A replay over the same days and prices adds nothing to a series that was
/// replayed already.
pub proof fn lemma_replay_is_idempotent(
    prices: Seq<PriceRecord>,
    bases: Seq<BasePrice>,
    config: StocksConfig,
    snapshots: Seq<IndexSnapshot>,
    days: Seq<i64>,
)
    ensures
        replay(prices, bases, config, replay(prices, bases, config, snapshots, days), days)
            == replay(prices, bases, config, snapshots, days),
{
    lemma_replay_again(prices, bases, config, snapshots, days, days.len() as int);
    assert(days.take(days.len() as int) =~= days);
}

/// A second replay over the first `k` of the days leaves a replayed series as it is.
proof fn lemma_replay_again(
    prices: Seq<PriceRecord>,
    bases: Seq<BasePrice>,
    config: StocksConfig,
    snapshots: Seq<IndexSnapshot>,
    days: Seq<i64>,
    k: int,
)
    requires
        0 <= k <= days.len(),
    ensures
        replay(
            prices,
            bases,
            config,
            replay(prices, bases, config, snapshots, days),
            days.take(k),
        ) == replay(prices, bases, config, snapshots, days),
    decreases k,
{
    if k > 0 {
        lemma_replay_again(prices, bases, config, snapshots, days, k - 1);
        assert(days.take(k).drop_last() =~= days.take(k - 1));
        assert(days.take(k).last() == days[k - 1]);
        let day = days[k - 1];
        if valuation(
            quotes_of(prices, bases, config.index_symbol_seq(), Some(day)),
            config.settings.market_cap_weight_pct as int,
            config.settings.base_value as int,
        ) is Ok && close_of_day(day) is Some {
            lemma_replay_reaches_every_day(prices, bases, config, snapshots, days, k - 1);
        }
    }
}

/// Replays one day: computes the index value of the day and records it.
pub fn reconstruct_day(store: &mut PriceStore, config: &StocksConfig, symbols: &Vec<String>, day: i64)
    requires
        config.valid(),
        symbols@ == config.index_symbol_seq(),
    ensures
        final(store).snapshots() == replay_day(
            old(store).prices(),
            old(store).base_prices(),
            *config,
            old(store).snapshots(),
            day,
        ),
        final(store).prices() == old(store).prices(),
        final(store).base_prices() == old(store).base_prices(),
        old(store).wf() ==> final(store).wf(),
{
    let quotes = collect_quotes(store, symbols, Some(day));
    match value(&quotes, config.mcap_pct(), config.settings.base_value) {
        Ok(v) => match close_of_day_timestamp(day) {
            Some(at) => {
                let previous = store.snapshot_before(day);
                record(store, v, previous, at);
            },
            None => {},
        },
        Err(_) => {},
    }
}

/// Replays the index series over the prices in the store: for each day of
/// which the store holds a price, in ascending order, the index value at the
/// newest prices up to that day is recorded at the close of the day. Returns
/// the number of days.
pub fn reconstruct(store: &mut PriceStore, config: &StocksConfig) -> (count: usize)
    requires
        config.valid(),
    ensures
        count == trading_days(old(store).prices()).len(),
        final(store).snapshots() == replay(
            old(store).prices(),
            old(store).base_prices(),
            *config,
            old(store).snapshots(),
            trading_days(old(store).prices()),
        ),
        final(store).prices() == old(store).prices(),
        final(store).base_prices() == old(store).base_prices(),
        old(store).wf() ==> final(store).wf(),
{
    let symbols = config.index_symbols();
    let days = distinct_days(store);
    let n = days.len();
    let mut i: usize = 0;
    while i < n
        invariant
            n == days.len(),
            i <= n,
            config.valid(),
            symbols@ == config.index_symbol_seq(),
            days@ == trading_days(old(store).prices()),
            store.prices() == old(store).prices(),
            store.base_prices() == old(store).base_prices(),
            store.snapshots() == replay(
                old(store).prices(),
                old(store).base_prices(),
                *config,
                old(store).snapshots(),
                days@.take(i as int),
            ),
            old(store).wf() ==> store.wf(),
        decreases n - i,
    {
        proof {
            assert(days@.take(i + 1).drop_last() =~= days@.take(i as int));
        }
        reconstruct_day(store, config, &symbols, days[i]);
        i = i + 1;
    }
    proof {
        assert(days@.take(n as int) =~= days@);
    }
    n
}

/// Whether the store is empty enough for history to be taken in.
pub fn needs_backfill(store: &PriceStore) -> (r: bool)
    ensures
        r == (store.prices().len() <= BACKFILL_ROW_THRESHOLD),
{
    store.count_price_rows() <= BACKFILL_ROW_THRESHOLD
}

/// The span of time of which history is asked for at the time `now`: the 365
/// days that end at `now`.
pub fn backfill_window(now: i64) -> (window: (i64, i64))
    requires
        now - BACKFILL_SPAN_SECONDS >= i64::MIN,
    ensures
        window.0 == now - BACKFILL_SPAN_SECONDS,
        window.1 == now,
{
    (now - BACKFILL_SPAN_SECONDS, now)
}

/// The answer of the market-data provider for one symbol.
#[derive(Debug)]
pub struct SymbolCandles {
    pub symbol: String,
    pub candles: FinnhubCandle,
}

/// The price records after the answers for a list of symbols were taken in,
/// in the order of the list.
pub open spec fn prices_after_answers(
    prices: Seq<PriceRecord>,
    answers: Seq<SymbolCandles>,
    now: i64,
) -> Seq<PriceRecord>
    decreases answers.len(),
{
    if answers.len() == 0 {
        prices
    } else {
        let before = prices_after_answers(prices, answers.drop_last(), now);
        let answer = answers.last();
        before + candle_records(
            answer.symbol,
            resolved_candles(answer.candles.candle_seq(), now),
            known_market_cap(before, answer.symbol@, None),
        )
    }
}

/// The base prices after the answers for a list of symbols were taken in.
pub open spec fn bases_after_answers(
    bases: Seq<BasePrice>,
    answers: Seq<SymbolCandles>,
    now: i64,
) -> Seq<BasePrice>
    decreases answers.len(),
{
    if answers.len() == 0 {
        bases
    } else {
        bases_after_candles(
            bases_after_answers(bases, answers.drop_last(), now),
            answers.last().symbol,
            resolved_candles(answers.last().candles.candle_seq(), now),
        )
    }
}

/// Backfill daily history if the store has no historical data: unless the
/// store holds more price records than the threshold, the answers of the
/// provider are taken in, symbol by symbol, and the index series is replayed
/// over the prices that the store then holds. An answer without data adds
/// nothing and does not stop the sweep. Tells whether the sweep was made.
pub fn backfill_history(
    store: &mut PriceStore,
    config: &StocksConfig,
    answers: &Vec<SymbolCandles>,
    now: i64,
) -> (made: bool)
    requires
        config.valid(),
    ensures
        made == (old(store).prices().len() <= BACKFILL_ROW_THRESHOLD),
        !made ==> final(store).prices() == old(store).prices() && final(store).base_prices()
            == old(store).base_prices() && final(store).snapshots() == old(store).snapshots(),
        made ==> final(store).prices() == prices_after_answers(old(store).prices(), answers@, now)
            && final(store).base_prices() == bases_after_answers(
            old(store).base_prices(),
            answers@,
            now,
        ) && final(store).snapshots() == replay(
            final(store).prices(),
            final(store).base_prices(),
            *config,
            old(store).snapshots(),
            trading_days(final(store).prices()),
        ),
        old(store).wf() ==> final(store).wf(),
{
    if !needs_backfill(store) {
        return false;
    }
    let n = answers.len();
    let mut i: usize = 0;
    while i < n
        invariant
            n == answers.len(),
            i <= n,
            store.prices() == prices_after_answers(
                old(store).prices(),
                answers@.take(i as int),
                now,
            ),
            store.base_prices() == bases_after_answers(
                old(store).base_prices(),
                answers@.take(i as int),
                now,
            ),
            store.snapshots() == old(store).snapshots(),
            old(store).wf() ==> store.wf(),
        decreases n - i,
    {
        proof {
            assert(answers@.take(i + 1).drop_last() =~= answers@.take(i as int));
        }
        let candles = answers[i].candles.candles();
        ingest_candles(store, &answers[i].symbol, &candles, now);
        i = i + 1;
    }
    proof {
        assert(answers@.take(n as int) =~= answers@);
    }
    reconstruct(store, config);
    true
}

} // verus!
