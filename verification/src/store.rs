//! The price store: price observations, base prices and index snapshots,
//! kept in memory in the order in which they were appended.

use crate::models::{BasePrice, PriceRecord};
use crate::snapshot::IndexSnapshot;
use crate::units::SECONDS_PER_DAY;
use vstd::prelude::*;

verus! {

/// The calendar day, counted from the epoch, in which a timestamp falls.
pub open spec fn day_of(timestamp: int) -> int {
    timestamp / (SECONDS_PER_DAY as int)
}

/// Computes the calendar day of a timestamp.
pub fn day_of_timestamp(timestamp: i64) -> (day: i64)
    ensures
        day == day_of(timestamp as int),
{
    if timestamp >= 0 {
        timestamp / SECONDS_PER_DAY
    } else {
        let below: i64 = -(timestamp + 1);
        -(below / SECONDS_PER_DAY) - 1
    }
}

/// Whether a price record is one of `symbol`, of a day not after `max_day`
/// where one is given, and with a known capitalisation where `with_cap` asks for it.
pub open spec fn selects(
    r: PriceRecord,
    symbol: Seq<char>,
    max_day: Option<i64>,
    with_cap: bool,
) -> bool {
    &&& r.symbol@ == symbol
    &&& max_day matches Some(d) ==> day_of(r.timestamp as int) <= d
    &&& with_cap ==> r.market_cap is Some
}

/// The place of the newest selected record: the one with the greatest
/// timestamp, and among equal timestamps the one appended last.
pub open spec fn newest_index(
    rows: Seq<PriceRecord>,
    symbol: Seq<char>,
    max_day: Option<i64>,
    with_cap: bool,
) -> Option<int>
    decreases rows.len(),
{
    if rows.len() == 0 {
        None
    } else {
        let earlier = newest_index(rows.drop_last(), symbol, max_day, with_cap);
        if selects(rows.last(), symbol, max_day, with_cap) && (earlier matches Some(e)
            ==> rows[e].timestamp <= rows.last().timestamp) {
            Some(rows.len() - 1)
        } else {
            earlier
        }
    }
}

/// The newest selected record.
pub open spec fn newest(
    rows: Seq<PriceRecord>,
    symbol: Seq<char>,
    max_day: Option<i64>,
    with_cap: bool,
) -> Option<PriceRecord> {
    match newest_index(rows, symbol, max_day, with_cap) {
        Some(i) => Some(rows[i]),
        None => None,
    }
}

/// The capitalisation of a symbol that is known last: the one recorded with
/// its newest record that has one, of a day not after `max_day` where one is given.
pub open spec fn known_market_cap(
    rows: Seq<PriceRecord>,
    symbol: Seq<char>,
    max_day: Option<i64>,
) -> Option<u64> {
    match newest(rows, symbol, max_day, true) {
        Some(row) => row.market_cap,
        None => None,
    }
}

/// What `newest_index` finds: nothing exactly when no record is selected,
/// and else a selected record that no selected record comes after.
pub proof fn lemma_newest_index(
    rows: Seq<PriceRecord>,
    symbol: Seq<char>,
    max_day: Option<i64>,
    with_cap: bool,
)
    ensures
        match newest_index(rows, symbol, max_day, with_cap) {
            Some(i) => {
                &&& 0 <= i < rows.len()
                &&& selects(rows[i], symbol, max_day, with_cap)
                &&& forall|j: int|
                    0 <= j < rows.len() && selects(#[trigger] rows[j], symbol, max_day, with_cap)
                        ==> rows[j].timestamp < rows[i].timestamp || (rows[j].timestamp
                        == rows[i].timestamp && j <= i)
            },
            None => forall|j: int|
                0 <= j < rows.len() ==> !selects(#[trigger] rows[j], symbol, max_day, with_cap),
        },
    decreases rows.len(),
{
    if rows.len() > 0 {
        let rest = rows.drop_last();
        lemma_newest_index(rest, symbol, max_day, with_cap);
        assert forall|j: int| 0 <= j < rest.len() implies rest[j] == rows[j] by {}
    }
}

/// A close is carried forward over days without an observation: where a
/// symbol has no record between `from_day` and `to_day`, the newest record up
/// to `to_day` is the newest record up to `from_day`.
pub proof fn lemma_close_carries_forward(
    rows: Seq<PriceRecord>,
    symbol: Seq<char>,
    from_day: i64,
    to_day: i64,
)
    requires
        from_day <= to_day,
        forall|j: int|
            0 <= j < rows.len() && (#[trigger] rows[j]).symbol@ == symbol ==> day_of(
                rows[j].timestamp as int,
            ) <= from_day || day_of(rows[j].timestamp as int) > to_day,
    ensures
        newest_index(rows, symbol, Some(to_day), false) == newest_index(
            rows,
            symbol,
            Some(from_day),
            false,
        ),
    decreases rows.len(),
{
    if rows.len() > 0 {
        let rest = rows.drop_last();
        assert forall|j: int| 0 <= j < rest.len() implies rest[j] == rows[j] by {}
        lemma_close_carries_forward(rest, symbol, from_day, to_day);
        assert(rows.last() == rows[rows.len() - 1]);
    }
}

/// Where the store holds no record of a later day, the newest record up to
/// a day is the newest record of all.
pub proof fn lemma_newest_without_later_records(
    rows: Seq<PriceRecord>,
    symbol: Seq<char>,
    day: i64,
    with_cap: bool,
)
    requires
        forall|j: int| 0 <= j < rows.len() ==> day_of((#[trigger] rows[j]).timestamp as int) <= day,
    ensures
        newest_index(rows, symbol, Some(day), with_cap) == newest_index(
            rows,
            symbol,
            None,
            with_cap,
        ),
    decreases rows.len(),
{
    if rows.len() > 0 {
        let rest = rows.drop_last();
        assert forall|j: int| 0 <= j < rest.len() implies rest[j] == rows[j] by {}
        lemma_newest_without_later_records(rest, symbol, day, with_cap);
        assert(rows.last() == rows[rows.len() - 1]);
    }
}

/// The place of the base price of `symbol`, where it has one.
pub open spec fn base_index(bases: Seq<BasePrice>, symbol: Seq<char>) -> Option<int>
    decreases bases.len(),
{
    if bases.len() == 0 {
        None
    } else if bases.last().symbol@ == symbol {
        Some(bases.len() - 1)
    } else {
        base_index(bases.drop_last(), symbol)
    }
}

/// The base price of `symbol`, where it has one.
pub open spec fn base_price_of(bases: Seq<BasePrice>, symbol: Seq<char>) -> Option<u64> {
    match base_index(bases, symbol) {
        Some(i) => Some(bases[i].price),
        None => None,
    }
}

/// The base prices after an attempt to set one: unchanged where the symbol has one already.
pub open spec fn with_base_price(bases: Seq<BasePrice>, entry: BasePrice) -> Seq<BasePrice> {
    if base_index(bases, entry.symbol@) is Some {
        bases
    } else {
        bases.push(entry)
    }
}

/// No symbol has two base prices.
pub open spec fn one_base_per_symbol(bases: Seq<BasePrice>) -> bool {
    forall|i: int, j: int|
        0 <= i < j < bases.len() ==> (#[trigger] bases[i]).symbol@ != (#[trigger] bases[j]).symbol@
}

/// What `base_index` finds: an entry of the symbol, or nothing where there is none.
pub proof fn lemma_base_index(bases: Seq<BasePrice>, symbol: Seq<char>)
    ensures
        match base_index(bases, symbol) {
            Some(i) => 0 <= i < bases.len() && bases[i].symbol@ == symbol,
            None => forall|j: int| 0 <= j < bases.len() ==> (#[trigger] bases[j]).symbol@ != symbol,
        },
    decreases bases.len(),
{
    if bases.len() > 0 {
        let rest = bases.drop_last();
        lemma_base_index(rest, symbol);
        assert forall|j: int| 0 <= j < rest.len() implies rest[j] == bases[j] by {}
    }
}

/// Setting a base price leaves every base price that was there as it was,
/// and keeps the symbols apart.
pub proof fn lemma_with_base_price(bases: Seq<BasePrice>, entry: BasePrice, symbol: Seq<char>)
    ensures
        base_price_of(bases, symbol) is Some ==> base_price_of(
            with_base_price(bases, entry),
            symbol,
        ) == base_price_of(bases, symbol),
        base_price_of(bases, entry.symbol@) is None ==> base_price_of(
            with_base_price(bases, entry),
            entry.symbol@,
        ) == Some(entry.price),
        base_price_of(bases, symbol) is None && symbol != entry.symbol@ ==> base_price_of(
            with_base_price(bases, entry),
            symbol,
        ) is None,
        one_base_per_symbol(bases) ==> one_base_per_symbol(with_base_price(bases, entry)),
{
    lemma_base_index(bases, symbol);
    lemma_base_index(bases, entry.symbol@);
    let after = with_base_price(bases, entry);
    if base_index(bases, entry.symbol@) is None {
        assert(after.drop_last() =~= bases);
        assert(after.last() == entry);
        if one_base_per_symbol(bases) {
            assert forall|i: int, j: int| 0 <= i < j < after.len() implies (#[trigger] after[i]).symbol@
                != (#[trigger] after[j]).symbol@ by {
                if j < bases.len() {
                    assert(after[i] == bases[i] && after[j] == bases[j]);
                } else {
                    assert(after[i] == bases[i]);
                }
            }
        }
    }
}

/// A base price, once set, is not changed by another attempt to set it.
pub proof fn lemma_base_price_is_write_once(
    bases: Seq<BasePrice>,
    first: BasePrice,
    second: BasePrice,
)
    requires
        first.symbol@ == second.symbol@,
    ensures
        with_base_price(with_base_price(bases, first), second) == with_base_price(bases, first),
        base_price_of(with_base_price(with_base_price(bases, first), second), first.symbol@)
            == base_price_of(with_base_price(bases, first), first.symbol@),
        base_price_of(bases, first.symbol@) is None ==> base_price_of(
            with_base_price(with_base_price(bases, first), second),
            first.symbol@,
        ) == Some(first.price),
{
    lemma_with_base_price(bases, first, first.symbol@);
}

/// Each snapshot is later than the one before it.
pub open spec fn strictly_ascending(snapshots: Seq<IndexSnapshot>) -> bool {
    forall|i: int, j: int|
        0 <= i < j < snapshots.len() ==> (#[trigger] snapshots[i]).timestamp < (
        #[trigger] snapshots[j]).timestamp
}

/// The series after an attempt to append a snapshot: unchanged unless the
/// snapshot is later than every snapshot of the series.
pub open spec fn with_snapshot(snapshots: Seq<IndexSnapshot>, s: IndexSnapshot) -> Seq<
    IndexSnapshot,
> {
    if snapshots.len() == 0 || snapshots.last().timestamp < s.timestamp {
        snapshots.push(s)
    } else {
        snapshots
    }
}

/// The last snapshot of a series, where it has one.
pub open spec fn last_snapshot(snapshots: Seq<IndexSnapshot>) -> Option<IndexSnapshot> {
    if snapshots.len() == 0 {
        None
    } else {
        Some(snapshots.last())
    }
}

/// The latest snapshot of a day before `day`, where there is one.
pub open spec fn last_snapshot_before(snapshots: Seq<IndexSnapshot>, day: i64) -> Option<
    IndexSnapshot,
>
    decreases snapshots.len(),
{
    if snapshots.len() == 0 {
        None
    } else if day_of(snapshots.last().timestamp as int) < day {
        Some(snapshots.last())
    } else {
        last_snapshot_before(snapshots.drop_last(), day)
    }
}

/// The newest `limit` snapshots of a series, the newest first. A limit below
/// zero is no limit.
pub open spec fn newest_first(snapshots: Seq<IndexSnapshot>, limit: i64) -> Seq<IndexSnapshot> {
    let n = if limit < 0 || limit > snapshots.len() {
        snapshots.len() as int
    } else {
        limit as int
    };
    Seq::new(n as nat, |i: int| snapshots[snapshots.len() - 1 - i])
}

/// The history of an ascending series descends: each of its snapshots is
/// later than the one after it.
pub proof fn lemma_newest_first_descends(snapshots: Seq<IndexSnapshot>, limit: i64)
    requires
        strictly_ascending(snapshots),
    ensures
        forall|i: int, j: int|
            0 <= i < j < newest_first(snapshots, limit).len() ==> (#[trigger] newest_first(
                snapshots,
                limit,
            )[i]).timestamp > (#[trigger] newest_first(snapshots, limit)[j]).timestamp,
{
    let h = newest_first(snapshots, limit);
    assert forall|i: int, j: int| 0 <= i < j < h.len() implies (#[trigger] h[i]).timestamp > (
    #[trigger] h[j]).timestamp by {
        let a = snapshots.len() - 1 - j;
        let b = snapshots.len() - 1 - i;
        assert(snapshots[a].timestamp < snapshots[b].timestamp);
    }
}

/// Appending keeps an ascending series ascending.
pub proof fn lemma_with_snapshot_ascending(snapshots: Seq<IndexSnapshot>, s: IndexSnapshot)
    requires
        strictly_ascending(snapshots),
    ensures
        strictly_ascending(with_snapshot(snapshots, s)),
{
    let after = with_snapshot(snapshots, s);
    assert forall|i: int, j: int| 0 <= i < j < after.len() implies (#[trigger] after[i]).timestamp
        < (#[trigger] after[j]).timestamp by {
        if j < snapshots.len() {
            assert(after[i] == snapshots[i] && after[j] == snapshots[j]);
        } else {
            assert(after[i] == snapshots[i]);
            assert(snapshots[i].timestamp <= snapshots[snapshots.len() - 1].timestamp);
        }
    }
}

/// In an ascending series the snapshot found before a day is the latest of
/// all snapshots of earlier days.
pub proof fn lemma_last_snapshot_before(snapshots: Seq<IndexSnapshot>, day: i64)
    requires
        strictly_ascending(snapshots),
    ensures
        match last_snapshot_before(snapshots, day) {
            Some(s) => {
                &&& snapshots.contains(s)
                &&& day_of(s.timestamp as int) < day
                &&& forall|j: int|
                    0 <= j < snapshots.len() && day_of((#[trigger] snapshots[j]).timestamp as int)
                        < day ==> snapshots[j].timestamp <= s.timestamp
            },
            None => forall|j: int|
                0 <= j < snapshots.len() ==> day_of((#[trigger] snapshots[j]).timestamp as int)
                    >= day,
        },
    decreases snapshots.len(),
{
    if snapshots.len() > 0 {
        let rest = snapshots.drop_last();
        let last = snapshots.last();
        assert forall|j: int| 0 <= j < rest.len() implies rest[j] == snapshots[j] by {}
        if day_of(last.timestamp as int) < day {
            assert(snapshots[snapshots.len() - 1] == last);
            assert forall|j: int| 0 <= j < snapshots.len() implies (#[trigger] snapshots[j]).timestamp
                <= last.timestamp by {
                if j < snapshots.len() - 1 {
                    assert(snapshots[j].timestamp < snapshots[snapshots.len() - 1].timestamp);
                }
            }
        } else {
            lemma_last_snapshot_before(rest, day);
            match last_snapshot_before(rest, day) {
                Some(s) => {
                    let k = choose|k: int| 0 <= k < rest.len() && rest[k] == s;
                    assert(snapshots[k] == s);
                },
                None => {},
            }
        }
    }
}

/// The store of the index engine.
pub struct PriceStore {
    pub(crate) prices: Vec<PriceRecord>,
    pub(crate) base_prices: Vec<BasePrice>,
    pub(crate) snapshots: Vec<IndexSnapshot>,
}

impl PriceStore {
    /// The price observations, in the order in which they were appended.
    pub closed spec fn prices(&self) -> Seq<PriceRecord> {
        self.prices@
    }

    /// The base prices, in the order in which they were set.
    pub closed spec fn base_prices(&self) -> Seq<BasePrice> {
        self.base_prices@
    }

    /// The index series, in the order in which it was appended.
    pub closed spec fn snapshots(&self) -> Seq<IndexSnapshot> {
        self.snapshots@
    }

    /// What holds of every store that was made empty and changed by its own
    /// operations: no symbol has two base prices, and the index series ascends
    /// strictly in time.
    pub open spec fn wf(&self) -> bool {
        &&& one_base_per_symbol(self.base_prices())
        &&& strictly_ascending(self.snapshots())
    }

    /// Makes an empty store.
    pub fn new() -> (store: PriceStore)
        ensures
            store.prices() == Seq::<PriceRecord>::empty(),
            store.base_prices() == Seq::<BasePrice>::empty(),
            store.snapshots() == Seq::<IndexSnapshot>::empty(),
            store.wf(),
    {
        PriceStore { prices: Vec::new(), base_prices: Vec::new(), snapshots: Vec::new() }
    }

    /// The price observations, in the order in which they were appended.
    pub fn price_records(&self) -> (rows: &Vec<PriceRecord>)
        ensures
            rows@ == self.prices(),
    {
        &self.prices
    }

    /// The base prices, in the order in which they were set.
    pub fn base_price_records(&self) -> (rows: &Vec<BasePrice>)
        ensures
            rows@ == self.base_prices(),
    {
        &self.base_prices
    }

    /// The index series, oldest first.
    pub fn snapshot_records(&self) -> (rows: &Vec<IndexSnapshot>)
        ensures
            rows@ == self.snapshots(),
    {
        &self.snapshots
    }

    /// The number of price observations in the store.
    pub fn count_price_rows(&self) -> (n: usize)
        ensures
            n == self.prices().len(),
    {
        self.prices.len()
    }

    /// Appends a price observation.
    pub fn append_price_observation(&mut self, record: PriceRecord)
        ensures
            final(self).prices() == old(self).prices().push(record),
            old(self).wf() ==> final(self).wf(),
            final(self).base_prices() == old(self).base_prices(),
            final(self).snapshots() == old(self).snapshots(),
    {
        self.prices.push(record);
    }

    /// Finds the newest record among those that `selects` admits.
    pub(crate) fn find_newest(&self, symbol: &String, max_day: Option<i64>, with_cap: bool) -> (r:
        Option<usize>)
        ensures
            match r {
                Some(i) => newest_index(self.prices(), symbol@, max_day, with_cap) == Some(
                    i as int,
                ) && i < self.prices().len(),
                None => newest_index(self.prices(), symbol@, max_day, with_cap) is None,
            },
    {
        let n = self.prices.len();
        let mut best: Option<usize> = None;
        let mut i: usize = 0;
        while i < n
            invariant
                n == self.prices@.len(),
                i <= n,
                match best {
                    Some(b) => newest_index(self.prices@.take(i as int), symbol@, max_day, with_cap)
                        == Some(b as int) && b < i,
                    None => newest_index(self.prices@.take(i as int), symbol@, max_day, with_cap)
                        is None,
                },
            decreases n - i,
        {
            let row = &self.prices[i];
            proof {
                assert(self.prices@.take(i + 1).drop_last() =~= self.prices@.take(i as int));
                assert(self.prices@.take(i + 1).last() == self.prices@[i as int]);
            }
            let in_days = match max_day {
                Some(d) => day_of_timestamp(row.timestamp) <= d,
                None => true,
            };
            if row.symbol == *symbol && in_days && (!with_cap || row.market_cap.is_some()) {
                let wins = match best {
                    Some(b) => self.prices[b].timestamp <= row.timestamp,
                    None => true,
                };
                if wins {
                    best = Some(i);
                }
            }
            i = i + 1;
        }
        proof {
            assert(self.prices@.take(n as int) =~= self.prices@);
        }
        best
    }

    /// The capitalisation of a symbol that is known last, up to a day where
    /// one is given.
    pub(crate) fn known_cap(&self, symbol: &String, max_day: Option<i64>) -> (r: Option<u64>)
        ensures
            r == known_market_cap(self.prices(), symbol@, max_day),
    {
        match self.find_newest(symbol, max_day, true) {
            Some(i) => self.prices[i].market_cap,
            None => None,
        }
    }

    /// The latest price of a symbol and its time, with the capitalisation of
    /// the symbol that is known last.
    pub fn latest_price(&self, symbol: &String) -> (r: Option<(u64, Option<u64>, i64)>)
        ensures
            r == match newest(self.prices(), symbol@, None, false) {
                Some(row) => Some(
                    (row.price, known_market_cap(self.prices(), symbol@, None), row.timestamp),
                ),
                None => None,
            },
    {
        match self.find_newest(symbol, None, false) {
            Some(i) => {
                let row = &self.prices[i];
                Some((row.price, self.known_cap(symbol, None), row.timestamp))
            },
            None => None,
        }
    }

    /// The latest price record of a symbol.
    pub fn latest_record(&self, symbol: &String) -> (r: Option<&PriceRecord>)
        ensures
            match r {
                Some(row) => newest(self.prices(), symbol@, None, false) == Some(*row),
                None => newest(self.prices(), symbol@, None, false) is None,
            },
    {
        match self.find_newest(symbol, None, false) {
            Some(i) => Some(&self.prices[i]),
            None => None,
        }
    }

    /// The latest price of a symbol on `day` or before it, with the
    /// capitalisation of the symbol that was known last on that day.
    pub fn price_as_of_or_before(&self, symbol: &String, day: i64) -> (r: Option<
        (u64, Option<u64>),
    >)
        ensures
            r == match newest(self.prices(), symbol@, Some(day), false) {
                Some(row) => Some(
                    (row.price, known_market_cap(self.prices(), symbol@, Some(day))),
                ),
                None => None,
            },
    {
        match self.find_newest(symbol, Some(day), false) {
            Some(i) => {
                let row = &self.prices[i];
                Some((row.price, self.known_cap(symbol, Some(day))))
            },
            None => None,
        }
    }

    /// The capitalisation of a symbol that is known last.
    pub fn latest_market_cap(&self, symbol: &String) -> (r: Option<u64>)
        ensures
            r == known_market_cap(self.prices(), symbol@, None),
    {
        self.known_cap(symbol, None)
    }

    /// The capitalisation of a symbol that was known last on `day`.
    pub fn market_cap_as_of_or_before(&self, symbol: &String, day: i64) -> (r: Option<u64>)
        ensures
            r == known_market_cap(self.prices(), symbol@, Some(day)),
    {
        self.known_cap(symbol, Some(day))
    }

    /// Attaches a capitalisation to the latest price record of a symbol.
    /// Tells whether the symbol has a price record.
    pub fn attach_market_cap(&mut self, symbol: &String, market_cap: u64) -> (attached: bool)
        ensures
            match newest_index(old(self).prices(), symbol@, None, false) {
                Some(i) => attached && final(self).prices() == old(self).prices().update(
                    i,
                    PriceRecord { market_cap: Some(market_cap), ..old(self).prices()[i] },
                ),
                None => !attached && final(self).prices() == old(self).prices(),
            },
            final(self).base_prices() == old(self).base_prices(),
            final(self).snapshots() == old(self).snapshots(),
            old(self).wf() ==> final(self).wf(),
    {
        match self.find_newest(symbol, None, false) {
            Some(i) => {
                let row = &self.prices[i];
                let changed = PriceRecord {
                    symbol: row.symbol.clone(),
                    price: row.price,
                    change: row.change,
                    change_pct: row.change_pct,
                    market_cap: Some(market_cap),
                    timestamp: row.timestamp,
                };
                self.prices.set(i, changed);
                true
            },
            None => false,
        }
    }

    /// The base price of a symbol, where one was set.
    pub fn base_price(&self, symbol: &String) -> (r: Option<u64>)
        ensures
            r == base_price_of(self.base_prices(), symbol@),
    {
        let n = self.base_prices.len();
        let mut i: usize = n;
        proof {
            assert(self.base_prices@.take(n as int) =~= self.base_prices@);
        }
        while i > 0
            invariant
                n == self.base_prices@.len(),
                i <= n,
                base_index(self.base_prices@, symbol@) == base_index(
                    self.base_prices@.take(i as int),
                    symbol@,
                ),
            decreases i,
        {
            i = i - 1;
            proof {
                assert(self.base_prices@.take(i + 1).drop_last() =~= self.base_prices@.take(
                    i as int,
                ));
                assert(self.base_prices@.take(i + 1).last() == self.base_prices@[i as int]);
            }
            if self.base_prices[i].symbol == *symbol {
                return Some(self.base_prices[i].price);
            }
        }
        None
    }

    /// Sets the base price of a symbol unless it has one. Tells whether it was set.
    pub fn set_base_price_if_absent(&mut self, symbol: String, price: u64, at: i64) -> (set: bool)
        ensures
            final(self).base_prices() == with_base_price(
                old(self).base_prices(),
                BasePrice { symbol, price, recorded_at: at },
            ),
            set == (base_price_of(old(self).base_prices(), symbol@) is None),
            old(self).wf() ==> final(self).wf(),
            final(self).prices() == old(self).prices(),
            final(self).snapshots() == old(self).snapshots(),
    {
        if self.base_price(&symbol).is_some() {
            false
        } else {
            let entry = BasePrice { symbol, price, recorded_at: at };
            proof {
                lemma_with_base_price(self.base_prices@, entry, entry.symbol@);
            }
            self.base_prices.push(entry);
            true
        }
    }

    /// The latest snapshot of the index series.
    pub fn latest_snapshot(&self) -> (r: Option<IndexSnapshot>)
        ensures
            r == last_snapshot(self.snapshots()),
    {
        let n = self.snapshots.len();
        if n == 0 {
            None
        } else {
            Some(self.snapshots[n - 1])
        }
    }

    /// The latest snapshot of a day before `day`.
    pub fn snapshot_before(&self, day: i64) -> (r: Option<IndexSnapshot>)
        ensures
            r == last_snapshot_before(self.snapshots(), day),
    {
        let n = self.snapshots.len();
        let mut i: usize = n;
        proof {
            assert(self.snapshots@.take(n as int) =~= self.snapshots@);
        }
        while i > 0
            invariant
                n == self.snapshots@.len(),
                i <= n,
                last_snapshot_before(self.snapshots@, day) == last_snapshot_before(
                    self.snapshots@.take(i as int),
                    day,
                ),
            decreases i,
        {
            i = i - 1;
            proof {
                assert(self.snapshots@.take(i + 1).drop_last() =~= self.snapshots@.take(i as int));
                assert(self.snapshots@.take(i + 1).last() == self.snapshots@[i as int]);
            }
            if day_of_timestamp(self.snapshots[i].timestamp) < day {
                return Some(self.snapshots[i]);
            }
        }
        None
    }

    /// Appends a snapshot if it is later than every snapshot of the series.
    /// Tells whether it was appended.
    pub fn append_snapshot(&mut self, snapshot: IndexSnapshot) -> (appended: bool)
        ensures
            final(self).snapshots() == with_snapshot(old(self).snapshots(), snapshot),
            old(self).wf() ==> final(self).wf(),
            appended == (old(self).snapshots().len() == 0 || old(self).snapshots().last().timestamp
                < snapshot.timestamp),
            final(self).prices() == old(self).prices(),
            final(self).base_prices() == old(self).base_prices(),
    {
        proof {
            if self.wf() {
                lemma_with_snapshot_ascending(self.snapshots@, snapshot);
            }
        }
        let n = self.snapshots.len();
        if n == 0 || self.snapshots[n - 1].timestamp < snapshot.timestamp {
            self.snapshots.push(snapshot);
            true
        } else {
            false
        }
    }

    /// The newest snapshots of the series, the newest first, at most `limit`
    /// of them; all of them where `limit` is below zero.
    pub fn history(&self, limit: i64) -> (out: Vec<IndexSnapshot>)
        ensures
            out@ == newest_first(self.snapshots(), limit),
    {
        let n = self.snapshots.len();
        let count: usize = if limit < 0 || limit as u64 > n as u64 {
            n
        } else {
            limit as usize
        };
        let mut out: Vec<IndexSnapshot> = Vec::new();
        let mut i: usize = 0;
        while i < count
            invariant
                n == self.snapshots@.len(),
                count <= n,
                i <= count,
                out@.len() == i,
                forall|j: int| 0 <= j < i ==> out@[j] == self.snapshots@[n - 1 - j],
            decreases count - i,
        {
            out.push(self.snapshots[n - 1 - i]);
            i = i + 1;
        }
        proof {
            assert(out@ =~= newest_first(self.snapshots@, limit));
        }
        out
    }
}

} // verus!
