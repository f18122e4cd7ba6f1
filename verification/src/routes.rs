//! What the index offers for display: its history, the stocks with their
//! weights, the sectors and the settings.

use crate::config::{SectorEntry, StocksConfig};
use crate::engine::{compute_weights, listed_weight, weight_for, weight_list, SymbolWeight};
use crate::models::PriceRecord;
use crate::snapshot::IndexSnapshot;
use crate::store::{known_market_cap, newest, newest_first, PriceStore};
use vstd::prelude::*;
use vstd::string::StringExecFns;

verus! {

/// The number of snapshots that a history holds where no limit is asked for.
pub const DEFAULT_HISTORY_LIMIT: i64 = 100;

/// What a reader of the history asks for.
#[derive(Debug, Clone, Copy)]
pub struct HistoryQuery {
    pub limit: Option<i64>,
}

impl HistoryQuery {
    /// The limit asked for, or the default.
    pub open spec fn limit_or_default(&self) -> i64 {
        match self.limit {
            Some(l) => l,
            None => DEFAULT_HISTORY_LIMIT,
        }
    }
}

/// The newest snapshots of the index series, the newest first: as many as
/// the query asks for, a hundred where it does not say, all where it asks for
/// a number below zero.
pub fn get_index_history(store: &PriceStore, q: &HistoryQuery) -> (out: Vec<IndexSnapshot>)
    ensures
        out@ == newest_first(store.snapshots(), q.limit_or_default()),
{
    let limit = match q.limit {
        Some(l) => l,
        None => DEFAULT_HISTORY_LIMIT,
    };
    store.history(limit)
}

/// Stock detail for display.
#[derive(Debug)]
pub struct StockDetail {
    pub symbol: String,
    pub sector: String,
    pub sector_label: String,
    pub price: u64,
    pub change: Option<i128>,
    pub change_pct: Option<i128>,
    pub market_cap: Option<u64>,
    pub weight: Option<u64>,
    pub timestamp: i64,
}

/// A stock detail as plain values.
pub struct StockDetailView {
    pub symbol: Seq<char>,
    pub sector: Seq<char>,
    pub sector_label: Seq<char>,
    pub price: u64,
    pub change: Option<i128>,
    pub change_pct: Option<i128>,
    pub market_cap: Option<u64>,
    pub weight: Option<u64>,
    pub timestamp: i64,
}

impl View for StockDetail {
    type V = StockDetailView;

    open spec fn view(&self) -> StockDetailView {
        StockDetailView {
            symbol: self.symbol@,
            sector: self.sector@,
            sector_label: self.sector_label@,
            price: self.price,
            change: self.change,
            change_pct: self.change_pct,
            market_cap: self.market_cap,
            weight: self.weight,
            timestamp: self.timestamp,
        }
    }
}

/// The views of a sequence of stock details.
pub open spec fn detail_views(details: Seq<StockDetail>) -> Seq<StockDetailView> {
    Seq::new(details.len(), |i: int| details[i]@)
}

/// The detail of a stock: its latest price record with the capitalisation
/// that is known last for it, under its sector and with its weight.
pub open spec fn detail_view(
    row: PriceRecord,
    market_cap: Option<u64>,
    sector: Seq<char>,
    sector_label: Seq<char>,
    weight: Option<u64>,
) -> StockDetailView {
    StockDetailView {
        symbol: row.symbol@,
        sector,
        sector_label,
        price: row.price,
        change: row.change,
        change_pct: row.change_pct,
        market_cap,
        weight,
        timestamp: row.timestamp,
    }
}

/// The weight on display for a symbol: none where no weights are given.
pub open spec fn displayed_weight(weights: Option<Seq<SymbolWeight>>, symbol: Seq<char>) -> Option<
    u64,
> {
    match weights {
        Some(w) => listed_weight(w, symbol),
        None => None,
    }
}

/// The details of the symbols of a list that have a price record, in the
/// order of the list.
pub open spec fn details_of(
    prices: Seq<PriceRecord>,
    symbols: Seq<String>,
    sector: Seq<char>,
    sector_label: Seq<char>,
    weights: Option<Seq<SymbolWeight>>,
) -> Seq<StockDetailView>
    decreases symbols.len(),
{
    if symbols.len() == 0 {
        Seq::empty()
    } else {
        let rest = details_of(prices, symbols.drop_last(), sector, sector_label, weights);
        match newest(prices, symbols.last()@, None, false) {
            Some(row) => rest.push(
                detail_view(
                    row,
                    known_market_cap(prices, symbols.last()@, None),
                    sector,
                    sector_label,
                    displayed_weight(weights, symbols.last()@),
                ),
            ),
            None => rest,
        }
    }
}

/// The details of the symbols of a sequence of sectors, sector after sector.
pub open spec fn sector_details(
    prices: Seq<PriceRecord>,
    sectors: Seq<SectorEntry>,
    weights: Seq<SymbolWeight>,
) -> Seq<StockDetailView>
    decreases sectors.len(),
{
    if sectors.len() == 0 {
        Seq::empty()
    } else {
        sector_details(prices, sectors.drop_last(), weights) + details_of(
            prices,
            sectors.last().sector.symbols@,
            sectors.last().key@,
            sectors.last().sector.label@,
            Some(weights),
        )
    }
}

/// The details of all stocks: the index symbols sector by sector, each with
/// its weight, then the benchmarks, which have none.
pub open spec fn stock_details(prices: Seq<PriceRecord>, config: StocksConfig) -> Seq<
    StockDetailView,
> {
    sector_details(prices, config.sectors@, weight_list(prices, config)) + details_of(
        prices,
        config.benchmarks.symbols@,
        "benchmarks"@,
        "Benchmarks"@,
        None,
    )
}

/// Makes the detail of a stock from its latest price record.
fn make_detail(
    row: &PriceRecord,
    market_cap: Option<u64>,
    sector: &String,
    sector_label: &String,
    weight: Option<u64>,
) -> (d: StockDetail)
    ensures
        d@ == detail_view(*row, market_cap, sector@, sector_label@, weight),
{
    StockDetail {
        symbol: row.symbol.clone(),
        sector: sector.clone(),
        sector_label: sector_label.clone(),
        price: row.price,
        change: row.change,
        change_pct: row.change_pct,
        market_cap,
        weight,
        timestamp: row.timestamp,
    }
}

/// Appends the details of the symbols of a list that have a price record.
fn push_details(
    out: &mut Vec<StockDetail>,
    store: &PriceStore,
    symbols: &Vec<String>,
    sector: &String,
    sector_label: &String,
    weights: Option<&Vec<SymbolWeight>>,
)
    ensures
        detail_views(final(out)@) == detail_views(old(out)@) + details_of(
            store.prices(),
            symbols@,
            sector@,
            sector_label@,
            match weights {
                Some(w) => Some(w@),
                None => None,
            },
        ),
{
    let ghost listed = match weights {
        Some(w) => Some(w@),
        None => None,
    };
    let n = symbols.len();
    let mut i: usize = 0;
    proof {
        assert(detail_views(out@) =~= detail_views(old(out)@) + details_of(
            store.prices(),
            symbols@.take(0),
            sector@,
            sector_label@,
            listed,
        ));
    }
    while i < n
        invariant
            n == symbols.len(),
            i <= n,
            listed == match weights {
                Some(w) => Some(w@),
                None => None,
            },
            detail_views(out@) == detail_views(old(out)@) + details_of(
                store.prices(),
                symbols@.take(i as int),
                sector@,
                sector_label@,
                listed,
            ),
        decreases n - i,
    {
        let symbol = &symbols[i];
        let ghost before = out@;
        proof {
            assert(symbols@.take(i + 1).drop_last() =~= symbols@.take(i as int));
        }
        match store.latest_record(symbol) {
            Some(row) => {
                let weight = match weights {
                    Some(w) => weight_for(w, symbol),
                    None => None,
                };
                let market_cap = store.latest_market_cap(symbol);
                let d = make_detail(row, market_cap, sector, sector_label, weight);
                out.push(d);
                proof {
                    assert(detail_views(out@) =~= detail_views(before).push(d@));
                    assert(detail_views(out@) =~= detail_views(old(out)@) + details_of(
                        store.prices(),
                        symbols@.take(i + 1),
                        sector@,
                        sector_label@,
                        listed,
                    ));
                }
            },
            None => {},
        }
        i = i + 1;
    }
    proof {
        assert(symbols@.take(n as int) =~= symbols@);
    }
}

/// Lists the stocks on display: every symbol that has a price record, with
/// its latest price and the capitalisation that is known last for it; the index symbols sector by sector, each with its
/// weight, then the benchmarks under the sector `benchmarks` and without a weight.
pub fn get_stocks(store: &PriceStore, config: &StocksConfig) -> (out: Vec<StockDetail>)
    requires
        config.valid(),
    ensures
        detail_views(out@) == stock_details(store.prices(), *config),
{
    let weights = compute_weights(store, config);
    let mut out: Vec<StockDetail> = Vec::new();
    let n = config.sectors.len();
    let mut i: usize = 0;
    proof {
        assert(detail_views(out@) =~= sector_details(
            store.prices(),
            config.sectors@.take(0),
            weights@,
        ));
    }
    while i < n
        invariant
            n == config.sectors.len(),
            i <= n,
            detail_views(out@) == sector_details(
                store.prices(),
                config.sectors@.take(i as int),
                weights@,
            ),
        decreases n - i,
    {
        proof {
            assert(config.sectors@.take(i + 1).drop_last() =~= config.sectors@.take(i as int));
        }
        let entry = &config.sectors[i];
        push_details(
            &mut out,
            store,
            &entry.sector.symbols,
            &entry.key,
            &entry.sector.label,
            Some(&weights),
        );
        i = i + 1;
    }
    proof {
        assert(config.sectors@.take(n as int) =~= config.sectors@);
    }
    let sector = String::from_str("benchmarks");
    let sector_label = String::from_str("Benchmarks");
    push_details(&mut out, store, &config.benchmarks.symbols, &sector, &sector_label, None);
    out
}

/// Whether a list of symbols holds a symbol.
pub open spec fn lists_symbol(symbols: Seq<String>, symbol: Seq<char>) -> bool {
    exists|j: int| 0 <= j < symbols.len() && (#[trigger] symbols[j])@ == symbol
}

/// Tells whether a list of symbols holds a symbol.
pub fn has_symbol(symbols: &Vec<String>, symbol: &String) -> (r: bool)
    ensures
        r == lists_symbol(symbols@, symbol@),
{
    let n = symbols.len();
    let mut i: usize = 0;
    while i < n
        invariant
            n == symbols.len(),
            i <= n,
            forall|j: int| 0 <= j < i ==> (#[trigger] symbols[j])@ != symbol@,
        decreases n - i,
    {
        if symbols[i] == *symbol {
            return true;
        }
        i = i + 1;
    }
    false
}

/// The place of the first sector that holds a symbol.
pub open spec fn first_sector_with(sectors: Seq<SectorEntry>, symbol: Seq<char>) -> Option<int>
    decreases sectors.len(),
{
    if sectors.len() == 0 {
        None
    } else {
        match first_sector_with(sectors.drop_last(), symbol) {
            Some(i) => Some(i),
            None => if lists_symbol(sectors.last().sector.symbols@, symbol) {
                Some(sectors.len() - 1)
            } else {
                None
            },
        }
    }
}

/// The key and the label under which a symbol is shown: those of the first
/// sector that holds it; else those of the benchmarks, if it is one; else `unknown`.
pub open spec fn sector_names(config: StocksConfig, symbol: Seq<char>) -> (Seq<char>, Seq<char>) {
    match first_sector_with(config.sectors@, symbol) {
        Some(i) => (config.sectors[i].key@, config.sectors[i].sector.label@),
        None => if lists_symbol(config.benchmarks.symbols@, symbol) {
            ("benchmarks"@, "Benchmarks"@)
        } else {
            ("unknown"@, "Unknown"@)
        },
    }
}

/// Finds the key and the label under which a symbol is shown.
pub fn find_sector(config: &StocksConfig, symbol: &String) -> (names: (String, String))
    ensures
        (names.0@, names.1@) == sector_names(*config, symbol@),
{
    let n = config.sectors.len();
    let mut i: usize = 0;
    while i < n
        invariant
            n == config.sectors.len(),
            i <= n,
            first_sector_with(config.sectors@.take(i as int), symbol@) is None,
        decreases n - i,
    {
        proof {
            assert(config.sectors@.take(i + 1).drop_last() =~= config.sectors@.take(i as int));
        }
        let entry = &config.sectors[i];
        if has_symbol(&entry.sector.symbols, symbol) {
            proof {
                lemma_first_sector_with_prefix(config.sectors@, symbol@, i + 1);
            }
            return (entry.key.clone(), entry.sector.label.clone());
        }
        i = i + 1;
    }
    proof {
        assert(config.sectors@.take(n as int) =~= config.sectors@);
    }
    if has_symbol(&config.benchmarks.symbols, symbol) {
        (String::from_str("benchmarks"), String::from_str("Benchmarks"))
    } else {
        (String::from_str("unknown"), String::from_str("Unknown"))
    }
}

/// A sector found among the first `k` sectors is the one found among all.
pub proof fn lemma_first_sector_with_prefix(sectors: Seq<SectorEntry>, symbol: Seq<char>, k: int)
    requires
        0 <= k <= sectors.len(),
        first_sector_with(sectors.take(k), symbol) is Some,
    ensures
        first_sector_with(sectors, symbol) == first_sector_with(sectors.take(k), symbol),
    decreases sectors.len() - k,
{
    if k == sectors.len() {
        assert(sectors.take(k) =~= sectors);
    } else {
        assert(sectors.take(k + 1).drop_last() =~= sectors.take(k));
        lemma_first_sector_with_prefix(sectors, symbol, k + 1);
    }
}

/// The detail of one stock: nothing where it has no price record.
pub open spec fn stock_detail_view(prices: Seq<PriceRecord>, config: StocksConfig, symbol: Seq<char>) -> Option<
    StockDetailView,
> {
    match newest(prices, symbol, None, false) {
        Some(row) => Some(
            detail_view(
                row,
                known_market_cap(prices, symbol, None),
                sector_names(config, symbol).0,
                sector_names(config, symbol).1,
                listed_weight(weight_list(prices, config), symbol),
            ),
        ),
        None => None,
    }
}

/// Gives the detail of the stock with exactly this symbol: its latest price
/// record with the capitalisation that is known last for it, the sector
/// under which it is shown and its weight in the index.
/// There is none where the symbol has no price record.
pub fn stock_detail(store: &PriceStore, config: &StocksConfig, symbol: &String) -> (r: Option<
    StockDetail,
>)
    requires
        config.valid(),
    ensures
        match r {
            Some(d) => stock_detail_view(store.prices(), *config, symbol@) == Some(d@),
            None => stock_detail_view(store.prices(), *config, symbol@) is None,
        },
{
    let (sector, sector_label) = find_sector(config, symbol);
    match store.latest_record(symbol) {
        Some(row) => {
            let weights = compute_weights(store, config);
            let weight = weight_for(&weights, symbol);
            let market_cap = store.latest_market_cap(symbol);
            Some(make_detail(row, market_cap, &sector, &sector_label, weight))
        },
        None => None,
    }
}

/// The text in upper case, as `str::to_uppercase` makes it.
pub uninterp spec fn uppercase_of(text: Seq<char>) -> Seq<char>;

/// Calls `str::to_uppercase`, which depends on the text alone. The contract
/// gives the outcome its name and claims nothing else of it.
#[verifier::external_body]
fn to_upper(text: &String) -> (r: String)
    ensures
        r@ == uppercase_of(text@),
{
    text.to_uppercase()
}

/// Gives the detail of the stock whose symbol is the given text in upper case.
pub fn get_stock(store: &PriceStore, config: &StocksConfig, symbol: &String) -> (r: Option<
    StockDetail,
>)
    requires
        config.valid(),
    ensures
        match r {
            Some(d) => stock_detail_view(store.prices(), *config, uppercase_of(symbol@)) == Some(
                d@,
            ),
            None => stock_detail_view(store.prices(), *config, uppercase_of(symbol@)) is None,
        },
{
    let sym = to_upper(symbol);
    stock_detail(store, config, &sym)
}

/// The settings on display.
#[derive(Debug)]
pub struct ConfigInfo {
    pub base_value: u64,
    pub market_cap_weight_pct: u32,
    pub index_stock_count: usize,
    pub benchmark_symbols: Vec<String>,
}

/// Gives the settings on display: the base value, the share of
/// capitalisation, the number of index symbols and the benchmark symbols.
pub fn get_config(config: &StocksConfig) -> (info: ConfigInfo)
    ensures
        info.base_value == config.settings.base_value,
        info.market_cap_weight_pct == config.settings.market_cap_weight_pct,
        info.index_stock_count == config.index_symbol_seq().len(),
        info.benchmark_symbols@ == config.benchmarks.symbols@,
{
    let mut benchmark_symbols: Vec<String> = Vec::new();
    crate::config::append_symbols(&mut benchmark_symbols, &config.benchmarks.symbols);
    proof {
        assert(Seq::<String>::empty() + config.benchmarks.symbols@ =~= config.benchmarks.symbols@);
    }
    ConfigInfo {
        base_value: config.settings.base_value,
        market_cap_weight_pct: config.settings.market_cap_weight_pct,
        index_stock_count: config.index_symbols().len(),
        benchmark_symbols,
    }
}

/// Sector summary for display.
#[derive(Debug)]
pub struct SectorSummary {
    pub key: String,
    pub label: String,
    pub symbols: Vec<String>,
    /// The weights of the sector's symbols together, in parts of `WEIGHT_ONE`.
    pub total_weight: u128,
    /// The mean of the latest percent changes of the sector's symbols, in
    /// millionths of a percent; absent where their sum does not fit.
    pub avg_change_pct: Option<i128>,
}

/// The weights of the symbols of a list together; a symbol without a weight adds nothing.
pub open spec fn listed_total(weights: Seq<SymbolWeight>, symbols: Seq<String>) -> int
    decreases symbols.len(),
{
    if symbols.len() == 0 {
        0
    } else {
        listed_total(weights, symbols.drop_last()) + match listed_weight(
            weights,
            symbols.last()@,
        ) {
            Some(w) => w as int,
            None => 0,
        }
    }
}

/// The percent change recorded with the latest price of a symbol.
pub open spec fn latest_change_pct(prices: Seq<PriceRecord>, symbol: Seq<char>) -> Option<i128> {
    match newest(prices, symbol, None, false) {
        Some(row) => row.change_pct,
        None => None,
    }
}

/// The latest percent changes of the symbols of a list, of those that have one.
pub open spec fn latest_changes(prices: Seq<PriceRecord>, symbols: Seq<String>) -> Seq<i128>
    decreases symbols.len(),
{
    if symbols.len() == 0 {
        Seq::empty()
    } else {
        let rest = latest_changes(prices, symbols.drop_last());
        match latest_change_pct(prices, symbols.last()@) {
            Some(c) => rest.push(c),
            None => rest,
        }
    }
}

/// The sum of a sequence, as long as it fits at every step.
pub open spec fn checked_total(xs: Seq<i128>) -> Option<i128>
    decreases xs.len(),
{
    if xs.len() == 0 {
        Some(0)
    } else {
        match checked_total(xs.drop_last()) {
            Some(t) => if i128::MIN <= t + xs.last() <= i128::MAX {
                Some((t + xs.last()) as i128)
            } else {
                None
            },
            None => None,
        }
    }
}

/// A total divided by a count, rounded towards zero.
pub open spec fn mean_towards_zero(total: int, count: int) -> int {
    if total >= 0 {
        total / count
    } else {
        -((-total) / count)
    }
}

/// The mean of a sequence, rounded towards zero: zero for an empty sequence,
/// and absent where the sum does not fit at every step.
pub open spec fn average(xs: Seq<i128>) -> Option<i128> {
    if xs.len() == 0 {
        Some(0)
    } else {
        match checked_total(xs) {
            Some(t) => Some(mean_towards_zero(t as int, xs.len() as int) as i128),
            None => None,
        }
    }
}

/// Computes the mean of a list of numbers, rounded towards zero.
pub fn average_of(xs: &Vec<i128>) -> (r: Option<i128>)
    ensures
        r == average(xs@),
{
    let n = xs.len();
    if n == 0 {
        return Some(0);
    }
    let mut total: i128 = 0;
    let mut i: usize = 0;
    while i < n
        invariant
            n == xs.len(),
            i <= n,
            checked_total(xs@.take(i as int)) == Some(total),
        decreases n - i,
    {
        proof {
            assert(xs@.take(i + 1).drop_last() =~= xs@.take(i as int));
        }
        match total.checked_add(xs[i]) {
            Some(t) => {
                total = t;
            },
            None => {
                proof {
                    lemma_checked_total_stays_absent(xs@, i + 1);
                }
                return None;
            },
        }
        i = i + 1;
    }
    proof {
        assert(xs@.take(n as int) =~= xs@);
    }
    let count: u128 = n as u128;
    if total >= 0 {
        let mean: u128 = (total as u128) / count;
        proof {
            vstd::arithmetic::div_mod::lemma_div_is_ordered_by_denominator(total as int, 1, n as int);
            vstd::arithmetic::div_mod::lemma_div_pos_is_pos(total as int, n as int);
        }
        Some(mean as i128)
    } else {
        let below: u128 = (-(total + 1)) as u128 + 1;
        let mean: u128 = below / count;
        proof {
            vstd::arithmetic::div_mod::lemma_div_is_ordered_by_denominator(below as int, 1, n as int);
            vstd::arithmetic::div_mod::lemma_div_pos_is_pos(below as int, n as int);
        }
        if mean > i128::MAX as u128 {
            Some(i128::MIN)
        } else {
            Some(-(mean as i128))
        }
    }
}

/// A sum that does not fit after `k` terms does not fit after more.
pub proof fn lemma_checked_total_stays_absent(xs: Seq<i128>, k: int)
    requires
        0 <= k <= xs.len(),
        checked_total(xs.take(k)) is None,
    ensures
        checked_total(xs) is None,
    decreases xs.len() - k,
{
    if k == xs.len() {
        assert(xs.take(k) =~= xs);
    } else {
        assert(xs.take(k + 1).drop_last() =~= xs.take(k));
        lemma_checked_total_stays_absent(xs, k + 1);
    }
}

/// Whether a summary is that of a sector: its key, label and symbols, the
/// weights of its symbols together, and the mean of their latest percent changes.
pub open spec fn is_summary_of(
    summary: SectorSummary,
    entry: SectorEntry,
    prices: Seq<PriceRecord>,
    weights: Seq<SymbolWeight>,
) -> bool {
    &&& summary.key == entry.key
    &&& summary.label == entry.sector.label
    &&& summary.symbols@ == entry.sector.symbols@
    &&& summary.total_weight == listed_total(weights, entry.sector.symbols@)
    &&& summary.avg_change_pct == average(latest_changes(prices, entry.sector.symbols@))
}

/// Adds up the weights of the symbols of a list.
fn total_weight_of(weights: &Vec<SymbolWeight>, symbols: &Vec<String>) -> (total: u128)
    ensures
        total == listed_total(weights@, symbols@),
{
    let n = symbols.len();
    let mut total: u128 = 0;
    let mut i: usize = 0;
    while i < n
        invariant
            n == symbols.len(),
            i <= n,
            total == listed_total(weights@, symbols@.take(i as int)),
            total <= i * u64::MAX,
        decreases n - i,
    {
        proof {
            assert(symbols@.take(i + 1).drop_last() =~= symbols@.take(i as int));
            assert((i + 1) * u64::MAX == i * u64::MAX + u64::MAX) by (nonlinear_arith);
            assert(i * u64::MAX <= usize::MAX * u64::MAX) by (nonlinear_arith)
                requires
                    i <= usize::MAX,
            ;
        }
        match weight_for(weights, &symbols[i]) {
            Some(w) => {
                total = total + w as u128;
            },
            None => {},
        }
        i = i + 1;
    }
    proof {
        assert(symbols@.take(n as int) =~= symbols@);
    }
    total
}

/// Lists the latest percent changes of the symbols of a list.
fn collect_changes(store: &PriceStore, symbols: &Vec<String>) -> (out: Vec<i128>)
    ensures
        out@ == latest_changes(store.prices(), symbols@),
{
    let n = symbols.len();
    let mut out: Vec<i128> = Vec::new();
    let mut i: usize = 0;
    while i < n
        invariant
            n == symbols.len(),
            i <= n,
            out@ == latest_changes(store.prices(), symbols@.take(i as int)),
        decreases n - i,
    {
        proof {
            assert(symbols@.take(i + 1).drop_last() =~= symbols@.take(i as int));
        }
        match store.latest_record(&symbols[i]) {
            Some(row) => match row.change_pct {
                Some(c) => {
                    out.push(c);
                },
                None => {},
            },
            None => {},
        }
        i = i + 1;
    }
    proof {
        assert(symbols@.take(n as int) =~= symbols@);
    }
    out
}

/// Summarises every sector: its symbols, their weights together, and the
/// mean of their latest percent changes, which is zero where none has one.
pub fn get_sectors(store: &PriceStore, config: &StocksConfig) -> (out: Vec<SectorSummary>)
    requires
        config.valid(),
    ensures
        out.len() == config.sectors.len(),
        forall|i: int|
            0 <= i < out.len() ==> is_summary_of(
                #[trigger] out[i],
                config.sectors[i],
                store.prices(),
                weight_list(store.prices(), *config),
            ),
{
    let weights = compute_weights(store, config);
    let n = config.sectors.len();
    let mut out: Vec<SectorSummary> = Vec::new();
    let mut i: usize = 0;
    while i < n
        invariant
            n == config.sectors.len(),
            i <= n,
            out.len() == i,
            weights@ == weight_list(store.prices(), *config),
            forall|j: int|
                0 <= j < i ==> is_summary_of(
                    #[trigger] out[j],
                    config.sectors[j],
                    store.prices(),
                    weights@,
                ),
        decreases n - i,
    {
        let entry = &config.sectors[i];
        let total_weight = total_weight_of(&weights, &entry.sector.symbols);
        let changes = collect_changes(store, &entry.sector.symbols);
        let avg_change_pct = average_of(&changes);
        let mut symbols: Vec<String> = Vec::new();
        crate::config::append_symbols(&mut symbols, &entry.sector.symbols);
        proof {
            assert(Seq::<String>::empty() + entry.sector.symbols@ =~= entry.sector.symbols@);
        }
        out.push(
            SectorSummary {
                key: entry.key.clone(),
                label: entry.sector.label.clone(),
                symbols,
                total_weight,
                avg_change_pct,
            },
        );
        i = i + 1;
    }
    out
}

} // verus!
