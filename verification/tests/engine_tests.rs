use aiindex::config::{Benchmarks, Sector, SectorEntry, Settings, StocksConfig};
use aiindex::engine::{
    collect_quotes, compute_and_store, compute_and_store_at, compute_weights, record, record_profile,
    record_quote, weight_for, FinnhubProfile, FinnhubQuote, SymbolWeight,
};
use aiindex::models::PriceRecord;
use aiindex::snapshot::IndexSnapshot;
use aiindex::store::PriceStore;

const UNIT: u64 = 1_000_000;

fn sym(s: &str) -> String {
    s.to_string()
}

fn names(v: &[&str]) -> Vec<String> {
    v.iter().map(|s| s.to_string()).collect()
}

fn config(pct: u32, symbols: &[&str]) -> StocksConfig {
    StocksConfig {
        settings: Settings { base_value: 1000 * UNIT, market_cap_weight_pct: pct },
        sectors: vec![SectorEntry {
            key: "main".to_string(),
            sector: Sector { label: "Main".to_string(), symbols: names(symbols) },
        }],
        benchmarks: Benchmarks { symbols: names(&["SPY"]) },
    }
}

fn row(symbol: &str, price: u64, cap: Option<u64>, timestamp: i64) -> PriceRecord {
    PriceRecord {
        symbol: sym(symbol),
        price,
        change: None,
        change_pct: None,
        market_cap: cap,
        timestamp,
    }
}

fn two_symbol_store() -> PriceStore {
    let mut store = PriceStore::new();
    store.set_base_price_if_absent(sym("A"), 100 * UNIT, 1);
    store.set_base_price_if_absent(sym("B"), 100 * UNIT, 1);
    store.append_price_observation(row("A", 100 * UNIT, Some(300 * UNIT), 1));
    store.append_price_observation(row("B", 100 * UNIT, Some(100 * UNIT), 1));
    store.append_price_observation(row("A", 110 * UNIT, Some(300 * UNIT), 2));
    store.append_price_observation(row("B", 90 * UNIT, Some(100 * UNIT), 2));
    store
}

#[test]
fn compute_and_store_at_records_the_value() {
    let mut store = two_symbol_store();
    let cfg = config(50, &["A", "B"]);
    let s = compute_and_store_at(&mut store, &cfg, 1000).unwrap().snapshot;
    assert_eq!(s.value, 1_025_000_000);
    assert_eq!(s.daily_change, None);
    assert_eq!(s.daily_change_pct, None);
    assert_eq!(s.timestamp, 1000);
    assert_eq!(store.snapshot_records().len(), 1);

    store.append_price_observation(row("A", 121 * UNIT, Some(300 * UNIT), 3));
    let s = compute_and_store_at(&mut store, &cfg, 2000).unwrap().snapshot;
    // 1000 * (0.625 * 1.21 + 0.375 * 0.9) = 1093.75
    assert_eq!(s.value, 1_093_750_000);
    assert_eq!(s.daily_change, Some(68_750_000));
    // 68.75 / 1025 = 6.707317... %
    assert_eq!(s.daily_change_pct, Some(6_707_317));
    assert_eq!(store.snapshot_records().len(), 2);
    assert_eq!(store.count_price_rows(), 5);
}

#[test]
fn compute_and_store_at_returns_the_value_even_if_the_series_refuses_it() {
    let mut store = two_symbol_store();
    let cfg = config(50, &["A", "B"]);
    assert!(compute_and_store_at(&mut store, &cfg, 1000).unwrap().stored);
    let r = compute_and_store_at(&mut store, &cfg, 1000).unwrap();
    assert!(!r.stored);
    assert_eq!(r.snapshot.value, 1_025_000_000);
    assert_eq!(r.snapshot.daily_change, Some(0));
    assert_eq!(store.snapshot_records().len(), 1);
    let r = compute_and_store_at(&mut store, &cfg, 999).unwrap();
    assert!(!r.stored);
    assert_eq!(r.snapshot.timestamp, 999);
    assert_eq!(store.snapshot_records().len(), 1);
    let r = compute_and_store_at(&mut store, &cfg, 1001).unwrap();
    assert!(r.stored);
    assert_eq!(store.snapshot_records().len(), 2);
}

#[test]
fn compute_and_store_at_has_no_data_for_an_empty_basket() {
    let mut store = two_symbol_store();
    let cfg = config(50, &[]);
    assert!(compute_and_store_at(&mut store, &cfg, 1000).is_none());
    assert!(store.snapshot_records().is_empty());
}

#[test]
fn compute_and_store_at_has_no_data_without_eligible_quotes() {
    let mut store = PriceStore::new();
    store.append_price_observation(row("A", 100 * UNIT, None, 1));
    store.set_base_price_if_absent(sym("B"), 100 * UNIT, 1);
    let cfg = config(50, &["A", "B", "C"]);
    assert!(compute_and_store_at(&mut store, &cfg, 1000).is_none());
    assert!(store.snapshot_records().is_empty());
}

#[test]
fn compute_and_store_at_ignores_benchmarks_and_symbols_without_base() {
    let mut store = two_symbol_store();
    store.append_price_observation(row("SPY", 500 * UNIT, Some(9_000 * UNIT), 2));
    store.set_base_price_if_absent(sym("SPY"), 100 * UNIT, 1);
    store.append_price_observation(row("C", 500 * UNIT, Some(9_000 * UNIT), 2));
    let cfg = config(50, &["A", "C", "B"]);
    let s = compute_and_store_at(&mut store, &cfg, 1000).unwrap().snapshot;
    assert_eq!(s.value, 1_025_000_000);
}

#[test]
fn compute_and_store_uses_the_clock() {
    let mut store = two_symbol_store();
    let cfg = config(50, &["A", "B"]);
    let r = compute_and_store(&mut store, &cfg).unwrap();
    assert!(r.stored);
    let s = r.snapshot;
    assert_eq!(s.value, 1_025_000_000);
    // later than the first of January 2020 and in the calendar
    assert!(s.timestamp > 1_577_836_800);
    assert!(aiindex::calendar::timestamp_text(s.timestamp).is_some());
    assert_eq!(store.latest_snapshot().unwrap().timestamp, s.timestamp);
}

#[test]
fn record_reports_whether_the_series_took_the_snapshot() {
    let mut store = PriceStore::new();
    let r = record(&mut store, 100 * UNIT, None, 50);
    assert!(r.stored);
    assert_eq!(r.snapshot.daily_change, None);
    let previous: Option<IndexSnapshot> = store.latest_snapshot();
    let r = record(&mut store, 110 * UNIT, previous, 40);
    assert!(!r.stored);
    assert_eq!(r.snapshot.value, 110 * UNIT);
    assert_eq!(r.snapshot.daily_change, Some(10 * UNIT as i128));
    assert_eq!(r.snapshot.daily_change_pct, Some(10_000_000));
    assert_eq!(store.snapshot_records().len(), 1);
    let r = record(&mut store, 110 * UNIT, previous, 51);
    assert!(r.stored);
    assert_eq!(store.snapshot_records().len(), 2);
}

#[test]
fn collect_quotes_puts_zero_for_missing_prices() {
    let mut store = two_symbol_store();
    store.append_price_observation(row("C", 5 * UNIT, None, 2));
    let quotes = collect_quotes(&store, &names(&["A", "C", "D"]), None);
    assert_eq!(quotes.len(), 3);
    assert_eq!(
        (quotes[0].current_price, quotes[0].base_price, quotes[0].market_cap),
        (110 * UNIT, 100 * UNIT, Some(300 * UNIT))
    );
    assert_eq!((quotes[1].current_price, quotes[1].base_price, quotes[1].market_cap), (5 * UNIT, 0, None));
    assert_eq!((quotes[2].current_price, quotes[2].base_price, quotes[2].market_cap), (0, 0, None));
    let quotes = collect_quotes(&store, &names(&["A"]), Some(0));
    assert_eq!(quotes[0].current_price, 110 * UNIT);
    let quotes = collect_quotes(&store, &names(&["A"]), Some(-1));
    assert_eq!(quotes[0].current_price, 0);
    assert_eq!(quotes[0].base_price, 100 * UNIT);
}

#[test]
fn compute_weights_counts_every_index_symbol() {
    let mut store = two_symbol_store();
    store.append_price_observation(row("SPY", 500 * UNIT, Some(9_000 * UNIT), 2));
    let cfg = config(50, &["A", "B"]);
    let w = compute_weights(&store, &cfg);
    assert_eq!(w.len(), 2);
    assert_eq!((w[0].symbol.as_str(), w[0].weight), ("A", 625_000_000_000_000_000));
    assert_eq!((w[1].symbol.as_str(), w[1].weight), ("B", 375_000_000_000_000_000));
    assert_eq!(weight_for(&w, &sym("A")), Some(625_000_000_000_000_000));
    assert_eq!(weight_for(&w, &sym("SPY")), None);

    // a symbol without any price counts with the default capitalisation
    let cfg = config(100, &["A", "B", "NEW"]);
    let w = compute_weights(&store, &cfg);
    assert_eq!(w.len(), 3);
    // 300 / 401, 100 / 401, 1 / 401
    assert_eq!(w[0].weight, 748_129_675_810_473_815);
    assert_eq!(w[1].weight, 249_376_558_603_491_271);
    assert_eq!(w[2].weight, 2_493_765_586_034_912);
}

#[test]
fn compute_weights_of_an_empty_basket_is_empty() {
    let store = two_symbol_store();
    assert!(compute_weights(&store, &config(50, &[])).is_empty());
}

#[test]
fn weight_for_takes_the_last_entry() {
    let w = vec![
        SymbolWeight { symbol: sym("A"), weight: 1 },
        SymbolWeight { symbol: sym("B"), weight: 2 },
        SymbolWeight { symbol: sym("A"), weight: 3 },
    ];
    assert_eq!(weight_for(&w, &sym("A")), Some(3));
    assert_eq!(weight_for(&w, &sym("B")), Some(2));
    assert_eq!(weight_for(&w, &sym("C")), None);
}

#[test]
fn record_quote_appends_price_and_sets_base_once() {
    let mut store = PriceStore::new();
    let q = FinnhubQuote { c: 100 * UNIT, d: Some(-2 * UNIT as i128), dp: Some(-1_960_784) };
    assert!(record_quote(&mut store, &sym("A"), &q, 1000));
    assert_eq!(store.base_price(&sym("A")), Some(100 * UNIT));
    let rows = store.price_records();
    assert_eq!(rows.len(), 1);
    assert_eq!(rows[0].symbol, "A");
    assert_eq!(rows[0].price, 100 * UNIT);
    assert_eq!(rows[0].change, Some(-2_000_000));
    assert_eq!(rows[0].change_pct, Some(-1_960_784));
    assert_eq!(rows[0].market_cap, None);
    assert_eq!(rows[0].timestamp, 1000);

    let q = FinnhubQuote { c: 120 * UNIT, d: None, dp: None };
    assert!(record_quote(&mut store, &sym("A"), &q, 2000));
    assert_eq!(store.base_price(&sym("A")), Some(100 * UNIT));
    assert_eq!(store.count_price_rows(), 2);
    assert_eq!(store.latest_price(&sym("A")), Some((120 * UNIT, None, 2000)));
}

#[test]
fn record_quote_skips_a_quote_without_price() {
    let mut store = PriceStore::new();
    let q = FinnhubQuote { c: 0, d: Some(1), dp: Some(1) };
    assert!(!record_quote(&mut store, &sym("A"), &q, 1000));
    assert_eq!(store.count_price_rows(), 0);
    assert_eq!(store.base_price(&sym("A")), None);
}

#[test]
fn record_quote_carries_the_market_cap_forward() {
    let mut store = PriceStore::new();
    let q = FinnhubQuote { c: 100 * UNIT, d: None, dp: None };
    record_quote(&mut store, &sym("A"), &q, 1000);
    assert!(record_profile(
        &mut store,
        &sym("A"),
        &FinnhubProfile { market_capitalization: Some(2_500 * UNIT) }
    ));
    record_quote(&mut store, &sym("A"), &q, 2000);
    record_quote(&mut store, &sym("B"), &q, 2000);
    let rows = store.price_records();
    assert_eq!(rows[0].market_cap, Some(2_500 * UNIT));
    assert_eq!(rows[1].market_cap, Some(2_500 * UNIT));
    assert_eq!(rows[2].market_cap, None);
}

#[test]
fn record_profile_without_cap_or_without_price_changes_nothing() {
    let mut store = PriceStore::new();
    assert!(!record_profile(
        &mut store,
        &sym("A"),
        &FinnhubProfile { market_capitalization: Some(5) }
    ));
    let q = FinnhubQuote { c: 100 * UNIT, d: None, dp: None };
    record_quote(&mut store, &sym("A"), &q, 1000);
    assert!(!record_profile(&mut store, &sym("A"), &FinnhubProfile { market_capitalization: None }));
    assert_eq!(store.price_records()[0].market_cap, None);
}

#[test]
fn compute_and_store_at_after_a_value_of_zero_has_no_changes() {
    let mut store = two_symbol_store();
    store.append_snapshot(IndexSnapshot {
        value: 0,
        daily_change: None,
        daily_change_pct: None,
        timestamp: 10,
    });
    let r = compute_and_store_at(&mut store, &config(50, &["A", "B"]), 1000).unwrap();
    assert!(r.stored);
    assert_eq!(r.snapshot.value, 1_025_000_000);
    assert_eq!(r.snapshot.daily_change, None);
    assert_eq!(r.snapshot.daily_change_pct, None);
    let stored = store.latest_snapshot().unwrap();
    assert_eq!((stored.daily_change, stored.daily_change_pct), (None, None));
}

#[test]
fn collect_quotes_takes_the_capitalisation_that_is_known_last() {
    let mut store = PriceStore::new();
    store.append_price_observation(row("A", 100 * UNIT, Some(300 * UNIT), 100));
    store.append_price_observation(row("A", 110 * UNIT, None, 86_400 + 100));
    let symbols = names(&["A"]);
    let day0 = collect_quotes(&store, &symbols, Some(0));
    assert_eq!((day0[0].current_price, day0[0].market_cap), (100 * UNIT, Some(300 * UNIT)));
    let day1 = collect_quotes(&store, &symbols, Some(1));
    assert_eq!((day1[0].current_price, day1[0].market_cap), (110 * UNIT, Some(300 * UNIT)));
    let live = collect_quotes(&store, &symbols, None);
    assert_eq!((live[0].current_price, live[0].market_cap), (110 * UNIT, Some(300 * UNIT)));
    // a capitalisation that becomes known later does not count for an earlier day
    store.append_price_observation(row("A", 120 * UNIT, Some(900 * UNIT), 2 * 86_400));
    let day1 = collect_quotes(&store, &symbols, Some(1));
    assert_eq!(day1[0].market_cap, Some(300 * UNIT));
    let day2 = collect_quotes(&store, &symbols, Some(2));
    assert_eq!(day2[0].market_cap, Some(900 * UNIT));
    // before anything is known the capitalisation is unknown
    store.append_price_observation(row("B", 5 * UNIT, None, 100));
    assert_eq!(collect_quotes(&store, &names(&["B"]), Some(5))[0].market_cap, None);
}

#[test]
fn compute_weights_takes_the_capitalisation_that_is_known_last() {
    let mut store = PriceStore::new();
    store.append_price_observation(row("A", 100 * UNIT, Some(300 * UNIT), 1));
    store.append_price_observation(row("A", 110 * UNIT, None, 2));
    store.append_price_observation(row("B", 90 * UNIT, Some(100 * UNIT), 2));
    let w = compute_weights(&store, &config(50, &["A", "B"]));
    assert_eq!(w[0].weight, 625_000_000_000_000_000);
    assert_eq!(w[1].weight, 375_000_000_000_000_000);
}
