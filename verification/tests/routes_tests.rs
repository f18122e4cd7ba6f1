use aiindex::config::{Benchmarks, Sector, SectorEntry, Settings, StocksConfig};
use aiindex::models::PriceRecord;
use aiindex::routes::{
    average_of, find_sector, get_config, get_index_history, get_sectors, get_stock, get_stocks,
    has_symbol, stock_detail, HistoryQuery,
};
use aiindex::snapshot::IndexSnapshot;
use aiindex::store::PriceStore;

const UNIT: u64 = 1_000_000;

fn sym(s: &str) -> String {
    s.to_string()
}

fn names(v: &[&str]) -> Vec<String> {
    v.iter().map(|s| s.to_string()).collect()
}

fn config() -> StocksConfig {
    StocksConfig {
        settings: Settings { base_value: 1000 * UNIT, market_cap_weight_pct: 50 },
        sectors: vec![
            SectorEntry {
                key: "chips".to_string(),
                sector: Sector { label: "Chips".to_string(), symbols: names(&["A", "B"]) },
            },
            SectorEntry {
                key: "cloud".to_string(),
                sector: Sector { label: "Cloud".to_string(), symbols: names(&["C", "A"]) },
            },
        ],
        benchmarks: Benchmarks { symbols: names(&["SPY"]) },
    }
}

fn row(symbol: &str, price: u64, pct: Option<i128>, cap: Option<u64>, t: i64) -> PriceRecord {
    PriceRecord {
        symbol: sym(symbol),
        price,
        change: pct.map(|p| p / 100),
        change_pct: pct,
        market_cap: cap,
        timestamp: t,
    }
}

fn store() -> PriceStore {
    let mut store = PriceStore::new();
    store.append_price_observation(row("A", 10 * UNIT, Some(1_000_000), Some(300 * UNIT), 5));
    store.append_price_observation(row("B", 20 * UNIT, Some(-4_000_000), Some(100 * UNIT), 5));
    store.append_price_observation(row("SPY", 500 * UNIT, Some(250_000), None, 6));
    store.append_price_observation(row("A", 11 * UNIT, Some(2_000_000), Some(300 * UNIT), 7));
    store
}

#[test]
fn index_history_defaults_to_a_hundred() {
    let mut store = PriceStore::new();
    for i in 1..=150u64 {
        store.append_snapshot(IndexSnapshot {
            value: i,
            daily_change: None,
            daily_change_pct: None,
            timestamp: i as i64,
        });
    }
    let h = get_index_history(&store, &HistoryQuery { limit: None });
    assert_eq!(h.len(), 100);
    assert_eq!(h[0].value, 150);
    assert_eq!(h[99].value, 51);
    let h = get_index_history(&store, &HistoryQuery { limit: Some(3) });
    assert_eq!(h.iter().map(|s| s.value).collect::<Vec<u64>>(), vec![150, 149, 148]);
    assert_eq!(get_index_history(&store, &HistoryQuery { limit: Some(-5) }).len(), 150);
    assert_eq!(get_index_history(&store, &HistoryQuery { limit: Some(0) }).len(), 0);
}

#[test]
fn stocks_are_listed_by_sector_with_weights() {
    let details = get_stocks(&store(), &config());
    // C has no price; A is listed in two sectors
    let got: Vec<(&str, &str, &str, u64)> = details
        .iter()
        .map(|d| (d.symbol.as_str(), d.sector.as_str(), d.sector_label.as_str(), d.price))
        .collect();
    assert_eq!(
        got,
        vec![
            ("A", "chips", "Chips", 11 * UNIT),
            ("B", "chips", "Chips", 20 * UNIT),
            ("A", "cloud", "Cloud", 11 * UNIT),
            ("SPY", "benchmarks", "Benchmarks", 500 * UNIT),
        ]
    );
    // basket A, B, C, A: caps 300, 100, 1 (default), 300, half by capitalisation
    // A: 0.5 * 300 / 701 + 0.125
    assert_eq!(details[0].weight, Some(338_980_028_530_670_470));
    assert_eq!(details[2].weight, details[0].weight);
    assert_eq!(details[1].weight, Some(196_326_676_176_890_156));
    assert_eq!(details[3].weight, None);
    assert_eq!(details[0].change_pct, Some(2_000_000));
    assert_eq!(details[0].market_cap, Some(300 * UNIT));
    assert_eq!(details[0].timestamp, 7);
    assert_eq!(details[3].market_cap, None);
}

#[test]
fn sector_of_a_symbol() {
    let cfg = config();
    assert_eq!(find_sector(&cfg, &sym("A")), (sym("chips"), sym("Chips")));
    assert_eq!(find_sector(&cfg, &sym("C")), (sym("cloud"), sym("Cloud")));
    assert_eq!(find_sector(&cfg, &sym("SPY")), (sym("benchmarks"), sym("Benchmarks")));
    assert_eq!(find_sector(&cfg, &sym("ZZZ")), (sym("unknown"), sym("Unknown")));
    assert!(has_symbol(&names(&["A", "B"]), &sym("B")));
    assert!(!has_symbol(&names(&["A", "B"]), &sym("b")));
}

#[test]
fn stock_detail_of_one_symbol() {
    let d = stock_detail(&store(), &config(), &sym("B")).unwrap();
    assert_eq!((d.symbol.as_str(), d.sector.as_str(), d.sector_label.as_str()), ("B", "chips", "Chips"));
    assert_eq!(d.price, 20 * UNIT);
    assert_eq!(d.weight, Some(196_326_676_176_890_156));
    assert_eq!(d.change_pct, Some(-4_000_000));
    let d = stock_detail(&store(), &config(), &sym("SPY")).unwrap();
    assert_eq!(d.sector, "benchmarks");
    assert_eq!(d.weight, None);
    assert!(stock_detail(&store(), &config(), &sym("C")).is_none());
    assert!(stock_detail(&store(), &config(), &sym("b")).is_none());
}

#[test]
fn get_stock_reads_the_symbol_in_upper_case() {
    let d = get_stock(&store(), &config(), &sym("b")).unwrap();
    assert_eq!(d.symbol, "B");
    assert_eq!(d.sector, "chips");
    let d = get_stock(&store(), &config(), &sym("spy")).unwrap();
    assert_eq!(d.symbol, "SPY");
    assert!(get_stock(&store(), &config(), &sym("c")).is_none());
}

#[test]
fn sectors_are_summarised() {
    let s = get_sectors(&store(), &config());
    assert_eq!(s.len(), 2);
    assert_eq!((s[0].key.as_str(), s[0].label.as_str()), ("chips", "Chips"));
    assert_eq!(s[0].symbols, names(&["A", "B"]));
    assert_eq!(s[0].total_weight, 338_980_028_530_670_470 + 196_326_676_176_890_156);
    // mean of 2 % and -4 %
    assert_eq!(s[0].avg_change_pct, Some(-1_000_000));
    assert_eq!(s[1].key, "cloud");
    // C: 0.5 * 1 / 701 + 0.125, and A once more
    assert_eq!(s[1].total_weight, 125_713_266_761_768_901 + 338_980_028_530_670_470);
    assert_eq!(s[1].avg_change_pct, Some(2_000_000));
}

#[test]
fn sector_without_changes_has_average_zero() {
    let s = get_sectors(&PriceStore::new(), &config());
    assert_eq!(s.len(), 2);
    assert_eq!(s[0].avg_change_pct, Some(0));
    assert_eq!(s[0].total_weight, 500_000_000_000_000_000);
}

#[test]
fn average_rounds_towards_zero() {
    assert_eq!(average_of(&vec![]), Some(0));
    assert_eq!(average_of(&vec![1, 2]), Some(1));
    assert_eq!(average_of(&vec![-1, -2]), Some(-1));
    assert_eq!(average_of(&vec![-7, 2]), Some(-2));
    assert_eq!(average_of(&vec![i128::MIN]), Some(i128::MIN));
    assert_eq!(average_of(&vec![i128::MAX]), Some(i128::MAX));
    assert_eq!(average_of(&vec![i128::MIN, 0]), Some(i128::MIN / 2));
}

#[test]
fn average_is_absent_where_the_sum_does_not_fit() {
    assert_eq!(average_of(&vec![i128::MAX, 1]), None);
    assert_eq!(average_of(&vec![i128::MAX, 1, -5]), None);
    assert_eq!(average_of(&vec![i128::MIN, -1]), None);
    assert_eq!(average_of(&vec![i128::MAX, -1, 1]), Some(i128::MAX / 3));
}

#[test]
fn config_info() {
    let info = get_config(&config());
    assert_eq!(info.base_value, 1000 * UNIT);
    assert_eq!(info.market_cap_weight_pct, 50);
    assert_eq!(info.index_stock_count, 4);
    assert_eq!(info.benchmark_symbols, names(&["SPY"]));
}
