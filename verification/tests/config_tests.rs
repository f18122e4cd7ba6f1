use aiindex::config::{append_symbols, Benchmarks, Sector, SectorEntry, Settings, StocksConfig};

fn names(v: &[&str]) -> Vec<String> {
    v.iter().map(|s| s.to_string()).collect()
}

fn config(pct: u32) -> StocksConfig {
    StocksConfig {
        settings: Settings { base_value: 1_000_000_000, market_cap_weight_pct: pct },
        sectors: vec![
            SectorEntry {
                key: "chips".to_string(),
                sector: Sector { label: "Chips".to_string(), symbols: names(&["NVDA", "AMD"]) },
            },
            SectorEntry {
                key: "empty".to_string(),
                sector: Sector { label: "Empty".to_string(), symbols: Vec::new() },
            },
            SectorEntry {
                key: "cloud".to_string(),
                sector: Sector { label: "Cloud".to_string(), symbols: names(&["MSFT"]) },
            },
        ],
        benchmarks: Benchmarks { symbols: names(&["SPY", "QQQ"]) },
    }
}

#[test]
fn index_symbols_lists_sectors_in_order() {
    assert_eq!(config(50).index_symbols(), names(&["NVDA", "AMD", "MSFT"]));
}

#[test]
fn all_symbols_adds_benchmarks_last() {
    assert_eq!(config(50).all_symbols(), names(&["NVDA", "AMD", "MSFT", "SPY", "QQQ"]));
}

#[test]
fn mcap_pct_is_the_setting() {
    assert_eq!(config(37).mcap_pct(), 37);
}

#[test]
fn config_validity() {
    assert!(config(0).is_valid());
    assert!(config(100).is_valid());
    assert!(!config(101).is_valid());
}

#[test]
fn append_symbols_keeps_what_was_there() {
    let mut to = names(&["A"]);
    append_symbols(&mut to, &names(&["B", "C"]));
    assert_eq!(to, names(&["A", "B", "C"]));
    append_symbols(&mut to, &Vec::new());
    assert_eq!(to, names(&["A", "B", "C"]));
}

#[test]
fn config_with_a_repeated_sector_key_is_not_valid() {
    let mut cfg = config(50);
    assert!(cfg.is_valid());
    cfg.sectors.push(SectorEntry {
        key: "chips".to_string(),
        sector: Sector { label: "More chips".to_string(), symbols: names(&["INTC"]) },
    });
    assert!(!cfg.is_valid());
}
