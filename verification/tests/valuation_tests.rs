use aiindex::error::IndexError;
use aiindex::valuation::{has_eligible, value, Quote};

const UNIT: u64 = 1_000_000;

fn quote(current: u64, base: u64, cap: Option<u64>) -> Quote {
    Quote { current_price: current, base_price: base, market_cap: cap }
}

fn two_symbols() -> Vec<Quote> {
    vec![
        quote(110 * UNIT, 100 * UNIT, Some(300 * UNIT)),
        quote(90 * UNIT, 100 * UNIT, Some(100 * UNIT)),
    ]
}

#[test]
fn value_two_symbols_half_by_cap() {
    // 1000 * (0.625 * 1.1 + 0.375 * 0.9) = 1000 * (0.6875 + 0.3375)
    assert_eq!(value(&two_symbols(), 50, 1000 * UNIT), Ok(1_025_000_000));
}

#[test]
fn value_two_symbols_quarter_by_cap() {
    // 1000 * (0.5625 * 1.1 + 0.4375 * 0.9) = 1012.5
    assert_eq!(value(&two_symbols(), 25, 1000 * UNIT), Ok(1_012_500_000));
}

#[test]
fn value_matches_float_formula() {
    let quotes = vec![
        quote(123_450_000, 100_000_000, Some(2_500_000 * UNIT)),
        quote(48_100_000, 52_000_000, Some(800_000 * UNIT)),
        quote(300 * UNIT, 150 * UNIT, None),
    ];
    let got = value(&quotes, 70, 1000 * UNIT).unwrap() as f64 / 1e6;
    let caps = [2_500_000.0f64, 800_000.0, 1.0];
    let total: f64 = caps.iter().sum();
    let rets = [1.2345f64, 48.1 / 52.0, 2.0];
    let mut expected = 0.0;
    for i in 0..3 {
        expected += (0.7 * caps[i] / total + 0.3 / 3.0) * rets[i];
    }
    expected *= 1000.0;
    assert!((got - expected).abs() < 1e-5, "{} vs {}", got, expected);
}

#[test]
fn value_does_not_depend_on_order() {
    let a = vec![
        quote(110 * UNIT, 100 * UNIT, Some(300 * UNIT)),
        quote(0, 100 * UNIT, Some(900 * UNIT)),
        quote(90 * UNIT, 100 * UNIT, Some(100 * UNIT)),
        quote(77 * UNIT, 13 * UNIT, None),
    ];
    let expected = value(&a, 40, 1000 * UNIT);
    assert!(expected.is_ok());
    let orders: [[usize; 4]; 5] =
        [[3, 2, 1, 0], [1, 0, 3, 2], [2, 0, 1, 3], [0, 3, 2, 1], [1, 2, 3, 0]];
    for order in orders {
        let b: Vec<Quote> = order.iter().map(|i| a[*i]).collect();
        assert_eq!(value(&b, 40, 1000 * UNIT), expected);
    }
}

#[test]
fn value_leaves_out_ineligible_quotes() {
    let with_dead = vec![
        quote(0, 100 * UNIT, Some(5_000 * UNIT)),
        quote(110 * UNIT, 100 * UNIT, Some(300 * UNIT)),
        quote(50 * UNIT, 0, Some(7_000 * UNIT)),
        quote(90 * UNIT, 100 * UNIT, Some(100 * UNIT)),
        quote(0, 0, None),
    ];
    assert_eq!(value(&with_dead, 50, 1000 * UNIT), value(&two_symbols(), 50, 1000 * UNIT));
    assert_eq!(value(&with_dead, 50, 1000 * UNIT), Ok(1_025_000_000));
}

#[test]
fn value_of_one_missing_quote_redistributes_its_share() {
    let quotes =
        vec![quote(120 * UNIT, 100 * UNIT, Some(UNIT)), quote(0, 100 * UNIT, Some(UNIT))];
    assert_eq!(value(&quotes, 50, 1000 * UNIT), Ok(1_200_000_000));
}

#[test]
fn value_empty_basket() {
    assert_eq!(value(&Vec::new(), 50, 1000 * UNIT), Err(IndexError::EmptyBasket));
}

#[test]
fn value_no_eligible_quotes() {
    let quotes = vec![quote(0, 100 * UNIT, None), quote(100 * UNIT, 0, None)];
    assert_eq!(value(&quotes, 50, 1000 * UNIT), Err(IndexError::NoEligibleQuotes));
}

#[test]
fn value_out_of_range() {
    let quotes = vec![quote(u64::MAX, 1, None)];
    assert_eq!(value(&quotes, 50, 2), Err(IndexError::ValueOutOfRange));
    assert_eq!(value(&quotes, 50, 1), Ok(u64::MAX));
    assert_eq!(value(&quotes, 50, u64::MAX), Err(IndexError::ValueOutOfRange));
}

#[test]
fn value_unchanged_prices_give_base_value() {
    let quotes = vec![
        quote(10 * UNIT, 10 * UNIT, Some(4 * UNIT)),
        quote(20 * UNIT, 20 * UNIT, Some(4 * UNIT)),
    ];
    assert_eq!(value(&quotes, 30, 1000 * UNIT), Ok(1000 * UNIT));
}

#[test]
fn value_zero_base_value_is_zero_not_absent() {
    assert_eq!(value(&two_symbols(), 50, 0), Ok(0));
}

#[test]
fn value_rounds_down() {
    let quotes = vec![quote(1, 3, None)];
    // one third of the base value, rounded down twice
    assert_eq!(value(&quotes, 0, 1_000_000), Ok(333_333));
    let quotes = vec![quote(1, 3, None), quote(1, 3, None), quote(1, 3, None)];
    assert_eq!(value(&quotes, 100, 3_000_000), Ok(999_999));
}

#[test]
fn quote_eligibility() {
    assert!(quote(1, 1, None).is_eligible());
    assert!(!quote(0, 1, None).is_eligible());
    assert!(!quote(1, 0, Some(5)).is_eligible());
}

#[test]
fn has_eligible_tells_whether_a_value_exists() {
    assert!(!has_eligible(&Vec::new()));
    assert!(!has_eligible(&vec![quote(0, 1, None), quote(1, 0, None)]));
    assert!(has_eligible(&vec![quote(0, 1, None), quote(1, 1, None)]));
    assert!(has_eligible(&two_symbols()));
}
