use aiindex::error::IndexError;
use aiindex::units::{DEFAULT_MARKET_CAP, MICROS_PER_UNIT, WEIGHT_ONE};
use aiindex::weights::blend;

fn units(x: u64) -> u64 {
    x * MICROS_PER_UNIT
}

#[test]
fn blend_two_symbols_half_by_cap() {
    let caps = vec![Some(units(300)), Some(units(100))];
    let w = blend(&caps, 50).unwrap();
    assert_eq!(w, vec![625_000_000_000_000_000, 375_000_000_000_000_000]);
    assert_eq!(w[0] + w[1], WEIGHT_ONE);
}

#[test]
fn blend_two_symbols_all_by_cap() {
    let caps = vec![Some(units(300)), Some(units(100))];
    let w = blend(&caps, 100).unwrap();
    assert_eq!(w, vec![750_000_000_000_000_000, 250_000_000_000_000_000]);
}

#[test]
fn blend_empty_basket_fails() {
    let caps: Vec<Option<u64>> = Vec::new();
    assert_eq!(blend(&caps, 50), Err(IndexError::EmptyBasket));
}

#[test]
fn blend_without_cap_share_is_equal_weighting() {
    let caps = vec![Some(units(5_000)), Some(units(1)), None, Some(0)];
    let w = blend(&caps, 0).unwrap();
    assert_eq!(w, vec![WEIGHT_ONE / 4; 4]);
}

#[test]
fn blend_zero_total_cap_is_equal_weighting() {
    let caps = vec![Some(0), Some(0), Some(0)];
    for pct in [0u32, 1, 37, 50, 99, 100] {
        assert_eq!(blend(&caps, pct).unwrap(), blend(&caps, 0).unwrap());
    }
    assert_eq!(blend(&caps, 80).unwrap(), vec![333_333_333_333_333_333; 3]);
}

#[test]
fn blend_unknown_cap_counts_as_one_unit() {
    let with_unknown = vec![None, Some(units(3))];
    let with_default = vec![Some(DEFAULT_MARKET_CAP), Some(units(3))];
    assert_eq!(blend(&with_unknown, 100).unwrap(), blend(&with_default, 100).unwrap());
    assert_eq!(
        blend(&with_unknown, 100).unwrap(),
        vec![250_000_000_000_000_000, 750_000_000_000_000_000]
    );
}

#[test]
fn blend_weights_sum_to_one_within_rounding() {
    let caps = vec![Some(7), Some(11), None, Some(13), Some(0), Some(u64::MAX), None];
    for pct in [0u32, 1, 33, 50, 67, 99, 100] {
        let w = blend(&caps, pct).unwrap();
        let sum: u128 = w.iter().map(|x| *x as u128).sum();
        assert!(sum <= WEIGHT_ONE as u128);
        assert!(sum + 2 * (caps.len() as u128) > WEIGHT_ONE as u128);
    }
}

#[test]
fn blend_rounds_each_share_down() {
    let caps = vec![Some(1), Some(1), Some(1)];
    let w = blend(&caps, 100).unwrap();
    assert_eq!(w, vec![333_333_333_333_333_333; 3]);
    let w = blend(&caps, 50).unwrap();
    assert_eq!(w, vec![333_333_333_333_333_333; 3]);
}

#[test]
fn blend_zero_cap_keeps_equal_share_floor() {
    let caps = vec![Some(0), Some(units(10))];
    let w = blend(&caps, 60).unwrap();
    assert_eq!(w, vec![200_000_000_000_000_000, 800_000_000_000_000_000]);
    let w = blend(&caps, 100).unwrap();
    assert_eq!(w, vec![0, WEIGHT_ONE]);
}

#[test]
fn blend_single_symbol_has_all_weight() {
    for pct in [0u32, 50, 100] {
        assert_eq!(blend(&vec![Some(units(42))], pct).unwrap(), vec![WEIGHT_ONE]);
        assert_eq!(blend(&vec![None], pct).unwrap(), vec![WEIGHT_ONE]);
    }
}

#[test]
fn blend_survives_largest_caps() {
    let caps = vec![Some(u64::MAX), Some(u64::MAX)];
    let w = blend(&caps, 100).unwrap();
    assert_eq!(w, vec![WEIGHT_ONE / 2, WEIGHT_ONE / 2]);
}
