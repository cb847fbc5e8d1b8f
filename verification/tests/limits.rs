//! The borrow-limit calculator: exact values, rounding, determinism and
//! every error it can return.

use overseer::decimal::{mul_floor, Decimal, FRACTIONAL};
use overseer::error::OverseerError;
use overseer::limit::compute_borrow_limit;
use overseer::loan::CollateralEntry;
use overseer::snapshot::{
    PriceData, PriceEntry, PriceSnapshot, WhitelistItem, WhitelistSnapshot,
};

fn entry(asset: &[u8], amount: u128) -> CollateralEntry {
    CollateralEntry { asset: asset.to_vec(), amount }
}

fn whitelist(rows: Vec<(&[u8], Decimal)>) -> WhitelistSnapshot {
    WhitelistSnapshot {
        entries: rows
            .into_iter()
            .map(|(asset, ltv)| WhitelistItem { asset: asset.to_vec(), ltv })
            .collect(),
    }
}

fn prices(rows: Vec<(&[u8], Decimal)>) -> PriceSnapshot {
    PriceSnapshot {
        entries: rows
            .into_iter()
            .map(|(asset, rate)| PriceEntry {
                asset: asset.to_vec(),
                price: PriceData { rate, last_updated_base: 0, last_updated_quote: 0 },
            })
            .collect(),
    }
}

fn whole(x: u128) -> Decimal {
    Decimal::new(x * FRACTIONAL)
}

#[test]
fn empty_basket_has_limit_zero() {
    let w = whitelist(vec![]);
    let p = prices(vec![]);
    assert_eq!(compute_borrow_limit(&vec![], &w, &p), Ok(0));
}

#[test]
fn limit_sums_amount_times_ltv_times_price() {
    let w = whitelist(vec![(b"x", Decimal::percent(50)), (b"y", Decimal::percent(30))]);
    let p = prices(vec![(b"x", whole(10)), (b"y", whole(2))]);
    let basket = vec![entry(b"x", 100), entry(b"y", 50)];
    // 100 × 0.5 × 10 + 50 × 0.3 × 2 = 500 + 30
    assert_eq!(compute_borrow_limit(&basket, &w, &p), Ok(530));
}

#[test]
fn each_product_rounds_down_before_the_next() {
    let w = whitelist(vec![(b"x", Decimal::percent(15))]);
    let p = prices(vec![(b"x", Decimal::new(5 * FRACTIONAL / 2))]);
    // 10 × 0.15 = 1.5, floored to 1 before the price; 1 × 2.5 = 2.5, floored to 2
    let basket = vec![entry(b"x", 10)];
    assert_eq!(compute_borrow_limit(&basket, &w, &p), Ok(2));
}

#[test]
fn limit_is_deterministic_across_calls() {
    let w = whitelist(vec![(b"x", Decimal::percent(37))]);
    let p = prices(vec![(b"x", Decimal::new(7 * FRACTIONAL / 3))]);
    let basket = vec![entry(b"x", 12345), entry(b"y", 1)];
    let first = compute_borrow_limit(&basket, &w, &p);
    let second = compute_borrow_limit(&basket, &w, &p);
    assert_eq!(first, second);
}

#[test]
fn asset_without_whitelist_row_is_unknown() {
    let w = whitelist(vec![(b"x", Decimal::percent(50))]);
    let p = prices(vec![(b"x", whole(10)), (b"z", whole(1))]);
    let basket = vec![entry(b"x", 1), entry(b"z", 1)];
    assert_eq!(
        compute_borrow_limit(&basket, &w, &p),
        Err(OverseerError::UnknownCollateral)
    );
}

#[test]
fn whitelisted_asset_without_price_is_unavailable() {
    let w = whitelist(vec![(b"x", Decimal::percent(50)), (b"z", Decimal::percent(50))]);
    let p = prices(vec![(b"x", whole(10))]);
    let basket = vec![entry(b"z", 1)];
    assert_eq!(
        compute_borrow_limit(&basket, &w, &p),
        Err(OverseerError::PriceUnavailable)
    );
}

#[test]
fn the_whitelist_is_consulted_before_the_oracle() {
    // an asset in neither snapshot fails as unknown collateral, not as a
    // missing price
    let w = whitelist(vec![]);
    let p = prices(vec![]);
    let basket = vec![entry(b"z", 1)];
    assert_eq!(
        compute_borrow_limit(&basket, &w, &p),
        Err(OverseerError::UnknownCollateral)
    );
}

#[test]
fn an_unrepresentable_term_overflows() {
    let w = whitelist(vec![(b"x", Decimal::percent(100))]);
    let p = prices(vec![(b"x", whole(2))]);
    let basket = vec![entry(b"x", u128::MAX)];
    assert_eq!(
        compute_borrow_limit(&basket, &w, &p),
        Err(OverseerError::Overflow)
    );
}

#[test]
fn an_unrepresentable_sum_overflows() {
    let w = whitelist(vec![(b"x", Decimal::percent(100)), (b"y", Decimal::percent(100))]);
    let p = prices(vec![(b"x", whole(1)), (b"y", whole(1))]);
    let basket = vec![entry(b"x", u128::MAX), entry(b"y", 1)];
    assert_eq!(
        compute_borrow_limit(&basket, &w, &p),
        Err(OverseerError::Overflow)
    );
}

#[test]
fn zero_ltv_contributes_nothing() {
    let w = whitelist(vec![(b"x", Decimal::zero()), (b"y", Decimal::one())]);
    let p = prices(vec![(b"x", whole(1000)), (b"y", whole(3))]);
    let basket = vec![entry(b"x", 7), entry(b"y", 7)];
    assert_eq!(compute_borrow_limit(&basket, &w, &p), Ok(21));
}

#[test]
fn decimal_constructors_scale_as_documented() {
    assert_eq!(Decimal::zero().atomics, 0);
    assert_eq!(Decimal::one().atomics, FRACTIONAL);
    assert_eq!(Decimal::percent(50).atomics, FRACTIONAL / 2);
    assert_eq!(Decimal::percent(100).atomics, FRACTIONAL);
    assert_eq!(Decimal::new(42).atomics, 42);
}

#[test]
fn mul_floor_halves_exactly() {
    assert_eq!(mul_floor(7, Decimal::percent(50)), Some(3));
    assert_eq!(mul_floor(8, Decimal::percent(50)), Some(4));
    assert_eq!(mul_floor(0, Decimal::percent(50)), Some(0));
}

#[test]
fn mul_floor_of_large_factors_is_exact_or_none() {
    // 2^127 × 2 is the first unrepresentable doubling
    let big: u128 = 1u128 << 127;
    assert_eq!(mul_floor(big, whole(2)), None);
    assert_eq!(mul_floor(big - 1, whole(2)), Some(2 * (big - 1)));
    assert_eq!(mul_floor(u128::MAX, Decimal::one()), Some(u128::MAX));
}
