//! End-to-end scenarios: a borrower locks collateral, borrows to the limit,
//! and is stopped at every attempt to go past it.

use overseer::decimal::{Decimal, FRACTIONAL};
use overseer::error::OverseerError;
use overseer::handlers::{
    handle_borrow, handle_liquidiate_collateral, handle_lock_collateral,
    handle_unlock_collateral, Instruction,
};
use overseer::limit::compute_borrow_limit;
use overseer::loan::{CollateralEntry, Loan};
use overseer::snapshot::{
    Config, PriceData, PriceEntry, PriceSnapshot, WhitelistItem, WhitelistSnapshot,
};

fn asset_x() -> Vec<u8> {
    b"asset_x".to_vec()
}

fn borrower() -> Vec<u8> {
    b"borrower_1".to_vec()
}

fn config() -> Config {
    Config {
        market_contract: b"market".to_vec(),
        oracle_contract: b"oracle".to_vec(),
        base_denom: b"base".to_vec(),
    }
}

/// Whitelist: LTV of `asset_x` is 0.5.  Oracle: price of `asset_x` is 10.
fn snapshots() -> (WhitelistSnapshot, PriceSnapshot) {
    let whitelist = WhitelistSnapshot {
        entries: vec![WhitelistItem { asset: asset_x(), ltv: Decimal::percent(50) }],
    };
    let prices = PriceSnapshot {
        entries: vec![PriceEntry {
            asset: asset_x(),
            price: PriceData {
                rate: Decimal::new(10 * FRACTIONAL),
                last_updated_base: 7,
                last_updated_quote: 11,
            },
        }],
    };
    (whitelist, prices)
}

/// Locks 100 of `asset_x` for a fresh borrower, giving the loan of the
/// scenarios below: limit 100 × 0.5 × 10 = 500.
fn loan_with_100_locked() -> Loan {
    let deposits = vec![CollateralEntry { asset: asset_x(), amount: 100 }];
    let out = handle_lock_collateral(Loan::zero(), &borrower(), &deposits).unwrap();
    out.loan
}

#[test]
fn lock_100_gives_limit_500() {
    let (whitelist, prices) = snapshots();
    let deposits = vec![CollateralEntry { asset: asset_x(), amount: 100 }];
    let out = handle_lock_collateral(Loan::zero(), &borrower(), &deposits).unwrap();
    assert_eq!(out.loan.locked_amount(&asset_x()), 100);
    assert_eq!(out.loan.borrow_amount, 0);
    assert_eq!(
        out.instructions,
        vec![Instruction::LockCollateral {
            custody: asset_x(),
            borrower: borrower(),
            amount: 100,
        }]
    );
    assert_eq!(
        compute_borrow_limit(&out.loan.collaterals, &whitelist, &prices),
        Ok(500)
    );
}

#[test]
fn borrow_up_to_the_limit_succeeds() {
    let (whitelist, prices) = snapshots();
    let out = handle_borrow(
        loan_with_100_locked(),
        &config(),
        &borrower(),
        500,
        &whitelist,
        &prices,
    )
    .unwrap();
    assert_eq!(out.loan.borrow_amount, 500);
    assert_eq!(
        out.instructions,
        vec![Instruction::ExecuteLoan {
            market: b"market".to_vec(),
            borrower: borrower(),
            amount: 500,
        }]
    );
}

#[test]
fn one_more_unit_exceeds_the_limit() {
    let (whitelist, prices) = snapshots();
    let out = handle_borrow(
        loan_with_100_locked(),
        &config(),
        &borrower(),
        500,
        &whitelist,
        &prices,
    )
    .unwrap();
    let stored = out.loan.clone();
    let r = handle_borrow(out.loan, &config(), &borrower(), 1, &whitelist, &prices);
    assert_eq!(r.unwrap_err(), OverseerError::ExceedsLimit);
    // the rejected request left nothing to persist and no instruction
    assert_eq!(stored.borrow_amount, 500);
    assert_eq!(stored.locked_amount(&asset_x()), 100);
}

#[test]
fn unlocking_everything_while_indebted_is_insufficient() {
    let (whitelist, prices) = snapshots();
    let out = handle_borrow(
        loan_with_100_locked(),
        &config(),
        &borrower(),
        500,
        &whitelist,
        &prices,
    )
    .unwrap();
    let stored = out.loan.clone();
    let withdrawals = vec![CollateralEntry { asset: asset_x(), amount: 100 }];
    let r = handle_unlock_collateral(out.loan, &borrower(), &withdrawals, &whitelist, &prices);
    assert_eq!(r.unwrap_err(), OverseerError::InsufficientCollateral);
    assert_eq!(stored.borrow_amount, 500);
    assert_eq!(stored.locked_amount(&asset_x()), 100);
}

#[test]
fn unlock_within_the_limit_succeeds() {
    let (whitelist, prices) = snapshots();
    let out = handle_borrow(
        loan_with_100_locked(),
        &config(),
        &borrower(),
        400,
        &whitelist,
        &prices,
    )
    .unwrap();
    // limit after removing 20 units: 80 × 0.5 × 10 = 400 >= debt 400
    let withdrawals = vec![CollateralEntry { asset: asset_x(), amount: 20 }];
    let out =
        handle_unlock_collateral(out.loan, &borrower(), &withdrawals, &whitelist, &prices).unwrap();
    assert_eq!(out.loan.locked_amount(&asset_x()), 80);
    assert_eq!(out.loan.borrow_amount, 400);
    assert_eq!(
        out.instructions,
        vec![Instruction::UnlockCollateral {
            custody: asset_x(),
            borrower: borrower(),
            amount: 20,
        }]
    );
}

#[test]
fn liquidate_is_a_no_op() {
    let loan = loan_with_100_locked();
    let stored = loan.clone();
    let out = handle_liquidiate_collateral(loan, &borrower()).unwrap();
    assert_eq!(out.loan, stored);
    assert!(out.instructions.is_empty());
}
