//! The ledger record: merging deposits, checked subtraction, and the
//! all-or-nothing behaviour of both mutations.

use overseer::error::OverseerError;
use overseer::handlers::{handle_lock_collateral, AuditRecord, Instruction};
use overseer::loan::{CollateralEntry, Loan};

fn entry(asset: &[u8], amount: u128) -> CollateralEntry {
    CollateralEntry { asset: asset.to_vec(), amount }
}

fn loan_with(entries: Vec<CollateralEntry>) -> Loan {
    let mut loan = Loan::zero();
    loan.add_collateral(&entries).unwrap();
    loan
}

#[test]
fn add_merges_deltas_of_one_asset() {
    let mut loan = Loan::zero();
    let deltas = vec![entry(b"x", 5), entry(b"y", 2), entry(b"x", 7)];
    assert_eq!(loan.add_collateral(&deltas), Ok(()));
    assert_eq!(loan.collaterals.len(), 2);
    assert_eq!(loan.locked_amount(&b"x".to_vec()), 12);
    assert_eq!(loan.locked_amount(&b"y".to_vec()), 2);
}

#[test]
fn add_overflow_changes_nothing() {
    let mut loan = loan_with(vec![entry(b"x", u128::MAX - 1)]);
    let stored = loan.clone();
    let deltas = vec![entry(b"y", 3), entry(b"x", 2)];
    assert_eq!(loan.add_collateral(&deltas), Err(OverseerError::Overflow));
    assert_eq!(loan, stored);
}

#[test]
fn sub_underflow_changes_nothing() {
    let mut loan = loan_with(vec![entry(b"x", 50), entry(b"y", 9)]);
    let stored = loan.clone();
    let deltas = vec![entry(b"y", 1), entry(b"x", 60)];
    assert_eq!(loan.sub_collateral(&deltas), Err(OverseerError::Underflow));
    assert_eq!(loan, stored);
}

#[test]
fn sub_underflow_on_repeated_asset() {
    let mut loan = loan_with(vec![entry(b"x", 5)]);
    let stored = loan.clone();
    let deltas = vec![entry(b"x", 3), entry(b"x", 3)];
    assert_eq!(loan.sub_collateral(&deltas), Err(OverseerError::Underflow));
    assert_eq!(loan, stored);
}

#[test]
fn sub_of_absent_asset_underflows() {
    let mut loan = loan_with(vec![entry(b"x", 5)]);
    let stored = loan.clone();
    assert_eq!(
        loan.sub_collateral(&vec![entry(b"z", 1)]),
        Err(OverseerError::Underflow)
    );
    assert_eq!(loan, stored);
}

#[test]
fn sub_to_zero_keeps_the_entry() {
    let mut loan = loan_with(vec![entry(b"x", 5)]);
    assert_eq!(
        loan.sub_collateral(&vec![entry(b"x", 2), entry(b"x", 3)]),
        Ok(())
    );
    assert_eq!(loan.collaterals.len(), 1);
    assert_eq!(loan.locked_amount(&b"x".to_vec()), 0);
}

#[test]
fn sub_zero_of_absent_asset_is_allowed() {
    let mut loan = loan_with(vec![entry(b"x", 5)]);
    assert_eq!(loan.sub_collateral(&vec![entry(b"z", 0)]), Ok(()));
    assert_eq!(loan.locked_amount(&b"x".to_vec()), 5);
    assert_eq!(loan.collaterals.len(), 1);
}

#[test]
fn lock_needs_no_whitelist_and_only_grows_amounts() {
    // locking never consults the whitelist or the oracle: it cannot fail
    // the solvency check, only grow each targeted asset's locked amount
    let loan = loan_with(vec![entry(b"x", 10)]);
    let deposits = vec![entry(b"x", 4), entry(b"unlisted", 6)];
    let out = handle_lock_collateral(loan, &b"b".to_vec(), &deposits).unwrap();
    assert_eq!(out.loan.locked_amount(&b"x".to_vec()), 14);
    assert_eq!(out.loan.locked_amount(&b"unlisted".to_vec()), 6);
}

#[test]
fn lock_of_zero_leaves_the_amount_unchanged() {
    let loan = loan_with(vec![entry(b"x", 10)]);
    let out = handle_lock_collateral(loan, &b"b".to_vec(), &vec![entry(b"x", 0)]).unwrap();
    assert_eq!(out.loan.locked_amount(&b"x".to_vec()), 10);
}

#[test]
fn lock_emits_one_instruction_per_deposit_in_order() {
    let deposits = vec![entry(b"x", 4), entry(b"y", 6)];
    let out = handle_lock_collateral(Loan::zero(), &b"b".to_vec(), &deposits).unwrap();
    assert_eq!(
        out.instructions,
        vec![
            Instruction::LockCollateral {
                custody: b"x".to_vec(),
                borrower: b"b".to_vec(),
                amount: 4,
            },
            Instruction::LockCollateral {
                custody: b"y".to_vec(),
                borrower: b"b".to_vec(),
                amount: 6,
            },
        ]
    );
    assert_eq!(
        out.audit,
        AuditRecord::Lock { borrower: b"b".to_vec(), collaterals: deposits }
    );
}

#[test]
fn fresh_borrower_has_the_zero_record() {
    let loan = Loan::zero();
    assert_eq!(loan.borrow_amount, 0);
    assert!(loan.collaterals.is_empty());
    assert_eq!(loan.locked_amount(&b"anything".to_vec()), 0);
}
