//! The four borrower-facing operations and their solvency gate.
//!
//! Each handler is a pure function of (current ledger record, snapshots,
//! request): it returns either the record to persist together with the
//! outbound instructions and an audit record, or an error.  A rejected
//! request returns only the error — there is no record to persist and no
//! instruction to deliver, so rejection can leave no side effect anywhere.
//! The hosting layer reads the record before the call and persists the
//! returned one only on success.

use crate::addr::clone_bytes;
use crate::error::OverseerError;
use crate::limit::{
    compute_borrow_limit, lemma_limit_congruent, spec_borrow_limit,
};
use crate::loan::{
    amount_of, basket_extends, basket_view_eq, clone_entries, delta_total, lemma_delta_total_nonneg,
    sub_result, CollateralEntry, Loan,
};
use crate::snapshot::{Config, PriceEntry, PriceSnapshot, WhitelistItem, WhitelistSnapshot};
use vstd::prelude::*;

verus! {

/// One outbound instruction to a collaborator, returned — never sent — by a
/// handler; the hosting layer delivers the whole list atomically with the
/// persisted record.
#[derive(PartialEq, Eq, Debug)]
pub enum Instruction {
    /// To the custody collaborator of the asset: lock `amount` of it for
    /// `borrower`.
    LockCollateral { custody: Vec<u8>, borrower: Vec<u8>, amount: u128 },
    /// To the custody collaborator of the asset: release `amount` of it to
    /// `borrower`.
    UnlockCollateral { custody: Vec<u8>, borrower: Vec<u8>, amount: u128 },
    /// To the market collaborator: disburse a loan of `amount` to
    /// `borrower`.
    ExecuteLoan { market: Vec<u8>, borrower: Vec<u8>, amount: u128 },
}

/// The audit record emitted beside each successful mutation: the action,
/// the borrower and the amounts moved.  Informational, not authoritative.
#[derive(PartialEq, Eq, Debug)]
pub enum AuditRecord {
    Lock { borrower: Vec<u8>, collaterals: Vec<CollateralEntry> },
    Unlock { borrower: Vec<u8>, collaterals: Vec<CollateralEntry> },
    Borrow { borrower: Vec<u8>, amount: u128 },
    Liquidate { borrower: Vec<u8> },
}

/// Everything a successful operation hands back: the ledger record to
/// persist, the instructions to deliver and the audit record.
#[derive(Debug)]
pub struct HandleOutcome {
    pub loan: Loan,
    pub instructions: Vec<Instruction>,
    pub audit: AuditRecord,
}

/// The instruction list is one custody lock per deposit, in request order.
pub open spec fn lock_instructions_match(
    ins: Seq<Instruction>,
    ds: Seq<CollateralEntry>,
    borrower: Seq<u8>,
) -> bool {
    &&& ins.len() == ds.len()
    &&& forall|i: int|
        0 <= i < ds.len() ==> ((#[trigger] ins[i]) matches Instruction::LockCollateral {
            custody,
            borrower: b,
            amount,
        } && custody@ == ds[i].asset@ && b@ == borrower && amount == ds[i].amount)
}

/// The instruction list is one custody release per withdrawal, in request
/// order.
pub open spec fn unlock_instructions_match(
    ins: Seq<Instruction>,
    ds: Seq<CollateralEntry>,
    borrower: Seq<u8>,
) -> bool {
    &&& ins.len() == ds.len()
    &&& forall|i: int|
        0 <= i < ds.len() ==> ((#[trigger] ins[i]) matches Instruction::UnlockCollateral {
            custody,
            borrower: b,
            amount,
        } && custody@ == ds[i].asset@ && b@ == borrower && amount == ds[i].amount)
}

/// The audit list repeats the request's (asset, amount) pairs.
pub open spec fn audit_entries_match(
    audited: Seq<CollateralEntry>,
    ds: Seq<CollateralEntry>,
) -> bool {
    &&& audited.len() == ds.len()
    &&& forall|i: int|
        0 <= i < ds.len() ==> (#[trigger] audited[i]).asset@ == ds[i].asset@ && audited[i].amount
            == ds[i].amount
}

/// Why an unlock request is rejected, if it is: the first failing check
/// among underflow, the limit walk over the reduced basket, and the
/// solvency comparison.
pub open spec fn spec_unlock_error(
    c: Seq<CollateralEntry>,
    ds: Seq<CollateralEntry>,
    w: Seq<WhitelistItem>,
    p: Seq<PriceEntry>,
    debt: u128,
) -> Option<OverseerError> {
    if exists|a: Seq<u8>| #[trigger] delta_total(ds, a) > amount_of(c, a) {
        Some(OverseerError::Underflow)
    } else {
        match spec_borrow_limit(sub_result(c, ds), w, p) {
            Err(e) => Some(e),
            Ok(l) => if debt > l {
                Some(OverseerError::InsufficientCollateral)
            } else {
                None
            },
        }
    }
}

/// Why a borrow request is rejected, if it is: the first failing check
/// among debt overflow, the limit walk over the unchanged basket, and the
/// solvency comparison.
pub open spec fn spec_borrow_error(
    c: Seq<CollateralEntry>,
    debt: u128,
    amount: u128,
    w: Seq<WhitelistItem>,
    p: Seq<PriceEntry>,
) -> Option<OverseerError> {
    if debt + amount > u128::MAX {
        Some(OverseerError::Overflow)
    } else {
        match spec_borrow_limit(c, w, p) {
            Err(e) => Some(e),
            Ok(l) => if debt + amount > l {
                Some(OverseerError::ExceedsLimit)
            } else {
                None
            },
        }
    }
}

/// Locks collateral: adds the deposits to the basket, persists
/// unconditionally — more collateral can only improve solvency, so no limit
/// check is made — and instructs each asset's custody collaborator.
///
/// Fails only when an asset's locked amount would leave `u128`.
pub fn handle_lock_collateral(
    loan: Loan,
    borrower: &Vec<u8>,
    deposits: &Vec<CollateralEntry>,
) -> (r: Result<HandleOutcome, OverseerError>)
    requires
        loan.wf(),
    ensures
        r matches Err(e) ==> e == OverseerError::Overflow,
        r is Ok <==> (forall|a: Seq<u8>|
            #[trigger] amount_of(loan.collaterals@, a) + delta_total(deposits@, a) <= u128::MAX),
        r matches Ok(out) ==> out.loan.wf() && out.loan.borrow_amount == loan.borrow_amount,
        r matches Ok(out) ==> (forall|a: Seq<u8>|
            #[trigger] amount_of(out.loan.collaterals@, a) == amount_of(loan.collaterals@, a)
                + delta_total(deposits@, a)),
        r matches Ok(out) ==> (forall|a: Seq<u8>|
            #[trigger] amount_of(out.loan.collaterals@, a) >= amount_of(loan.collaterals@, a)),
        r matches Ok(out) ==> basket_extends(loan.collaterals@, out.loan.collaterals@),
        r matches Ok(out) ==> lock_instructions_match(out.instructions@, deposits@, borrower@),
        r matches Ok(out) ==> (out.audit matches AuditRecord::Lock { borrower: b, collaterals: cs }
            && b@ == borrower@ && audit_entries_match(cs@, deposits@)),
{
    let mut updated = loan;
    match updated.add_collateral(deposits) {
        Ok(()) => {},
        Err(e) => {
            return Err(e);
        },
    }
    proof {
        assert forall|a: Seq<u8>| #[trigger] amount_of(updated.collaterals@, a) >= amount_of(
            loan.collaterals@,
            a,
        ) by {
            lemma_delta_total_nonneg(deposits@, a);
        }
    }
    let mut instructions: Vec<Instruction> = Vec::new();
    let n: usize = deposits.len();
    let mut i: usize = 0;
    while i < n
        invariant
            i <= n,
            n == deposits@.len(),
            instructions@.len() == i,
            forall|k: int|
                0 <= k < i ==> ((#[trigger] instructions@[k])
                    matches Instruction::LockCollateral { custody, borrower: b, amount }
                    && custody@ == deposits@[k].asset@ && b@ == borrower@ && amount
                    == deposits@[k].amount),
        decreases n - i,
    {
        instructions.push(
            Instruction::LockCollateral {
                custody: clone_bytes(&deposits[i].asset),
                borrower: clone_bytes(borrower),
                amount: deposits[i].amount,
            },
        );
        i += 1;
    }
    let audit = AuditRecord::Lock {
        borrower: clone_bytes(borrower),
        collaterals: clone_entries(deposits),
    };
    Ok(HandleOutcome { loan: updated, instructions, audit })
}

/// Unlocks collateral: subtracts the withdrawals, recomputes the borrow
/// limit over the already-reduced basket, and rejects with
/// `InsufficientCollateral` when the outstanding debt exceeds that limit.
/// On success the reduced record is handed back for persistence together
/// with one custody release per withdrawal.
pub fn handle_unlock_collateral(
    loan: Loan,
    borrower: &Vec<u8>,
    withdrawals: &Vec<CollateralEntry>,
    whitelist: &WhitelistSnapshot,
    prices: &PriceSnapshot,
) -> (r: Result<HandleOutcome, OverseerError>)
    requires
        loan.wf(),
    ensures
        r matches Err(e) ==> spec_unlock_error(
            loan.collaterals@,
            withdrawals@,
            whitelist.entries@,
            prices.entries@,
            loan.borrow_amount,
        ) == Some(e),
        r is Ok ==> spec_unlock_error(
            loan.collaterals@,
            withdrawals@,
            whitelist.entries@,
            prices.entries@,
            loan.borrow_amount,
        ) is None,
        r matches Ok(out) ==> out.loan.wf() && out.loan.borrow_amount == loan.borrow_amount,
        r matches Ok(out) ==> basket_view_eq(
            sub_result(loan.collaterals@, withdrawals@),
            out.loan.collaterals@,
        ),
        r matches Ok(out) ==> (forall|a: Seq<u8>|
            #[trigger] amount_of(out.loan.collaterals@, a) == amount_of(loan.collaterals@, a)
                - delta_total(withdrawals@, a)),
        r matches Ok(out) ==> (spec_borrow_limit(
            out.loan.collaterals@,
            whitelist.entries@,
            prices.entries@,
        ) matches Ok(l) && out.loan.borrow_amount <= l),
        r matches Ok(out) ==> unlock_instructions_match(out.instructions@, withdrawals@, borrower@),
        r matches Ok(out) ==> (out.audit matches AuditRecord::Unlock {
            borrower: b,
            collaterals: cs,
        } && b@ == borrower@ && audit_entries_match(cs@, withdrawals@)),
{
    let mut updated = loan;
    match updated.sub_collateral(withdrawals) {
        Ok(()) => {},
        Err(e) => {
            return Err(e);
        },
    }
    proof {
        lemma_limit_congruent(
            sub_result(loan.collaterals@, withdrawals@),
            updated.collaterals@,
            whitelist.entries@,
            prices.entries@,
            0,
        );
    }
    let limit = match compute_borrow_limit(&updated.collaterals, whitelist, prices) {
        Ok(l) => l,
        Err(e) => {
            return Err(e);
        },
    };
    if limit < updated.borrow_amount {
        return Err(OverseerError::InsufficientCollateral);
    }
    let mut instructions: Vec<Instruction> = Vec::new();
    let n: usize = withdrawals.len();
    let mut i: usize = 0;
    while i < n
        invariant
            i <= n,
            n == withdrawals@.len(),
            instructions@.len() == i,
            forall|k: int|
                0 <= k < i ==> ((#[trigger] instructions@[k])
                    matches Instruction::UnlockCollateral { custody, borrower: b, amount }
                    && custody@ == withdrawals@[k].asset@ && b@ == borrower@ && amount
                    == withdrawals@[k].amount),
        decreases n - i,
    {
        instructions.push(
            Instruction::UnlockCollateral {
                custody: clone_bytes(&withdrawals[i].asset),
                borrower: clone_bytes(borrower),
                amount: withdrawals[i].amount,
            },
        );
        i += 1;
    }
    let audit = AuditRecord::Unlock {
        borrower: clone_bytes(borrower),
        collaterals: clone_entries(withdrawals),
    };
    Ok(HandleOutcome { loan: updated, instructions, audit })
}

/// Borrows against the basket: raises the debt in a working copy,
/// recomputes the limit over the unchanged basket, and rejects with
/// `ExceedsLimit` when the new debt exceeds it.  On success the raised
/// record is handed back for persistence together with one market
/// instruction for the amount.
pub fn handle_borrow(
    loan: Loan,
    config: &Config,
    borrower: &Vec<u8>,
    amount: u128,
    whitelist: &WhitelistSnapshot,
    prices: &PriceSnapshot,
) -> (r: Result<HandleOutcome, OverseerError>)
    requires
        loan.wf(),
    ensures
        r matches Err(e) ==> spec_borrow_error(
            loan.collaterals@,
            loan.borrow_amount,
            amount,
            whitelist.entries@,
            prices.entries@,
        ) == Some(e),
        r is Ok ==> spec_borrow_error(
            loan.collaterals@,
            loan.borrow_amount,
            amount,
            whitelist.entries@,
            prices.entries@,
        ) is None,
        r matches Ok(out) ==> out.loan.wf() && out.loan.collaterals@ == loan.collaterals@
            && out.loan.borrow_amount == loan.borrow_amount + amount,
        r matches Ok(out) ==> (spec_borrow_limit(
            out.loan.collaterals@,
            whitelist.entries@,
            prices.entries@,
        ) matches Ok(l) && out.loan.borrow_amount <= l),
        r matches Ok(out) ==> out.instructions@.len() == 1 && (out.instructions@[0]
            matches Instruction::ExecuteLoan { market, borrower: b, amount: amt } && market@
            == config.market_contract@ && b@ == borrower@ && amt == amount),
        r matches Ok(out) ==> (out.audit matches AuditRecord::Borrow { borrower: b, amount: amt }
            && b@ == borrower@ && amt == amount),
{
    let mut updated = loan;
    let new_debt: u128 = match updated.borrow_amount.checked_add(amount) {
        Some(v) => v,
        None => {
            return Err(OverseerError::Overflow);
        },
    };
    let limit = match compute_borrow_limit(&updated.collaterals, whitelist, prices) {
        Ok(l) => l,
        Err(e) => {
            return Err(e);
        },
    };
    if limit < new_debt {
        return Err(OverseerError::ExceedsLimit);
    }
    updated.borrow_amount = new_debt;
    let mut instructions: Vec<Instruction> = Vec::new();
    instructions.push(
        Instruction::ExecuteLoan {
            market: clone_bytes(&config.market_contract),
            borrower: clone_bytes(borrower),
            amount,
        },
    );
    let audit = AuditRecord::Borrow { borrower: clone_bytes(borrower), amount };
    Ok(HandleOutcome { loan: updated, instructions, audit })
}

/// Extension point for seizing an insolvent borrower's collateral.
///
/// Deliberately a no-op for now: the record is handed back unchanged and no
/// instruction is emitted.  Liquidation mechanics are intentionally left
/// undecided; any future behaviour belongs here.
pub fn handle_liquidiate_collateral(loan: Loan, borrower: &Vec<u8>) -> (r: Result<
    HandleOutcome,
    OverseerError,
>)
    ensures
        r is Ok,
        r matches Ok(out) ==> out.loan == loan && out.instructions@.len() == 0,
        r matches Ok(out) ==> (out.audit matches AuditRecord::Liquidate { borrower: b } && b@
            == borrower@),
{
    let audit = AuditRecord::Liquidate { borrower: clone_bytes(borrower) };
    Ok(HandleOutcome { loan, instructions: Vec::new(), audit })
}

} // verus!
