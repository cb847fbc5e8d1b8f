//! The borrow-limit calculator, the numerically sensitive heart of the core.
//!
//! For every (asset, amount) pair of a basket the calculator looks the asset
//! up in the whitelist, asks the price snapshot for its rate against the base
//! denomination, and accumulates `amount × ltv × price` — in exactly that
//! order, each product floored — into the running limit.  The order and the
//! floor are deliberate: they pin the rounding at the margins in the
//! protocol's favour.  Entries are visited left to right; a missing
//! whitelist row, a missing price or an accumulation that leaves `u128`
//! stops the walk at the first offending entry.

use crate::decimal::{lemma_scale_floor_monotone, lemma_scale_floor_nonneg, mul_floor, scale_floor};
use crate::error::OverseerError;
use crate::loan::{basket_extends, basket_view_eq, CollateralEntry};
use crate::snapshot::{spec_find_ltv, spec_find_price, PriceEntry, PriceSnapshot, WhitelistItem,
    WhitelistSnapshot};
use vstd::prelude::*;

verus! {

/// The value one entry contributes to the limit, ignoring representability:
/// `floor(floor(amount × ltv) × price)`, or zero when the whitelist or the
/// price snapshot has no row for the asset.
pub open spec fn spec_entry_term(e: CollateralEntry, w: Seq<WhitelistItem>, p: Seq<PriceEntry>) -> int {
    match spec_find_ltv(w, e.asset@) {
        None => 0,
        Some(l) => match spec_find_price(p, e.asset@) {
            None => 0,
            Some(pd) => scale_floor(
                scale_floor(e.amount as int, l.atomics as int),
                pd.rate.atomics as int,
            ),
        },
    }
}

/// The mathematical limit of a basket: the sum of every entry's term, over
/// unbounded integers.
pub open spec fn spec_math_limit(
    c: Seq<CollateralEntry>,
    w: Seq<WhitelistItem>,
    p: Seq<PriceEntry>,
) -> int
    decreases c.len(),
{
    if c.len() == 0 {
        0
    } else {
        spec_entry_term(c[0], w, p) + spec_math_limit(c.drop_first(), w, p)
    }
}

/// What the left-to-right walk returns from an accumulator: the exact value
/// of the limit computation, including which error stops it first.
pub open spec fn spec_borrow_limit_from(
    c: Seq<CollateralEntry>,
    w: Seq<WhitelistItem>,
    p: Seq<PriceEntry>,
    acc: u128,
) -> Result<u128, OverseerError>
    decreases c.len(),
{
    if c.len() == 0 {
        Ok(acc)
    } else {
        match spec_find_ltv(w, c[0].asset@) {
            None => Err(OverseerError::UnknownCollateral),
            Some(l) => match spec_find_price(p, c[0].asset@) {
                None => Err(OverseerError::PriceUnavailable),
                Some(pd) => {
                    let t1 = scale_floor(c[0].amount as int, l.atomics as int);
                    if t1 > u128::MAX {
                        Err(OverseerError::Overflow)
                    } else {
                        let t2 = scale_floor(t1, pd.rate.atomics as int);
                        if t2 > u128::MAX {
                            Err(OverseerError::Overflow)
                        } else if acc + t2 > u128::MAX {
                            Err(OverseerError::Overflow)
                        } else {
                            spec_borrow_limit_from(c.drop_first(), w, p, (acc + t2) as u128)
                        }
                    }
                },
            },
        }
    }
}

/// The borrow limit of a basket under a whitelist and a price snapshot.
pub open spec fn spec_borrow_limit(
    c: Seq<CollateralEntry>,
    w: Seq<WhitelistItem>,
    p: Seq<PriceEntry>,
) -> Result<u128, OverseerError> {
    spec_borrow_limit_from(c, w, p, 0)
}

/// Computes the risk-adjusted borrowing ceiling the basket supports.
///
/// Returns exactly what `spec_borrow_limit` denotes: `UnknownCollateral` at
/// the first asset without a whitelist row, `PriceUnavailable` at the first
/// without a price, `Overflow` when a term or the running sum leaves `u128`.
pub fn compute_borrow_limit(
    collaterals: &Vec<CollateralEntry>,
    whitelist: &WhitelistSnapshot,
    prices: &PriceSnapshot,
) -> (r: Result<u128, OverseerError>)
    ensures
        r == spec_borrow_limit(collaterals@, whitelist.entries@, prices.entries@),
{
    let ghost cw = collaterals@;
    let ghost ww = whitelist.entries@;
    let ghost pw = prices.entries@;
    let mut acc: u128 = 0;
    let n: usize = collaterals.len();
    let mut i: usize = 0;
    proof {
        assert(cw.skip(0) =~= cw);
    }
    while i < n
        invariant
            i <= n,
            n == cw.len(),
            cw == collaterals@,
            ww == whitelist.entries@,
            pw == prices.entries@,
            spec_borrow_limit_from(cw.skip(i as int), ww, pw, acc) == spec_borrow_limit(
                cw,
                ww,
                pw,
            ),
        decreases n - i,
    {
        proof {
            assert(cw.skip(i as int)[0] == cw[i as int]);
        }
        let entry_amount: u128 = collaterals[i].amount;
        let l = match whitelist.lookup_ltv(&collaterals[i].asset) {
            Some(l) => l,
            None => {
                return Err(OverseerError::UnknownCollateral);
            },
        };
        let pd = match prices.lookup_price(&collaterals[i].asset) {
            Some(pd) => pd,
            None => {
                return Err(OverseerError::PriceUnavailable);
            },
        };
        let t1: u128 = match mul_floor(entry_amount, l) {
            Some(v) => v,
            None => {
                return Err(OverseerError::Overflow);
            },
        };
        let t2: u128 = match mul_floor(t1, pd.rate) {
            Some(v) => v,
            None => {
                return Err(OverseerError::Overflow);
            },
        };
        acc = match acc.checked_add(t2) {
            Some(v) => v,
            None => {
                return Err(OverseerError::Overflow);
            },
        };
        proof {
            assert(cw.skip(i as int).drop_first() =~= cw.skip(i as int + 1));
        }
        i += 1;
    }
    proof {
        assert(cw.skip(n as int) =~= Seq::<CollateralEntry>::empty());
    }
    Ok(acc)
}

/// A successful walk returns the accumulator plus the mathematical limit:
/// success means no term and no partial sum ever left `u128`.
pub proof fn lemma_limit_from_ok(
    c: Seq<CollateralEntry>,
    w: Seq<WhitelistItem>,
    p: Seq<PriceEntry>,
    acc: u128,
    t: u128,
)
    requires
        spec_borrow_limit_from(c, w, p, acc) == Ok::<u128, OverseerError>(t),
    ensures
        acc + spec_math_limit(c, w, p) == t,
    decreases c.len(),
{
    if c.len() == 0 {
    } else {
        match spec_find_ltv(w, c[0].asset@) {
            None => {
                assert(false);
            },
            Some(l) => {
                match spec_find_price(p, c[0].asset@) {
                    None => {
                        assert(false);
                    },
                    Some(pd) => {
                        let t1 = scale_floor(c[0].amount as int, l.atomics as int);
                        let t2 = scale_floor(t1, pd.rate.atomics as int);
                        assert(t1 <= u128::MAX && t2 <= u128::MAX && acc + t2 <= u128::MAX);
                        lemma_limit_from_ok(c.drop_first(), w, p, (acc + t2) as u128, t);
                        assert(spec_entry_term(c[0], w, p) == t2);
                    },
                }
            },
        }
    }
}

/// Every term is non-negative, so the mathematical limit is too.
pub proof fn lemma_math_limit_nonneg(
    c: Seq<CollateralEntry>,
    w: Seq<WhitelistItem>,
    p: Seq<PriceEntry>,
)
    ensures
        0 <= spec_math_limit(c, w, p),
    decreases c.len(),
{
    if c.len() == 0 {
    } else {
        lemma_entry_term_nonneg(c[0], w, p);
        lemma_math_limit_nonneg(c.drop_first(), w, p);
    }
}

/// One entry's term is non-negative.
pub proof fn lemma_entry_term_nonneg(e: CollateralEntry, w: Seq<WhitelistItem>, p: Seq<PriceEntry>)
    ensures
        0 <= spec_entry_term(e, w, p),
{
    match spec_find_ltv(w, e.asset@) {
        None => {},
        Some(l) => {
            match spec_find_price(p, e.asset@) {
                None => {},
                Some(pd) => {
                    lemma_scale_floor_nonneg(e.amount as int, l.atomics as int);
                    lemma_scale_floor_nonneg(
                        scale_floor(e.amount as int, l.atomics as int),
                        pd.rate.atomics as int,
                    );
                },
            }
        },
    }
}

/// A larger amount of the same asset never contributes a smaller term.
pub proof fn lemma_entry_term_monotone(
    e1: CollateralEntry,
    e2: CollateralEntry,
    w: Seq<WhitelistItem>,
    p: Seq<PriceEntry>,
)
    requires
        e1.asset@ == e2.asset@,
        e1.amount <= e2.amount,
    ensures
        spec_entry_term(e1, w, p) <= spec_entry_term(e2, w, p),
{
    match spec_find_ltv(w, e1.asset@) {
        None => {},
        Some(l) => {
            match spec_find_price(p, e1.asset@) {
                None => {},
                Some(pd) => {
                    lemma_scale_floor_monotone(
                        e1.amount as int,
                        e2.amount as int,
                        l.atomics as int,
                    );
                    lemma_scale_floor_nonneg(e1.amount as int, l.atomics as int);
                    lemma_scale_floor_monotone(
                        scale_floor(e1.amount as int, l.atomics as int),
                        scale_floor(e2.amount as int, l.atomics as int),
                        pd.rate.atomics as int,
                    );
                },
            }
        },
    }
}

/// Extending a basket — growing amounts in place or appending entries —
/// never lowers the mathematical limit.
pub proof fn lemma_math_limit_extends(
    c1: Seq<CollateralEntry>,
    c2: Seq<CollateralEntry>,
    w: Seq<WhitelistItem>,
    p: Seq<PriceEntry>,
)
    requires
        basket_extends(c1, c2),
    ensures
        spec_math_limit(c1, w, p) <= spec_math_limit(c2, w, p),
    decreases c1.len(),
{
    if c1.len() == 0 {
        lemma_math_limit_nonneg(c2, w, p);
    } else {
        lemma_entry_term_monotone(c1[0], c2[0], w, p);
        assert(basket_extends(c1.drop_first(), c2.drop_first())) by {
            assert forall|i: int|
                0 <= i < c1.drop_first().len() implies (#[trigger] c2.drop_first()[i]).asset@
                == c1.drop_first()[i].asset@ && c2.drop_first()[i].amount
                >= c1.drop_first()[i].amount by {
                assert(c1.drop_first()[i] == c1[i + 1]);
                assert(c2.drop_first()[i] == c2[i + 1]);
            }
        }
        lemma_math_limit_extends(c1.drop_first(), c2.drop_first(), w, p);
    }
}

/// The walk reads nothing of a basket but its asset bytes and amounts: two
/// baskets that agree entry by entry get the same limit.
pub proof fn lemma_limit_congruent(
    c1: Seq<CollateralEntry>,
    c2: Seq<CollateralEntry>,
    w: Seq<WhitelistItem>,
    p: Seq<PriceEntry>,
    acc: u128,
)
    requires
        basket_view_eq(c1, c2),
    ensures
        spec_borrow_limit_from(c1, w, p, acc) == spec_borrow_limit_from(c2, w, p, acc),
    decreases c1.len(),
{
    if c1.len() == 0 {
    } else {
        assert(c2[0].asset@ == c1[0].asset@ && c2[0].amount == c1[0].amount);
        assert(basket_view_eq(c1.drop_first(), c2.drop_first())) by {
            assert forall|i: int|
                0 <= i < c1.drop_first().len() implies (#[trigger] c2.drop_first()[i]).asset@
                == c1.drop_first()[i].asset@ && c2.drop_first()[i].amount
                == c1.drop_first()[i].amount by {
                assert(c1.drop_first()[i] == c1[i + 1]);
                assert(c2.drop_first()[i] == c2[i + 1]);
            }
        }
        match spec_find_ltv(w, c1[0].asset@) {
            None => {},
            Some(l) => {
                match spec_find_price(p, c1[0].asset@) {
                    None => {},
                    Some(pd) => {
                        let t1 = scale_floor(c1[0].amount as int, l.atomics as int);
                        let t2 = scale_floor(t1, pd.rate.atomics as int);
                        if t1 <= u128::MAX && t2 <= u128::MAX && acc + t2 <= u128::MAX {
                            lemma_limit_congruent(
                                c1.drop_first(),
                                c2.drop_first(),
                                w,
                                p,
                                (acc + t2) as u128,
                            );
                        }
                    },
                }
            },
        }
    }
}

/// The limit computation is deterministic: two results of the computation
/// over the same basket, the same whitelist and the same price snapshot are
/// one value, errors included.
pub proof fn lemma_borrow_limit_deterministic(
    c: Seq<CollateralEntry>,
    w: Seq<WhitelistItem>,
    p: Seq<PriceEntry>,
    r1: Result<u128, OverseerError>,
    r2: Result<u128, OverseerError>,
)
    requires
        r1 == spec_borrow_limit(c, w, p),
        r2 == spec_borrow_limit(c, w, p),
    ensures
        r1 == r2,
{
}

/// Extending a basket never lowers a computable borrow limit.
pub proof fn lemma_extends_limit_geq(
    c1: Seq<CollateralEntry>,
    c2: Seq<CollateralEntry>,
    w: Seq<WhitelistItem>,
    p: Seq<PriceEntry>,
    t1: u128,
    t2: u128,
)
    requires
        basket_extends(c1, c2),
        spec_borrow_limit(c1, w, p) == Ok::<u128, OverseerError>(t1),
        spec_borrow_limit(c2, w, p) == Ok::<u128, OverseerError>(t2),
    ensures
        t1 <= t2,
{
    lemma_limit_from_ok(c1, w, p, 0, t1);
    lemma_limit_from_ok(c2, w, p, 0, t2);
    lemma_math_limit_extends(c1, c2, w, p);
}

/// Solvency survives locking collateral: a debt covered by the old basket's
/// limit is covered by the limit of any extension of it, whenever both
/// limits are computable.  Locking therefore needs no solvency check.
pub proof fn lemma_lock_preserves_solvency(
    c1: Seq<CollateralEntry>,
    c2: Seq<CollateralEntry>,
    w: Seq<WhitelistItem>,
    p: Seq<PriceEntry>,
    debt: u128,
    t1: u128,
    t2: u128,
)
    requires
        basket_extends(c1, c2),
        spec_borrow_limit(c1, w, p) == Ok::<u128, OverseerError>(t1),
        spec_borrow_limit(c2, w, p) == Ok::<u128, OverseerError>(t2),
        debt <= t1,
    ensures
        debt <= t2,
{
    lemma_extends_limit_geq(c1, c2, w, p, t1, t2);
}

} // verus!
