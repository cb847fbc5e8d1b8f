//! The per-borrower ledger record and its two mutations.
//!
//! A `Loan` holds the borrower's collateral basket — an ordered list of
//! (asset, locked amount) pairs in which no two entries share an asset — and
//! the outstanding debt.  `add_collateral` and `sub_collateral` are the only
//! mutations; both are all-or-nothing: on any failure the record is left
//! exactly as it was.

use crate::addr::{bytes_eq, clone_bytes};
use crate::error::OverseerError;
use vstd::prelude::*;

verus! {

/// One (asset, locked amount) pair of a collateral basket.
#[derive(Clone, PartialEq, Eq, Debug)]
#[verifier::ext_equal]
pub struct CollateralEntry {
    /// Canonical identifier of the collateral asset.
    pub asset: Vec<u8>,
    /// Locked units of that asset.
    pub amount: u128,
}

/// The ledger record of one borrower: the collateral basket and the
/// outstanding debt in the base denomination.
///
/// A borrower without a stored record implicitly owns `Loan::zero()`; a
/// record is never deleted, only driven back to zero.
#[derive(Clone, PartialEq, Eq, Debug)]
#[verifier::ext_equal]
pub struct Loan {
    /// The collateral basket; no two entries share an asset identifier.
    pub collaterals: Vec<CollateralEntry>,
    /// Outstanding debt in the base denomination.
    pub borrow_amount: u128,
}

/// The locked amount of `asset` in a basket: the amount of the first (in a
/// well-formed basket, only) entry carrying it, zero when absent.
pub open spec fn amount_of(c: Seq<CollateralEntry>, asset: Seq<u8>) -> int
    decreases c.len(),
{
    if c.len() == 0 {
        0
    } else if c[0].asset@ == asset {
        c[0].amount as int
    } else {
        amount_of(c.drop_first(), asset)
    }
}

/// Whether some entry of the basket carries `asset`.
pub open spec fn has_asset(c: Seq<CollateralEntry>, asset: Seq<u8>) -> bool
    decreases c.len(),
{
    if c.len() == 0 {
        false
    } else if c[0].asset@ == asset {
        true
    } else {
        has_asset(c.drop_first(), asset)
    }
}

/// No two entries of the basket share an asset identifier.
pub open spec fn distinct_assets(c: Seq<CollateralEntry>) -> bool {
    forall|i: int, j: int| 0 <= i < j < c.len() ==> c[i].asset@ != c[j].asset@
}

/// The total amount a delta list requests for `asset`.
pub open spec fn delta_total(ds: Seq<CollateralEntry>, asset: Seq<u8>) -> int
    decreases ds.len(),
{
    if ds.len() == 0 {
        0
    } else {
        (if ds[0].asset@ == asset {
            ds[0].amount as int
        } else {
            0
        }) + delta_total(ds.drop_first(), asset)
    }
}

/// `c2` extends `c1`: every entry of `c1` stands at its place with the same
/// asset and at least its amount; new entries only follow.
pub open spec fn basket_extends(c1: Seq<CollateralEntry>, c2: Seq<CollateralEntry>) -> bool {
    &&& c1.len() <= c2.len()
    &&& forall|i: int|
        0 <= i < c1.len() ==> (#[trigger] c2[i]).asset@ == c1[i].asset@ && c2[i].amount
            >= c1[i].amount
}

/// Two baskets agree entry by entry: same length, same asset bytes and the
/// same amount at every index.
pub open spec fn basket_view_eq(c1: Seq<CollateralEntry>, c2: Seq<CollateralEntry>) -> bool {
    &&& c1.len() == c2.len()
    &&& forall|i: int|
        0 <= i < c1.len() ==> (#[trigger] c2[i]).asset@ == c1[i].asset@ && c2[i].amount
            == c1[i].amount
}

/// The basket left after a delta list is subtracted: every entry keeps its
/// place and its asset, its amount shrinks by the total the deltas request
/// for that asset.
pub open spec fn sub_result(c: Seq<CollateralEntry>, ds: Seq<CollateralEntry>) -> Seq<
    CollateralEntry,
> {
    Seq::new(
        c.len(),
        |i: int|
            CollateralEntry {
                asset: c[i].asset,
                amount: (c[i].amount - delta_total(ds, c[i].asset@)) as u128,
            },
    )
}

/// A locked amount is one entry's amount or zero, so it fits in `u128`.
pub proof fn lemma_amount_of_bounds(c: Seq<CollateralEntry>, asset: Seq<u8>)
    ensures
        0 <= amount_of(c, asset) <= u128::MAX,
    decreases c.len(),
{
    if c.len() == 0 {
    } else if c[0].asset@ == asset {
    } else {
        lemma_amount_of_bounds(c.drop_first(), asset);
    }
}

/// Distinctness of assets survives dropping the first entry.
pub proof fn lemma_distinct_drop_first(c: Seq<CollateralEntry>)
    requires
        distinct_assets(c),
        c.len() > 0,
    ensures
        distinct_assets(c.drop_first()),
{
    assert forall|i: int, j: int|
        0 <= i < j < c.drop_first().len() implies (#[trigger] c.drop_first()[i]).asset@ != (
    #[trigger] c.drop_first()[j]).asset@ by {
        assert(c.drop_first()[i] == c[i + 1]);
        assert(c.drop_first()[j] == c[j + 1]);
    }
}

/// In a well-formed basket the locked amount of an entry's asset is that
/// entry's amount.
pub proof fn lemma_amount_of_at(c: Seq<CollateralEntry>, j: int)
    requires
        distinct_assets(c),
        0 <= j < c.len(),
    ensures
        amount_of(c, c[j].asset@) == c[j].amount,
    decreases c.len(),
{
    if j == 0 {
    } else {
        assert(c[0].asset@ != c[j].asset@);
        lemma_distinct_drop_first(c);
        lemma_amount_of_at(c.drop_first(), j - 1);
        assert(c.drop_first()[j - 1] == c[j]);
    }
}

/// A basket carries an asset exactly when some index does.
pub proof fn lemma_has_asset_exists(c: Seq<CollateralEntry>, asset: Seq<u8>)
    ensures
        has_asset(c, asset) <==> exists|k: int| 0 <= k < c.len() && (#[trigger] c[k]).asset@
            == asset,
    decreases c.len(),
{
    if c.len() == 0 {
    } else if c[0].asset@ == asset {
    } else {
        lemma_has_asset_exists(c.drop_first(), asset);
        if has_asset(c.drop_first(), asset) {
            let k = choose|k: int|
                0 <= k < c.drop_first().len() && (#[trigger] c.drop_first()[k]).asset@ == asset;
            assert(c[k + 1] == c.drop_first()[k]);
        }
        if exists|k: int| 0 <= k < c.len() && (#[trigger] c[k]).asset@ == asset {
            let k = choose|k: int| 0 <= k < c.len() && (#[trigger] c[k]).asset@ == asset;
            assert(k > 0);
            assert(c.drop_first()[k - 1] == c[k]);
        }
    }
}

/// An absent asset has locked amount zero.
pub proof fn lemma_amount_of_absent(c: Seq<CollateralEntry>, asset: Seq<u8>)
    requires
        !has_asset(c, asset),
    ensures
        amount_of(c, asset) == 0,
    decreases c.len(),
{
    if c.len() == 0 {
    } else {
        lemma_amount_of_absent(c.drop_first(), asset);
    }
}

/// Replacing one entry with another of the same asset moves exactly that
/// asset's locked amount and no other.
pub proof fn lemma_amount_of_update(
    c: Seq<CollateralEntry>,
    j: int,
    e: CollateralEntry,
    asset: Seq<u8>,
)
    requires
        distinct_assets(c),
        0 <= j < c.len(),
        e.asset@ == c[j].asset@,
    ensures
        amount_of(c.update(j, e), asset) == if asset == e.asset@ {
            e.amount as int
        } else {
            amount_of(c, asset)
        },
    decreases c.len(),
{
    let c2 = c.update(j, e);
    if j == 0 {
        assert(c2[0] == e);
        if asset != e.asset@ {
            assert(c2.drop_first() =~= c.drop_first());
        }
    } else {
        assert(c2[0] == c[0]);
        assert(c2.drop_first() =~= c.drop_first().update(j - 1, e));
        if asset == c[0].asset@ {
            assert(c[0].asset@ != c[j].asset@);
        } else {
            lemma_distinct_drop_first(c);
            assert(c.drop_first()[j - 1] == c[j]);
            lemma_amount_of_update(c.drop_first(), j - 1, e, asset);
        }
    }
}

/// Appending an entry for a fresh asset sets that asset's locked amount and
/// leaves every other unchanged.
pub proof fn lemma_amount_of_push(c: Seq<CollateralEntry>, e: CollateralEntry, asset: Seq<u8>)
    requires
        !has_asset(c, e.asset@),
    ensures
        amount_of(c.push(e), asset) == if asset == e.asset@ {
            e.amount as int
        } else {
            amount_of(c, asset)
        },
    decreases c.len(),
{
    if c.len() == 0 {
        assert(c.push(e)[0] == e);
        assert(c.push(e).drop_first() =~= Seq::<CollateralEntry>::empty());
        if asset != e.asset@ {
            assert(amount_of(c.push(e), asset) == amount_of(
                Seq::<CollateralEntry>::empty(),
                asset,
            ));
        }
    } else {
        assert(c[0].asset@ != e.asset@);
        assert(c.push(e)[0] == c[0]);
        assert(c.push(e).drop_first() =~= c.drop_first().push(e));
        lemma_amount_of_push(c.drop_first(), e, asset);
        if asset != c[0].asset@ {
            assert(amount_of(c.push(e), asset) == amount_of(c.drop_first().push(e), asset));
            assert(amount_of(c, asset) == amount_of(c.drop_first(), asset));
        }
    }
}

/// A delta list never requests a negative total.
pub proof fn lemma_delta_total_nonneg(ds: Seq<CollateralEntry>, asset: Seq<u8>)
    ensures
        0 <= delta_total(ds, asset),
    decreases ds.len(),
{
    if ds.len() == 0 {
    } else {
        lemma_delta_total_nonneg(ds.drop_first(), asset);
    }
}

/// A delta list's total splits at any point into the prefix and suffix
/// totals.
pub proof fn lemma_delta_total_split(ds: Seq<CollateralEntry>, k: int, asset: Seq<u8>)
    requires
        0 <= k <= ds.len(),
    ensures
        delta_total(ds, asset) == delta_total(ds.take(k), asset) + delta_total(
            ds.skip(k),
            asset,
        ),
    decreases k,
{
    if k == 0 {
        assert(ds.take(0) =~= Seq::<CollateralEntry>::empty());
        assert(ds.skip(0) =~= ds);
    } else {
        assert(ds.take(k)[0] == ds[0]);
        assert(ds.take(k).drop_first() =~= ds.drop_first().take(k - 1));
        assert(ds.skip(k) =~= ds.drop_first().skip(k - 1));
        lemma_delta_total_split(ds.drop_first(), k - 1, asset);
    }
}

/// One more delta adds exactly its own amount, for its own asset.
pub proof fn lemma_delta_total_take_step(ds: Seq<CollateralEntry>, k: int, asset: Seq<u8>)
    requires
        0 <= k < ds.len(),
    ensures
        delta_total(ds.take(k + 1), asset) == delta_total(ds.take(k), asset) + (if ds[k].asset@
            == asset {
            ds[k].amount as int
        } else {
            0
        }),
{
    let t = ds.take(k + 1);
    lemma_delta_total_split(t, k, asset);
    assert(t.take(k) =~= ds.take(k));
    assert(t.skip(k) =~= seq![ds[k]]);
    assert(delta_total(seq![ds[k]], asset) == (if ds[k].asset@ == asset {
        ds[k].amount as int
    } else {
        0
    })) by {
        assert(seq![ds[k]][0] == ds[k]);
        assert(seq![ds[k]].drop_first() =~= Seq::<CollateralEntry>::empty());
        assert(delta_total(Seq::<CollateralEntry>::empty(), asset) == 0);
    }
}

/// What subtraction leaves of each asset: the old amount minus the requested
/// total for assets of the basket, zero for the rest.
pub proof fn lemma_amount_of_sub_result(
    c: Seq<CollateralEntry>,
    ds: Seq<CollateralEntry>,
    asset: Seq<u8>,
)
    requires
        distinct_assets(c),
        forall|x: int|
            0 <= x < c.len() ==> delta_total(ds, (#[trigger] c[x]).asset@) <= c[x].amount,
    ensures
        amount_of(sub_result(c, ds), asset) == if has_asset(c, asset) {
            amount_of(c, asset) - delta_total(ds, asset)
        } else {
            0
        },
{
    let s = sub_result(c, ds);
    assert(distinct_assets(s)) by {
        assert forall|i: int, j: int| 0 <= i < j < s.len() implies (#[trigger] s[i]).asset@ != (
        #[trigger] s[j]).asset@ by {
            assert(s[i].asset == c[i].asset);
            assert(s[j].asset == c[j].asset);
        }
    }
    lemma_has_asset_exists(c, asset);
    lemma_has_asset_exists(s, asset);
    if has_asset(c, asset) {
        let j = choose|k: int| 0 <= k < c.len() && (#[trigger] c[k]).asset@ == asset;
        assert(s[j].asset@ == asset);
        lemma_delta_total_nonneg(ds, asset);
        lemma_amount_of_at(c, j);
        lemma_amount_of_at(s, j);
    } else {
        assert(!has_asset(s, asset)) by {
            if has_asset(s, asset) {
                let k = choose|k: int| 0 <= k < s.len() && (#[trigger] s[k]).asset@ == asset;
                assert(c[k].asset@ == asset);
            }
        }
        lemma_amount_of_absent(s, asset);
    }
}

/// A fresh basket holding the same entries, entry views preserved.
pub fn clone_entries(v: &Vec<CollateralEntry>) -> (r: Vec<CollateralEntry>)
    ensures
        r@.len() == v@.len(),
        forall|i: int|
            0 <= i < v@.len() ==> (#[trigger] r@[i]).asset@ == v@[i].asset@ && r@[i].amount
                == v@[i].amount,
{
    let mut r: Vec<CollateralEntry> = Vec::new();
    let mut i: usize = 0;
    while i < v.len()
        invariant
            i <= v@.len(),
            r@.len() == i,
            forall|k: int|
                0 <= k < i ==> (#[trigger] r@[k]).asset@ == v@[k].asset@ && r@[k].amount
                    == v@[k].amount,
        decreases v@.len() - i,
    {
        let e = CollateralEntry { asset: clone_bytes(&v[i].asset), amount: v[i].amount };
        r.push(e);
        i += 1;
    }
    r
}

/// The index of the basket entry carrying `asset`, when one does.
fn find_asset(c: &Vec<CollateralEntry>, asset: &Vec<u8>) -> (r: Option<usize>)
    ensures
        r matches Some(j) ==> j < c@.len() && c@[j as int].asset@ == asset@,
        r is None ==> !has_asset(c@, asset@),
{
    let mut i: usize = 0;
    while i < c.len()
        invariant
            i <= c@.len(),
            forall|k: int| 0 <= k < i ==> (#[trigger] c@[k]).asset@ != asset@,
        decreases c@.len() - i,
    {
        if bytes_eq(&c[i].asset, asset) {
            return Some(i);
        }
        i += 1;
    }
    proof {
        lemma_has_asset_exists(c@, asset@);
    }
    None
}

impl Loan {
    /// The basket never holds two entries for one asset.
    pub open spec fn wf(self) -> bool {
        distinct_assets(self.collaterals@)
    }

    /// The implicit record of a borrower never seen before: no collateral,
    /// no debt.
    pub fn zero() -> (r: Loan)
        ensures
            r.collaterals@.len() == 0,
            r.borrow_amount == 0,
            r.wf(),
    {
        Loan { collaterals: Vec::new(), borrow_amount: 0 }
    }

    /// Whether the basket holds no two entries for one asset: the condition
    /// every stored record satisfies and every mutation preserves.
    pub fn is_well_formed(&self) -> (r: bool)
        ensures
            r <==> self.wf(),
    {
        let c = &self.collaterals;
        let n: usize = c.len();
        let mut i: usize = 0;
        while i < n
            invariant
                i <= n,
                n == c@.len(),
                c@ == self.collaterals@,
                forall|x: int, y: int|
                    0 <= x < y < n && x < i ==> (#[trigger] c@[x]).asset@ != (
                    #[trigger] c@[y]).asset@,
            decreases n - i,
        {
            let mut j: usize = i + 1;
            while j < n
                invariant
                    i < j <= n,
                    n == c@.len(),
                    c@ == self.collaterals@,
                    forall|y: int|
                        i < y < j ==> c@[i as int].asset@ != (#[trigger] c@[y]).asset@,
                decreases n - j,
            {
                if bytes_eq(&c[i].asset, &c[j].asset) {
                    proof {
                        assert((c@[i as int]).asset@ == (c@[j as int]).asset@);
                        assert(!distinct_assets(c@));
                    }
                    return false;
                }
                j += 1;
            }
            i += 1;
        }
        true
    }

    /// The locked amount of one asset.
    pub fn locked_amount(&self, asset: &Vec<u8>) -> (r: u128)
        requires
            self.wf(),
        ensures
            r == amount_of(self.collaterals@, asset@),
    {
        match find_asset(&self.collaterals, asset) {
            Some(j) => {
                proof {
                    lemma_amount_of_at(self.collaterals@, j as int);
                }
                self.collaterals[j].amount
            },
            None => {
                proof {
                    lemma_amount_of_absent(self.collaterals@, asset@);
                }
                0
            },
        }
    }

    /// Adds each delta to the basket, merging by asset: an existing entry
    /// grows, a fresh asset is appended.  Checked arithmetic: if any asset's
    /// amount would leave `u128`, nothing changes and `Overflow` comes back.
    pub fn add_collateral(&mut self, deltas: &Vec<CollateralEntry>) -> (r: Result<
        (),
        OverseerError,
    >)
        requires
            old(self).wf(),
        ensures
            final(self).wf(),
            final(self).borrow_amount == old(self).borrow_amount,
            r matches Ok(()) <==> (forall|a: Seq<u8>|
                #[trigger] amount_of(old(self).collaterals@, a) + delta_total(deltas@, a)
                    <= u128::MAX),
            r matches Ok(()) ==> (forall|a: Seq<u8>|
                #[trigger] amount_of(final(self).collaterals@, a) == amount_of(
                    old(self).collaterals@,
                    a,
                ) + delta_total(deltas@, a)),
            r matches Ok(()) ==> basket_extends(old(self).collaterals@, final(self).collaterals@),
            r matches Err(e) ==> e == OverseerError::Overflow && *final(self) == *old(self),
    {
        let ghost orig = self.collaterals@;
        let mut work: Vec<CollateralEntry> = clone_entries(&self.collaterals);
        proof {
            assert(basket_extends(orig, work@));
            assert(deltas@.take(0) =~= Seq::<CollateralEntry>::empty());
            assert forall|a: Seq<u8>| #[trigger] amount_of(work@, a) == amount_of(orig, a)
                + delta_total(deltas@.take(0), a) by {
                lemma_amount_of_congruent(orig, work@, a);
            }
            assert(distinct_assets(work@));
        }
        let n: usize = deltas.len();
        let mut i: usize = 0;
        while i < n
            invariant
                i <= n,
                n == deltas@.len(),
                *self == *old(self),
                old(self).wf(),
                self.collaterals@ == orig,
                distinct_assets(work@),
                basket_extends(orig, work@),
                forall|a: Seq<u8>|
                    #[trigger] amount_of(work@, a) == amount_of(orig, a) + delta_total(
                        deltas@.take(i as int),
                        a,
                    ),
            decreases n - i,
        {
            let ghost prev = work@;
            let d_amount: u128 = deltas[i].amount;
            match find_asset(&work, &deltas[i].asset) {
                Some(j) => {
                    let cur: u128 = work[j].amount;
                    match cur.checked_add(d_amount) {
                        Some(v) => {
                            let e = CollateralEntry {
                                asset: clone_bytes(&work[j].asset),
                                amount: v,
                            };
                            work[j] = e;
                            proof {
                                let ghost da = deltas@[i as int].asset@;
                                assert forall|a: Seq<u8>| #[trigger] amount_of(work@, a)
                                    == amount_of(orig, a) + delta_total(
                                    deltas@.take(i as int + 1),
                                    a,
                                ) by {
                                    lemma_amount_of_update(prev, j as int, e, a);
                                    lemma_delta_total_take_step(deltas@, i as int, a);
                                    if a == da {
                                        lemma_amount_of_at(prev, j as int);
                                    }
                                }
                                assert forall|x: int, y: int|
                                    0 <= x < y < work@.len() implies (#[trigger] work@[x]).asset@
                                    != (#[trigger] work@[y]).asset@ by {
                                    assert(work@[x].asset@ == prev[x].asset@);
                                    assert(work@[y].asset@ == prev[y].asset@);
                                }
                                assert forall|x: int| 0 <= x < orig.len() implies (
                                #[trigger] work@[x]).asset@ == orig[x].asset@ && work@[x].amount
                                    >= orig[x].amount by {
                                    assert(work@[x].asset@ == prev[x].asset@);
                                }
                            }
                        },
                        None => {
                            proof {
                                let ghost da = deltas@[i as int].asset@;
                                lemma_amount_of_at(prev, j as int);
                                lemma_delta_total_take_step(deltas@, i as int, da);
                                lemma_delta_total_split(deltas@, i as int + 1, da);
                                lemma_delta_total_nonneg(deltas@.skip(i as int + 1), da);
                                lemma_delta_total_nonneg(deltas@.take(i as int), da);
                                assert(amount_of(orig, da) + delta_total(deltas@, da)
                                    > u128::MAX);
                            }
                            return Err(OverseerError::Overflow);
                        },
                    }
                },
                None => {
                    let e = CollateralEntry { asset: clone_bytes(&deltas[i].asset), amount: d_amount };
                    proof {
                        lemma_has_asset_exists(prev, e.asset@);
                    }
                    work.push(e);
                    proof {
                        let ghost da = deltas@[i as int].asset@;
                        assert forall|a: Seq<u8>| #[trigger] amount_of(work@, a) == amount_of(
                            orig,
                            a,
                        ) + delta_total(deltas@.take(i as int + 1), a) by {
                            lemma_amount_of_push(prev, e, a);
                            lemma_delta_total_take_step(deltas@, i as int, a);
                            if a == da {
                                lemma_amount_of_absent(prev, a);
                            }
                        }
                        assert forall|x: int, y: int|
                            0 <= x < y < work@.len() implies (#[trigger] work@[x]).asset@ != (
                        #[trigger] work@[y]).asset@ by {
                            if y < prev.len() {
                            } else {
                                assert(work@[y] == e);
                                lemma_has_asset_exists(prev, e.asset@);
                                assert(work@[x] == prev[x]);
                            }
                        }
                    }
                },
            }
            i += 1;
        }
        proof {
            assert(deltas@.take(n as int) =~= deltas@);
            assert forall|a: Seq<u8>| #[trigger] amount_of(orig, a) + delta_total(deltas@, a)
                <= u128::MAX by {
                lemma_amount_of_bounds(work@, a);
            }
        }
        self.collaterals = work;
        Ok(())
    }

    /// Subtracts each delta from the basket.  Fails with `Underflow` — and
    /// changes nothing — as soon as any asset's requested total exceeds its
    /// locked amount; an entry driven to zero stays in place.
    pub fn sub_collateral(&mut self, deltas: &Vec<CollateralEntry>) -> (r: Result<
        (),
        OverseerError,
    >)
        requires
            old(self).wf(),
        ensures
            final(self).wf(),
            final(self).borrow_amount == old(self).borrow_amount,
            r matches Ok(()) <==> (forall|a: Seq<u8>|
                delta_total(deltas@, a) <= #[trigger] amount_of(old(self).collaterals@, a)),
            r matches Ok(()) ==> basket_view_eq(
                sub_result(old(self).collaterals@, deltas@),
                final(self).collaterals@,
            ),
            r matches Ok(()) ==> (forall|a: Seq<u8>|
                #[trigger] amount_of(final(self).collaterals@, a) == amount_of(
                    old(self).collaterals@,
                    a,
                ) - delta_total(deltas@, a)),
            r matches Err(e) ==> e == OverseerError::Underflow && *final(self) == *old(self),
    {
        let ghost orig = self.collaterals@;
        let mut work: Vec<CollateralEntry> = clone_entries(&self.collaterals);
        proof {
            assert(deltas@.take(0) =~= Seq::<CollateralEntry>::empty());
        }
        let n: usize = deltas.len();
        let mut i: usize = 0;
        while i < n
            invariant
                i <= n,
                n == deltas@.len(),
                *self == *old(self),
                old(self).wf(),
                self.collaterals@ == orig,
                work@.len() == orig.len(),
                forall|x: int|
                    0 <= x < orig.len() ==> work@[x].asset@ == (#[trigger] orig[x]).asset@,
                forall|x: int|
                    0 <= x < orig.len() ==> delta_total(
                        deltas@.take(i as int),
                        (#[trigger] orig[x]).asset@,
                    ) <= orig[x].amount && work@[x].amount == orig[x].amount - delta_total(
                        deltas@.take(i as int),
                        orig[x].asset@,
                    ),
                forall|a: Seq<u8>|
                    !has_asset(orig, a) ==> #[trigger] delta_total(deltas@.take(i as int), a) == 0,
            decreases n - i,
        {
            let ghost prev = work@;
            let d_amount: u128 = deltas[i].amount;
            match find_asset(&work, &deltas[i].asset) {
                Some(j) => {
                    let ghost da = deltas@[i as int].asset@;
                    let cur: u128 = work[j].amount;
                    match cur.checked_sub(d_amount) {
                        Some(v) => {
                            let e = CollateralEntry {
                                asset: clone_bytes(&work[j].asset),
                                amount: v,
                            };
                            work[j] = e;
                            proof {
                                assert(da == orig[j as int].asset@);
                                assert(prev[j as int].amount == cur);
                                assert forall|x: int|
                                    0 <= x < orig.len() implies work@[x].asset@ == (
                                #[trigger] orig[x]).asset@ by {
                                    if x == j {
                                        assert(work@[x] == e);
                                    } else {
                                        assert(work@[x] == prev[x]);
                                    }
                                }
                                assert forall|x: int|
                                    0 <= x < orig.len() implies delta_total(
                                    deltas@.take(i as int + 1),
                                    (#[trigger] orig[x]).asset@,
                                ) <= orig[x].amount && work@[x].amount == orig[x].amount
                                    - delta_total(
                                    deltas@.take(i as int + 1),
                                    orig[x].asset@,
                                ) by {
                                    lemma_delta_total_take_step(deltas@, i as int, orig[x].asset@);
                                    if x != j {
                                        assert(orig[x].asset@ != orig[j as int].asset@);
                                        assert(work@[x] == prev[x]);
                                    } else {
                                        assert(work@[x] == e);
                                    }
                                }
                                assert forall|a: Seq<u8>| !has_asset(orig, a) implies
                                    #[trigger] delta_total(deltas@.take(i as int + 1), a)
                                    == 0 by {
                                    lemma_delta_total_take_step(deltas@, i as int, a);
                                    lemma_has_asset_exists(orig, a);
                                }
                            }
                        },
                        None => {
                            proof {
                                assert(da == orig[j as int].asset@);
                                assert(prev[j as int].amount == cur);
                                lemma_delta_total_take_step(deltas@, i as int, da);
                                lemma_delta_total_split(deltas@, i as int + 1, da);
                                lemma_delta_total_nonneg(deltas@.skip(i as int + 1), da);
                                lemma_delta_total_nonneg(deltas@.take(i as int), da);
                                lemma_amount_of_at(orig, j as int);
                                assert(delta_total(deltas@, da) > amount_of(orig, da));
                            }
                            return Err(OverseerError::Underflow);
                        },
                    }
                },
                None => {
                    let ghost da = deltas@[i as int].asset@;
                    proof {
                        lemma_has_asset_exists(work@, da);
                        lemma_has_asset_exists(orig, da);
                        assert(!has_asset(orig, da)) by {
                            if has_asset(orig, da) {
                                let k = choose|k: int|
                                    0 <= k < orig.len() && (#[trigger] orig[k]).asset@ == da;
                                assert(work@[k].asset@ == da);
                            }
                        }
                    }
                    if d_amount > 0 {
                        proof {
                            lemma_delta_total_take_step(deltas@, i as int, da);
                            lemma_delta_total_split(deltas@, i as int + 1, da);
                            lemma_delta_total_nonneg(deltas@.skip(i as int + 1), da);
                            lemma_delta_total_nonneg(deltas@.take(i as int), da);
                            lemma_amount_of_absent(orig, da);
                            assert(delta_total(deltas@, da) > amount_of(orig, da));
                        }
                        return Err(OverseerError::Underflow);
                    }
                    proof {
                        assert forall|x: int|
                            0 <= x < orig.len() implies delta_total(
                            deltas@.take(i as int + 1),
                            (#[trigger] orig[x]).asset@,
                        ) <= orig[x].amount && work@[x].amount == orig[x].amount - delta_total(
                            deltas@.take(i as int + 1),
                            orig[x].asset@,
                        ) by {
                            lemma_delta_total_take_step(deltas@, i as int, orig[x].asset@);
                            assert(work@[x].amount == orig[x].amount - delta_total(
                                deltas@.take(i as int),
                                orig[x].asset@,
                            ));
                        }
                        assert forall|a: Seq<u8>| !has_asset(orig, a) implies #[trigger] delta_total(
                            deltas@.take(i as int + 1),
                            a,
                        ) == 0 by {
                            lemma_delta_total_take_step(deltas@, i as int, a);
                        }
                    }
                },
            }
            i += 1;
        }
        proof {
            assert(deltas@.take(n as int) =~= deltas@);
            let s = sub_result(orig, deltas@);
            assert forall|x: int|
                0 <= x < orig.len() implies delta_total(deltas@, (#[trigger] orig[x]).asset@)
                <= orig[x].amount by {
                assert(delta_total(deltas@.take(n as int), orig[x].asset@) <= orig[x].amount);
            }
            assert forall|a: Seq<u8>| delta_total(deltas@, a) <= #[trigger] amount_of(orig, a) by {
                assert(delta_total(deltas@.take(n as int), a) == delta_total(deltas@, a));
                lemma_has_asset_exists(orig, a);
                if has_asset(orig, a) {
                    let k = choose|k: int| 0 <= k < orig.len() && (#[trigger] orig[k]).asset@ == a;
                    lemma_amount_of_at(orig, k);
                } else {
                    lemma_amount_of_absent(orig, a);
                }
            }
            assert(basket_view_eq(s, work@)) by {
                assert forall|x: int|
                    0 <= x < s.len() implies (#[trigger] work@[x]).asset@ == s[x].asset@
                    && work@[x].amount == s[x].amount by {
                    lemma_delta_total_nonneg(deltas@, orig[x].asset@);
                    assert(s[x].asset == orig[x].asset);
                    assert(work@[x].amount == orig[x].amount - delta_total(
                        deltas@.take(n as int),
                        orig[x].asset@,
                    ));
                }
            }
            assert forall|a: Seq<u8>| #[trigger] amount_of(work@, a) == amount_of(orig, a)
                - delta_total(deltas@, a) by {
                lemma_amount_of_sub_result(orig, deltas@, a);
                lemma_amount_of_congruent(s, work@, a);
                if !has_asset(orig, a) {
                    lemma_amount_of_absent(orig, a);
                    assert(delta_total(deltas@.take(n as int), a) == delta_total(deltas@, a));
                }
            }
            assert(distinct_assets(work@)) by {
                assert forall|x: int, y: int|
                    0 <= x < y < work@.len() implies (#[trigger] work@[x]).asset@ != (
                #[trigger] work@[y]).asset@ by {
                    assert(work@[x].asset@ == orig[x].asset@);
                    assert(work@[y].asset@ == orig[y].asset@);
                }
            }
        }
        self.collaterals = work;
        Ok(())
    }
}

/// Two baskets equal entry by entry in view have the same locked amounts.
pub proof fn lemma_amount_of_congruent(
    c1: Seq<CollateralEntry>,
    c2: Seq<CollateralEntry>,
    asset: Seq<u8>,
)
    requires
        c1.len() == c2.len(),
        forall|i: int|
            0 <= i < c1.len() ==> (#[trigger] c2[i]).asset@ == c1[i].asset@ && c2[i].amount
                == c1[i].amount,
    ensures
        amount_of(c1, asset) == amount_of(c2, asset),
    decreases c1.len(),
{
    if c1.len() == 0 {
    } else {
        assert(c2[0].asset@ == c1[0].asset@);
        assert forall|i: int|
            0 <= i < c1.drop_first().len() implies (#[trigger] c2.drop_first()[i]).asset@
            == c1.drop_first()[i].asset@ && c2.drop_first()[i].amount
            == c1.drop_first()[i].amount by {
            assert(c2.drop_first()[i] == c2[i + 1]);
            assert(c1.drop_first()[i] == c1[i + 1]);
        }
        lemma_amount_of_congruent(c1.drop_first(), c2.drop_first(), asset);
    }
}

} // verus!
