//! Read-only snapshots handed into every computation.
//!
//! Protocol configuration, the per-asset whitelist and the oracle price
//! snapshot are owned by collaborators outside this core.  They enter the
//! calculator and the handlers as explicit values, so every operation is a
//! pure function of (ledger record, whitelist, prices, request) and two runs
//! over the same snapshots are indistinguishable.

use crate::addr::bytes_eq;
use crate::decimal::Decimal;
use vstd::prelude::*;

verus! {

/// Process-wide configuration, written once at deployment: canonical
/// addresses of the market and oracle collaborators and the base pricing
/// denomination.
pub struct Config {
    /// Canonical address of the market collaborator that disburses loans.
    pub market_contract: Vec<u8>,
    /// Canonical address of the oracle collaborator.
    pub oracle_contract: Vec<u8>,
    /// Denomination every price and debt amount is quoted in.
    pub base_denom: Vec<u8>,
}

/// One whitelist row: the loan-to-value ratio granted to an asset.
pub struct WhitelistItem {
    /// Canonical identifier of the collateral asset.
    pub asset: Vec<u8>,
    /// Fraction of the asset's priced value that counts toward borrowing
    /// capacity; a value in [0, 1].
    pub ltv: Decimal,
}

/// The whitelist as a read-only snapshot.  An asset without an entry is an
/// error condition for the calculator, not a default.
pub struct WhitelistSnapshot {
    pub entries: Vec<WhitelistItem>,
}

/// An oracle answer: the exchange rate of an asset against the base
/// denomination, with staleness metadata.
///
/// The timestamps are carried through unused: the calculator deliberately
/// does not reject stale prices, but a stricter policy can read them here
/// without re-architecting it.
#[derive(Clone, Copy, PartialEq, Eq, Structural, Debug)]
pub struct PriceData {
    /// Units of the base denomination per unit of the asset.
    pub rate: Decimal,
    /// When the base side of the pair was last updated, in seconds.
    pub last_updated_base: u64,
    /// When the quote side of the pair was last updated, in seconds.
    pub last_updated_quote: u64,
}

/// One priced asset in the oracle snapshot.
pub struct PriceEntry {
    /// Canonical identifier of the collateral asset.
    pub asset: Vec<u8>,
    /// The oracle's answer for this asset against the base denomination.
    pub price: PriceData,
}

/// The oracle's answers as a read-only snapshot.  An asset without an entry
/// means the oracle could not answer for that pair.
pub struct PriceSnapshot {
    pub entries: Vec<PriceEntry>,
}

/// The loan-to-value ratio of the first whitelist row for `asset`.
pub open spec fn spec_find_ltv(w: Seq<WhitelistItem>, asset: Seq<u8>) -> Option<Decimal>
    decreases w.len(),
{
    if w.len() == 0 {
        None
    } else if w[0].asset@ == asset {
        Some(w[0].ltv)
    } else {
        spec_find_ltv(w.drop_first(), asset)
    }
}

/// The price of the first oracle row for `asset`.
pub open spec fn spec_find_price(p: Seq<PriceEntry>, asset: Seq<u8>) -> Option<PriceData>
    decreases p.len(),
{
    if p.len() == 0 {
        None
    } else if p[0].asset@ == asset {
        Some(p[0].price)
    } else {
        spec_find_price(p.drop_first(), asset)
    }
}

impl WhitelistSnapshot {
    /// Looks up the loan-to-value ratio of `asset`, `None` when the asset is
    /// not whitelisted.
    pub fn lookup_ltv(&self, asset: &Vec<u8>) -> (r: Option<Decimal>)
        ensures
            r == spec_find_ltv(self.entries@, asset@),
    {
        let mut i: usize = 0;
        proof {
            assert(self.entries@.skip(0) =~= self.entries@);
        }
        while i < self.entries.len()
            invariant
                i <= self.entries@.len(),
                spec_find_ltv(self.entries@.skip(i as int), asset@) == spec_find_ltv(
                    self.entries@,
                    asset@,
                ),
            decreases self.entries@.len() - i,
        {
            proof {
                assert(self.entries@.skip(i as int)[0] == self.entries@[i as int]);
            }
            if bytes_eq(&self.entries[i].asset, asset) {
                return Some(self.entries[i].ltv);
            }
            proof {
                assert(self.entries@.skip(i as int).drop_first() =~= self.entries@.skip(
                    i as int + 1,
                ));
            }
            i += 1;
        }
        proof {
            assert(self.entries@.skip(i as int).len() == 0);
        }
        None
    }
}

impl PriceSnapshot {
    /// Looks up the oracle price of `asset` against the base denomination,
    /// `None` when the oracle could not answer.
    pub fn lookup_price(&self, asset: &Vec<u8>) -> (r: Option<PriceData>)
        ensures
            r == spec_find_price(self.entries@, asset@),
    {
        let mut i: usize = 0;
        proof {
            assert(self.entries@.skip(0) =~= self.entries@);
        }
        while i < self.entries.len()
            invariant
                i <= self.entries@.len(),
                spec_find_price(self.entries@.skip(i as int), asset@) == spec_find_price(
                    self.entries@,
                    asset@,
                ),
            decreases self.entries@.len() - i,
        {
            proof {
                assert(self.entries@.skip(i as int)[0] == self.entries@[i as int]);
            }
            if bytes_eq(&self.entries[i].asset, asset) {
                return Some(self.entries[i].price);
            }
            proof {
                assert(self.entries@.skip(i as int).drop_first() =~= self.entries@.skip(
                    i as int + 1,
                ));
            }
            i += 1;
        }
        proof {
            assert(self.entries@.skip(i as int).len() == 0);
        }
        None
    }
}

} // verus!
