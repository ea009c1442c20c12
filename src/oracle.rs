//! The price registry: the latest price of each asset against a common
//! reference unit, with the instant it was observed.

use vstd::prelude::*;
use crate::asset::AssetId;
use crate::asset_table::AssetTable;
use crate::decimal::Decimal;
use crate::error::CompetitionError;
use crate::time::Instant;
use crate::trade_vault::entries_nonnegative;

verus! {

/// A recorded price and the instant at which it was observed.
#[derive(Clone, Copy, Debug, PartialEq, Eq, Structural)]
pub struct PriceEntry {
    pub price: Decimal,
    pub observed_at: Instant,
}

/// Latest observed price of each asset; entries are overwritten, never
/// appended, and no history is kept.
pub struct SimpleOracle {
    prices: AssetTable<PriceEntry>,
}

impl View for SimpleOracle {
    type V = Map<AssetId, Decimal>;

    /// The price recorded for each asset.
    closed spec fn view(&self) -> Map<AssetId, Decimal> {
        self.prices@.map_values(|e: PriceEntry| e.price)
    }
}

impl SimpleOracle {
    /// The entry recorded for each asset.
    pub closed spec fn entries(&self) -> Map<AssetId, PriceEntry> {
        self.prices@
    }

    pub closed spec fn wf(&self) -> bool {
        &&& self.prices.wf()
        &&& forall|a: AssetId| #[trigger]
            self.prices@.contains_key(a) ==> self.prices@[a].price.attos >= 0
    }

    /// No recorded price is negative.
    pub proof fn lemma_prices_nonnegative(&self)
        requires
            self.wf(),
        ensures
            entries_nonnegative(self@),
    {
    }

    /// An oracle with no prices.
    pub fn instantiate() -> (r: SimpleOracle)
        ensures
            r.wf(),
            r@ == Map::<AssetId, Decimal>::empty(),
            r.entries() == Map::<AssetId, PriceEntry>::empty(),
    {
        let r = SimpleOracle { prices: AssetTable::new() };
        assert(r@ =~= Map::<AssetId, Decimal>::empty());
        r
    }

    /// Records `price` for `address`, observed at `observed_at`, replacing any
    /// earlier entry.
    pub fn set_price(&mut self, address: AssetId, price: Decimal, observed_at: Instant)
        requires
            old(self).wf(),
            price.attos >= 0,
        ensures
            final(self).wf(),
            final(self)@ == old(self)@.insert(address, price),
            final(self).entries() == old(self).entries().insert(
                address,
                (PriceEntry { price, observed_at }),
            ),
    {
        self.prices.insert(address, PriceEntry { price, observed_at });
        proof {
            assert forall|a: AssetId| #[trigger] self.prices@.contains_key(a) implies self.prices@[
                a].price.attos >= 0 by {
                if a != address {
                    assert(old(self).prices@.contains_key(a));
                }
            }
            assert(self@ =~= old(self)@.insert(address, price));
        }
    }

    /// The price recorded for `address`.
    pub fn get_price(&self, address: AssetId) -> (r: Result<Decimal, CompetitionError>)
        requires
            self.wf(),
        ensures
            r == (if self@.contains_key(address) {
                Ok::<Decimal, CompetitionError>(self@[address])
            } else {
                Err::<Decimal, CompetitionError>((CompetitionError::PriceNotFound { asset: address }))
            }),
    {
        match self.prices.get(address) {
            Some(entry) => Ok(entry.price),
            None => Err(CompetitionError::PriceNotFound { asset: address }),
        }
    }

    /// The price recorded for `address`, with the instant it was observed.
    pub fn get_price_entry(&self, address: AssetId) -> (r: Result<PriceEntry, CompetitionError>)
        requires
            self.wf(),
        ensures
            r == (if self.entries().contains_key(address) {
                Ok::<PriceEntry, CompetitionError>(self.entries()[address])
            } else {
                Err::<PriceEntry, CompetitionError>(
                    (CompetitionError::PriceNotFound { asset: address }),
                )
            }),
    {
        match self.prices.get(address) {
            Some(entry) => Ok(entry),
            None => Err(CompetitionError::PriceNotFound { asset: address }),
        }
    }
}

} // verus!
