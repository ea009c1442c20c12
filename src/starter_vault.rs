//! A single-asset vault, seeded with a fixed supply of the stable asset, that
//! reports its balance when asked to trade.

use vstd::prelude::*;
use crate::asset::{AssetId, Bucket};
use crate::decimal::{Decimal, ATTOS_PER_UNIT};

verus! {

/// Whole units of the stable asset that a starter vault is seeded with.
pub const STARTER_SUPPLY_UNITS: i64 = 10000;

pub struct TradeVault {
    fake_usd_vault: Bucket,
}

impl TradeVault {
    /// What the vault holds.
    pub closed spec fn contents(&self) -> Bucket {
        self.fake_usd_vault
    }

    /// A vault holding the starter supply of `fake_usd`.
    pub fn instantiate(fake_usd: AssetId) -> (r: TradeVault)
        ensures
            r.contents().resource == fake_usd,
            r.contents().amount.attos == STARTER_SUPPLY_UNITS * ATTOS_PER_UNIT,
    {
        let supply = Decimal::from_units(STARTER_SUPPLY_UNITS);
        TradeVault { fake_usd_vault: Bucket { resource: fake_usd, amount: supply } }
    }

    /// Reports the balance of the stable asset that the vault holds.
    pub fn trade(&self) -> (r: Decimal)
        ensures
            r == self.contents().amount,
    {
        self.fake_usd_vault.amount
    }
}

} // verus!
