//! The per-identity vault: balances of several assets, never negative.

use vstd::prelude::*;
use crate::asset::{AssetId, Bucket};
use crate::asset_table::AssetTable;
use crate::decimal::{fits_i128, Decimal};
use crate::error::CompetitionError;

verus! {

/// The balance of `asset` in `m`, zero where it has no entry.
pub open spec fn balance_in(m: Map<AssetId, Decimal>, asset: AssetId) -> int {
    if m.contains_key(asset) {
        m[asset].attos as int
    } else {
        0
    }
}

/// Every entry of `m` is at least zero.
pub open spec fn entries_nonnegative(m: Map<AssetId, Decimal>) -> bool {
    forall|a: AssetId| #[trigger] m.contains_key(a) ==> m[a].attos >= 0
}

/// `m` holds an entry for `asset` of at least `amount`, which is not negative.
pub open spec fn can_withdraw(m: Map<AssetId, Decimal>, asset: AssetId, amount: Decimal) -> bool {
    0 <= amount.attos && m.contains_key(asset) && amount.attos <= m[asset].attos
}

/// `m` after `amount` of `asset` has been taken out.
pub open spec fn withdrawn(m: Map<AssetId, Decimal>, asset: AssetId, amount: Decimal) -> Map<
    AssetId,
    Decimal,
> {
    m.insert(asset, Decimal { attos: (m[asset].attos - amount.attos) as i128 })
}

/// Adding `amount` of `asset` to `m` keeps the balance in range.
pub open spec fn can_deposit(m: Map<AssetId, Decimal>, asset: AssetId, amount: Decimal) -> bool {
    0 <= amount.attos && fits_i128(balance_in(m, asset) + amount.attos)
}

/// `m` after `amount` of `asset` has been added, starting from zero where
/// `asset` has no entry.
pub open spec fn deposited(m: Map<AssetId, Decimal>, asset: AssetId, amount: Decimal) -> Map<
    AssetId,
    Decimal,
> {
    m.insert(asset, Decimal { attos: (balance_in(m, asset) + amount.attos) as i128 })
}

/// Balances of one participant, by asset.
pub struct TradeVault {
    assets: AssetTable<Decimal>,
}

impl View for TradeVault {
    type V = Map<AssetId, Decimal>;

    closed spec fn view(&self) -> Map<AssetId, Decimal> {
        self.assets@
    }
}

impl TradeVault {
    pub closed spec fn wf(&self) -> bool {
        self.assets.wf() && entries_nonnegative(self.assets@)
    }

    /// A well-formed vault holds no negative balance.
    pub proof fn lemma_balances_nonnegative(&self)
        requires
            self.wf(),
        ensures
            entries_nonnegative(self@),
    {
    }

    /// A vault holding the contents of `fusd` and nothing else.
    pub fn instantiate(fusd: Bucket) -> (r: TradeVault)
        requires
            fusd.amount.attos >= 0,
        ensures
            r.wf(),
            r@ == Map::<AssetId, Decimal>::empty().insert(fusd.resource, fusd.amount),
    {
        let mut assets = AssetTable::new();
        assets.insert(fusd.resource, fusd.amount);
        TradeVault { assets }
    }

    /// The balance of `resource_address`, zero where the vault holds none.
    pub fn balance_of(&self, resource_address: AssetId) -> (r: Decimal)
        requires
            self.wf(),
        ensures
            r.attos == balance_in(self@, resource_address),
    {
        match self.assets.get(resource_address) {
            Some(d) => d,
            None => Decimal::zero(),
        }
    }

    /// Whether the vault has a balance entry for `resource_address`.
    pub fn holds(&self, resource_address: AssetId) -> (r: bool)
        requires
            self.wf(),
        ensures
            r == self@.contains_key(resource_address),
    {
        self.assets.contains(resource_address)
    }

    /// Takes `amount` of `resource_address` out of the vault.
    pub fn withdraw_asset(&mut self, resource_address: AssetId, amount: Decimal) -> (r: Result<
        Bucket,
        CompetitionError,
    >)
        requires
            old(self).wf(),
        ensures
            final(self).wf(),
            amount.attos < 0 ==> r == Err::<Bucket, CompetitionError>(
                CompetitionError::NegativeAmount,
            ),
            0 <= amount.attos && !can_withdraw(old(self)@, resource_address, amount) ==> r == Err::<
                Bucket,
                CompetitionError,
            >((CompetitionError::InsufficientBalance { asset: resource_address })),
            r is Err ==> *final(self) == *old(self),
            can_withdraw(old(self)@, resource_address, amount) ==> {
                &&& r == Ok::<Bucket, CompetitionError>(
                    (Bucket { resource: resource_address, amount }),
                )
                &&& final(self)@ == withdrawn(old(self)@, resource_address, amount)
            },
    {
        if amount.attos < 0 {
            return Err(CompetitionError::NegativeAmount);
        }
        match self.assets.get(resource_address) {
            Some(balance) => {
                if balance.attos < amount.attos {
                    return Err(CompetitionError::InsufficientBalance { asset: resource_address });
                }
                let rest = Decimal { attos: balance.attos - amount.attos };
                self.assets.insert(resource_address, rest);
                proof {
                    assert(self@ == withdrawn(old(self)@, resource_address, amount));
                    assert forall|a: AssetId| #[trigger] self@.contains_key(a) implies self@[a].attos
                        >= 0 by {
                        if a != resource_address {
                            assert(old(self)@.contains_key(a));
                        }
                    }
                }
                Ok(Bucket { resource: resource_address, amount })
            },
            None => Err(CompetitionError::InsufficientBalance { asset: resource_address }),
        }
    }

    /// Adds the contents of `asset` to the vault.
    pub fn deposit_asset(&mut self, asset: Bucket) -> (r: Result<(), CompetitionError>)
        requires
            old(self).wf(),
        ensures
            final(self).wf(),
            asset.amount.attos < 0 ==> r == Err::<(), CompetitionError>(
                CompetitionError::NegativeAmount,
            ),
            0 <= asset.amount.attos && !can_deposit(old(self)@, asset.resource, asset.amount) ==> r
                == Err::<(), CompetitionError>(CompetitionError::Overflow),
            r is Err ==> *final(self) == *old(self),
            can_deposit(old(self)@, asset.resource, asset.amount) ==> {
                &&& r is Ok
                &&& final(self)@ == deposited(old(self)@, asset.resource, asset.amount)
            },
    {
        if asset.amount.attos < 0 {
            return Err(CompetitionError::NegativeAmount);
        }
        let balance = self.balance_of(asset.resource);
        if balance.attos > i128::MAX - asset.amount.attos {
            return Err(CompetitionError::Overflow);
        }
        let total = Decimal { attos: balance.attos + asset.amount.attos };
        self.assets.insert(asset.resource, total);
        proof {
            assert(self@ == deposited(old(self)@, asset.resource, asset.amount));
            assert forall|a: AssetId| #[trigger] self@.contains_key(a) implies self@[a].attos
                >= 0 by {
                if a != asset.resource {
                    assert(old(self)@.contains_key(a));
                }
            }
        }
        Ok(())
    }
}

} // verus!
