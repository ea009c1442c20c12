//! Asset identifiers and buckets: an amount of one asset in transit.

use vstd::prelude::*;
use crate::decimal::Decimal;

verus! {

/// Opaque handle naming a tradable asset type.
#[derive(Clone, Copy, Debug, PartialEq, Eq, Structural, Hash)]
pub struct AssetId {
    pub id: u64,
}

/// An amount of a single asset, moved between vaults and the swap engine.
#[derive(Clone, Copy, Debug, PartialEq, Eq, Structural)]
pub struct Bucket {
    pub resource: AssetId,
    pub amount: Decimal,
}

impl AssetId {
    pub fn new(id: u64) -> (r: AssetId)
        ensures
            r.id == id,
    {
        AssetId { id }
    }
}

impl Bucket {
    pub fn new(resource: AssetId, amount: Decimal) -> (r: Bucket)
        ensures
            r.resource == resource,
            r.amount == amount,
    {
        Bucket { resource, amount }
    }

    pub fn resource_address(&self) -> (r: AssetId)
        ensures
            r == self.resource,
    {
        self.resource
    }

    pub fn amount(&self) -> (r: Decimal)
        ensures
            r == self.amount,
    {
        self.amount
    }
}

} // verus!
