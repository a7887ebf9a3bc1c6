//! Account identifiers and fungible assets, in their fixed-length encodings.

use vstd::prelude::*;
use crate::field::{Felt, Word};

verus! {

/// An account, named by two field elements.
#[derive(Clone, Copy, Debug, PartialEq, Eq, Structural)]
pub struct AccountId {
    pub prefix: Felt,
    pub suffix: Felt,
}

/// The class of a fungible asset: the account of the faucet that issues it.
#[derive(Clone, Copy, Debug, PartialEq, Eq, Structural)]
pub struct AssetType {
    pub prefix: Felt,
    pub suffix: Felt,
}

/// A fungible asset, encoded as the word `[amount, 0, type_suffix, type_prefix]`.
#[derive(Clone, Copy, Debug, PartialEq, Eq)]
pub struct Asset {
    pub inner: Word,
}

impl AccountId {
    pub fn new(prefix: Felt, suffix: Felt) -> (r: AccountId)
        ensures
            r.prefix == prefix,
            r.suffix == suffix,
    {
        AccountId { prefix, suffix }
    }
}

impl AssetType {
    pub fn new(prefix: Felt, suffix: Felt) -> (r: AssetType)
        ensures
            r.prefix == prefix,
            r.suffix == suffix,
    {
        AssetType { prefix, suffix }
    }
}

impl Asset {
    /// The amount that the asset carries.
    pub open spec fn amount_spec(self) -> nat {
        self.inner[0]@
    }

    /// The class of the asset.
    pub open spec fn asset_type_spec(self) -> AssetType {
        AssetType { prefix: self.inner[3], suffix: self.inner[2] }
    }

    /// The asset whose encoding is `inner`.
    pub fn new(inner: Word) -> (r: Asset)
        ensures
            r.inner == inner,
    {
        Asset { inner }
    }

    /// `amount` units of the asset class `asset_type`.
    pub fn fungible(asset_type: AssetType, amount: Felt) -> (r: Asset)
        ensures
            r.inner[0] == amount,
            r.inner[1]@ == 0,
            r.inner[2] == asset_type.suffix,
            r.inner[3] == asset_type.prefix,
            r.amount_spec() == amount@,
            r.asset_type_spec() == asset_type,
    {
        Asset { inner: [amount, Felt::zero(), asset_type.suffix, asset_type.prefix] }
    }

    pub fn amount(&self) -> (r: Felt)
        ensures
            r@ == self.amount_spec(),
            r == self.inner[0],
    {
        self.inner[0]
    }

    pub fn asset_type(&self) -> (r: AssetType)
        ensures
            r == self.asset_type_spec(),
    {
        AssetType { prefix: self.inner[3], suffix: self.inner[2] }
    }
}

/// The key of a balance: a depositor and an asset class. Its stored form is the
/// word `[depositor.prefix, depositor.suffix, type_suffix, type_prefix]`.
#[derive(Clone, Copy, Debug, PartialEq, Eq, Structural)]
pub struct BalanceKey {
    pub depositor: AccountId,
    pub asset_type: AssetType,
}

impl BalanceKey {
    pub fn new(depositor: AccountId, asset_type: AssetType) -> (r: BalanceKey)
        ensures
            r.depositor == depositor,
            r.asset_type == asset_type,
    {
        BalanceKey { depositor, asset_type }
    }

    /// The stored form of the key.
    pub fn to_word(&self) -> (r: Word)
        ensures
            r[0] == self.depositor.prefix,
            r[1] == self.depositor.suffix,
            r[2] == self.asset_type.suffix,
            r[3] == self.asset_type.prefix,
    {
        [self.depositor.prefix, self.depositor.suffix, self.asset_type.suffix, self.asset_type.prefix]
    }
}

} // verus!
