//! The bank's vault: how much of each asset class it holds in custody.

use vstd::prelude::*;
use crate::account::{Asset, AssetType};
use crate::error::BankError;
use crate::field::{Felt, MODULUS};

verus! {

/// The amount held of one asset class.
#[derive(Clone, Copy, Debug, PartialEq, Eq, Structural)]
pub struct Holding {
    pub asset_type: AssetType,
    pub amount: Felt,
}

/// The amount that `holdings` records for `asset_type`: zero where there is none.
pub open spec fn held_in(holdings: Seq<Holding>, asset_type: AssetType) -> nat
    decreases holdings.len(),
{
    if holdings.len() == 0 {
        0
    } else if holdings.last().asset_type == asset_type {
        holdings.last().amount@
    } else {
        held_in(holdings.drop_last(), asset_type)
    }
}

/// No asset class is recorded twice.
pub open spec fn classes_unique(holdings: Seq<Holding>) -> bool {
    forall|i: int, j: int|
        0 <= i < j < holdings.len() ==> #[trigger] holdings[i].asset_type != #[trigger] holdings[j].asset_type
}

proof fn lemma_held_at(holdings: Seq<Holding>, i: int)
    requires
        classes_unique(holdings),
        0 <= i < holdings.len(),
    ensures
        held_in(holdings, holdings[i].asset_type) == holdings[i].amount@,
    decreases holdings.len(),
{
    if i < holdings.len() - 1 {
        let d = holdings.drop_last();
        assert(holdings[i].asset_type != holdings[holdings.len() - 1].asset_type);
        assert(classes_unique(d)) by {
            assert forall|a: int, b: int| 0 <= a < b < d.len() implies #[trigger] d[a].asset_type != #[trigger] d[b].asset_type by {
                assert(holdings[a].asset_type != holdings[b].asset_type);
            }
        }
        assert(d[i] == holdings[i]);
        lemma_held_at(d, i);
    }
}

proof fn lemma_held_absent(holdings: Seq<Holding>, asset_type: AssetType)
    requires
        forall|i: int| 0 <= i < holdings.len() ==> #[trigger] holdings[i].asset_type != asset_type,
    ensures
        held_in(holdings, asset_type) == 0,
    decreases holdings.len(),
{
    if holdings.len() > 0 {
        assert(holdings[holdings.len() - 1].asset_type != asset_type);
        let d = holdings.drop_last();
        assert forall|i: int| 0 <= i < d.len() implies #[trigger] d[i].asset_type != asset_type by {
            assert(holdings[i].asset_type != asset_type);
        }
        lemma_held_absent(d, asset_type);
    }
}

proof fn lemma_held_after_update(holdings: Seq<Holding>, i: int, h: Holding, t: AssetType)
    requires
        classes_unique(holdings),
        0 <= i < holdings.len(),
        h.asset_type == holdings[i].asset_type,
    ensures
        classes_unique(holdings.update(i, h)),
        held_in(holdings.update(i, h), t) == if t == h.asset_type {
            h.amount@
        } else {
            held_in(holdings, t)
        },
    decreases holdings.len(),
{
    let u = holdings.update(i, h);
    assert(classes_unique(u)) by {
        assert forall|a: int, b: int| 0 <= a < b < u.len() implies #[trigger] u[a].asset_type != #[trigger] u[b].asset_type by {
            assert(holdings[a].asset_type != holdings[b].asset_type);
        }
    }
    if i == holdings.len() - 1 {
        assert(u.drop_last() =~= holdings.drop_last());
    } else {
        let d = holdings.drop_last();
        assert(classes_unique(d)) by {
            assert forall|a: int, b: int| 0 <= a < b < d.len() implies #[trigger] d[a].asset_type != #[trigger] d[b].asset_type by {
                assert(holdings[a].asset_type != holdings[b].asset_type);
            }
        }
        lemma_held_after_update(d, i, h, t);
        assert(u.drop_last() =~= d.update(i, h));
        assert(holdings[i].asset_type != holdings.last().asset_type);
    }
}

proof fn lemma_held_after_push(holdings: Seq<Holding>, h: Holding)
    requires
        classes_unique(holdings),
        forall|i: int| 0 <= i < holdings.len() ==> #[trigger] holdings[i].asset_type != h.asset_type,
    ensures
        classes_unique(holdings.push(h)),
        forall|t: AssetType| #[trigger] held_in(holdings.push(h), t) == if t == h.asset_type {
            h.amount@
        } else {
            held_in(holdings, t)
        },
{
    let p = holdings.push(h);
    assert(p.drop_last() =~= holdings);
    assert(classes_unique(p)) by {
        assert forall|a: int, b: int| 0 <= a < b < p.len() implies #[trigger] p[a].asset_type != #[trigger] p[b].asset_type by {
            if b == holdings.len() {
                assert(holdings[a].asset_type != h.asset_type);
            } else {
                assert(holdings[a].asset_type != holdings[b].asset_type);
            }
        }
    }
}

/// The assets in the bank's custody, one amount for each asset class.
pub struct Vault {
    holdings: Vec<Holding>,
}

impl Vault {
    pub closed spec fn wf(&self) -> bool {
        classes_unique(self.holdings@)
    }

    /// The amount of the asset class `asset_type` in the vault.
    pub closed spec fn held(&self, asset_type: AssetType) -> nat {
        held_in(self.holdings@, asset_type)
    }

    /// The empty vault.
    pub fn new() -> (r: Vault)
        ensures
            r.wf(),
            forall|t: AssetType| #[trigger] r.held(t) == 0,
    {
        Vault { holdings: Vec::new() }
    }

    fn find(&self, asset_type: AssetType) -> (r: Option<usize>)
        ensures
            match r {
                Some(i) => i < self.holdings@.len() && self.holdings@[i as int].asset_type == asset_type,
                None => forall|i: int|
                    0 <= i < self.holdings@.len() ==> #[trigger] self.holdings@[i].asset_type != asset_type,
            },
    {
        let mut i: usize = 0;
        while i < self.holdings.len()
            invariant
                i <= self.holdings@.len(),
                forall|j: int| 0 <= j < i ==> #[trigger] self.holdings@[j].asset_type != asset_type,
            decreases self.holdings@.len() - i,
        {
            if self.holdings[i].asset_type == asset_type {
                return Some(i);
            }
            i = i + 1;
        }
        None
    }

    /// The amount of `asset_type` held: zero for a class never added.
    pub fn amount_of(&self, asset_type: AssetType) -> (r: Felt)
        requires
            self.wf(),
        ensures
            r@ == self.held(asset_type),
    {
        match self.find(asset_type) {
            Some(i) => {
                proof {
                    lemma_held_at(self.holdings@, i as int);
                }
                self.holdings[i].amount
            },
            None => {
                proof {
                    lemma_held_absent(self.holdings@, asset_type);
                }
                Felt::zero()
            },
        }
    }

    /// Takes `asset` into custody. The caller has checked that the holding stays
    /// below the modulus.
    pub fn add_asset(&mut self, asset: Asset)
        requires
            old(self).wf(),
            old(self).held(asset.asset_type_spec()) + asset.amount_spec() < MODULUS,
        ensures
            final(self).wf(),
            forall|t: AssetType| #[trigger] final(self).held(t) == old(self).held(t) + if t == asset.asset_type_spec() {
                asset.amount_spec()
            } else {
                0
            },
    {
        let asset_type = asset.asset_type();
        let amount = asset.amount();
        let ghost old_holdings = self.holdings@;
        match self.find(asset_type) {
            Some(i) => {
                proof {
                    lemma_held_at(old_holdings, i as int);
                }
                let current = self.holdings[i].amount;
                let h = Holding { asset_type, amount: current.add(amount) };
                assert((current@ + amount@) % (MODULUS as nat) == current@ + amount@) by (nonlinear_arith)
                    requires current@ + amount@ < MODULUS;
                proof {
                    assert forall|t: AssetType| #[trigger] held_in(old_holdings.update(i as int, h), t) == if t == asset_type {
                        h.amount@
                    } else {
                        held_in(old_holdings, t)
                    } by {
                        lemma_held_after_update(old_holdings, i as int, h, t);
                    }
                    lemma_held_after_update(old_holdings, i as int, h, asset_type);
                }
                self.holdings.set(i, h);
            },
            None => {
                let h = Holding { asset_type, amount };
                proof {
                    lemma_held_absent(old_holdings, asset_type);
                    lemma_held_after_push(old_holdings, h);
                }
                self.holdings.push(h);
            },
        }
    }

    /// Releases `asset` from custody; refuses with `AssetNotHeld`, and changes
    /// nothing, where the vault holds less of its class than it carries.
    pub fn remove_asset(&mut self, asset: Asset) -> (r: Result<(), BankError>)
        requires
            old(self).wf(),
        ensures
            final(self).wf(),
            r is Ok <==> asset.amount_spec() <= old(self).held(asset.asset_type_spec()),
            r is Err ==> r == Err::<(), BankError>(BankError::AssetNotHeld) && *final(self) == *old(self),
            r is Ok ==> forall|t: AssetType| #[trigger] final(self).held(t) + (if t == asset.asset_type_spec() {
                asset.amount_spec()
            } else {
                0
            }) == old(self).held(t),
    {
        let asset_type = asset.asset_type();
        let amount = asset.amount();
        let ghost old_holdings = self.holdings@;
        match self.find(asset_type) {
            Some(i) => {
                proof {
                    lemma_held_at(old_holdings, i as int);
                }
                let current = self.holdings[i].amount;
                if current.as_u64() < amount.as_u64() {
                    return Err(BankError::AssetNotHeld);
                }
                let h = Holding { asset_type, amount: current.sub(amount) };
                assert(((current@ - amount@) as int) % (MODULUS as int) == current@ - amount@) by (nonlinear_arith)
                    requires 0 <= current@ - amount@ < MODULUS;
                proof {
                    assert forall|t: AssetType| #[trigger] held_in(old_holdings.update(i as int, h), t) == if t == asset_type {
                        h.amount@
                    } else {
                        held_in(old_holdings, t)
                    } by {
                        lemma_held_after_update(old_holdings, i as int, h, t);
                    }
                    lemma_held_after_update(old_holdings, i as int, h, asset_type);
                }
                self.holdings.set(i, h);
                Ok(())
            },
            None => {
                proof {
                    lemma_held_absent(old_holdings, asset_type);
                }
                if amount.as_u64() == 0 {
                    Ok(())
                } else {
                    Err(BankError::AssetNotHeld)
                }
            },
        }
    }
}

} // verus!
