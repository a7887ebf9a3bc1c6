//! The balance ledger: one balance for each depositor and asset class, with a
//! journal of every credit and debit made to it.

use vstd::prelude::*;
use crate::account::{AssetType, BalanceKey};
use crate::error::BankError;
use crate::field::{Felt, MODULUS};

verus! {

/// One stored balance.
#[derive(Clone, Copy, Debug, PartialEq, Eq, Structural)]
pub struct BalanceEntry {
    pub key: BalanceKey,
    pub balance: Felt,
}

/// One change made to a balance.
pub enum Movement {
    Credit { key: BalanceKey, amount: nat },
    Debit { key: BalanceKey, amount: nat },
}

/// The balance that `entries` stores under `key`: zero where there is none.
pub open spec fn balance_in(entries: Seq<BalanceEntry>, key: BalanceKey) -> nat
    decreases entries.len(),
{
    if entries.len() == 0 {
        0
    } else if entries.last().key == key {
        entries.last().balance@
    } else {
        balance_in(entries.drop_last(), key)
    }
}

/// The sum of the balances that `entries` stores for the asset class `asset_type`.
pub open spec fn class_total(entries: Seq<BalanceEntry>, asset_type: AssetType) -> nat
    decreases entries.len(),
{
    if entries.len() == 0 {
        0
    } else {
        class_total(entries.drop_last(), asset_type) + if entries.last().key.asset_type
            == asset_type {
            entries.last().balance@
        } else {
            0
        }
    }
}

/// No key is stored twice.
pub open spec fn keys_unique(entries: Seq<BalanceEntry>) -> bool {
    forall|i: int, j: int|
        0 <= i < j < entries.len() ==> #[trigger] entries[i].key != #[trigger] entries[j].key
}

/// The sum of the amounts that `journal` credits to `key`.
pub open spec fn credited(journal: Seq<Movement>, key: BalanceKey) -> nat
    decreases journal.len(),
{
    if journal.len() == 0 {
        0
    } else {
        credited(journal.drop_last(), key) + match journal.last() {
            Movement::Credit { key: k, amount } => if k == key {
                amount
            } else {
                0
            },
            Movement::Debit { .. } => 0,
        }
    }
}

/// The sum of the amounts that `journal` debits from `key`.
pub open spec fn debited(journal: Seq<Movement>, key: BalanceKey) -> nat
    decreases journal.len(),
{
    if journal.len() == 0 {
        0
    } else {
        debited(journal.drop_last(), key) + match journal.last() {
            Movement::Debit { key: k, amount } => if k == key {
                amount
            } else {
                0
            },
            Movement::Credit { .. } => 0,
        }
    }
}

/// The balances of all depositors. A key that was never credited has balance zero.
pub struct BalanceLedger {
    entries: Vec<BalanceEntry>,
    journal: Ghost<Seq<Movement>>,
}

proof fn lemma_balance_after_update(entries: Seq<BalanceEntry>, i: int, e: BalanceEntry, key: BalanceKey)
    requires
        keys_unique(entries),
        0 <= i < entries.len(),
        e.key == entries[i].key,
    ensures
        keys_unique(entries.update(i, e)),
        balance_in(entries.update(i, e), key) == if key == e.key {
            e.balance@
        } else {
            balance_in(entries, key)
        },
        class_total(entries.update(i, e), e.key.asset_type) + entries[i].balance@ == class_total(
            entries,
            e.key.asset_type,
        ) + e.balance@,
        forall|t: AssetType|
            t != e.key.asset_type ==> #[trigger] class_total(entries.update(i, e), t) == class_total(
                entries,
                t,
            ),
    decreases entries.len(),
{
    let u = entries.update(i, e);
    assert(keys_unique(u)) by {
        assert forall|a: int, b: int| 0 <= a < b < u.len() implies #[trigger] u[a].key != #[trigger] u[b].key by {
            assert(entries[a].key != entries[b].key);
        }
    }
    if i == entries.len() - 1 {
        assert(u.drop_last() =~= entries.drop_last());
        assert forall|t: AssetType| t != e.key.asset_type implies #[trigger] class_total(u, t)
            == class_total(entries, t) by {
            assert(class_total(u, t) == class_total(u.drop_last(), t));
            assert(class_total(entries, t) == class_total(entries.drop_last(), t));
        }
    } else {
        let d = entries.drop_last();
        assert(keys_unique(d)) by {
            assert forall|a: int, b: int| 0 <= a < b < d.len() implies #[trigger] d[a].key != #[trigger] d[b].key by {
                assert(entries[a].key != entries[b].key);
            }
        }
        lemma_balance_after_update(d, i, e, key);
        assert(u.drop_last() =~= d.update(i, e));
        assert(u.last() == entries.last());
        assert(entries[i].key != entries.last().key);
        assert forall|t: AssetType| t != e.key.asset_type implies #[trigger] class_total(u, t)
            == class_total(entries, t) by {
            assert(class_total(u, t) == class_total(u.drop_last(), t) + if u.last().key.asset_type
                == t {
                u.last().balance@
            } else {
                0
            });
        }
    }
}

proof fn lemma_balance_after_push(entries: Seq<BalanceEntry>, e: BalanceEntry)
    requires
        keys_unique(entries),
        forall|i: int| 0 <= i < entries.len() ==> #[trigger] entries[i].key != e.key,
    ensures
        keys_unique(entries.push(e)),
        forall|k: BalanceKey| #[trigger] balance_in(entries.push(e), k) == if k == e.key {
            e.balance@
        } else {
            balance_in(entries, k)
        },
        forall|t: AssetType| #[trigger] class_total(entries.push(e), t) == class_total(entries, t) + if e.key.asset_type == t {
            e.balance@
        } else {
            0
        },
{
    let p = entries.push(e);
    assert(p.drop_last() =~= entries);
    assert(keys_unique(p)) by {
        assert forall|a: int, b: int| 0 <= a < b < p.len() implies #[trigger] p[a].key != #[trigger] p[b].key by {
            if b == entries.len() {
                assert(entries[a].key != e.key);
            } else {
                assert(entries[a].key != entries[b].key);
            }
        }
    }
}

proof fn lemma_balance_absent(entries: Seq<BalanceEntry>, key: BalanceKey)
    requires
        forall|i: int| 0 <= i < entries.len() ==> #[trigger] entries[i].key != key,
    ensures
        balance_in(entries, key) == 0,
    decreases entries.len(),
{
    if entries.len() > 0 {
        assert(entries[entries.len() - 1].key != key);
        let d = entries.drop_last();
        assert forall|i: int| 0 <= i < d.len() implies #[trigger] d[i].key != key by {
            assert(entries[i].key != key);
        }
        lemma_balance_absent(d, key);
    }
}

proof fn lemma_balance_at(entries: Seq<BalanceEntry>, i: int)
    requires
        keys_unique(entries),
        0 <= i < entries.len(),
    ensures
        balance_in(entries, entries[i].key) == entries[i].balance@,
    decreases entries.len(),
{
    if i < entries.len() - 1 {
        let d = entries.drop_last();
        assert(entries[i].key != entries[entries.len() - 1].key);
        assert(keys_unique(d)) by {
            assert forall|a: int, b: int| 0 <= a < b < d.len() implies #[trigger] d[a].key != #[trigger] d[b].key by {
                assert(entries[a].key != entries[b].key);
            }
        }
        assert(d[i] == entries[i]);
        lemma_balance_at(d, i);
    }
}

/// A balance never exceeds the total of its asset class.
pub proof fn lemma_balance_within_class(entries: Seq<BalanceEntry>, key: BalanceKey)
    requires
        keys_unique(entries),
    ensures
        balance_in(entries, key) <= class_total(entries, key.asset_type),
    decreases entries.len(),
{
    if entries.len() > 0 {
        let d = entries.drop_last();
        assert(keys_unique(d)) by {
            assert forall|a: int, b: int| 0 <= a < b < d.len() implies #[trigger] d[a].key != #[trigger] d[b].key by {
                assert(entries[a].key != entries[b].key);
            }
        }
        lemma_balance_within_class(d, key);
    }
}

proof fn lemma_journal_push(journal: Seq<Movement>, m: Movement)
    ensures
        forall|k: BalanceKey| #[trigger] credited(journal.push(m), k) == credited(journal, k) + match m {
            Movement::Credit { key, amount } => if key == k {
                amount
            } else {
                0
            },
            Movement::Debit { .. } => 0,
        },
        forall|k: BalanceKey| #[trigger] debited(journal.push(m), k) == debited(journal, k) + match m {
            Movement::Debit { key, amount } => if key == k {
                amount
            } else {
                0
            },
            Movement::Credit { .. } => 0,
        },
{
    assert(journal.push(m).drop_last() =~= journal);
}

impl BalanceLedger {
    /// The stored keys are unique, and every balance is what the journal
    /// credited to its key less what it debited.
    pub closed spec fn wf(&self) -> bool {
        &&& keys_unique(self.entries@)
        &&& forall|k: BalanceKey| #[trigger]
            balance_in(self.entries@, k) + debited(self.journal@, k) == credited(self.journal@, k)
    }

    /// The balance of `key`.
    pub closed spec fn balance(&self, key: BalanceKey) -> nat {
        balance_in(self.entries@, key)
    }

    /// The sum of all balances in the asset class `asset_type`.
    pub closed spec fn class_total(&self, asset_type: AssetType) -> nat {
        class_total(self.entries@, asset_type)
    }

    /// Every credit and debit made so far, in order.
    pub closed spec fn journal(&self) -> Seq<Movement> {
        self.journal@
    }

    /// The ledger with no balances.
    pub fn new() -> (r: BalanceLedger)
        ensures
            r.wf(),
            forall|k: BalanceKey| #[trigger] r.balance(k) == 0,
            forall|t: AssetType| #[trigger] r.class_total(t) == 0,
            r.journal() == Seq::<Movement>::empty(),
    {
        BalanceLedger { entries: Vec::new(), journal: Ghost(Seq::empty()) }
    }

    /// A balance never exceeds the total of its asset class.
    pub proof fn lemma_balance_within_class(&self, key: BalanceKey)
        requires
            self.wf(),
        ensures
            self.balance(key) <= self.class_total(key.asset_type),
    {
        lemma_balance_within_class(self.entries@, key);
    }

    /// The balance equals what was credited to its key less what was debited.
    pub proof fn lemma_conservation(&self, key: BalanceKey)
        requires
            self.wf(),
        ensures
            self.balance(key) == credited(self.journal(), key) - debited(self.journal(), key),
    {
        assert(balance_in(self.entries@, key) + debited(self.journal@, key) == credited(self.journal@, key));
    }

    fn find(&self, key: BalanceKey) -> (r: Option<usize>)
        ensures
            match r {
                Some(i) => i < self.entries@.len() && self.entries@[i as int].key == key,
                None => forall|i: int| 0 <= i < self.entries@.len() ==> #[trigger] self.entries@[i].key != key,
            },
    {
        let mut i: usize = 0;
        while i < self.entries.len()
            invariant
                i <= self.entries@.len(),
                forall|j: int| 0 <= j < i ==> #[trigger] self.entries@[j].key != key,
            decreases self.entries@.len() - i,
        {
            if self.entries[i].key == key {
                return Some(i);
            }
            i = i + 1;
        }
        None
    }

    /// The balance of `key`: zero for a key never credited.
    pub fn get_balance(&self, key: BalanceKey) -> (r: Felt)
        requires
            self.wf(),
        ensures
            r@ == self.balance(key),
    {
        match self.find(key) {
            Some(i) => {
                proof {
                    lemma_balance_at(self.entries@, i as int);
                }
                self.entries[i].balance
            },
            None => {
                proof {
                    lemma_balance_absent(self.entries@, key);
                }
                Felt::zero()
            },
        }
    }

    /// Adds `amount` to the balance of `key`. The caller has checked that the sum
    /// stays below the modulus, so the field addition does not wrap.
    pub fn credit(&mut self, key: BalanceKey, amount: Felt)
        requires
            old(self).wf(),
            old(self).balance(key) + amount@ < MODULUS,
        ensures
            final(self).wf(),
            forall|k: BalanceKey| #[trigger] final(self).balance(k) == old(self).balance(k) + if k == key {
                amount@
            } else {
                0
            },
            final(self).class_total(key.asset_type) == old(self).class_total(key.asset_type) + amount@,
            forall|t: AssetType| t != key.asset_type ==> #[trigger] final(self).class_total(t) == old(self).class_total(t),
            final(self).journal() == old(self).journal().push(Movement::Credit { key, amount: amount@ }),
    {
        let ghost old_entries = self.entries@;
        let ghost m = Movement::Credit { key, amount: amount@ };
        proof {
            lemma_journal_push(self.journal@, m);
        }
        match self.find(key) {
            Some(i) => {
                proof {
                    lemma_balance_at(old_entries, i as int);
                }
                let current = self.entries[i].balance;
                let e = BalanceEntry { key, balance: current.add(amount) };
                assert((current@ + amount@) % (MODULUS as nat) == current@ + amount@) by (nonlinear_arith)
                    requires current@ + amount@ < MODULUS;
                proof {
                    assert forall|k: BalanceKey| #[trigger] balance_in(old_entries.update(i as int, e), k) == if k == key {
                        e.balance@
                    } else {
                        balance_in(old_entries, k)
                    } by {
                        lemma_balance_after_update(old_entries, i as int, e, k);
                    }
                    lemma_balance_after_update(old_entries, i as int, e, key);
                }
                self.entries.set(i, e);
            },
            None => {
                let e = BalanceEntry { key, balance: amount };
                proof {
                    lemma_balance_absent(old_entries, key);
                    lemma_balance_after_push(old_entries, e);
                }
                self.entries.push(e);
            },
        }
        self.journal = Ghost(self.journal@.push(m));
        assert forall|k: BalanceKey| #[trigger]
            balance_in(self.entries@, k) + debited(self.journal@, k) == credited(self.journal@, k) by {
            assert(balance_in(old_entries, k) + debited(old(self).journal@, k) == credited(old(self).journal@, k));
        }
    }

    /// Takes `amount` from the balance of `key`, where the balance holds at least
    /// that much; refuses with `InsufficientFunds`, and changes nothing, where not.
    pub fn debit(&mut self, key: BalanceKey, amount: Felt) -> (r: Result<(), BankError>)
        requires
            old(self).wf(),
        ensures
            final(self).wf(),
            r is Ok <==> amount@ <= old(self).balance(key),
            r is Err ==> r == Err::<(), BankError>(BankError::InsufficientFunds) && *final(self) == *old(self),
            r is Ok ==> {
                &&& forall|k: BalanceKey| #[trigger] final(self).balance(k) + (if k == key {
                    amount@
                } else {
                    0
                }) == old(self).balance(k)
                &&& final(self).class_total(key.asset_type) + amount@ == old(self).class_total(key.asset_type)
                &&& forall|t: AssetType| t != key.asset_type ==> #[trigger] final(self).class_total(t) == old(self).class_total(t)
                &&& final(self).journal() == old(self).journal().push(Movement::Debit { key, amount: amount@ })
            },
    {
        let ghost old_entries = self.entries@;
        let ghost m = Movement::Debit { key, amount: amount@ };
        match self.find(key) {
            Some(i) => {
                proof {
                    lemma_balance_at(old_entries, i as int);
                }
                let current = self.entries[i].balance;
                if current.as_u64() < amount.as_u64() {
                    return Err(BankError::InsufficientFunds);
                }
                let e = BalanceEntry { key, balance: current.sub(amount) };
                assert(((current@ - amount@) as int) % (MODULUS as int) == current@ - amount@) by (nonlinear_arith)
                    requires 0 <= current@ - amount@ < MODULUS;
                proof {
                    lemma_journal_push(self.journal@, m);
                    assert forall|k: BalanceKey| #[trigger] balance_in(old_entries.update(i as int, e), k) == if k == key {
                        e.balance@
                    } else {
                        balance_in(old_entries, k)
                    } by {
                        lemma_balance_after_update(old_entries, i as int, e, k);
                    }
                    lemma_balance_after_update(old_entries, i as int, e, key);
                }
                self.entries.set(i, e);
                self.journal = Ghost(self.journal@.push(m));
                assert forall|k: BalanceKey| #[trigger]
                    balance_in(self.entries@, k) + debited(self.journal@, k) == credited(self.journal@, k) by {
                    assert(balance_in(old_entries, k) + debited(old(self).journal@, k) == credited(old(self).journal@, k));
                }
                Ok(())
            },
            None => {
                proof {
                    lemma_balance_absent(old_entries, key);
                }
                if amount.as_u64() == 0 {
                    proof {
                        lemma_journal_push(self.journal@, m);
                    }
                    self.journal = Ghost(self.journal@.push(m));
                    assert forall|k: BalanceKey| #[trigger]
                        balance_in(self.entries@, k) + debited(self.journal@, k) == credited(self.journal@, k) by {
                        assert(balance_in(old_entries, k) + debited(old(self).journal@, k) == credited(old(self).journal@, k));
                    }
                    Ok(())
                } else {
                    Err(BankError::InsufficientFunds)
                }
            },
        }
    }
}

} // verus!
