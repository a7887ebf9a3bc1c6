//! The bank account: an initialization flag, the balance ledger, the vault, and
//! the notes it has emitted, changed only through the entry points below.
//!
//! Persisted layout: slot 0 holds the flag word `[flag, 0, 0, 0]`; slot 1 holds
//! the balance map, keyed by `[depositor.prefix, depositor.suffix, type_suffix,
//! type_prefix]`.

use vstd::prelude::*;
use crate::account::{AccountId, Asset, AssetType, BalanceKey};
use crate::error::BankError;
use crate::field::{Felt, Word, MODULUS, word_values};
use crate::ledger::{BalanceLedger, Movement, credited, debited};
use crate::note::OutputNote;
use crate::recipient::{p2id_recipient, p2id_recipient_of};
use crate::vault::Vault;

verus! {

/// The largest amount that one deposit may carry.
pub const MAX_DEPOSIT_AMOUNT: u64 = 1_000_000;

/// The storage slot of the initialization flag.
pub const INITIALIZED_SLOT: u8 = 0;

/// The storage slot of the balance map.
pub const BALANCES_SLOT: u8 = 1;

/// The key under which `depositor`'s balance of `asset`'s class is kept.
pub open spec fn key_of(depositor: AccountId, asset: Asset) -> BalanceKey {
    BalanceKey { depositor, asset_type: asset.asset_type_spec() }
}

/// `note` pays `asset` to `target` through the pay-to-id script, with serial
/// number `serial_num`, always executable, and with the routing fields given.
pub open spec fn is_p2id_note(
    note: OutputNote,
    asset: Asset,
    serial_num: Word,
    target: AccountId,
    tag: Felt,
    aux: Felt,
    note_type: Felt,
) -> bool {
    &&& note.asset == asset
    &&& word_values(note.recipient) == p2id_recipient_of(word_values(serial_num), target)
    &&& note.tag == tag
    &&& note.aux == aux
    &&& note.note_type == note_type
    &&& note.execution_hint@ == 0
}

/// The sum of the amounts of `assets` in the class `asset_type`.
pub open spec fn assets_total(assets: Seq<Asset>, asset_type: AssetType) -> nat
    decreases assets.len(),
{
    if assets.len() == 0 {
        0
    } else {
        assets_total(assets.drop_last(), asset_type) + if assets.last().asset_type_spec() == asset_type {
            assets.last().amount_spec()
        } else {
            0
        }
    }
}

/// The credits that depositing `assets` for `depositor` writes to the journal.
pub open spec fn deposit_credits(depositor: AccountId, assets: Seq<Asset>) -> Seq<Movement> {
    assets.map_values(|a: Asset| Movement::Credit { key: key_of(depositor, a), amount: a.amount_spec() })
}

proof fn lemma_assets_total_step(assets: Seq<Asset>, i: int)
    requires
        0 <= i < assets.len(),
    ensures
        forall|t: AssetType| #[trigger] assets_total(assets.take(i + 1), t) == assets_total(assets.take(i), t) + if assets[i].asset_type_spec() == t {
            assets[i].amount_spec()
        } else {
            0
        },
{
    assert(assets.take(i + 1).drop_last() =~= assets.take(i));
}

proof fn lemma_assets_total_prefix(assets: Seq<Asset>, j: int, t: AssetType)
    requires
        0 <= j <= assets.len(),
    ensures
        assets_total(assets.take(j), t) <= assets_total(assets, t),
    decreases assets.len(),
{
    if j == assets.len() {
        assert(assets.take(j) =~= assets);
    } else {
        let d = assets.drop_last();
        assert(d.take(j) =~= assets.take(j));
        lemma_assets_total_prefix(d, j, t);
    }
}

/// The word `[inputs[at], inputs[at + 1], inputs[at + 2], inputs[at + 3]]`.
pub open spec fn word_at(inputs: Seq<Felt>, at: int) -> Word {
    [inputs[at], inputs[at + 1], inputs[at + 2], inputs[at + 3]]
}

/// The number of inputs of a withdraw request note: the asset's word, the
/// serial number of the note to emit, then its tag, aux and note type.
pub const WITHDRAW_REQUEST_INPUTS: usize = 11;

/// A bank account holding depositors' assets.
pub struct Bank {
    initialized: bool,
    balances: BalanceLedger,
    vault: Vault,
    output_notes: Vec<OutputNote>,
}

impl Bank {
    /// The ledger and the vault are well formed, and the vault holds of each
    /// asset class exactly the sum of the balances in that class.
    pub closed spec fn wf(&self) -> bool {
        &&& self.balances.wf()
        &&& self.vault.wf()
        &&& forall|t: AssetType| #[trigger] self.vault.held(t) == self.balances.class_total(t)
    }

    /// Whether `initialize` has succeeded on this bank.
    pub closed spec fn spec_initialized(&self) -> bool {
        self.initialized
    }

    /// The balance of `key`.
    pub closed spec fn balance(&self, key: BalanceKey) -> nat {
        self.balances.balance(key)
    }

    /// The amount of an asset class in the vault.
    pub closed spec fn held(&self, asset_type: AssetType) -> nat {
        self.vault.held(asset_type)
    }

    /// The notes emitted so far, in order.
    pub closed spec fn notes(&self) -> Seq<OutputNote> {
        self.output_notes@
    }

    /// Every credit and debit of the ledger so far, in order.
    pub closed spec fn journal(&self) -> Seq<Movement> {
        self.balances.journal()
    }

    /// `new` holds the same balances, vault and notes as `self`.
    pub open spec fn same_accounts(&self, new: Bank) -> bool {
        &&& forall|k: BalanceKey| #[trigger] new.balance(k) == self.balance(k)
        &&& forall|t: AssetType| #[trigger] new.held(t) == self.held(t)
        &&& new.notes() == self.notes()
        &&& new.journal() == self.journal()
    }

    /// The outcome of `initialize` from `self` to `new` with result `r`: it
    /// succeeds exactly on a bank not yet initialized, which it initializes,
    /// touching nothing else; otherwise `AlreadyInitialized`, with no change.
    pub open spec fn initialization(&self, new: Bank, r: Result<(), BankError>) -> bool {
        &&& r is Ok <==> !self.spec_initialized()
        &&& r is Err ==> r == Err::<(), BankError>(BankError::AlreadyInitialized) && new == *self
        &&& r is Ok ==> new.spec_initialized() && self.same_accounts(new)
    }

    /// `new` is `self` after a deposit of `amount` under `key`.
    pub open spec fn deposited(&self, new: Bank, key: BalanceKey, amount: nat) -> bool {
        &&& new.spec_initialized() == self.spec_initialized()
        &&& forall|k: BalanceKey| #[trigger] new.balance(k) == self.balance(k) + if k == key {
            amount
        } else {
            0
        }
        &&& forall|t: AssetType| #[trigger] new.held(t) == self.held(t) + if t == key.asset_type {
            amount
        } else {
            0
        }
        &&& new.notes() == self.notes()
        &&& new.journal() == self.journal().push(Movement::Credit { key, amount })
    }

    /// `new` is `self` after `amount` was withdrawn from `key` and `note` emitted.
    pub open spec fn withdrawn(&self, new: Bank, key: BalanceKey, amount: nat, note: OutputNote) -> bool {
        &&& new.spec_initialized() == self.spec_initialized()
        &&& forall|k: BalanceKey| #[trigger] new.balance(k) + (if k == key {
            amount
        } else {
            0
        }) == self.balance(k)
        &&& forall|t: AssetType| #[trigger] new.held(t) + (if t == key.asset_type {
            amount
        } else {
            0
        }) == self.held(t)
        &&& new.notes() == self.notes().push(note)
        &&& new.journal() == self.journal().push(Movement::Debit { key, amount })
    }

    /// The outcome of a withdrawal of `asset` by `depositor`, from `self` to
    /// `new` with result `r`: `NotInitialized` before initialization,
    /// `InsufficientFunds` where the balance is short, each with no change;
    /// otherwise the balance and the vault lose the amount and one pay-to-id
    /// note, whose index is returned, carries the asset back to `depositor`.
    pub open spec fn withdrawal(
        &self,
        new: Bank,
        depositor: AccountId,
        asset: Asset,
        serial_num: Word,
        tag: Felt,
        aux: Felt,
        note_type: Felt,
        r: Result<usize, BankError>,
    ) -> bool {
        &&& r == Err::<usize, BankError>(BankError::NotInitialized) <==> !self.spec_initialized()
        &&& r == Err::<usize, BankError>(BankError::InsufficientFunds) <==> self.spec_initialized()
            && asset.amount_spec() > self.balance(key_of(depositor, asset))
        &&& r is Ok <==> self.spec_initialized() && asset.amount_spec() <= self.balance(key_of(depositor, asset))
        &&& r is Err ==> new == *self
        &&& r is Ok ==> {
            &&& r->Ok_0 == self.notes().len()
            &&& self.withdrawn(new, key_of(depositor, asset), asset.amount_spec(), new.notes().last())
            &&& is_p2id_note(new.notes().last(), asset, serial_num, depositor, tag, aux, note_type)
        }
    }

    /// A bank that is not yet initialized, with no balances, an empty vault and
    /// no notes.
    pub fn new() -> (r: Bank)
        ensures
            r.wf(),
            !r.spec_initialized(),
            forall|k: BalanceKey| #[trigger] r.balance(k) == 0,
            forall|t: AssetType| #[trigger] r.held(t) == 0,
            r.notes() == Seq::<OutputNote>::empty(),
            r.journal() == Seq::<Movement>::empty(),
    {
        Bank { initialized: false, balances: BalanceLedger::new(), vault: Vault::new(), output_notes: Vec::new() }
    }

    /// Enables deposits and withdrawals. Refuses with `AlreadyInitialized` where
    /// the bank already is; the flag is never cleared.
    pub fn initialize(&mut self) -> (r: Result<(), BankError>)
        requires
            old(self).wf(),
        ensures
            final(self).wf(),
            old(self).initialization(*final(self), r),
    {
        if self.initialized {
            return Err(BankError::AlreadyInitialized);
        }
        self.initialized = true;
        Ok(())
    }

    fn require_initialized(&self) -> (r: Result<(), BankError>)
        ensures
            r is Ok <==> self.spec_initialized(),
            r is Err ==> r == Err::<(), BankError>(BankError::NotInitialized),
    {
        if self.initialized {
            Ok(())
        } else {
            Err(BankError::NotInitialized)
        }
    }

    pub fn is_initialized(&self) -> (r: bool)
        ensures
            r == self.spec_initialized(),
    {
        self.initialized
    }

    /// The word stored in the flag's slot: `[1, 0, 0, 0]` once initialized,
    /// zeros before.
    pub fn initialized_word(&self) -> (r: Word)
        ensures
            word_values(r) == seq![if self.spec_initialized() { 1nat } else { 0nat }, 0nat, 0nat, 0nat],
    {
        let flag = if self.initialized {
            Felt::new(1)
        } else {
            Felt::zero()
        };
        let r = [flag, Felt::zero(), Felt::zero(), Felt::zero()];
        assert(word_values(r) =~= seq![if self.spec_initialized() { 1nat } else { 0nat }, 0nat, 0nat, 0nat]);
        r
    }

    /// The balance of `depositor` in the asset class `asset_type`: zero where
    /// nothing was ever deposited.
    pub fn get_balance(&self, depositor: AccountId, asset_type: AssetType) -> (r: Felt)
        requires
            self.wf(),
        ensures
            r@ == self.balance(BalanceKey { depositor, asset_type }),
    {
        self.balances.get_balance(BalanceKey::new(depositor, asset_type))
    }

    /// The amount of the asset class `asset_type` in the vault.
    pub fn vault_amount(&self, asset_type: AssetType) -> (r: Felt)
        requires
            self.wf(),
        ensures
            r@ == self.held(asset_type),
    {
        self.vault.amount_of(asset_type)
    }

    /// The notes emitted so far.
    pub fn output_notes(&self) -> (r: &Vec<OutputNote>)
        ensures
            r@ == self.notes(),
    {
        &self.output_notes
    }

    /// What the ledger owes in the asset class `asset_type`: the sum of all
    /// depositors' balances in it.
    pub closed spec fn owed(&self, asset_type: AssetType) -> nat {
        self.balances.class_total(asset_type)
    }

    /// Every balance is what was credited to its key less what was debited
    /// from it, over the whole history of deposits and withdrawals.
    pub proof fn lemma_conservation(&self, key: BalanceKey)
        requires
            self.wf(),
        ensures
            self.balance(key) == credited(self.journal(), key) - debited(self.journal(), key),
    {
        self.balances.lemma_conservation(key);
    }

    /// No asset is made or lost: the vault holds of each class exactly what the
    /// ledger owes in it, and so never less than one depositor's balance.
    pub proof fn lemma_vault_backs_balances(&self, key: BalanceKey)
        requires
            self.wf(),
        ensures
            self.held(key.asset_type) == self.owed(key.asset_type),
            self.balance(key) <= self.held(key.asset_type),
    {
        self.balances.lemma_balance_within_class(key);
    }

    /// A second `initialize` is refused: whatever the first returned, the one
    /// after it returns `AlreadyInitialized`.
    pub proof fn lemma_initialize_twice(
        first: Bank,
        second: Bank,
        third: Bank,
        r1: Result<(), BankError>,
        r2: Result<(), BankError>,
    )
        requires
            first.initialization(second, r1),
            second.initialization(third, r2),
        ensures
            r2 == Err::<(), BankError>(BankError::AlreadyInitialized),
            third.spec_initialized(),
    {
    }

    /// Every asset fits: none exceeds `MAX_DEPOSIT_AMOUNT`, and for the class of
    /// each, the vault's holding plus all of that class in `assets` stays below
    /// the field's modulus.
    pub open spec fn deposits_fit(&self, assets: Seq<Asset>) -> bool {
        &&& forall|i: int| 0 <= i < assets.len() ==> #[trigger] assets[i].amount_spec() <= MAX_DEPOSIT_AMOUNT
        &&& forall|i: int|
            0 <= i < assets.len() ==> self.held(#[trigger] assets[i].asset_type_spec()) + assets_total(
                assets,
                assets[i].asset_type_spec(),
            ) < MODULUS
    }

    /// Credits `depositor` with `asset` and takes the asset into the vault.
    /// Refuses with `NotInitialized` before initialization, and with
    /// `DepositTooLarge` where the amount exceeds `MAX_DEPOSIT_AMOUNT` or would
    /// take the vault's holding of the class to the field's modulus.
    pub fn deposit(&mut self, depositor: AccountId, asset: Asset) -> (r: Result<(), BankError>)
        requires
            old(self).wf(),
        ensures
            final(self).wf(),
            r == Err::<(), BankError>(BankError::NotInitialized) <==> !old(self).spec_initialized(),
            r == Err::<(), BankError>(BankError::DepositTooLarge) <==> old(self).spec_initialized() && (
            asset.amount_spec() > MAX_DEPOSIT_AMOUNT || old(self).held(asset.asset_type_spec())
                + asset.amount_spec() >= MODULUS),
            r is Ok <==> old(self).spec_initialized() && asset.amount_spec() <= MAX_DEPOSIT_AMOUNT
                && old(self).held(asset.asset_type_spec()) + asset.amount_spec() < MODULUS,
            r is Err ==> *final(self) == *old(self),
            r is Ok ==> old(self).deposited(*final(self), key_of(depositor, asset), asset.amount_spec()),
    {
        self.require_initialized()?;
        let amount = asset.amount();
        if amount.as_u64() > MAX_DEPOSIT_AMOUNT {
            return Err(BankError::DepositTooLarge);
        }
        let asset_type = asset.asset_type();
        let held = self.vault.amount_of(asset_type);
        if amount.as_u64() >= MODULUS - held.as_u64() {
            return Err(BankError::DepositTooLarge);
        }
        let key = BalanceKey::new(depositor, asset_type);
        proof {
            self.balances.lemma_balance_within_class(key);
        }
        self.balances.credit(key, amount);
        self.vault.add_asset(asset);
        Ok(())
    }

    /// Emits a pay-to-id note that carries `asset` to `recipient_id`, releasing
    /// the asset from the vault; refuses with `AssetNotHeld` where the vault
    /// holds too little of its class.
    fn create_p2id_note(
        &mut self,
        serial_num: Word,
        asset: Asset,
        recipient_id: AccountId,
        tag: Felt,
        aux: Felt,
        note_type: Felt,
    ) -> (r: Result<usize, BankError>)
        requires
            old(self).vault.wf(),
        ensures
            final(self).vault.wf(),
            r is Ok <==> asset.amount_spec() <= old(self).vault.held(asset.asset_type_spec()),
            r is Err ==> r == Err::<usize, BankError>(BankError::AssetNotHeld) && *final(self) == *old(self),
            r is Ok ==> {
                &&& r->Ok_0 == old(self).output_notes@.len()
                &&& final(self).output_notes@.len() == old(self).output_notes@.len() + 1
                &&& final(self).output_notes@.drop_last() == old(self).output_notes@
                &&& is_p2id_note(final(self).output_notes@.last(), asset, serial_num, recipient_id, tag, aux, note_type)
                &&& forall|t: AssetType| #[trigger] final(self).vault.held(t) + (if t == asset.asset_type_spec() {
                    asset.amount_spec()
                } else {
                    0
                }) == old(self).vault.held(t)
                &&& final(self).balances == old(self).balances
                &&& final(self).initialized == old(self).initialized
            },
    {
        let recipient = p2id_recipient(serial_num, recipient_id);
        self.vault.remove_asset(asset)?;
        let note = OutputNote { tag, aux, note_type, execution_hint: Felt::zero(), recipient, asset };
        let index = self.output_notes.len();
        self.output_notes.push(note);
        assert(self.output_notes@.drop_last() =~= old(self).output_notes@);
        Ok(index)
    }

    /// Takes `asset` from `depositor`'s balance and emits a pay-to-id note that
    /// carries it back to `depositor`; returns the note's index among the notes
    /// emitted. Refuses with `NotInitialized` before initialization, and with
    /// `InsufficientFunds` where the balance holds less than the asset's amount.
    pub fn withdraw(
        &mut self,
        depositor: AccountId,
        asset: Asset,
        serial_num: Word,
        tag: Felt,
        aux: Felt,
        note_type: Felt,
    ) -> (r: Result<usize, BankError>)
        requires
            old(self).wf(),
        ensures
            final(self).wf(),
            old(self).withdrawal(*final(self), depositor, asset, serial_num, tag, aux, note_type, r),
    {
        self.require_initialized()?;
        let amount = asset.amount();
        let key = BalanceKey::new(depositor, asset.asset_type());
        let balance = self.balances.get_balance(key);
        if amount.as_u64() > balance.as_u64() {
            return Err(BankError::InsufficientFunds);
        }
        proof {
            self.balances.lemma_balance_within_class(key);
        }
        self.balances.debit(key, amount)?;
        let index = self.create_p2id_note(serial_num, asset, depositor, tag, aux, note_type)?;
        assert(self.output_notes@ =~= old(self).output_notes@.push(self.output_notes@.last()));
        Ok(index)
    }
}

impl Bank {
    /// Consumes a deposit note sent by `sender` that carries `assets`: deposits
    /// each asset for `sender`, all of them or none. A note without assets
    /// changes nothing. Otherwise refuses with `NotInitialized` before
    /// initialization, and with `DepositTooLarge` where the assets do not fit.
    pub fn consume_deposit_note(&mut self, sender: AccountId, assets: &Vec<Asset>) -> (r: Result<(), BankError>)
        requires
            old(self).wf(),
        ensures
            final(self).wf(),
            r == Err::<(), BankError>(BankError::NotInitialized) <==> assets@.len() > 0 && !old(self).spec_initialized(),
            r == Err::<(), BankError>(BankError::DepositTooLarge) <==> assets@.len() > 0 && old(self).spec_initialized()
                && !old(self).deposits_fit(assets@),
            r is Ok <==> assets@.len() == 0 || (old(self).spec_initialized() && old(self).deposits_fit(assets@)),
            r is Err ==> *final(self) == *old(self),
            r is Ok ==> {
                &&& final(self).spec_initialized() == old(self).spec_initialized()
                &&& forall|k: BalanceKey| #[trigger] final(self).balance(k) == old(self).balance(k) + if k.depositor == sender {
                    assets_total(assets@, k.asset_type)
                } else {
                    0
                }
                &&& forall|t: AssetType| #[trigger] final(self).held(t) == old(self).held(t) + assets_total(assets@, t)
                &&& final(self).notes() == old(self).notes()
                &&& final(self).journal() == old(self).journal() + deposit_credits(sender, assets@)
            },
    {
        let n = assets.len();
        if n == 0 {
            assert(assets@.take(0) =~= assets@);
            assert(deposit_credits(sender, assets@) =~= Seq::<Movement>::empty());
            assert(old(self).journal() + deposit_credits(sender, assets@) =~= old(self).journal());
            return Ok(());
        }
        self.require_initialized()?;
        let mut i: usize = 0;
        while i < n
            invariant
                n == assets@.len(),
                i <= n,
                *self == *old(self),
                self.wf(),
                self.spec_initialized(),
                forall|j: int| 0 <= j < i ==> #[trigger] assets@[j].amount_spec() <= MAX_DEPOSIT_AMOUNT,
            decreases n - i,
        {
            if assets[i].amount().as_u64() > MAX_DEPOSIT_AMOUNT {
                return Err(BankError::DepositTooLarge);
            }
            i = i + 1;
        }
        i = 0;
        while i < n
            invariant
                n == assets@.len(),
                i <= n,
                *self == *old(self),
                self.wf(),
                self.spec_initialized(),
                forall|j: int| 0 <= j < n ==> #[trigger] assets@[j].amount_spec() <= MAX_DEPOSIT_AMOUNT,
                forall|j: int|
                    0 <= j < i ==> self.held(#[trigger] assets@[j].asset_type_spec()) + assets_total(
                        assets@,
                        assets@[j].asset_type_spec(),
                    ) < MODULUS,
            decreases n - i,
        {
            let asset_type = assets[i].asset_type();
            let mut sum = self.vault_amount(asset_type).as_u64();
            let mut j: usize = 0;
            while j < n
                invariant
                    n == assets@.len(),
                    j <= n,
                    i < n,
                    *self == *old(self),
                    self.wf(),
                    self.spec_initialized(),
                    asset_type == assets@[i as int].asset_type_spec(),
                    sum == self.held(asset_type) + assets_total(assets@.take(j as int), asset_type),
                    sum < MODULUS,
                decreases n - j,
            {
                proof {
                    lemma_assets_total_step(assets@, j as int);
                }
                if assets[j].asset_type() == asset_type {
                    let amount = assets[j].amount().as_u64();
                    if amount >= MODULUS - sum {
                        proof {
                            lemma_assets_total_prefix(assets@, j + 1, asset_type);
                        }
                        return Err(BankError::DepositTooLarge);
                    }
                    sum = sum + amount;
                }
                j = j + 1;
            }
            assert(assets@.take(n as int) =~= assets@);
            i = i + 1;
        }
        let ghost start = *self;
        i = 0;
        while i < n
            invariant
                n == assets@.len(),
                i <= n,
                self.wf(),
                self.spec_initialized(),
                start.deposits_fit(assets@),
                forall|k: BalanceKey| #[trigger] self.balance(k) == start.balance(k) + if k.depositor == sender {
                    assets_total(assets@.take(i as int), k.asset_type)
                } else {
                    0
                },
                forall|t: AssetType| #[trigger] self.held(t) == start.held(t) + assets_total(assets@.take(i as int), t),
                self.notes() == start.notes(),
                self.journal() == start.journal() + deposit_credits(sender, assets@.take(i as int)),
            decreases n - i,
        {
            let asset = assets[i];
            let ghost before = *self;
            proof {
                lemma_assets_total_step(assets@, i as int);
                lemma_assets_total_prefix(assets@, i + 1, asset.asset_type_spec());
                assert(start.held(assets@[i as int].asset_type_spec()) + assets_total(
                    assets@,
                    assets@[i as int].asset_type_spec(),
                ) < MODULUS);
            }
            match self.deposit(sender, asset) {
                Ok(()) => {},
                Err(e) => {
                    return Err(e);
                },
            }
            proof {
                assert(deposit_credits(sender, assets@.take(i + 1)) =~= deposit_credits(sender, assets@.take(i as int)).push(
                    Movement::Credit { key: key_of(sender, asset), amount: asset.amount_spec() },
                ));
                assert(self.journal() =~= start.journal() + deposit_credits(sender, assets@.take(i + 1)));
                assert forall|k: BalanceKey| #[trigger] self.balance(k) == start.balance(k) + if k.depositor == sender {
                    assets_total(assets@.take(i + 1), k.asset_type)
                } else {
                    0
                } by {
                    assert(before.balance(k) == start.balance(k) + if k.depositor == sender {
                        assets_total(assets@.take(i as int), k.asset_type)
                    } else {
                        0
                    });
                    assert(assets_total(assets@.take(i + 1), k.asset_type) == assets_total(assets@.take(i as int), k.asset_type) + if asset.asset_type_spec() == k.asset_type {
                        asset.amount_spec()
                    } else {
                        0
                    });
                }
                assert forall|t: AssetType| #[trigger] self.held(t) == start.held(t) + assets_total(assets@.take(i + 1), t) by {
                    assert(before.held(t) == start.held(t) + assets_total(assets@.take(i as int), t));
                }
            }
            i = i + 1;
        }
        assert(assets@.take(n as int) =~= assets@);
        Ok(())
    }

    /// Consumes a withdraw request note sent by `sender`. Its inputs are, in
    /// order: the word of the asset to withdraw, the serial number of the note to
    /// emit, then that note's tag, aux and note type. Refuses with
    /// `MalformedInput`, changing nothing, where there are not exactly
    /// `WITHDRAW_REQUEST_INPUTS` of them; otherwise withdraws as `withdraw` does.
    pub fn consume_withdraw_request_note(&mut self, sender: AccountId, inputs: &Vec<Felt>) -> (r: Result<usize, BankError>)
        requires
            old(self).wf(),
        ensures
            final(self).wf(),
            inputs@.len() != WITHDRAW_REQUEST_INPUTS ==> r == Err::<usize, BankError>(BankError::MalformedInput)
                && *final(self) == *old(self),
            inputs@.len() == WITHDRAW_REQUEST_INPUTS ==> old(self).withdrawal(
                *final(self),
                sender,
                Asset { inner: word_at(inputs@, 0) },
                word_at(inputs@, 4),
                inputs@[8],
                inputs@[9],
                inputs@[10],
                r,
            ),
    {
        if inputs.len() != WITHDRAW_REQUEST_INPUTS {
            return Err(BankError::MalformedInput);
        }
        let asset = Asset::new([inputs[0], inputs[1], inputs[2], inputs[3]]);
        let serial_num = [inputs[4], inputs[5], inputs[6], inputs[7]];
        self.withdraw(sender, asset, serial_num, inputs[8], inputs[9], inputs[10])
    }
}

} // verus!
