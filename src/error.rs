//! The ways in which an operation on the bank is refused.

use vstd::prelude::*;

verus! {

/// Why an operation was refused. A refused operation changes nothing.
#[derive(Clone, Copy, Debug, PartialEq, Eq, Structural)]
pub enum BankError {
    /// `initialize` was called on a bank that is already initialized.
    AlreadyInitialized,
    /// A deposit or a withdrawal was made before the bank was initialized.
    NotInitialized,
    /// A deposit above the per-deposit limit, or one that would take the vault's
    /// holding of the asset class to the field's modulus.
    DepositTooLarge,
    /// A withdrawal of more than the depositor's balance.
    InsufficientFunds,
    /// The vault does not hold the asset that a note was to carry.
    AssetNotHeld,
    /// A note's inputs do not have the length that its script expects.
    MalformedInput,
}

} // verus!
