//! A custodial ledger: depositors place fungible assets in a shared vault, and
//! the bank pays them back through pay-to-id notes addressed to their account.

pub mod field;
pub mod account;
pub mod bank;
pub mod error;
pub mod recipient;
pub mod vault;
pub mod ledger;
pub mod note;
