//! Outgoing notes, and the routing tag of a note meant for a local account.

use vstd::prelude::*;
use crate::account::{AccountId, Asset};
use crate::field::{Felt, Word};

verus! {

/// A note that the bank emits: it carries `asset` to whoever can satisfy
/// `recipient`. `tag` routes it, `note_type` says whether it is public (1) or
/// private (2), and `aux` is free for applications; the bank forwards all three
/// as the caller gave them.
#[derive(Clone, Copy, Debug, PartialEq, Eq)]
pub struct OutputNote {
    pub tag: Felt,
    pub aux: Felt,
    pub note_type: Felt,
    pub execution_hint: Felt,
    pub recipient: Word,
    pub asset: Asset,
}

/// The high bits that mark a tag as "local, any use".
pub const LOCAL_ANY_PREFIX: u32 = 0xc000_0000;

/// The tag of a note for a local account: the "local, any use" marker, with the
/// top fourteen bits of the account's prefix in bits 16 to 29.
pub open spec fn local_account_tag_value(account: AccountId) -> nat {
    0xc000_0000 + (account.prefix@ / 0x4_0000_0000_0000) * 0x1_0000
}

pub fn local_account_tag(account: AccountId) -> (r: Felt)
    ensures
        r@ == local_account_tag_value(account),
{
    let prefix = account.prefix.as_u64();
    assert(prefix >> 34u64 < 0x4000_0000u64) by (bit_vector);
    let shifted = (prefix >> 34u64) as u32;
    let mask: u32 = u32::MAX << 16u32;
    assert(mask == 0xffff_0000u32) by (bit_vector)
        requires mask == 0xffff_ffffu32 << 16u32,
    ;
    let tag = LOCAL_ANY_PREFIX | (shifted & mask);
    assert(tag as u64 == 0xc000_0000u64 + ((prefix >> 50u64) << 16u64)) by (bit_vector)
        requires
            shifted == (prefix >> 34u64) as u32,
            mask == 0xffff_0000u32,
            tag == 0xc000_0000u32 | (shifted & mask),
    ;
    assert(prefix >> 50u64 == prefix / 0x4_0000_0000_0000u64) by (bit_vector);
    assert((prefix >> 50u64) << 16u64 == (prefix >> 50u64) * 0x1_0000u64) by (bit_vector)
        requires prefix >> 50u64 < 0x4000u64,
    ;
    assert(prefix >> 50u64 < 0x4000u64) by (bit_vector);
    Felt::new(tag as u64)
}

} // verus!
