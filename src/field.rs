//! Elements of the prime field of order `2^64 - 2^32 + 1`, and words of four of them.

use vstd::prelude::*;

verus! {

/// The order of the field.
pub const MODULUS: u64 = 0xffff_ffff_0000_0001;

/// A field element, kept in canonical form (an integer below `MODULUS`).
#[derive(Clone, Copy, Debug, PartialEq, Eq, Structural)]
pub struct Felt {
    pub(crate) value: u64,
}

/// Four field elements: the unit of storage and of hashing.
pub type Word = [Felt; 4];

impl View for Felt {
    type V = nat;

    closed spec fn view(&self) -> nat {
        self.value as nat
    }
}

impl Felt {
    #[verifier::type_invariant]
    spec fn canonical(self) -> bool {
        self.value < MODULUS
    }

    /// The element that `value` stands for, reduced modulo `MODULUS`.
    pub fn new(value: u64) -> (r: Felt)
        ensures
            r@ == (value as nat) % (MODULUS as nat),
    {
        if value >= MODULUS {
            Felt { value: value - MODULUS }
        } else {
            Felt { value }
        }
    }

    pub fn zero() -> (r: Felt)
        ensures
            r@ == 0,
    {
        Felt { value: 0 }
    }

    /// The canonical integer of this element.
    pub fn as_u64(&self) -> (r: u64)
        ensures
            r == self@,
            r < MODULUS,
    {
        proof {
            use_type_invariant(self);
        }
        self.value
    }

    /// Field addition.
    pub fn add(self, other: Felt) -> (r: Felt)
        ensures
            r@ == (self@ + other@) % (MODULUS as nat),
    {
        proof {
            use_type_invariant(self);
            use_type_invariant(other);
        }
        if self.value >= MODULUS - other.value {
            Felt { value: self.value - (MODULUS - other.value) }
        } else {
            Felt { value: self.value + other.value }
        }
    }

    /// Field subtraction.
    pub fn sub(self, other: Felt) -> (r: Felt)
        ensures
            r@ as int == (self@ - other@) % (MODULUS as int),
    {
        proof {
            use_type_invariant(self);
            use_type_invariant(other);
        }
        if self.value >= other.value {
            Felt { value: self.value - other.value }
        } else {
            Felt { value: MODULUS - (other.value - self.value) }
        }
    }
}

/// Two elements with the same integer are the same element.
pub proof fn lemma_felt_view_injective(a: Felt, b: Felt)
    requires
        a@ == b@,
    ensures
        a == b,
{
}

/// Two words with the same integers are the same word.
pub proof fn lemma_word_values_injective(a: Word, b: Word)
    requires
        word_values(a) == word_values(b),
    ensures
        a == b,
{
    assert forall|i: int| 0 <= i < 4 implies a[i] == b[i] by {
        assert(word_values(a)[i] == word_values(b)[i]);
        assert(a@.map_values(|f: Felt| f@)[i] == a@[i]@);
        assert(b@.map_values(|f: Felt| f@)[i] == b@[i]@);
        assert(a@[i]@ == b@[i]@);
        lemma_felt_view_injective(a@[i], b@[i]);
    }
    assert(a =~= b);
}

/// The integers of a sequence of field elements.
pub open spec fn felt_values(s: Seq<Felt>) -> Seq<nat> {
    s.map_values(|f: Felt| f@)
}

/// The integers of a word.
pub open spec fn word_values(w: Word) -> Seq<nat> {
    felt_values(w@)
}

/// The word of four zeros.
pub fn empty_word() -> (r: Word)
    ensures
        word_values(r) == seq![0nat, 0nat, 0nat, 0nat],
{
    let r = [Felt::zero(), Felt::zero(), Felt::zero(), Felt::zero()];
    assert(word_values(r) =~= seq![0nat, 0nat, 0nat, 0nat]);
    r
}

} // verus!
