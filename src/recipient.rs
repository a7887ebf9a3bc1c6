//! The recipient commitment of a note: a digest that binds a serial number, the
//! root of the script that will consume the note, and that script's inputs.

use vstd::prelude::*;
use crate::account::AccountId;
use crate::field::{Felt, Word, felt_values, word_values, empty_word, lemma_word_values_injective};
use miden_objects::{Felt as BaseElement, Hasher, Word as Digest};

verus! {

/// What `Rpo256::merge` returns for two words.
pub uninterp spec fn rpo_merge_of(left: Seq<nat>, right: Seq<nat>) -> Seq<nat>;

/// What `Rpo256::hash_elements` returns for a sequence of elements.
pub uninterp spec fn rpo_hash_of(elements: Seq<nat>) -> Seq<nat>;

/// Relies on `Rpo256::merge` (miden-crypto, re-exported by miden-objects as
/// `Hasher`): the two-to-one hash of a pair of words, a function of the words alone.
#[verifier::external_body]
fn rpo_merge(left: Word, right: Word) -> (r: Word)
    ensures
        word_values(r) == rpo_merge_of(word_values(left), word_values(right)),
{
    let pair = [Digest::new(left.map(|f| BaseElement::new(f.value))), Digest::new(right.map(|f| BaseElement::new(f.value)))];
    let out: [BaseElement; 4] = Hasher::merge(&pair).into();
    out.map(|e| Felt { value: e.as_int() })
}

/// Relies on `Rpo256::hash_elements` (miden-crypto, re-exported by miden-objects as
/// `Hasher`): the sequential hash of a list of elements, a function of the list alone.
#[verifier::external_body]
fn rpo_hash_elements(elements: &Vec<Felt>) -> (r: Word)
    ensures
        word_values(r) == rpo_hash_of(felt_values(elements@)),
{
    let values: Vec<BaseElement> = elements.iter().map(|f| BaseElement::new(f.value)).collect();
    let out: [BaseElement; 4] = Hasher::hash_elements(&values).into();
    out.map(|e| Felt { value: e.as_int() })
}

/// The inputs followed by zeros up to the next multiple of eight elements.
pub open spec fn padded(inputs: Seq<nat>) -> Seq<nat> {
    inputs + Seq::new(((8 - inputs.len() % 8) % 8) as nat, |i: int| 0nat)
}

/// The recipient digest:
/// `merge(merge(merge(serial_num, [0; 4]), script_root), hash(padded(inputs)))`.
pub open spec fn recipient_of(serial_num: Seq<nat>, script_root: Seq<nat>, inputs: Seq<nat>) -> Seq<nat> {
    rpo_merge_of(
        rpo_merge_of(rpo_merge_of(serial_num, seq![0nat, 0nat, 0nat, 0nat]), script_root),
        rpo_hash_of(padded(inputs)),
    )
}

/// The commitment to the inputs: their hash once padded with zeros to a
/// multiple of eight elements.
pub fn inputs_commitment(inputs: &Vec<Felt>) -> (r: Word)
    ensures
        word_values(r) == rpo_hash_of(padded(felt_values(inputs@))),
{
    let n = inputs.len();
    let pad: usize = (8 - n % 8) % 8;
    let mut elements: Vec<Felt> = Vec::new();
    let mut i: usize = 0;
    while i < n
        invariant
            n == inputs.len(),
            i <= n,
            elements@ == inputs@.take(i as int),
        decreases n - i,
    {
        elements.push(inputs[i]);
        i = i + 1;
        assert(elements@ =~= inputs@.take(i as int));
    }
    assert(elements@ =~= inputs@);
    let mut k: usize = 0;
    while k < pad
        invariant
            k <= pad,
            pad == (8 - n % 8) % 8,
            n == inputs.len(),
            felt_values(elements@) == felt_values(inputs@) + Seq::new(k as nat, |j: int| 0nat),
        decreases pad - k,
    {
        let ghost before = elements@;
        elements.push(Felt::zero());
        k = k + 1;
        assert(felt_values(elements@) =~= felt_values(inputs@) + Seq::new(k as nat, |j: int| 0nat)) by {
            assert(felt_values(elements@) =~= felt_values(before).push(0nat));
        }
    }
    assert(felt_values(elements@) =~= padded(felt_values(inputs@)));
    rpo_hash_elements(&elements)
}

/// The recipient digest of a note whose script has root `script_root` and
/// takes `inputs`.
pub fn compute_recipient(serial_num: Word, script_root: Word, inputs: &Vec<Felt>) -> (r: Word)
    ensures
        word_values(r) == recipient_of(word_values(serial_num), word_values(script_root), felt_values(inputs@)),
{
    let serial_num_hash = rpo_merge(serial_num, empty_word());
    let merge_script = rpo_merge(serial_num_hash, script_root);
    let commitment = inputs_commitment(inputs);
    rpo_merge(merge_script, commitment)
}

/// The root of the pay-to-id note script that the bank's notes name. A claim
/// succeeds only where the consuming side runs a script with this same root.
pub open spec fn p2id_script_root_values() -> Seq<nat> {
    seq![
        15783632360113277539nat,
        7403765918285273520nat,
        15691985194755641846nat,
        10399643920503194563nat,
    ]
}

pub fn p2id_script_root() -> (r: Word)
    ensures
        word_values(r) == p2id_script_root_values(),
{
    let r = [
        Felt::new(15783632360113277539u64),
        Felt::new(7403765918285273520u64),
        Felt::new(15691985194755641846u64),
        Felt::new(10399643920503194563u64),
    ];
    assert(word_values(r) =~= p2id_script_root_values());
    r
}

/// The inputs of the pay-to-id script for a target account:
/// `[suffix, prefix, 0, 0, 0, 0, 0, 0]`.
pub open spec fn p2id_inputs_values(target: AccountId) -> Seq<nat> {
    seq![target.suffix@, target.prefix@, 0nat, 0nat, 0nat, 0nat, 0nat, 0nat]
}

pub fn p2id_inputs(target: AccountId) -> (r: Vec<Felt>)
    ensures
        felt_values(r@) == p2id_inputs_values(target),
{
    let r = vec![
        target.suffix,
        target.prefix,
        Felt::zero(),
        Felt::zero(),
        Felt::zero(),
        Felt::zero(),
        Felt::zero(),
        Felt::zero(),
    ];
    assert(felt_values(r@) =~= p2id_inputs_values(target));
    r
}

/// The digest of a pay-to-id note with serial number `serial_num` that only
/// `target` can consume.
pub open spec fn p2id_recipient_of(serial_num: Seq<nat>, target: AccountId) -> Seq<nat> {
    recipient_of(serial_num, p2id_script_root_values(), p2id_inputs_values(target))
}

pub fn p2id_recipient(serial_num: Word, target: AccountId) -> (r: Word)
    ensures
        word_values(r) == p2id_recipient_of(word_values(serial_num), target),
{
    let inputs = p2id_inputs(target);
    compute_recipient(serial_num, p2id_script_root(), &inputs)
}

/// The recipient digest is a function of its arguments: two digests that meet
/// the contract of `compute_recipient` for the same serial number, script root
/// and inputs are the same word.
pub proof fn lemma_recipient_deterministic(serial_num: Word, script_root: Word, inputs: Seq<Felt>, first: Word, second: Word)
    requires
        word_values(first) == recipient_of(word_values(serial_num), word_values(script_root), felt_values(inputs)),
        word_values(second) == recipient_of(word_values(serial_num), word_values(script_root), felt_values(inputs)),
    ensures
        first == second,
{
    lemma_word_values_injective(first, second);
}

} // verus!
