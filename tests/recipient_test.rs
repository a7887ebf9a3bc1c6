use std::sync::Arc;

use miden_bank::account::AccountId;
use miden_bank::field::Felt;
use miden_bank::recipient::{compute_recipient, inputs_commitment, p2id_inputs, p2id_recipient, p2id_script_root};
use miden_objects::note::{NoteInputs, NoteRecipient, NoteScript};
use miden_objects::{Felt as BaseElement, Hasher, MastForest, Word};

fn to_word(w: [Felt; 4]) -> Word {
    Word::new(w.map(|f| BaseElement::new(f.as_u64())))
}

fn values(w: [Felt; 4]) -> [u64; 4] {
    w.map(|f| f.as_u64())
}

fn serial() -> [Felt; 4] {
    [
        Felt::new(0x1234567890abcdef),
        Felt::new(0xfedcba0987654321),
        Felt::new(0xdeadbeefcafebabe),
        Felt::new(0x0123456789abcdef),
    ]
}

fn target() -> AccountId {
    AccountId::new(Felt::new(0x9a3c_5e7f_1b2d_4000), Felt::new(0x0012_3456_789a_bc00))
}

fn script_with_root(root: Word) -> NoteScript {
    let mut forest = MastForest::new();
    let id = forest.add_external(root).unwrap();
    NoteScript::from_parts(Arc::new(forest), id)
}

#[test]
fn recipient_matches_note_recipient_of_miden_objects() {
    let root = p2id_script_root();
    let inputs = p2id_inputs(target());
    let ours = compute_recipient(serial(), root, &inputs);
    let script = script_with_root(to_word(root));
    assert_eq!(script.root(), to_word(root));
    let theirs = NoteRecipient::new(
        to_word(serial()),
        script,
        NoteInputs::new(inputs.iter().map(|f| BaseElement::new(f.as_u64())).collect()).unwrap(),
    );
    assert_eq!(to_word(ours), theirs.digest());
    assert_eq!(to_word(p2id_recipient(serial(), target())), theirs.digest());
}

#[test]
fn short_inputs_are_padded_to_eight() {
    let t = target();
    let two = vec![t.suffix, t.prefix];
    let eight = p2id_inputs(t);
    assert_eq!(inputs_commitment(&two), inputs_commitment(&eight));
    let expected = Hasher::hash_elements(&eight.iter().map(|f| BaseElement::new(f.as_u64())).collect::<Vec<_>>());
    assert_eq!(to_word(inputs_commitment(&eight)), expected);
    let nine = vec![Felt::new(1); 9];
    let mut sixteen = nine.clone();
    sixteen.resize(16, Felt::new(0));
    assert_eq!(inputs_commitment(&nine), inputs_commitment(&sixteen));
}

#[test]
fn recipient_is_deterministic_and_input_sensitive() {
    let root = p2id_script_root();
    let inputs = p2id_inputs(target());
    let a = compute_recipient(serial(), root, &inputs);
    let b = compute_recipient(serial(), root, &inputs);
    assert_eq!(a, b);
    let mut other_serial = serial();
    other_serial[3] = Felt::new(other_serial[3].as_u64() + 1);
    assert_ne!(compute_recipient(other_serial, root, &inputs), a);
    let mut other_root = root;
    other_root[0] = Felt::new(1);
    assert_ne!(compute_recipient(serial(), other_root, &inputs), a);
    let mut other_inputs = inputs.clone();
    other_inputs[7] = Felt::new(1);
    assert_ne!(compute_recipient(serial(), root, &other_inputs), a);
    assert_ne!(values(a), values(serial()));
}

#[test]
fn p2id_constants() {
    assert_eq!(
        values(p2id_script_root()),
        [15783632360113277539, 7403765918285273520, 15691985194755641846, 10399643920503194563]
    );
    let t = target();
    let inputs: Vec<u64> = p2id_inputs(t).iter().map(|f| f.as_u64()).collect();
    assert_eq!(inputs, vec![t.suffix.as_u64(), t.prefix.as_u64(), 0, 0, 0, 0, 0, 0]);
}
