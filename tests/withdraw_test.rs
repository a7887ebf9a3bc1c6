use miden_bank::account::{AccountId, Asset, AssetType};
use miden_bank::bank::Bank;
use miden_bank::error::BankError;
use miden_bank::field::Felt;
use miden_bank::note::local_account_tag;
use miden_bank::recipient::p2id_recipient;

fn depositor() -> AccountId {
    AccountId::new(Felt::new(0x9a3c_5e7f_1b2d_4000), Felt::new(0x0012_3456_789a_bc00))
}

fn faucet() -> AssetType {
    AssetType::new(Felt::new(0xa1b2_c3d4_e5f6_0700), Felt::new(0x0000_1111_2222_3300))
}

fn serial() -> [Felt; 4] {
    [
        Felt::new(0x1234567890abcdef),
        Felt::new(0xfedcba0987654321),
        Felt::new(0xdeadbeefcafebabe),
        Felt::new(0x0123456789abcdef),
    ]
}

fn bank_with_deposit(amount: u64) -> Bank {
    let mut bank = Bank::new();
    assert_eq!(bank.initialize(), Ok(()));
    assert_eq!(bank.deposit(depositor(), Asset::fungible(faucet(), Felt::new(amount))), Ok(()));
    bank
}

#[test]
fn withdraw_test() {
    let deposit_amount: u64 = 1000;
    let mut bank = bank_with_deposit(deposit_amount);
    let withdraw_amount = deposit_amount / 2;
    let tag = local_account_tag(depositor());
    let aux = Felt::new(0);
    let note_type = Felt::new(1);
    let serial_num = serial();
    let inputs = vec![
        Felt::new(withdraw_amount),
        Felt::new(0),
        faucet().suffix,
        faucet().prefix,
        serial_num[0],
        serial_num[1],
        serial_num[2],
        serial_num[3],
        tag,
        aux,
        note_type,
    ];
    assert_eq!(bank.consume_withdraw_request_note(depositor(), &inputs), Ok(0));
    assert_eq!(bank.get_balance(depositor(), faucet()).as_u64(), 500);
    assert_eq!(bank.vault_amount(faucet()).as_u64(), 500);
    let notes = bank.output_notes();
    assert_eq!(notes.len(), 1);
    let note = notes[0];
    assert_eq!(note.asset, Asset::fungible(faucet(), Felt::new(withdraw_amount)));
    assert_eq!(note.recipient, p2id_recipient(serial_num, depositor()));
    assert_eq!(note.tag, tag);
    assert_eq!(note.aux, aux);
    assert_eq!(note.note_type, note_type);
    assert_eq!(note.execution_hint.as_u64(), 0);
}

#[test]
fn scenario_deposit_then_read_balance() {
    let bank = bank_with_deposit(1000);
    assert_eq!(bank.get_balance(depositor(), faucet()).as_u64(), 1000);
}

#[test]
fn scenario_withdraw_half() {
    let mut bank = bank_with_deposit(1000);
    let asset = Asset::fungible(faucet(), Felt::new(500));
    let r = bank.withdraw(depositor(), asset, serial(), Felt::new(0xc000_0000), Felt::new(0), Felt::new(1));
    assert_eq!(r, Ok(0));
    assert_eq!(bank.get_balance(depositor(), faucet()).as_u64(), 500);
    assert_eq!(bank.output_notes().len(), 1);
    let note = bank.output_notes()[0];
    assert_eq!(note.asset.amount().as_u64(), 500);
    assert_eq!(note.asset.asset_type(), faucet());
    assert_eq!(note.recipient, p2id_recipient(serial(), depositor()));
}

#[test]
fn scenario_overdraw_is_refused() {
    let mut bank = bank_with_deposit(1000);
    let half = Asset::fungible(faucet(), Felt::new(500));
    assert_eq!(bank.withdraw(depositor(), half, serial(), Felt::new(0), Felt::new(0), Felt::new(1)), Ok(0));
    let too_much = Asset::fungible(faucet(), Felt::new(600));
    let fresh = [Felt::new(1), Felt::new(2), Felt::new(3), Felt::new(4)];
    assert_eq!(
        bank.withdraw(depositor(), too_much, fresh, Felt::new(0), Felt::new(0), Felt::new(1)),
        Err(BankError::InsufficientFunds)
    );
    assert_eq!(bank.get_balance(depositor(), faucet()).as_u64(), 500);
    assert_eq!(bank.output_notes().len(), 1);
    assert_eq!(bank.vault_amount(faucet()).as_u64(), 500);
}

#[test]
fn scenario_oversized_deposit_is_refused() {
    let mut bank = bank_with_deposit(1000);
    let big = Asset::fungible(faucet(), Felt::new(2_000_000));
    assert_eq!(bank.deposit(depositor(), big), Err(BankError::DepositTooLarge));
    assert_eq!(bank.get_balance(depositor(), faucet()).as_u64(), 1000);
}

#[test]
fn withdraw_before_init_is_refused() {
    let mut bank = Bank::new();
    let asset = Asset::fungible(faucet(), Felt::new(0));
    assert_eq!(
        bank.withdraw(depositor(), asset, serial(), Felt::new(0), Felt::new(0), Felt::new(1)),
        Err(BankError::NotInitialized)
    );
    assert_eq!(bank.output_notes().len(), 0);
}

#[test]
fn withdraw_of_another_class_is_refused() {
    let mut bank = bank_with_deposit(1000);
    let other = Asset::fungible(AssetType::new(Felt::new(5), Felt::new(6)), Felt::new(1));
    assert_eq!(
        bank.withdraw(depositor(), other, serial(), Felt::new(0), Felt::new(0), Felt::new(1)),
        Err(BankError::InsufficientFunds)
    );
}

#[test]
fn withdraw_everything_then_nothing_more() {
    let mut bank = bank_with_deposit(1000);
    let all = Asset::fungible(faucet(), Felt::new(1000));
    assert_eq!(bank.withdraw(depositor(), all, serial(), Felt::new(0), Felt::new(0), Felt::new(2)), Ok(0));
    assert_eq!(bank.get_balance(depositor(), faucet()).as_u64(), 0);
    assert_eq!(bank.vault_amount(faucet()).as_u64(), 0);
    let one = Asset::fungible(faucet(), Felt::new(1));
    assert_eq!(
        bank.withdraw(depositor(), one, serial(), Felt::new(0), Felt::new(0), Felt::new(2)),
        Err(BankError::InsufficientFunds)
    );
}

#[test]
fn conservation_over_a_sequence() {
    let mut bank = bank_with_deposit(1000);
    assert_eq!(bank.deposit(depositor(), Asset::fungible(faucet(), Felt::new(250))), Ok(()));
    let w1 = Asset::fungible(faucet(), Felt::new(400));
    assert_eq!(bank.withdraw(depositor(), w1, serial(), Felt::new(0), Felt::new(0), Felt::new(1)), Ok(0));
    assert_eq!(bank.deposit(depositor(), Asset::fungible(faucet(), Felt::new(2_000_000))), Err(BankError::DepositTooLarge));
    let w2 = Asset::fungible(faucet(), Felt::new(900));
    assert_eq!(bank.withdraw(depositor(), w2, serial(), Felt::new(0), Felt::new(0), Felt::new(1)), Err(BankError::InsufficientFunds));
    let w3 = Asset::fungible(faucet(), Felt::new(50));
    assert_eq!(bank.withdraw(depositor(), w3, serial(), Felt::new(0), Felt::new(0), Felt::new(1)), Ok(1));
    assert_eq!(bank.get_balance(depositor(), faucet()).as_u64(), 1000 + 250 - 400 - 50);
    assert_eq!(bank.vault_amount(faucet()).as_u64(), 800);
}

#[test]
fn withdraw_request_of_wrong_length_is_refused() {
    let mut bank = bank_with_deposit(1000);
    let inputs = vec![Felt::new(500); 12];
    assert_eq!(bank.consume_withdraw_request_note(depositor(), &inputs), Err(BankError::MalformedInput));
    assert_eq!(bank.get_balance(depositor(), faucet()).as_u64(), 1000);
    assert_eq!(bank.output_notes().len(), 0);
}

#[test]
fn local_account_tag_packs_the_prefix() {
    let account = AccountId::new(Felt::new(0xabcd_ef01_2345_6789), Felt::new(0));
    assert_eq!(local_account_tag(account).as_u64(), 0xeaf3_0000);
    let zero = AccountId::new(Felt::new(0), Felt::new(0));
    assert_eq!(local_account_tag(zero).as_u64(), 0xc000_0000);
    let top = AccountId::new(Felt::new(0xffff_fffe_0000_0000), Felt::new(0));
    assert_eq!(local_account_tag(top).as_u64(), 0xffff_0000);
}
