use miden_bank::account::{AccountId, Asset, AssetType};
use miden_bank::bank::{Bank, MAX_DEPOSIT_AMOUNT};
use miden_bank::error::BankError;
use miden_bank::field::Felt;

fn depositor() -> AccountId {
    AccountId::new(Felt::new(0x9a3c_5e7f_1b2d_4000), Felt::new(0x0012_3456_789a_bc00))
}

fn faucet() -> AssetType {
    AssetType::new(Felt::new(0xa1b2_c3d4_e5f6_0700), Felt::new(0x0000_1111_2222_3300))
}

fn initialized_bank() -> Bank {
    let mut bank = Bank::new();
    assert_eq!(bank.initialize(), Ok(()));
    bank
}

#[test]
fn deposit_test() {
    let deposit_amount: u64 = 1000;
    let mut bank = initialized_bank();
    let asset = Asset::fungible(faucet(), Felt::new(deposit_amount));
    assert_eq!(bank.deposit(depositor(), asset), Ok(()));
    assert_eq!(
        bank.get_balance(depositor(), faucet()).as_u64(),
        deposit_amount,
        "Depositor balance should equal the deposited amount"
    );
    assert_eq!(bank.vault_amount(faucet()).as_u64(), deposit_amount);
}

#[test]
fn deposit_exceeds_max_should_fail() {
    let mut bank = initialized_bank();
    let asset = Asset::fungible(faucet(), Felt::new(2000000));
    assert_eq!(bank.deposit(depositor(), asset), Err(BankError::DepositTooLarge));
    assert_eq!(bank.get_balance(depositor(), faucet()).as_u64(), 0);
    assert_eq!(bank.vault_amount(faucet()).as_u64(), 0);
}

#[test]
fn deposit_without_init_should_fail() {
    let mut bank = Bank::new();
    let asset = Asset::fungible(faucet(), Felt::new(1000));
    assert_eq!(
        bank.deposit(depositor(), asset),
        Err(BankError::NotInitialized),
        "Expected deposit to fail when bank not initialized, but it succeeded"
    );
    assert_eq!(bank.get_balance(depositor(), faucet()).as_u64(), 0);
}

#[test]
fn deposit_at_the_limit_is_accepted() {
    let mut bank = initialized_bank();
    let asset = Asset::fungible(faucet(), Felt::new(MAX_DEPOSIT_AMOUNT));
    assert_eq!(bank.deposit(depositor(), asset), Ok(()));
    let over = Asset::fungible(faucet(), Felt::new(MAX_DEPOSIT_AMOUNT + 1));
    assert_eq!(bank.deposit(depositor(), over), Err(BankError::DepositTooLarge));
    assert_eq!(bank.get_balance(depositor(), faucet()).as_u64(), MAX_DEPOSIT_AMOUNT);
}

#[test]
fn deposits_accumulate_per_depositor_and_class() {
    let mut bank = initialized_bank();
    let other = AccountId::new(Felt::new(77), Felt::new(88));
    let other_class = AssetType::new(Felt::new(5), Felt::new(6));
    assert_eq!(bank.deposit(depositor(), Asset::fungible(faucet(), Felt::new(300))), Ok(()));
    assert_eq!(bank.deposit(depositor(), Asset::fungible(faucet(), Felt::new(200))), Ok(()));
    assert_eq!(bank.deposit(other, Asset::fungible(faucet(), Felt::new(40))), Ok(()));
    assert_eq!(bank.deposit(depositor(), Asset::fungible(other_class, Felt::new(9))), Ok(()));
    assert_eq!(bank.get_balance(depositor(), faucet()).as_u64(), 500);
    assert_eq!(bank.get_balance(other, faucet()).as_u64(), 40);
    assert_eq!(bank.get_balance(depositor(), other_class).as_u64(), 9);
    assert_eq!(bank.get_balance(other, other_class).as_u64(), 0);
    assert_eq!(bank.vault_amount(faucet()).as_u64(), 540);
    assert_eq!(bank.vault_amount(other_class).as_u64(), 9);
}

#[test]
fn initialize_twice_is_refused() {
    let mut bank = Bank::new();
    assert!(!bank.is_initialized());
    assert_eq!(bank.initialized_word().map(|f| f.as_u64()), [0, 0, 0, 0]);
    assert_eq!(bank.initialize(), Ok(()));
    assert!(bank.is_initialized());
    assert_eq!(bank.initialized_word().map(|f| f.as_u64()), [1, 0, 0, 0]);
    assert_eq!(bank.initialize(), Err(BankError::AlreadyInitialized));
    assert!(bank.is_initialized());
}

#[test]
fn deposit_note_credits_every_asset() {
    let mut bank = initialized_bank();
    let other_class = AssetType::new(Felt::new(5), Felt::new(6));
    let assets = vec![
        Asset::fungible(faucet(), Felt::new(100)),
        Asset::fungible(other_class, Felt::new(7)),
        Asset::fungible(faucet(), Felt::new(23)),
    ];
    assert_eq!(bank.consume_deposit_note(depositor(), &assets), Ok(()));
    assert_eq!(bank.get_balance(depositor(), faucet()).as_u64(), 123);
    assert_eq!(bank.get_balance(depositor(), other_class).as_u64(), 7);
    assert_eq!(bank.vault_amount(faucet()).as_u64(), 123);
}

#[test]
fn deposit_note_is_all_or_nothing() {
    let mut bank = initialized_bank();
    let assets = vec![
        Asset::fungible(faucet(), Felt::new(100)),
        Asset::fungible(faucet(), Felt::new(2000000)),
    ];
    assert_eq!(bank.consume_deposit_note(depositor(), &assets), Err(BankError::DepositTooLarge));
    assert_eq!(bank.get_balance(depositor(), faucet()).as_u64(), 0);
    assert_eq!(bank.vault_amount(faucet()).as_u64(), 0);
}

#[test]
fn deposit_note_before_init_is_refused() {
    let mut bank = Bank::new();
    let assets = vec![Asset::fungible(faucet(), Felt::new(100))];
    assert_eq!(bank.consume_deposit_note(depositor(), &assets), Err(BankError::NotInitialized));
    let empty: Vec<Asset> = Vec::new();
    assert_eq!(bank.consume_deposit_note(depositor(), &empty), Ok(()));
    assert_eq!(bank.get_balance(depositor(), faucet()).as_u64(), 0);
}

#[test]
fn deposit_note_of_several_maximal_assets() {
    let mut bank = initialized_bank();
    let one_deposit = Asset::fungible(faucet(), Felt::new(MAX_DEPOSIT_AMOUNT));
    let assets = vec![one_deposit; 3];
    assert_eq!(bank.consume_deposit_note(depositor(), &assets), Ok(()));
    assert_eq!(bank.get_balance(depositor(), faucet()).as_u64(), 3 * MAX_DEPOSIT_AMOUNT);
}
