use accounts_engine::accounts::Accounts;
use accounts_engine::basic_account::BasicAccount;
use accounts_engine::keys::Address;
use accounts_engine::primitives::{
    AccountError, AccountType, Inherent, Transaction, TransactionFlags, CONTRACT_CREATION,
    MAX_COIN,
};
use accounts_engine::receipts::{Receipt, Receipts};
use nimiq_primitives::key_nibbles::KeyNibbles;

fn address(byte: u8) -> Address {
    Address { bytes: [byte; 20] }
}

fn key(address: &Address) -> KeyNibbles {
    KeyNibbles::from(&nimiq_keys::Address::from(address.bytes))
}

fn transfer(sender: &Address, recipient: &Address, value: u64, fee: u64) -> Transaction {
    Transaction {
        sender: *sender,
        sender_type: AccountType::Basic,
        recipient: *recipient,
        recipient_type: AccountType::Basic,
        value,
        fee,
        flags: TransactionFlags { bits: 0 },
        data: Vec::new(),
    }
}

fn reward(target: &Address, value: u64, pre_transactions: bool) -> Inherent {
    Inherent { target: *target, pre_transactions, value, data: Vec::new() }
}

fn genesis(entries: &[(&Address, u64)]) -> Accounts<BasicAccount> {
    let mut accounts: Accounts<BasicAccount> = Accounts::new();
    accounts.init(
        entries.iter().map(|(address, balance)| (key(address), BasicAccount { balance: *balance })).collect(),
    );
    accounts
}

fn balance(accounts: &Accounts<BasicAccount>, address: &Address) -> Option<u64> {
    accounts.get(&key(address)).map(|account| account.balance)
}

#[test]
fn transfer_is_committed_and_reverted() {
    let a = address(0xa1);
    let b = address(0xb2);
    let mut accounts = genesis(&[(&a, 100), (&b, 0)]);
    let transactions = vec![transfer(&a, &b, 40, 0)];

    let receipts = accounts.commit(&transactions, &[], 1, 1000).unwrap();
    assert_eq!(balance(&accounts, &a), Some(60));
    assert_eq!(balance(&accounts, &b), Some(40));
    assert_eq!(receipts.len(), 0);

    assert_eq!(accounts.revert(&transactions, &[], 1, 1000, &receipts), Ok(()));
    assert_eq!(balance(&accounts, &a), Some(100));
    assert_eq!(balance(&accounts, &b), Some(0));
}

#[test]
fn new_accounts_store_nothing() {
    let accounts: Accounts<BasicAccount> = Accounts::new();
    assert_eq!(accounts.get(&key(&address(1))), None);
    assert_eq!(accounts.into_entries().len(), 0);
}

#[test]
fn init_stores_in_order_and_the_later_account_stays() {
    let a = address(1);
    let b = address(2);
    let mut accounts = genesis(&[(&a, 5), (&b, 7), (&a, 9)]);
    assert_eq!(balance(&accounts, &a), Some(9));
    assert_eq!(balance(&accounts, &b), Some(7));
    accounts.init(vec![(key(&b), BasicAccount { balance: 1 })]);
    assert_eq!(balance(&accounts, &b), Some(1));
    assert_eq!(accounts.into_entries().len(), 2);
}

#[test]
fn keys_are_told_apart_by_their_nibbles() {
    let mut low = [0u8; 20];
    low[19] = 0x01;
    let mut high = [0u8; 20];
    high[19] = 0x10;
    let low = Address { bytes: low };
    let high = Address { bytes: high };
    let accounts = genesis(&[(&low, 1), (&high, 2)]);
    assert_eq!(balance(&accounts, &low), Some(1));
    assert_eq!(balance(&accounts, &high), Some(2));
    assert_eq!(balance(&accounts, &address(0)), None);
}

#[test]
fn sender_pays_value_and_fee() {
    let a = address(1);
    let b = address(2);
    let mut accounts = genesis(&[(&a, 100), (&b, 1)]);
    let transactions = vec![transfer(&a, &b, 40, 3)];
    let receipts = accounts.commit(&transactions, &[], 1, 1).unwrap();
    assert_eq!(balance(&accounts, &a), Some(57));
    assert_eq!(balance(&accounts, &b), Some(41));
    assert_eq!(accounts.revert(&transactions, &[], 1, 1, &receipts), Ok(()));
    assert_eq!(balance(&accounts, &a), Some(100));
    assert_eq!(balance(&accounts, &b), Some(1));
}

#[test]
fn reward_before_the_transactions_can_be_spent_in_the_block() {
    let a = address(1);
    let b = address(2);
    let mut accounts = genesis(&[(&a, 0), (&b, 0)]);
    let transactions = vec![transfer(&a, &b, 40, 0)];
    let inherents = vec![reward(&a, 50, true)];

    let receipts = accounts.commit(&transactions, &inherents, 1, 1).unwrap();
    assert_eq!(balance(&accounts, &a), Some(10));
    assert_eq!(balance(&accounts, &b), Some(40));

    assert_eq!(accounts.revert(&transactions, &inherents, 1, 1, &receipts), Ok(()));
    assert_eq!(balance(&accounts, &a), Some(0));
    assert_eq!(balance(&accounts, &b), Some(0));
}

#[test]
fn reward_after_the_transactions_cannot_be_spent_in_the_block() {
    let a = address(1);
    let b = address(2);
    let mut accounts = genesis(&[(&a, 0), (&b, 0)]);
    let transactions = vec![transfer(&a, &b, 40, 0)];
    let inherents = vec![reward(&a, 50, false)];

    assert_eq!(
        accounts.commit(&transactions, &inherents, 1, 1).err(),
        Some(AccountError::InsufficientFunds { needed: 40, balance: 0 })
    );
    assert_eq!(balance(&accounts, &a), Some(0));
    assert_eq!(balance(&accounts, &b), Some(0));
}

#[test]
fn inherents_of_both_phases_are_applied_and_reverted() {
    let a = address(1);
    let b = address(2);
    let mut accounts = genesis(&[(&a, 10), (&b, 20)]);
    let inherents = vec![reward(&b, 5, false), reward(&a, 1, true), reward(&a, 2, false)];

    let receipts = accounts.commit(&[], &inherents, 9, 9).unwrap();
    assert_eq!(balance(&accounts, &a), Some(13));
    assert_eq!(balance(&accounts, &b), Some(25));
    assert_eq!(accounts.revert(&[], &inherents, 9, 9, &receipts), Ok(()));
    assert_eq!(balance(&accounts, &a), Some(10));
    assert_eq!(balance(&accounts, &b), Some(20));
}

#[test]
fn sender_of_another_kind_is_a_type_mismatch() {
    let a = address(1);
    let b = address(2);
    let mut accounts = genesis(&[(&a, 100), (&b, 0)]);
    let mut transaction = transfer(&a, &b, 40, 0);
    transaction.sender_type = AccountType::Vesting;

    assert_eq!(
        accounts.commit(&[transaction], &[], 1, 1).err(),
        Some(AccountError::TypeMismatch {
            expected: AccountType::Basic,
            got: AccountType::Vesting
        })
    );
    assert_eq!(balance(&accounts, &a), Some(100));
    assert_eq!(balance(&accounts, &b), Some(0));
    assert_eq!(accounts.into_entries().len(), 2);
}

#[test]
fn recipient_of_another_kind_is_a_type_mismatch() {
    let a = address(1);
    let b = address(2);
    let mut accounts = genesis(&[(&a, 100), (&b, 0)]);
    let mut transaction = transfer(&a, &b, 40, 0);
    transaction.recipient_type = AccountType::HTLC;

    assert_eq!(
        accounts.commit(&[transaction], &[], 1, 1).err(),
        Some(AccountError::TypeMismatch { expected: AccountType::Basic, got: AccountType::HTLC })
    );
    // The sender side was written before the recipient side failed.
    assert_eq!(balance(&accounts, &a), Some(60));
    assert_eq!(balance(&accounts, &b), Some(0));
}

#[test]
fn missing_sender_counts_as_an_empty_plain_account() {
    let a = address(1);
    let b = address(2);
    let mut accounts = genesis(&[(&b, 0)]);
    assert_eq!(
        accounts.commit(&[transfer(&a, &b, 1, 0)], &[], 1, 1).err(),
        Some(AccountError::InsufficientFunds { needed: 1, balance: 0 })
    );
    assert_eq!(balance(&accounts, &a), None);
}

#[test]
fn missing_recipient_is_created_and_stays_after_revert() {
    let a = address(1);
    let b = address(2);
    let mut accounts = genesis(&[(&a, 10)]);
    let transactions = vec![transfer(&a, &b, 4, 0)];
    let receipts = accounts.commit(&transactions, &[], 1, 1).unwrap();
    assert_eq!(balance(&accounts, &b), Some(4));
    assert_eq!(accounts.revert(&transactions, &[], 1, 1, &receipts), Ok(()));
    assert_eq!(balance(&accounts, &a), Some(10));
    assert_eq!(balance(&accounts, &b), Some(0));
}

#[test]
fn balance_beyond_the_largest_amount_is_refused() {
    let a = address(1);
    let b = address(2);
    let mut accounts = genesis(&[(&a, 10), (&b, MAX_COIN - 3)]);
    assert_eq!(
        accounts.commit(&[transfer(&a, &b, 4, 0)], &[], 1, 1).err(),
        Some(AccountError::InvalidCoinValue)
    );
    assert_eq!(balance(&accounts, &b), Some(MAX_COIN - 3));

    let mut accounts = genesis(&[(&a, 10), (&b, MAX_COIN - 3)]);
    assert!(accounts.commit(&[transfer(&a, &b, 3, 0)], &[], 1, 1).is_ok());
    assert_eq!(balance(&accounts, &b), Some(MAX_COIN));
}

#[test]
fn value_and_fee_beyond_the_largest_amount_are_refused() {
    let a = address(1);
    let b = address(2);
    let mut accounts = genesis(&[(&a, MAX_COIN), (&b, 0)]);
    assert_eq!(
        accounts.commit(&[transfer(&a, &b, MAX_COIN, 1)], &[], 1, 1).err(),
        Some(AccountError::InvalidCoinValue)
    );
    assert_eq!(
        accounts.commit(&[transfer(&a, &b, MAX_COIN + 1, 0)], &[], 1, 1).err(),
        Some(AccountError::InvalidCoinValue)
    );
    assert_eq!(balance(&accounts, &a), Some(MAX_COIN));
}

#[test]
fn plain_accounts_cannot_become_contracts() {
    let a = address(1);
    let b = address(2);
    let mut accounts = genesis(&[(&a, 10), (&b, 0)]);
    let mut transaction = transfer(&a, &b, 4, 0);
    transaction.flags = TransactionFlags { bits: CONTRACT_CREATION };
    transaction.recipient_type = AccountType::Vesting;

    assert_eq!(
        accounts.commit(&[transaction], &[], 1, 1).err(),
        Some(AccountError::InvalidForRecipient)
    );
    // Both sides of the transaction were written before the creation failed.
    assert_eq!(balance(&accounts, &a), Some(6));
    assert_eq!(balance(&accounts, &b), Some(4));
}

#[test]
fn revert_takes_no_receipt_for_a_plain_account() {
    let a = address(1);
    let b = address(2);
    let mut accounts = genesis(&[(&a, 10), (&b, 0)]);
    let transactions = vec![transfer(&a, &b, 4, 0)];
    accounts.commit(&transactions, &[], 1, 1).unwrap();
    let receipts =
        Receipts::from(vec![Receipt::Transaction { index: 0, sender: false, data: vec![1] }]);
    assert_eq!(
        accounts.revert(&transactions, &[], 1, 1, &receipts),
        Err(AccountError::InvalidReceipt)
    );
    assert_eq!(balance(&accounts, &b), Some(4));
}

#[test]
fn revert_of_what_was_not_applied_runs_out_of_funds() {
    let a = address(1);
    let b = address(2);
    let mut accounts = genesis(&[(&a, 10), (&b, 3)]);
    let transactions = vec![transfer(&a, &b, 4, 0)];
    let receipts = Receipts::from(Vec::new());
    assert_eq!(
        accounts.revert(&transactions, &[], 1, 1, &receipts),
        Err(AccountError::InsufficientFunds { needed: 4, balance: 3 })
    );
}

#[test]
fn preview_is_repeatable_and_leaves_the_accounts_alone() {
    let a = address(1);
    let b = address(2);
    let c = address(3);
    let mut accounts = genesis(&[(&a, 100), (&b, 0), (&c, 8)]);
    let transactions = vec![transfer(&a, &b, 40, 0)];

    let first = accounts.get_root_with(&transactions, &[], 1, 1).ok().unwrap();
    let second = accounts.get_root_with(&transactions, &[], 1, 1).ok().unwrap();
    for preview in [&first, &second] {
        assert_eq!(balance(preview, &a), Some(60));
        assert_eq!(balance(preview, &b), Some(40));
        assert_eq!(balance(preview, &c), Some(8));
    }
    assert_eq!(balance(&accounts, &a), Some(100));
    assert_eq!(balance(&accounts, &b), Some(0));

    // An unrelated block applies to the accounts as they were.
    accounts.commit(&[transfer(&c, &b, 8, 0)], &[], 2, 2).unwrap();
    assert_eq!(balance(&accounts, &a), Some(100));
    assert_eq!(balance(&accounts, &b), Some(8));
    assert_eq!(balance(&accounts, &c), Some(0));
}

#[test]
fn preview_of_a_failing_block_is_its_error() {
    let a = address(1);
    let b = address(2);
    let accounts = genesis(&[(&a, 1), (&b, 0)]);
    assert_eq!(
        accounts.get_root_with(&[transfer(&a, &b, 2, 0)], &[], 1, 1).err(),
        Some(AccountError::InsufficientFunds { needed: 2, balance: 1 })
    );
    assert_eq!(balance(&accounts, &a), Some(1));
}

#[test]
fn two_transactions_of_one_sender_are_reverted() {
    let a = address(1);
    let b = address(2);
    let c = address(3);
    let mut accounts = genesis(&[(&a, 10), (&b, 0), (&c, 0)]);
    let transactions = vec![transfer(&a, &b, 6, 0), transfer(&a, &c, 4, 0)];
    let receipts = accounts.commit(&transactions, &[], 1, 1).unwrap();
    assert_eq!(balance(&accounts, &a), Some(0));
    assert_eq!(accounts.revert(&transactions, &[], 1, 1, &receipts), Ok(()));
    assert_eq!(balance(&accounts, &a), Some(10));
    assert_eq!(balance(&accounts, &b), Some(0));
    assert_eq!(balance(&accounts, &c), Some(0));
}

#[test]
fn accounts_touched_many_times_in_a_phase_are_reverted() {
    let a = address(1);
    let b = address(2);
    let c = address(3);
    let mut accounts = genesis(&[(&a, 50), (&b, 7), (&c, 0)]);
    let transactions = vec![
        transfer(&a, &c, 10, 1),
        transfer(&b, &c, 5, 0),
        transfer(&a, &c, 20, 2),
        transfer(&c, &a, 3, 0),
    ];
    let inherents = vec![
        reward(&c, 3, true),
        reward(&c, 4, true),
        reward(&b, 1, false),
        reward(&b, 2, false),
    ];

    let receipts = accounts.commit(&transactions, &inherents, 3, 30).unwrap();
    assert_eq!(receipts.len(), 0);
    assert_eq!(balance(&accounts, &a), Some(50 - 11 - 22 + 3));
    assert_eq!(balance(&accounts, &b), Some(7 - 5 + 1 + 2));
    assert_eq!(balance(&accounts, &c), Some(3 + 4 - 3 + 10 + 5 + 20));

    assert_eq!(accounts.revert(&transactions, &inherents, 3, 30, &receipts), Ok(()));
    assert_eq!(balance(&accounts, &a), Some(50));
    assert_eq!(balance(&accounts, &b), Some(7));
    assert_eq!(balance(&accounts, &c), Some(0));
}

fn sorted_entries(accounts: &Accounts<BasicAccount>) -> Vec<(KeyNibbles, BasicAccount)> {
    let mut entries = accounts.get_root_with(&[], &[], 0, 0).ok().unwrap().into_entries();
    entries.sort_by(|one, other| one.0.cmp(&other.0));
    entries
}

#[test]
fn revert_gives_back_the_very_account_set() {
    let a = address(1);
    let b = address(2);
    let c = address(3);
    let mut accounts = genesis(&[(&c, 9), (&a, 50), (&b, 7)]);
    let before = sorted_entries(&accounts);
    assert_eq!(
        before,
        vec![
            (key(&a), BasicAccount { balance: 50 }),
            (key(&b), BasicAccount { balance: 7 }),
            (key(&c), BasicAccount { balance: 9 }),
        ]
    );
    let transactions = vec![transfer(&a, &b, 10, 1), transfer(&b, &c, 5, 0)];
    let inherents = vec![reward(&c, 3, true), reward(&a, 1, false)];

    let receipts = accounts.commit(&transactions, &inherents, 3, 30).unwrap();
    assert_ne!(sorted_entries(&accounts), before);
    assert_eq!(accounts.revert(&transactions, &inherents, 3, 30, &receipts), Ok(()));
    assert_eq!(sorted_entries(&accounts), before);
}
