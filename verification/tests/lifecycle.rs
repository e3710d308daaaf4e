use accounts_engine::account::AccountInteraction;
use accounts_engine::accounts::{touched_keys, Accounts};
use accounts_engine::keys::Address;
use accounts_engine::primitives::{
    AccountError, AccountType, Inherent, Transaction, TransactionFlags, CONTRACT_CREATION,
};
use accounts_engine::model::Direction;
use accounts_engine::receipts::{prepare_receipts, Receipt, Receipts};
use std::collections::HashMap;
use nimiq_primitives::key_nibbles::KeyNibbles;

/// An account that remembers a memo. A sender side with a payload swaps the
/// memo for the payload and hands the old memo out as its receipt.
#[derive(Clone, Debug, PartialEq, Eq)]
struct MemoAccount {
    kind: AccountType,
    balance: u64,
    memo: Vec<u8>,
}

impl AccountInteraction for MemoAccount {
    fn account_type(&self) -> AccountType {
        self.kind
    }

    fn balance(&self) -> u64 {
        self.balance
    }

    fn duplicate(&self) -> Self {
        self.clone()
    }

    fn new_basic(balance: u64) -> Self {
        MemoAccount { kind: AccountType::Basic, balance, memo: Vec::new() }
    }

    fn new_contract(
        account_type: AccountType,
        balance: u64,
        transaction: &Transaction,
        _block_height: u32,
        _timestamp: u64,
    ) -> Result<Self, AccountError> {
        if account_type == AccountType::Basic {
            return Err(AccountError::InvalidForRecipient);
        }
        Ok(MemoAccount { kind: account_type, balance, memo: transaction.data.clone() })
    }

    fn commit_incoming_transaction(
        &mut self,
        transaction: &Transaction,
        _block_height: u32,
        _timestamp: u64,
    ) -> Result<Option<Vec<u8>>, AccountError> {
        self.balance = self
            .balance
            .checked_add(transaction.value)
            .ok_or(AccountError::InvalidCoinValue)?;
        Ok(None)
    }

    fn revert_incoming_transaction(
        &mut self,
        transaction: &Transaction,
        _block_height: u32,
        _timestamp: u64,
        receipt: Option<&Vec<u8>>,
    ) -> Result<(), AccountError> {
        if receipt.is_some() {
            return Err(AccountError::InvalidReceipt);
        }
        self.balance = self.balance.checked_sub(transaction.value).ok_or(
            AccountError::InsufficientFunds { needed: transaction.value, balance: self.balance },
        )?;
        Ok(())
    }

    fn commit_outgoing_transaction(
        &mut self,
        transaction: &Transaction,
        _block_height: u32,
        _timestamp: u64,
    ) -> Result<Option<Vec<u8>>, AccountError> {
        let balance = self.balance.checked_sub(transaction.value).ok_or(
            AccountError::InsufficientFunds { needed: transaction.value, balance: self.balance },
        )?;
        self.balance = balance;
        if transaction.data.is_empty() {
            Ok(None)
        } else {
            Ok(Some(std::mem::replace(&mut self.memo, transaction.data.clone())))
        }
    }

    fn revert_outgoing_transaction(
        &mut self,
        transaction: &Transaction,
        _block_height: u32,
        _timestamp: u64,
        receipt: Option<&Vec<u8>>,
    ) -> Result<(), AccountError> {
        if transaction.data.is_empty() != receipt.is_none() {
            return Err(AccountError::InvalidReceipt);
        }
        let balance = self
            .balance
            .checked_add(transaction.value)
            .ok_or(AccountError::InvalidCoinValue)?;
        self.balance = balance;
        if let Some(memo) = receipt {
            self.memo = memo.clone();
        }
        Ok(())
    }

    fn commit_inherent(
        &mut self,
        inherent: &Inherent,
        _block_height: u32,
        _timestamp: u64,
    ) -> Result<Option<Vec<u8>>, AccountError> {
        self.balance =
            self.balance.checked_add(inherent.value).ok_or(AccountError::InvalidCoinValue)?;
        Ok(Some(vec![0xee]))
    }

    fn revert_inherent(
        &mut self,
        inherent: &Inherent,
        _block_height: u32,
        _timestamp: u64,
        receipt: Option<&Vec<u8>>,
    ) -> Result<(), AccountError> {
        if receipt != Some(&vec![0xee]) {
            return Err(AccountError::InvalidReceipt);
        }
        self.balance = self.balance.checked_sub(inherent.value).ok_or(
            AccountError::InsufficientFunds { needed: inherent.value, balance: self.balance },
        )?;
        Ok(())
    }
}

fn address(byte: u8) -> Address {
    Address { bytes: [byte; 20] }
}

fn key(address: &Address) -> KeyNibbles {
    KeyNibbles::from(&nimiq_keys::Address::from(address.bytes))
}

fn plain(balance: u64) -> MemoAccount {
    MemoAccount { kind: AccountType::Basic, balance, memo: Vec::new() }
}

fn transfer(sender: &Address, recipient: &Address, value: u64, data: Vec<u8>) -> Transaction {
    Transaction {
        sender: *sender,
        sender_type: AccountType::Basic,
        recipient: *recipient,
        recipient_type: AccountType::Basic,
        value,
        fee: 0,
        flags: TransactionFlags { bits: 0 },
        data,
    }
}

fn creation(sender: &Address, recipient: &Address, kind: AccountType, value: u64) -> Transaction {
    Transaction {
        sender: *sender,
        sender_type: AccountType::Basic,
        recipient: *recipient,
        recipient_type: kind,
        value,
        fee: 0,
        flags: TransactionFlags { bits: CONTRACT_CREATION },
        data: vec![7, 7],
    }
}

#[test]
fn only_the_second_transaction_leaves_a_receipt() {
    let a = address(1);
    let b = address(2);
    let c = address(3);
    let mut accounts: Accounts<MemoAccount> = Accounts::new();
    accounts.init(vec![(key(&a), plain(100)), (key(&b), plain(50)), (key(&c), plain(0))]);
    let transactions =
        vec![transfer(&a, &c, 10, Vec::new()), transfer(&b, &c, 20, vec![9, 9, 9])];

    let receipts = accounts.commit(&transactions, &[], 5, 77).unwrap();
    assert_eq!(receipts.receipts.len(), 1);
    match &receipts.receipts[0] {
        Receipt::Transaction { index, sender, data } => {
            assert_eq!(*index, 1);
            assert!(*sender);
            assert_eq!(data, &Vec::<u8>::new());
        }
        other => panic!("unexpected receipt {:?}", other),
    }
    assert_eq!(accounts.get(&key(&a)), Some(&plain(90)));
    assert_eq!(
        accounts.get(&key(&b)),
        Some(&MemoAccount { kind: AccountType::Basic, balance: 30, memo: vec![9, 9, 9] })
    );
    assert_eq!(accounts.get(&key(&c)), Some(&plain(30)));

    assert_eq!(accounts.revert(&transactions, &[], 5, 77, &receipts), Ok(()));
    assert_eq!(accounts.get(&key(&a)), Some(&plain(100)));
    assert_eq!(accounts.get(&key(&b)), Some(&plain(50)));
    assert_eq!(accounts.get(&key(&c)), Some(&plain(0)));
}

#[test]
fn revert_without_the_receipt_fails() {
    let a = address(1);
    let b = address(2);
    let mut accounts: Accounts<MemoAccount> = Accounts::new();
    accounts.init(vec![(key(&a), plain(100)), (key(&b), plain(0))]);
    let transactions = vec![transfer(&a, &b, 10, vec![1])];
    accounts.commit(&transactions, &[], 5, 77).unwrap();

    let nothing = Receipts::from(Vec::new());
    assert_eq!(
        accounts.revert(&transactions, &[], 5, 77, &nothing),
        Err(AccountError::InvalidReceipt)
    );
}

#[test]
fn created_contract_is_reverted_to_a_plain_account() {
    let a = address(1);
    let contract = address(0xcc);
    let mut accounts: Accounts<MemoAccount> = Accounts::new();
    accounts.init(vec![(key(&a), plain(100)), (key(&contract), plain(5))]);
    let transactions = vec![creation(&a, &contract, AccountType::HTLC, 40)];

    let receipts = accounts.commit(&transactions, &[], 5, 77).unwrap();
    assert_eq!(
        accounts.get(&key(&contract)),
        Some(&MemoAccount { kind: AccountType::HTLC, balance: 45, memo: vec![7, 7] })
    );

    assert_eq!(accounts.revert_contracts(&transactions, 5, 77), Ok(()));
    assert_eq!(accounts.get(&key(&contract)), Some(&plain(45)));

    accounts.create_contracts(&transactions, 5, 77).unwrap();
    assert_eq!(accounts.revert(&transactions, &[], 5, 77, &receipts), Ok(()));
    assert_eq!(accounts.get(&key(&a)), Some(&plain(100)));
    assert_eq!(accounts.get(&key(&contract)), Some(&plain(5)));
}

#[test]
fn contract_of_another_kind_is_not_reverted() {
    let a = address(1);
    let contract = address(0xcc);
    let mut accounts: Accounts<MemoAccount> = Accounts::new();
    accounts.init(vec![(key(&a), plain(100))]);
    let transactions = vec![creation(&a, &contract, AccountType::HTLC, 40)];
    accounts.commit(&transactions, &[], 5, 77).unwrap();

    let changed = MemoAccount { kind: AccountType::Vesting, balance: 40, memo: Vec::new() };
    accounts.init(vec![(key(&contract), changed.clone())]);

    assert_eq!(
        accounts.revert_contracts(&transactions, 5, 77),
        Err(AccountError::TypeMismatch {
            expected: AccountType::Vesting,
            got: AccountType::HTLC
        })
    );
    assert_eq!(accounts.get(&key(&contract)), Some(&changed));
}

fn reward(target: &Address, value: u64, pre_transactions: bool) -> Inherent {
    Inherent { target: *target, pre_transactions, value, data: Vec::new() }
}

#[test]
fn receipts_come_in_the_order_of_the_phases() {
    let a = address(1);
    let b = address(2);
    let c = address(3);
    let mut accounts: Accounts<MemoAccount> = Accounts::new();
    accounts.init(vec![(key(&a), plain(100)), (key(&b), plain(0)), (key(&c), plain(0))]);
    let transactions = vec![transfer(&a, &b, 10, vec![4, 2])];
    let inherents = vec![reward(&c, 1, false), reward(&c, 2, true), reward(&b, 3, false)];

    let receipts = accounts.commit(&transactions, &inherents, 5, 77).unwrap();
    assert_eq!(
        receipts.receipts,
        vec![
            Receipt::Inherent { index: 0, pre_transactions: true, data: vec![0xee] },
            Receipt::Transaction { index: 0, sender: true, data: Vec::new() },
            Receipt::Inherent { index: 0, pre_transactions: false, data: vec![0xee] },
            Receipt::Inherent { index: 1, pre_transactions: false, data: vec![0xee] },
        ]
    );
    assert_eq!(accounts.get(&key(&b)), Some(&plain(13)));
    assert_eq!(accounts.get(&key(&c)), Some(&plain(3)));

    assert_eq!(accounts.revert(&transactions, &inherents, 5, 77, &receipts), Ok(()));
    assert_eq!(accounts.get(&key(&a)), Some(&plain(100)));
    assert_eq!(accounts.get(&key(&b)), Some(&plain(0)));
    assert_eq!(accounts.get(&key(&c)), Some(&plain(0)));
}

#[test]
fn receipt_of_another_phase_is_not_taken() {
    let a = address(1);
    let b = address(2);
    let mut accounts: Accounts<MemoAccount> = Accounts::new();
    accounts.init(vec![(key(&a), plain(100)), (key(&b), plain(0))]);
    let transactions = vec![transfer(&a, &b, 10, vec![1])];
    accounts.commit(&transactions, &[], 5, 77).unwrap();

    let misplaced =
        Receipts::from(vec![Receipt::Transaction { index: 0, sender: false, data: Vec::new() }]);
    assert_eq!(
        accounts.revert(&transactions, &[], 5, 77, &misplaced),
        Err(AccountError::InvalidReceipt)
    );
}

#[test]
fn senders_are_processed_alone() {
    let a = address(1);
    let b = address(2);
    let mut accounts: Accounts<MemoAccount> = Accounts::new();
    accounts.init(vec![(key(&a), plain(100)), (key(&b), plain(0))]);
    let transactions = vec![transfer(&a, &b, 10, vec![8])];

    let new_receipts = accounts
        .process_senders(&transactions, 5, 77, HashMap::new(), Direction::Commit)
        .unwrap();
    assert_eq!(
        new_receipts,
        vec![Receipt::Transaction { index: 0, sender: true, data: Vec::new() }]
    );
    assert_eq!(
        accounts.get(&key(&a)),
        Some(&MemoAccount { kind: AccountType::Basic, balance: 90, memo: vec![8] })
    );
    assert_eq!(accounts.get(&key(&b)), Some(&plain(0)));

    let receipts = Receipts::from(new_receipts);
    let maps = prepare_receipts(&receipts);
    let reverted = accounts
        .process_senders(&transactions, 5, 77, maps.sender_receipts, Direction::Revert)
        .unwrap();
    assert_eq!(reverted, Vec::new());
    assert_eq!(accounts.get(&key(&a)), Some(&plain(100)));
}

#[test]
fn recipients_are_processed_alone() {
    let a = address(1);
    let b = address(2);
    let mut accounts: Accounts<MemoAccount> = Accounts::new();
    accounts.init(vec![(key(&a), plain(100)), (key(&b), plain(0))]);
    let transactions = vec![transfer(&a, &b, 10, Vec::new())];

    let new_receipts = accounts
        .process_recipients(&transactions, 5, 77, HashMap::new(), Direction::Commit)
        .unwrap();
    assert_eq!(new_receipts, Vec::new());
    assert_eq!(accounts.get(&key(&a)), Some(&plain(100)));
    assert_eq!(accounts.get(&key(&b)), Some(&plain(10)));

    let mut claimed = transfer(&a, &b, 10, Vec::new());
    claimed.recipient_type = AccountType::Staking;
    assert_eq!(
        accounts.process_recipients(&[claimed.clone()], 5, 77, HashMap::new(), Direction::Commit),
        Err(AccountError::TypeMismatch {
            expected: AccountType::Basic,
            got: AccountType::Staking
        })
    );
    // A recipient that the transaction creates is not checked.
    claimed.flags = TransactionFlags { bits: CONTRACT_CREATION };
    assert_eq!(
        accounts.process_recipients(&[claimed], 5, 77, HashMap::new(), Direction::Commit),
        Ok(Vec::new())
    );
    assert_eq!(accounts.get(&key(&b)), Some(&plain(20)));
}

#[test]
fn inherents_of_one_phase_are_processed_alone() {
    let a = address(1);
    let b = address(2);
    let mut accounts: Accounts<MemoAccount> = Accounts::new();
    accounts.init(vec![(key(&a), plain(1)), (key(&b), plain(2))]);
    let inherents = vec![reward(&a, 10, true), reward(&b, 20, false), reward(&b, 30, true)];

    let new_receipts = accounts
        .process_inherents(&inherents, true, 5, 77, HashMap::new(), Direction::Commit)
        .unwrap();
    assert_eq!(
        new_receipts,
        vec![
            Receipt::Inherent { index: 0, pre_transactions: true, data: vec![0xee] },
            Receipt::Inherent { index: 1, pre_transactions: true, data: vec![0xee] },
        ]
    );
    assert_eq!(accounts.get(&key(&a)), Some(&plain(11)));
    assert_eq!(accounts.get(&key(&b)), Some(&plain(32)));
}

#[test]
fn second_memo_of_one_sender_is_not_undone_in_order() {
    // Reverting runs through a phase front to back. An account whose
    // receipts hold what the operation overwrote is therefore not given
    // back when one block changes it twice within a phase.
    let a = address(1);
    let b = address(2);
    let mut accounts: Accounts<MemoAccount> = Accounts::new();
    accounts.init(vec![(key(&a), plain(100)), (key(&b), plain(0))]);
    let transactions =
        vec![transfer(&a, &b, 10, vec![1]), transfer(&a, &b, 20, vec![2])];

    let receipts = accounts.commit(&transactions, &[], 5, 77).unwrap();
    assert_eq!(
        receipts.receipts,
        vec![
            Receipt::Transaction { index: 0, sender: true, data: Vec::new() },
            Receipt::Transaction { index: 1, sender: true, data: vec![1] },
        ]
    );
    assert_eq!(accounts.revert(&transactions, &[], 5, 77, &receipts), Ok(()));
    assert_eq!(
        accounts.get(&key(&a)),
        Some(&MemoAccount { kind: AccountType::Basic, balance: 100, memo: vec![1] })
    );
    assert_eq!(accounts.get(&key(&b)), Some(&plain(0)));
}

#[test]
fn touched_keys_are_senders_recipients_and_targets() {
    let a = address(1);
    let b = address(2);
    let c = address(3);
    let keys = touched_keys(
        &[transfer(&a, &b, 1, Vec::new()), transfer(&b, &c, 1, Vec::new())],
        &[reward(&a, 1, true)],
    );
    assert_eq!(keys, vec![key(&a), key(&b), key(&b), key(&c), key(&a)]);
    assert_eq!(touched_keys(&[], &[]), Vec::new());
}

#[test]
fn preview_copies_accounts_of_every_kind() {
    let a = address(1);
    let contract = address(0xcc);
    let mut accounts: Accounts<MemoAccount> = Accounts::new();
    accounts.init(vec![(key(&a), plain(100))]);
    let transactions = vec![creation(&a, &contract, AccountType::Vesting, 40)];

    let preview = accounts.get_root_with(&transactions, &[], 5, 77).ok().unwrap();
    assert_eq!(
        preview.get(&key(&contract)),
        Some(&MemoAccount { kind: AccountType::Vesting, balance: 40, memo: vec![7, 7] })
    );
    assert_eq!(
        preview.get(&key(&a)),
        Some(&MemoAccount { kind: AccountType::Basic, balance: 60, memo: vec![7, 7] })
    );
    assert_eq!(accounts.get(&key(&contract)), None);
    assert_eq!(accounts.get(&key(&a)), Some(&plain(100)));

    let mut entries = preview.into_entries();
    entries.sort_by(|one, other| one.0.cmp(&other.0));
    assert_eq!(entries.len(), 2);
    assert_eq!(entries[0].0, key(&a));
    assert_eq!(entries[1].0, key(&contract));
}

#[test]
fn positions_past_the_last_u16_are_cut_and_get_no_receipt() {
    let a = address(1);
    let b = address(2);
    let mut accounts: Accounts<MemoAccount> = Accounts::new();
    accounts.init(vec![(key(&a), plain(100_000)), (key(&b), plain(0))]);
    let transactions: Vec<Transaction> =
        (0..65_537).map(|_| transfer(&a, &b, 1, vec![5])).collect();

    let receipts = accounts.commit(&transactions, &[], 5, 77).unwrap();
    assert_eq!(receipts.receipts.len(), 65_537);
    assert_eq!(
        receipts.receipts[65_535],
        Receipt::Transaction { index: 65_535, sender: true, data: vec![5] }
    );
    assert_eq!(
        receipts.receipts[65_536],
        Receipt::Transaction { index: 0, sender: true, data: vec![5] }
    );
    assert_eq!(accounts.get(&key(&b)), Some(&plain(65_537)));

    // The last transaction finds no receipt under its position.
    assert_eq!(
        accounts.revert(&transactions, &[], 5, 77, &receipts),
        Err(AccountError::InvalidReceipt)
    );
}
