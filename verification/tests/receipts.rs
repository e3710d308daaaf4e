use accounts_engine::keys::Address;
use accounts_engine::primitives::{
    AccountType, Inherent, Transaction, TransactionFlags, CONTRACT_CREATION,
};
use accounts_engine::receipts::{prepare_receipts, Receipt, Receipts};

#[test]
fn receipts_are_parted_by_phase() {
    let receipts = Receipts::from(vec![
        Receipt::Transaction { index: 0, sender: true, data: vec![1] },
        Receipt::Transaction { index: 0, sender: false, data: vec![2] },
        Receipt::Inherent { index: 0, pre_transactions: true, data: vec![3] },
        Receipt::Inherent { index: 0, pre_transactions: false, data: vec![4] },
        Receipt::Transaction { index: 7, sender: true, data: vec![5] },
    ]);
    let maps = prepare_receipts(&receipts);
    assert_eq!(maps.sender_receipts.len(), 2);
    assert_eq!(maps.sender_receipts.get(&0), Some(&&vec![1u8]));
    assert_eq!(maps.sender_receipts.get(&7), Some(&&vec![5u8]));
    assert_eq!(maps.recipient_receipts.len(), 1);
    assert_eq!(maps.recipient_receipts.get(&0), Some(&&vec![2u8]));
    assert_eq!(maps.pre_tx_inherent_receipts.len(), 1);
    assert_eq!(maps.pre_tx_inherent_receipts.get(&0), Some(&&vec![3u8]));
    assert_eq!(maps.post_tx_inherent_receipts.len(), 1);
    assert_eq!(maps.post_tx_inherent_receipts.get(&0), Some(&&vec![4u8]));
}

#[test]
fn later_receipt_of_the_same_phase_and_index_counts() {
    let receipts = Receipts::from(vec![
        Receipt::Transaction { index: 3, sender: true, data: vec![1] },
        Receipt::Transaction { index: 3, sender: true, data: vec![2] },
    ]);
    let maps = prepare_receipts(&receipts);
    assert_eq!(maps.sender_receipts.len(), 1);
    assert_eq!(maps.sender_receipts.get(&3), Some(&&vec![2u8]));
    assert!(maps.recipient_receipts.is_empty());
}

#[test]
fn no_receipts_give_empty_maps() {
    let receipts = Receipts::from(Vec::new());
    assert_eq!(receipts.len(), 0);
    let maps = prepare_receipts(&receipts);
    assert!(maps.sender_receipts.is_empty());
    assert!(maps.recipient_receipts.is_empty());
    assert!(maps.pre_tx_inherent_receipts.is_empty());
    assert!(maps.post_tx_inherent_receipts.is_empty());
}

#[test]
fn flags_contain_the_bits_that_are_set() {
    assert!(TransactionFlags { bits: 0b01 }.contains(CONTRACT_CREATION));
    assert!(TransactionFlags { bits: 0b11 }.contains(CONTRACT_CREATION));
    assert!(!TransactionFlags { bits: 0b10 }.contains(CONTRACT_CREATION));
    assert!(!TransactionFlags { bits: 0 }.contains(CONTRACT_CREATION));
    assert!(TransactionFlags { bits: 0b10 }.contains(0));
    assert!(!TransactionFlags { bits: 0b01 }.contains(0b11));
}

#[test]
fn contract_creation_is_read_from_the_flags() {
    let mut transaction = Transaction {
        sender: Address { bytes: [1; 20] },
        sender_type: AccountType::Basic,
        recipient: Address { bytes: [2; 20] },
        recipient_type: AccountType::Vesting,
        value: 1,
        fee: 0,
        flags: TransactionFlags { bits: CONTRACT_CREATION },
        data: Vec::new(),
    };
    assert!(transaction.is_contract_creation());
    transaction.flags = TransactionFlags { bits: 0b10 };
    assert!(!transaction.is_contract_creation());
}

#[test]
fn inherent_tells_its_phase() {
    let mut inherent =
        Inherent { target: Address { bytes: [1; 20] }, pre_transactions: true, value: 1, data: Vec::new() };
    assert!(inherent.is_pre_transactions());
    inherent.pre_transactions = false;
    assert!(!inherent.is_pre_transactions());
}
