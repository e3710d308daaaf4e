//! What applying and reverting a block means, as functions on maps from
//! keys to accounts.

use vstd::prelude::*;
use crate::account::AccountInteraction;
use crate::keys::bytes_nibbles;
use crate::primitives::{AccountError, AccountType, Inherent, Transaction};
use crate::receipts::{receipts_of, Phase, ReceiptView};

verus! {

/// The account set in contracts: the account stored under the nibbles of
/// each key.
pub type State<A> = Map<Seq<u8>, A>;

/// Which side of a transaction an operation touches.
#[derive(Clone, Copy, Debug, PartialEq, Eq, Structural)]
pub enum Side {
    Sender,
    Recipient,
}

/// Whether operations are applied or undone.
#[derive(Clone, Copy, Debug, PartialEq, Eq, Structural)]
pub enum Direction {
    Commit,
    Revert,
}

/// The account that counts as stored under `key`: a plain account without
/// funds where nothing is stored.
pub open spec fn account_at<A: AccountInteraction>(state: State<A>, key: Seq<u8>) -> A {
    if state.contains_key(key) {
        state[key]
    } else {
        A::spec_new_basic(0)
    }
}

impl Transaction {
    /// The key of the account on the given side.
    pub open spec fn side_key(self, side: Side) -> Seq<u8> {
        match side {
            Side::Sender => bytes_nibbles(self.sender@),
            Side::Recipient => bytes_nibbles(self.recipient@),
        }
    }

    /// The kind that the account on the given side must have, if it is
    /// checked: a contract that the transaction creates is not there yet.
    pub open spec fn side_type(self, side: Side) -> Option<AccountType> {
        match side {
            Side::Sender => Some(self.sender_type),
            Side::Recipient => if self.spec_is_contract_creation() {
                None
            } else {
                Some(self.recipient_type)
            },
        }
    }
}

/// One side of a transaction applied to, or undone on, one account.
pub open spec fn transaction_op<A: AccountInteraction>(
    account: A,
    transaction: Transaction,
    block_height: u32,
    timestamp: u64,
    receipt: Option<Seq<u8>>,
    side: Side,
    direction: Direction,
) -> Result<(A, Option<Seq<u8>>), AccountError> {
    match (side, direction) {
        (Side::Sender, Direction::Commit) => account.spec_commit_outgoing_transaction(
            transaction,
            block_height,
            timestamp,
        ),
        (Side::Recipient, Direction::Commit) => account.spec_commit_incoming_transaction(
            transaction,
            block_height,
            timestamp,
        ),
        (Side::Sender, Direction::Revert) => match account.spec_revert_outgoing_transaction(
            transaction,
            block_height,
            timestamp,
            receipt,
        ) {
            Ok(reverted) => Ok((reverted, None)),
            Err(error) => Err(error),
        },
        (Side::Recipient, Direction::Revert) => match account.spec_revert_incoming_transaction(
            transaction,
            block_height,
            timestamp,
            receipt,
        ) {
            Ok(reverted) => Ok((reverted, None)),
            Err(error) => Err(error),
        },
    }
}

/// An inherent applied to, or undone on, one account.
pub open spec fn inherent_op<A: AccountInteraction>(
    account: A,
    inherent: Inherent,
    block_height: u32,
    timestamp: u64,
    receipt: Option<Seq<u8>>,
    direction: Direction,
) -> Result<(A, Option<Seq<u8>>), AccountError> {
    match direction {
        Direction::Commit => account.spec_commit_inherent(inherent, block_height, timestamp),
        Direction::Revert => match account.spec_revert_inherent(
            inherent,
            block_height,
            timestamp,
            receipt,
        ) {
            Ok(reverted) => Ok((reverted, None)),
            Err(error) => Err(error),
        },
    }
}

/// One side of one transaction on the account set: the account under
/// `key` is checked against `account_type` where one is given, the
/// operation is made on it, and only where that succeeds is the account
/// written back.
pub open spec fn process_transaction<A: AccountInteraction>(
    state: State<A>,
    key: Seq<u8>,
    account_type: Option<AccountType>,
    transaction: Transaction,
    block_height: u32,
    timestamp: u64,
    receipt: Option<Seq<u8>>,
    side: Side,
    direction: Direction,
) -> (State<A>, Result<Option<Seq<u8>>, AccountError>) {
    let account = account_at(state, key);
    if account_type is Some && account.spec_account_type() != account_type->Some_0 {
        (
            state,
            Err(
                AccountError::TypeMismatch {
                    expected: account.spec_account_type(),
                    got: account_type->Some_0,
                },
            ),
        )
    } else {
        match transaction_op(
            account,
            transaction,
            block_height,
            timestamp,
            receipt,
            side,
            direction,
        ) {
            Ok((changed, data)) => (state.insert(key, changed), Ok(data)),
            Err(error) => (state, Err(error)),
        }
    }
}

/// One inherent on the account set. The kind of its target is not
/// checked.
pub open spec fn process_inherent<A: AccountInteraction>(
    state: State<A>,
    inherent: Inherent,
    block_height: u32,
    timestamp: u64,
    receipt: Option<Seq<u8>>,
    direction: Direction,
) -> (State<A>, Result<Option<Seq<u8>>, AccountError>) {
    let key = bytes_nibbles(inherent.target@);
    match inherent_op(
        account_at(state, key),
        inherent,
        block_height,
        timestamp,
        receipt,
        direction,
    ) {
        Ok((changed, data)) => (state.insert(key, changed), Ok(data)),
        Err(error) => (state, Err(error)),
    }
}

/// The receipt stored under the position `index`, if there is one. A
/// position that no `u16` holds has no receipt.
pub open spec fn receipt_at(receipts: Map<u16, Seq<u8>>, index: int) -> Option<Seq<u8>> {
    if index < 0x10000 && receipts.contains_key(index as u16) {
        Some(receipts[index as u16])
    } else {
        None
    }
}

/// One side of the first `count` transactions, in order. Each operation
/// gets the receipt stored under its position and adds the receipt it
/// returns, under its position cut to a `u16`. The first failure ends the
/// phase and leaves the account set as the operations before it made it.
pub open spec fn process_side<A: AccountInteraction>(
    state: State<A>,
    transactions: Seq<Transaction>,
    block_height: u32,
    timestamp: u64,
    receipts: Map<u16, Seq<u8>>,
    side: Side,
    direction: Direction,
    count: nat,
) -> (State<A>, Result<Seq<ReceiptView>, AccountError>)
    decreases count,
{
    if count == 0 {
        (state, Ok(Seq::empty()))
    } else {
        let index = count - 1;
        let (before, collected) = process_side(
            state,
            transactions,
            block_height,
            timestamp,
            receipts,
            side,
            direction,
            index as nat,
        );
        match collected {
            Err(error) => (before, Err(error)),
            Ok(new_receipts) => {
                let transaction = transactions[index];
                let (after, returned) = process_transaction(
                    before,
                    transaction.side_key(side),
                    transaction.side_type(side),
                    transaction,
                    block_height,
                    timestamp,
                    receipt_at(receipts, index),
                    side,
                    direction,
                );
                match returned {
                    Err(error) => (after, Err(error)),
                    Ok(None) => (after, Ok(new_receipts)),
                    Ok(Some(data)) => (
                        after,
                        Ok(
                            new_receipts.push(
                                ReceiptView::Transaction {
                                    index: index as u16,
                                    sender: side == Side::Sender,
                                    data,
                                },
                            ),
                        ),
                    ),
                }
            },
        }
    }
}

/// The inherents of one phase, in their order.
pub open spec fn phase_inherents(inherents: Seq<Inherent>, pre_transactions: bool) -> Seq<Inherent>
    decreases inherents.len(),
{
    if inherents.len() == 0 {
        Seq::empty()
    } else {
        let earlier = phase_inherents(inherents.drop_last(), pre_transactions);
        if inherents.last().pre_transactions == pre_transactions {
            earlier.push(inherents.last())
        } else {
            earlier
        }
    }
}

/// The first `count` of the given inherents, in order, each addressed by
/// its position among them.
pub open spec fn process_inherents<A: AccountInteraction>(
    state: State<A>,
    inherents: Seq<Inherent>,
    block_height: u32,
    timestamp: u64,
    receipts: Map<u16, Seq<u8>>,
    direction: Direction,
    count: nat,
) -> (State<A>, Result<Seq<ReceiptView>, AccountError>)
    decreases count,
{
    if count == 0 {
        (state, Ok(Seq::empty()))
    } else {
        let index = count - 1;
        let (before, collected) = process_inherents(
            state,
            inherents,
            block_height,
            timestamp,
            receipts,
            direction,
            index as nat,
        );
        match collected {
            Err(error) => (before, Err(error)),
            Ok(new_receipts) => {
                let inherent = inherents[index];
                let (after, returned) = process_inherent(
                    before,
                    inherent,
                    block_height,
                    timestamp,
                    receipt_at(receipts, index),
                    direction,
                );
                match returned {
                    Err(error) => (after, Err(error)),
                    Ok(None) => (after, Ok(new_receipts)),
                    Ok(Some(data)) => (
                        after,
                        Ok(
                            new_receipts.push(
                                ReceiptView::Inherent {
                                    index: index as u16,
                                    pre_transactions: inherent.pre_transactions,
                                    data,
                                },
                            ),
                        ),
                    ),
                }
            },
        }
    }
}

/// The contract that `transaction` creates replaces what is stored at its
/// recipient and takes over its balance.
pub open spec fn create_contract<A: AccountInteraction>(
    state: State<A>,
    transaction: Transaction,
    block_height: u32,
    timestamp: u64,
) -> (State<A>, Result<(), AccountError>) {
    let key = bytes_nibbles(transaction.recipient@);
    match A::spec_new_contract(
        transaction.recipient_type,
        account_at(state, key).spec_balance(),
        transaction,
        block_height,
        timestamp,
    ) {
        Ok(contract) => (state.insert(key, contract), Ok(())),
        Err(error) => (state, Err(error)),
    }
}

/// The contract that `transaction` created gives way to a plain account
/// with its balance, provided it is of the kind that the transaction
/// names.
pub open spec fn revert_contract<A: AccountInteraction>(
    state: State<A>,
    transaction: Transaction,
) -> (State<A>, Result<(), AccountError>) {
    let key = bytes_nibbles(transaction.recipient@);
    let account = account_at(state, key);
    if account.spec_account_type() != transaction.recipient_type {
        (
            state,
            Err(
                AccountError::TypeMismatch {
                    expected: account.spec_account_type(),
                    got: transaction.recipient_type,
                },
            ),
        )
    } else {
        (state.insert(key, A::spec_new_basic(account.spec_balance())), Ok(()))
    }
}

/// `create_contract` for each of the first `count` transactions that
/// creates a contract, in order.
pub open spec fn create_contracts<A: AccountInteraction>(
    state: State<A>,
    transactions: Seq<Transaction>,
    block_height: u32,
    timestamp: u64,
    count: nat,
) -> (State<A>, Result<(), AccountError>)
    decreases count,
{
    if count == 0 {
        (state, Ok(()))
    } else {
        let (before, done) = create_contracts(
            state,
            transactions,
            block_height,
            timestamp,
            (count - 1) as nat,
        );
        if done is Err || !transactions[count - 1].spec_is_contract_creation() {
            (before, done)
        } else {
            create_contract(before, transactions[count - 1], block_height, timestamp)
        }
    }
}

/// `revert_contract` for each of the first `count` transactions that
/// creates a contract, in order.
pub open spec fn revert_contracts<A: AccountInteraction>(
    state: State<A>,
    transactions: Seq<Transaction>,
    count: nat,
) -> (State<A>, Result<(), AccountError>)
    decreases count,
{
    if count == 0 {
        (state, Ok(()))
    } else {
        let (before, done) = revert_contracts(state, transactions, (count - 1) as nat);
        if done is Err || !transactions[count - 1].spec_is_contract_creation() {
            (before, done)
        } else {
            revert_contract(before, transactions[count - 1])
        }
    }
}

/// A block applied: the inherents that come before the transactions, the
/// senders, the recipients, the contracts created, the inherents that
/// come after the transactions. The receipts of the phases follow each
/// other in that order. The first failure ends the application.
pub open spec fn commit<A: AccountInteraction>(
    state: State<A>,
    transactions: Seq<Transaction>,
    inherents: Seq<Inherent>,
    block_height: u32,
    timestamp: u64,
) -> (State<A>, Result<Seq<ReceiptView>, AccountError>) {
    let none = Map::<u16, Seq<u8>>::empty();
    let pre = phase_inherents(inherents, true);
    let post = phase_inherents(inherents, false);
    let (state1, pre_receipts) = process_inherents(
        state,
        pre,
        block_height,
        timestamp,
        none,
        Direction::Commit,
        pre.len(),
    );
    if pre_receipts is Err {
        (state1, pre_receipts)
    } else {
        let (state2, sender_receipts) = process_side(
            state1,
            transactions,
            block_height,
            timestamp,
            none,
            Side::Sender,
            Direction::Commit,
            transactions.len(),
        );
        if sender_receipts is Err {
            (state2, sender_receipts)
        } else {
            let (state3, recipient_receipts) = process_side(
                state2,
                transactions,
                block_height,
                timestamp,
                none,
                Side::Recipient,
                Direction::Commit,
                transactions.len(),
            );
            if recipient_receipts is Err {
                (state3, recipient_receipts)
            } else {
                let (state4, created) = create_contracts(
                    state3,
                    transactions,
                    block_height,
                    timestamp,
                    transactions.len(),
                );
                if created is Err {
                    (state4, Err(created->Err_0))
                } else {
                    let (state5, post_receipts) = process_inherents(
                        state4,
                        post,
                        block_height,
                        timestamp,
                        none,
                        Direction::Commit,
                        post.len(),
                    );
                    if post_receipts is Err {
                        (state5, post_receipts)
                    } else {
                        (
                            state5,
                            Ok(
                                pre_receipts->Ok_0 + sender_receipts->Ok_0
                                    + recipient_receipts->Ok_0 + post_receipts->Ok_0,
                            ),
                        )
                    }
                }
            }
        }
    }
}

/// A block undone: the phases of `commit` in reverse, each with the
/// receipts of its own phase.
pub open spec fn revert<A: AccountInteraction>(
    state: State<A>,
    transactions: Seq<Transaction>,
    inherents: Seq<Inherent>,
    block_height: u32,
    timestamp: u64,
    receipts: Seq<ReceiptView>,
) -> (State<A>, Result<(), AccountError>) {
    let pre = phase_inherents(inherents, true);
    let post = phase_inherents(inherents, false);
    let (state1, post_done) = process_inherents(
        state,
        post,
        block_height,
        timestamp,
        receipts_of(receipts, Phase::PostTxInherents),
        Direction::Revert,
        post.len(),
    );
    if post_done is Err {
        (state1, Err(post_done->Err_0))
    } else {
        let (state2, contracts_done) = revert_contracts(state1, transactions, transactions.len());
        if contracts_done is Err {
            (state2, contracts_done)
        } else {
            let (state3, recipients_done) = process_side(
                state2,
                transactions,
                block_height,
                timestamp,
                receipts_of(receipts, Phase::Recipients),
                Side::Recipient,
                Direction::Revert,
                transactions.len(),
            );
            if recipients_done is Err {
                (state3, Err(recipients_done->Err_0))
            } else {
                let (state4, senders_done) = process_side(
                    state3,
                    transactions,
                    block_height,
                    timestamp,
                    receipts_of(receipts, Phase::Senders),
                    Side::Sender,
                    Direction::Revert,
                    transactions.len(),
                );
                if senders_done is Err {
                    (state4, Err(senders_done->Err_0))
                } else {
                    let (state5, pre_done) = process_inherents(
                        state4,
                        pre,
                        block_height,
                        timestamp,
                        receipts_of(receipts, Phase::PreTxInherents),
                        Direction::Revert,
                        pre.len(),
                    );
                    if pre_done is Err {
                        (state5, Err(pre_done->Err_0))
                    } else {
                        (state5, Ok(()))
                    }
                }
            }
        }
    }
}

/// The account set after the first `count` genesis accounts were stored,
/// in order: where a key comes twice, the later account stays.
pub open spec fn init<A: AccountInteraction>(
    state: State<A>,
    genesis_accounts: Seq<(Seq<u8>, A)>,
    count: nat,
) -> State<A>
    decreases count,
{
    if count == 0 {
        state
    } else {
        init(state, genesis_accounts, (count - 1) as nat).insert(
            genesis_accounts[count - 1].0,
            genesis_accounts[count - 1].1,
        )
    }
}

} // verus!
