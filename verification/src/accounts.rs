//! The engine: applies a block to the account set phase by phase, and
//! undoes it phase by phase in reverse.

use vstd::prelude::*;
use std::collections::HashMap;
use nimiq_primitives::key_nibbles::KeyNibbles;
use crate::account::{receipt_ref_view, AccountInteraction};
use crate::keys::{bytes_nibbles, key_nibbles, key_of_address, Address};
use crate::model;
use crate::model::{Direction, Side, State};
use crate::primitives::{AccountError, AccountType, Inherent, Transaction};
use crate::receipts::{map_data, prepare_receipts, Receipt, ReceiptView, Receipts};
use crate::trie::AccountsTrie;

verus! {

broadcast use vstd::std_specs::hash::group_hash_axioms;

/// The receipts of a vector, each by its view.
pub open spec fn receipt_views(receipts: Seq<Receipt>) -> Seq<ReceiptView> {
    Seq::new(receipts.len(), |i: int| receipts[i]@)
}

/// What an operation returned, its receipt as a sequence of bytes.
pub open spec fn data_view(returned: Result<Option<Vec<u8>>, AccountError>) -> Result<
    Option<Seq<u8>>,
    AccountError,
> {
    match returned {
        Ok(Some(data)) => Ok(Some(data@)),
        Ok(None) => Ok(None),
        Err(error) => Err(error),
    }
}

/// What a phase returned, its receipts by their views.
pub open spec fn receipts_view(returned: Result<Vec<Receipt>, AccountError>) -> Result<
    Seq<ReceiptView>,
    AccountError,
> {
    match returned {
        Ok(receipts) => Ok(receipt_views(receipts@)),
        Err(error) => Err(error),
    }
}

/// What `commit` returned, its receipts by their views.
pub open spec fn commit_view(returned: Result<Receipts, AccountError>) -> Result<
    Seq<ReceiptView>,
    AccountError,
> {
    match returned {
        Ok(receipts) => Ok(receipts@),
        Err(error) => Err(error),
    }
}

/// Genesis accounts, each key by its nibbles.
pub open spec fn genesis_view<A>(genesis_accounts: Seq<(KeyNibbles, A)>) -> Seq<(Seq<u8>, A)> {
    Seq::new(
        genesis_accounts.len(),
        |i: int| (key_nibbles(genesis_accounts[i].0), genesis_accounts[i].1),
    )
}

/// A phase that has failed stays failed: the transactions after the
/// failing one are not looked at.
pub proof fn lemma_side_failure_ends_phase<A: AccountInteraction>(
    state: State<A>,
    transactions: Seq<Transaction>,
    block_height: u32,
    timestamp: u64,
    receipts: Map<u16, Seq<u8>>,
    side: Side,
    direction: Direction,
    failed: nat,
    count: nat,
)
    requires
        failed <= count,
        model::process_side(
            state,
            transactions,
            block_height,
            timestamp,
            receipts,
            side,
            direction,
            failed,
        ).1 is Err,
    ensures
        model::process_side(
            state,
            transactions,
            block_height,
            timestamp,
            receipts,
            side,
            direction,
            count,
        ) == model::process_side(
            state,
            transactions,
            block_height,
            timestamp,
            receipts,
            side,
            direction,
            failed,
        ),
    decreases count,
{
    if failed < count {
        lemma_side_failure_ends_phase(
            state,
            transactions,
            block_height,
            timestamp,
            receipts,
            side,
            direction,
            failed,
            (count - 1) as nat,
        );
    }
}

/// A phase of inherents that has failed stays failed.
pub proof fn lemma_inherent_failure_ends_phase<A: AccountInteraction>(
    state: State<A>,
    inherents: Seq<Inherent>,
    block_height: u32,
    timestamp: u64,
    receipts: Map<u16, Seq<u8>>,
    direction: Direction,
    failed: nat,
    count: nat,
)
    requires
        failed <= count,
        model::process_inherents(
            state,
            inherents,
            block_height,
            timestamp,
            receipts,
            direction,
            failed,
        ).1 is Err,
    ensures
        model::process_inherents(
            state,
            inherents,
            block_height,
            timestamp,
            receipts,
            direction,
            count,
        ) == model::process_inherents(
            state,
            inherents,
            block_height,
            timestamp,
            receipts,
            direction,
            failed,
        ),
    decreases count,
{
    if failed < count {
        lemma_inherent_failure_ends_phase(
            state,
            inherents,
            block_height,
            timestamp,
            receipts,
            direction,
            failed,
            (count - 1) as nat,
        );
    }
}

/// The inherents of a phase among the first `shorter` inherents are the
/// first of those among the first `longer`.
pub proof fn lemma_phase_inherents_prefix(
    inherents: Seq<Inherent>,
    pre_transactions: bool,
    shorter: int,
    longer: int,
)
    requires
        0 <= shorter <= longer <= inherents.len(),
    ensures
        model::phase_inherents(inherents.take(shorter), pre_transactions).len()
            <= model::phase_inherents(inherents.take(longer), pre_transactions).len() <= longer,
        model::phase_inherents(inherents.take(shorter), pre_transactions)
            == model::phase_inherents(inherents.take(longer), pre_transactions).take(
            model::phase_inherents(inherents.take(shorter), pre_transactions).len() as int,
        ),
    decreases longer,
{
    let short = model::phase_inherents(inherents.take(shorter), pre_transactions);
    if shorter == longer {
        assert(short.take(short.len() as int) =~= short);
        if longer > 0 {
            assert(inherents.take(longer).drop_last() =~= inherents.take(longer - 1));
            lemma_phase_inherents_prefix(inherents, pre_transactions, longer - 1, longer - 1);
        }
    } else {
        lemma_phase_inherents_prefix(inherents, pre_transactions, shorter, longer - 1);
        assert(inherents.take(longer).drop_last() =~= inherents.take(longer - 1));
        let middle = model::phase_inherents(inherents.take(longer - 1), pre_transactions);
        let long = model::phase_inherents(inherents.take(longer), pre_transactions);
        assert(long.take(short.len() as int) =~= middle.take(short.len() as int));
    }
}

/// Creating contracts ends at the first contract that cannot be created.
pub proof fn lemma_create_failure_ends_phase<A: AccountInteraction>(
    state: State<A>,
    transactions: Seq<Transaction>,
    block_height: u32,
    timestamp: u64,
    failed: nat,
    count: nat,
)
    requires
        failed <= count,
        model::create_contracts(state, transactions, block_height, timestamp, failed).1 is Err,
    ensures
        model::create_contracts(state, transactions, block_height, timestamp, count)
            == model::create_contracts(state, transactions, block_height, timestamp, failed),
    decreases count,
{
    if failed < count {
        lemma_create_failure_ends_phase(
            state,
            transactions,
            block_height,
            timestamp,
            failed,
            (count - 1) as nat,
        );
    }
}

/// Reverting contracts ends at the first contract that cannot be reverted.
pub proof fn lemma_revert_failure_ends_phase<A: AccountInteraction>(
    state: State<A>,
    transactions: Seq<Transaction>,
    failed: nat,
    count: nat,
)
    requires
        failed <= count,
        model::revert_contracts(state, transactions, failed).1 is Err,
    ensures
        model::revert_contracts(state, transactions, count) == model::revert_contracts(
            state,
            transactions,
            failed,
        ),
    decreases count,
{
    if failed < count {
        lemma_revert_failure_ends_phase(state, transactions, failed, (count - 1) as nat);
    }
}

/// The keys of the accounts that a block touches: for each transaction
/// the key of its sender and then of its recipient, after them for each
/// inherent the key of its target.
pub fn touched_keys(transactions: &[Transaction], inherents: &[Inherent]) -> (keys: Vec<
    KeyNibbles,
>)
    ensures
        keys@.len() == 2 * transactions@.len() + inherents@.len(),
        forall|i: int|
            0 <= i < transactions@.len() ==> key_nibbles(#[trigger] keys@[2 * i])
                == transactions@[i].side_key(Side::Sender),
        forall|i: int|
            0 <= i < transactions@.len() ==> key_nibbles(#[trigger] keys@[2 * i + 1])
                == transactions@[i].side_key(Side::Recipient),
        forall|i: int|
            0 <= i < inherents@.len() ==> key_nibbles(
                #[trigger] keys@[2 * transactions@.len() + i],
            ) == bytes_nibbles(inherents@[i].target@),
{
    let mut keys: Vec<KeyNibbles> = Vec::new();
    let mut index: usize = 0;
    while index < transactions.len()
        invariant
            index <= transactions@.len(),
            keys@.len() == 2 * index,
            forall|i: int|
                0 <= i < index ==> key_nibbles(#[trigger] keys@[2 * i])
                    == transactions@[i].side_key(Side::Sender),
            forall|i: int|
                0 <= i < index ==> key_nibbles(#[trigger] keys@[2 * i + 1])
                    == transactions@[i].side_key(Side::Recipient),
        decreases transactions@.len() - index,
    {
        keys.push(key_of_address(&transactions[index].sender));
        keys.push(key_of_address(&transactions[index].recipient));
        index += 1;
    }
    let mut index: usize = 0;
    while index < inherents.len()
        invariant
            index <= inherents@.len(),
            keys@.len() == 2 * transactions@.len() + index,
            forall|i: int|
                0 <= i < transactions@.len() ==> key_nibbles(#[trigger] keys@[2 * i])
                    == transactions@[i].side_key(Side::Sender),
            forall|i: int|
                0 <= i < transactions@.len() ==> key_nibbles(#[trigger] keys@[2 * i + 1])
                    == transactions@[i].side_key(Side::Recipient),
            forall|i: int|
                0 <= i < index ==> key_nibbles(#[trigger] keys@[2 * transactions@.len() + i])
                    == bytes_nibbles(inherents@[i].target@),
        decreases inherents@.len() - index,
    {
        keys.push(key_of_address(&inherents[index].target));
        index += 1;
    }
    keys
}

/// The account set of one write transaction, with the operations that
/// apply a block to it and undo one.
pub struct Accounts<A: AccountInteraction> {
    tree: AccountsTrie<A>,
}

impl<A: AccountInteraction> View for Accounts<A> {
    type V = State<A>;

    closed spec fn view(&self) -> State<A> {
        self.tree@
    }
}

impl<A: AccountInteraction> Accounts<A> {
    /// An account set that stores nothing.
    pub fn new() -> (accounts: Self)
        ensures
            accounts@ == Map::<Seq<u8>, A>::empty(),
    {
        Accounts { tree: AccountsTrie::new() }
    }

    /// The account stored under `key`, if any.
    pub fn get(&self, key: &KeyNibbles) -> (found: Option<&A>)
        ensures
            match found {
                Some(account) => self@.contains_key(key_nibbles(*key)) && *account == self@[key_nibbles(
                    *key,
                )],
                None => !self@.contains_key(key_nibbles(*key)),
            },
    {
        self.tree.get(key)
    }

    /// One side of one transaction: takes the account at `address`, or a
    /// plain account without funds where none is stored, checks its kind
    /// against `account_type` where one is given, makes the operation on
    /// it and writes it back. Where the check or the operation fails,
    /// nothing is written.
    pub fn process_transaction(
        &mut self,
        address: &Address,
        account_type: Option<AccountType>,
        transaction: &Transaction,
        block_height: u32,
        timestamp: u64,
        receipt: Option<&Vec<u8>>,
        side: Side,
        direction: Direction,
    ) -> (returned: Result<Option<Vec<u8>>, AccountError>)
        ensures
            (final(self)@, data_view(returned)) == model::process_transaction(
                old(self)@,
                bytes_nibbles(address@),
                account_type,
                *transaction,
                block_height,
                timestamp,
                receipt_ref_view(receipt),
                side,
                direction,
            ),
    {
        let ghost before = self@;
        let key = key_of_address(address);
        let ghost k = key_nibbles(key);
        let (mut account, stored) = match self.tree.take(&key) {
            Some(account) => (account, true),
            None => (A::new_basic(0), false),
        };
        assert(account == model::account_at(before, k));
        let mismatch = match account_type {
            Some(claimed) => account.account_type() != claimed,
            None => false,
        };
        let returned = if mismatch {
            Err(
                AccountError::TypeMismatch {
                    expected: account.account_type(),
                    got: account_type.unwrap(),
                },
            )
        } else {
            match (side, direction) {
                (Side::Sender, Direction::Commit) => account.commit_outgoing_transaction(
                    transaction,
                    block_height,
                    timestamp,
                ),
                (Side::Recipient, Direction::Commit) => account.commit_incoming_transaction(
                    transaction,
                    block_height,
                    timestamp,
                ),
                (Side::Sender, Direction::Revert) => match account.revert_outgoing_transaction(
                    transaction,
                    block_height,
                    timestamp,
                    receipt,
                ) {
                    Ok(()) => Ok(None),
                    Err(error) => Err(error),
                },
                (Side::Recipient, Direction::Revert) => match account.revert_incoming_transaction(
                    transaction,
                    block_height,
                    timestamp,
                    receipt,
                ) {
                    Ok(()) => Ok(None),
                    Err(error) => Err(error),
                },
            }
        };
        if returned.is_ok() || stored {
            self.tree.put(key, account);
        }
        proof {
            if returned is Ok {
                assert(before.remove(k).insert(k, account) =~= before.insert(k, account));
            } else if stored {
                assert(before.remove(k).insert(k, account) =~= before);
            } else {
                assert(before.remove(k) =~= before);
            }
        }
        returned
    }

    /// One inherent: takes the account at its target, or a plain account
    /// without funds where none is stored, makes the operation on it and
    /// writes it back. Where the operation fails, nothing is written.
    pub fn process_inherent(
        &mut self,
        inherent: &Inherent,
        block_height: u32,
        timestamp: u64,
        receipt: Option<&Vec<u8>>,
        direction: Direction,
    ) -> (returned: Result<Option<Vec<u8>>, AccountError>)
        ensures
            (final(self)@, data_view(returned)) == model::process_inherent(
                old(self)@,
                *inherent,
                block_height,
                timestamp,
                receipt_ref_view(receipt),
                direction,
            ),
    {
        let ghost before = self@;
        let key = key_of_address(&inherent.target);
        let ghost k = key_nibbles(key);
        let (mut account, stored) = match self.tree.take(&key) {
            Some(account) => (account, true),
            None => (A::new_basic(0), false),
        };
        assert(account == model::account_at(before, k));
        let returned = match direction {
            Direction::Commit => account.commit_inherent(inherent, block_height, timestamp),
            Direction::Revert => match account.revert_inherent(
                inherent,
                block_height,
                timestamp,
                receipt,
            ) {
                Ok(()) => Ok(None),
                Err(error) => Err(error),
            },
        };
        if returned.is_ok() || stored {
            self.tree.put(key, account);
        }
        proof {
            if returned is Ok {
                assert(before.remove(k).insert(k, account) =~= before.insert(k, account));
            } else if stored {
                assert(before.remove(k).insert(k, account) =~= before);
            } else {
                assert(before.remove(k) =~= before);
            }
        }
        returned
    }

    /// One side of every transaction, in order. The operation on the
    /// transaction at a position gets the receipt stored under that
    /// position, and what it returns becomes a receipt for that position.
    #[verifier::loop_isolation(false)]
    fn process_side<'a>(
        &mut self,
        transactions: &[Transaction],
        block_height: u32,
        timestamp: u64,
        receipts: HashMap<u16, &'a Vec<u8>>,
        side: Side,
        direction: Direction,
    ) -> (returned: Result<Vec<Receipt>, AccountError>)
        ensures
            (final(self)@, receipts_view(returned)) == model::process_side(
                old(self)@,
                transactions@,
                block_height,
                timestamp,
                map_data(receipts@),
                side,
                direction,
                transactions@.len(),
            ),
    {
        let ghost start = self@;
        let ghost given = map_data(receipts@);
        let mut receipts = receipts;
        let mut new_receipts: Vec<Receipt> = Vec::new();
        let mut index: usize = 0;
        assert(receipt_views(new_receipts@) =~= Seq::<ReceiptView>::empty());
        while index < transactions.len()
            invariant
                index <= transactions@.len(),
                (self@, Ok::<Seq<ReceiptView>, AccountError>(receipt_views(new_receipts@)))
                    == model::process_side(
                    start,
                    transactions@,
                    block_height,
                    timestamp,
                    given,
                    side,
                    direction,
                    index as nat,
                ),
                forall|earlier: u16| earlier < index ==> !receipts@.contains_key(earlier),
                forall|later: u16|
                    later >= index ==> model::receipt_at(map_data(receipts@), later as int)
                        == model::receipt_at(given, later as int),
            decreases transactions@.len() - index,
        {
            let transaction = &transactions[index];
            let position = #[verifier::truncate] (index as u16);
            let ghost remaining = map_data(receipts@);
            let receipt = receipts.remove(&position);
            proof {
                assert(receipt_ref_view(receipt) == model::receipt_at(given, index as int)) by {
                    if index < 0x10000 {
                        assert(model::receipt_at(remaining, position as int) == model::receipt_at(
                            given,
                            position as int,
                        ));
                    }
                }
                assert forall|later: u16| later >= index + 1 implies model::receipt_at(
                    map_data(receipts@),
                    later as int,
                ) == model::receipt_at(given, later as int) by {
                    assert(model::receipt_at(remaining, later as int) == model::receipt_at(
                        given,
                        later as int,
                    ));
                }
            }
            let (address, account_type) = match side {
                Side::Sender => (&transaction.sender, Some(transaction.sender_type)),
                Side::Recipient => (
                    &transaction.recipient,
                    if transaction.is_contract_creation() {
                        None
                    } else {
                        Some(transaction.recipient_type)
                    },
                ),
            };
            let ghost collected = receipt_views(new_receipts@);
            match self.process_transaction(
                address,
                account_type,
                transaction,
                block_height,
                timestamp,
                receipt,
                side,
                direction,
            ) {
                Err(error) => {
                    proof {
                        lemma_side_failure_ends_phase(
                            start,
                            transactions@,
                            block_height,
                            timestamp,
                            given,
                            side,
                            direction,
                            (index + 1) as nat,
                            transactions@.len(),
                        );
                    }
                    return Err(error);
                },
                Ok(Some(data)) => {
                    let sender = match side {
                        Side::Sender => true,
                        Side::Recipient => false,
                    };
                    new_receipts.push(Receipt::Transaction { index: position, sender, data });
                    assert(receipt_views(new_receipts@) =~= collected.push(
                        ReceiptView::Transaction { index: position, sender, data: data@ },
                    ));
                },
                Ok(None) => {},
            }
            index += 1;
        }
        Ok(new_receipts)
    }

    /// The sender side of every transaction, in order. Each sender's kind
    /// is checked against the kind its transaction claims.
    pub fn process_senders<'a>(
        &mut self,
        transactions: &[Transaction],
        block_height: u32,
        timestamp: u64,
        receipts: HashMap<u16, &'a Vec<u8>>,
        direction: Direction,
    ) -> (returned: Result<Vec<Receipt>, AccountError>)
        ensures
            (final(self)@, receipts_view(returned)) == model::process_side(
                old(self)@,
                transactions@,
                block_height,
                timestamp,
                map_data(receipts@),
                Side::Sender,
                direction,
                transactions@.len(),
            ),
    {
        self.process_side(
            transactions,
            block_height,
            timestamp,
            receipts,
            Side::Sender,
            direction,
        )
    }

    /// The recipient side of every transaction, in order. Each
    /// recipient's kind is checked against the kind its transaction
    /// claims, but for a transaction that creates its recipient.
    pub fn process_recipients<'a>(
        &mut self,
        transactions: &[Transaction],
        block_height: u32,
        timestamp: u64,
        receipts: HashMap<u16, &'a Vec<u8>>,
        direction: Direction,
    ) -> (returned: Result<Vec<Receipt>, AccountError>)
        ensures
            (final(self)@, receipts_view(returned)) == model::process_side(
                old(self)@,
                transactions@,
                block_height,
                timestamp,
                map_data(receipts@),
                Side::Recipient,
                direction,
                transactions@.len(),
            ),
    {
        self.process_side(
            transactions,
            block_height,
            timestamp,
            receipts,
            Side::Recipient,
            direction,
        )
    }

    /// Every inherent of one phase, in order, each addressed by its
    /// position among the inherents of that phase.
    #[verifier::loop_isolation(false)]
    pub fn process_inherents<'a>(
        &mut self,
        inherents: &[Inherent],
        pre_transactions: bool,
        block_height: u32,
        timestamp: u64,
        receipts: HashMap<u16, &'a Vec<u8>>,
        direction: Direction,
    ) -> (returned: Result<Vec<Receipt>, AccountError>)
        ensures
            (final(self)@, receipts_view(returned)) == model::process_inherents(
                old(self)@,
                model::phase_inherents(inherents@, pre_transactions),
                block_height,
                timestamp,
                map_data(receipts@),
                direction,
                model::phase_inherents(inherents@, pre_transactions).len(),
            ),
    {
        let ghost start = self@;
        let ghost given = map_data(receipts@);
        let ghost selected = model::phase_inherents(inherents@, pre_transactions);
        let mut receipts = receipts;
        let mut new_receipts: Vec<Receipt> = Vec::new();
        let mut index: usize = 0;
        let mut next: usize = 0;
        proof {
            assert(receipt_views(new_receipts@) =~= Seq::<ReceiptView>::empty());
            assert(inherents@.take(inherents@.len() as int) =~= inherents@);
            assert(inherents@.take(0).len() == 0);
        }
        while next < inherents.len()
            invariant
                next <= inherents@.len(),
                index <= next,
                selected == model::phase_inherents(inherents@, pre_transactions),
                index == model::phase_inherents(inherents@.take(next as int), pre_transactions).len(),
                (self@, Ok::<Seq<ReceiptView>, AccountError>(receipt_views(new_receipts@)))
                    == model::process_inherents(
                    start,
                    selected,
                    block_height,
                    timestamp,
                    given,
                    direction,
                    index as nat,
                ),
                forall|earlier: u16| earlier < index ==> !receipts@.contains_key(earlier),
                forall|later: u16|
                    later >= index ==> model::receipt_at(map_data(receipts@), later as int)
                        == model::receipt_at(given, later as int),
            decreases inherents@.len() - next,
        {
            let inherent = &inherents[next];
            proof {
                assert(inherents@.take(inherents@.len() as int) =~= inherents@);
                assert(inherents@.take(next + 1).drop_last() =~= inherents@.take(next as int));
                lemma_phase_inherents_prefix(
                    inherents@,
                    pre_transactions,
                    next + 1,
                    inherents@.len() as int,
                );
            }
            if inherent.is_pre_transactions() == pre_transactions {
                proof {
                    let longer = model::phase_inherents(
                        inherents@.take(next + 1),
                        pre_transactions,
                    );
                    assert(longer[index as int] == *inherent);
                    assert(selected.take(longer.len() as int)[index as int] == selected[index as int]);
                }
                let position = #[verifier::truncate] (index as u16);
                let ghost remaining = map_data(receipts@);
                let receipt = receipts.remove(&position);
                proof {
                    assert(receipt_ref_view(receipt) == model::receipt_at(given, index as int)) by {
                        if index < 0x10000 {
                            assert(model::receipt_at(remaining, position as int)
                                == model::receipt_at(given, position as int));
                        }
                    }
                    assert forall|later: u16| later >= index + 1 implies model::receipt_at(
                        map_data(receipts@),
                        later as int,
                    ) == model::receipt_at(given, later as int) by {
                        assert(model::receipt_at(remaining, later as int) == model::receipt_at(
                            given,
                            later as int,
                        ));
                    }
                }
                let ghost collected = receipt_views(new_receipts@);
                match self.process_inherent(inherent, block_height, timestamp, receipt, direction) {
                    Err(error) => {
                        proof {
                            lemma_inherent_failure_ends_phase(
                                start,
                                selected,
                                block_height,
                                timestamp,
                                given,
                                direction,
                                (index + 1) as nat,
                                selected.len(),
                            );
                        }
                        return Err(error);
                    },
                    Ok(Some(data)) => {
                        new_receipts.push(
                            Receipt::Inherent { index: position, pre_transactions, data },
                        );
                        assert(receipt_views(new_receipts@) =~= collected.push(
                            ReceiptView::Inherent { index: position, pre_transactions, data: data@ },
                        ));
                    },
                    Ok(None) => {},
                }
                index += 1;
            }
            next += 1;
        }
        proof {
            assert(inherents@.take(next as int) =~= inherents@);
        }
        Ok(new_receipts)
    }

    /// The balance that counts as stored under `key`.
    fn balance_at(&self, key: &KeyNibbles) -> (balance: u64)
        ensures
            balance == model::account_at(self@, key_nibbles(*key)).spec_balance(),
    {
        match self.tree.get(key) {
            Some(account) => account.balance(),
            None => A::new_basic(0).balance(),
        }
    }

    /// The kind that counts as stored under `key`.
    fn account_type_at(&self, key: &KeyNibbles) -> (account_type: AccountType)
        ensures
            account_type == model::account_at(self@, key_nibbles(*key)).spec_account_type(),
    {
        match self.tree.get(key) {
            Some(account) => account.account_type(),
            None => A::new_basic(0).account_type(),
        }
    }

    /// Puts the contract that `transaction` creates in the place of what
    /// is stored at its recipient. The contract takes over the balance
    /// found there. Where the contract cannot be made, nothing is
    /// written.
    pub fn create_contract(
        &mut self,
        transaction: &Transaction,
        block_height: u32,
        timestamp: u64,
    ) -> (created: Result<(), AccountError>)
        requires
            transaction.spec_is_contract_creation(),
        ensures
            (final(self)@, created) == model::create_contract(
                old(self)@,
                *transaction,
                block_height,
                timestamp,
            ),
    {
        let key = key_of_address(&transaction.recipient);
        let balance = self.balance_at(&key);
        match A::new_contract(
            transaction.recipient_type,
            balance,
            transaction,
            block_height,
            timestamp,
        ) {
            Ok(contract) => {
                self.tree.put(key, contract);
                Ok(())
            },
            Err(error) => Err(error),
        }
    }

    /// Puts a plain account in the place of the contract that
    /// `transaction` created, with the contract's balance. The account
    /// found must be of the kind that the transaction names; where it is
    /// not, nothing is written.
    pub fn revert_contract(
        &mut self,
        transaction: &Transaction,
        block_height: u32,
        timestamp: u64,
    ) -> (reverted: Result<(), AccountError>)
        requires
            transaction.spec_is_contract_creation(),
        ensures
            (final(self)@, reverted) == model::revert_contract(old(self)@, *transaction),
    {
        let key = key_of_address(&transaction.recipient);
        let found = self.account_type_at(&key);
        if found != transaction.recipient_type {
            return Err(
                AccountError::TypeMismatch { expected: found, got: transaction.recipient_type },
            );
        }
        let balance = self.balance_at(&key);
        self.tree.put(key, A::new_basic(balance));
        Ok(())
    }

    /// Creates the contract of every transaction that creates one, in
    /// order.
    #[verifier::loop_isolation(false)]
    pub fn create_contracts(
        &mut self,
        transactions: &[Transaction],
        block_height: u32,
        timestamp: u64,
    ) -> (created: Result<(), AccountError>)
        ensures
            (final(self)@, created) == model::create_contracts(
                old(self)@,
                transactions@,
                block_height,
                timestamp,
                transactions@.len(),
            ),
    {
        let ghost start = self@;
        let mut index: usize = 0;
        while index < transactions.len()
            invariant
                index <= transactions@.len(),
                (self@, Ok::<(), AccountError>(())) == model::create_contracts(
                    start,
                    transactions@,
                    block_height,
                    timestamp,
                    index as nat,
                ),
            decreases transactions@.len() - index,
        {
            let transaction = &transactions[index];
            if transaction.is_contract_creation() {
                match self.create_contract(transaction, block_height, timestamp) {
                    Ok(()) => {},
                    Err(error) => {
                        proof {
                            lemma_create_failure_ends_phase(
                                start,
                                transactions@,
                                block_height,
                                timestamp,
                                (index + 1) as nat,
                                transactions@.len(),
                            );
                        }
                        return Err(error);
                    },
                }
            }
            index += 1;
        }
        Ok(())
    }

    /// Reverts the contract of every transaction that creates one, in
    /// order.
    #[verifier::loop_isolation(false)]
    pub fn revert_contracts(
        &mut self,
        transactions: &[Transaction],
        block_height: u32,
        timestamp: u64,
    ) -> (reverted: Result<(), AccountError>)
        ensures
            (final(self)@, reverted) == model::revert_contracts(
                old(self)@,
                transactions@,
                transactions@.len(),
            ),
    {
        let ghost start = self@;
        let mut index: usize = 0;
        while index < transactions.len()
            invariant
                index <= transactions@.len(),
                (self@, Ok::<(), AccountError>(())) == model::revert_contracts(
                    start,
                    transactions@,
                    index as nat,
                ),
            decreases transactions@.len() - index,
        {
            let transaction = &transactions[index];
            if transaction.is_contract_creation() {
                match self.revert_contract(transaction, block_height, timestamp) {
                    Ok(()) => {},
                    Err(error) => {
                        proof {
                            lemma_revert_failure_ends_phase(
                                start,
                                transactions@,
                                (index + 1) as nat,
                                transactions@.len(),
                            );
                        }
                        return Err(error);
                    },
                }
            }
            index += 1;
        }
        Ok(())
    }

    /// Stores the genesis accounts, in order.
    pub fn init(&mut self, genesis_accounts: Vec<(KeyNibbles, A)>)
        ensures
            final(self)@ == model::init(
                old(self)@,
                genesis_view(genesis_accounts@),
                genesis_accounts@.len(),
            ),
    {
        let ghost start = self@;
        let ghost genesis = genesis_view(genesis_accounts@);
        let ghost all = genesis_accounts@;
        for entry in iter: genesis_accounts.into_iter()
            invariant
                iter.seq() == all,
                genesis == genesis_view(all),
                self@ == model::init(start, genesis, iter.index() as nat),
        {
            let (key, account) = entry;
            self.tree.put(key, account);
        }
    }

    /// Applies a block: the inherents that come before the transactions,
    /// the sender side of the transactions, their recipient side, the
    /// contracts they create, the inherents that come after them. Returns
    /// the receipts of all phases in that order. The first operation that
    /// fails ends the application with its error; what the operations
    /// before it wrote stays written.
    pub fn commit(
        &mut self,
        transactions: &[Transaction],
        inherents: &[Inherent],
        block_height: u32,
        timestamp: u64,
    ) -> (returned: Result<Receipts, AccountError>)
        ensures
            (final(self)@, commit_view(returned)) == model::commit(
                old(self)@,
                transactions@,
                inherents@,
                block_height,
                timestamp,
            ),
    {
        let mut receipts: Vec<Receipt> = Vec::new();
        let none: HashMap<u16, &Vec<u8>> = HashMap::new();
        assert(map_data(none@) =~= Map::<u16, Seq<u8>>::empty());
        let mut pre_receipts = match self.process_inherents(
            inherents,
            true,
            block_height,
            timestamp,
            none,
            Direction::Commit,
        ) {
            Ok(new_receipts) => new_receipts,
            Err(error) => {
                return Err(error);
            },
        };
        let ghost pre = receipt_views(pre_receipts@);
        receipts.append(&mut pre_receipts);

        let none: HashMap<u16, &Vec<u8>> = HashMap::new();
        assert(map_data(none@) =~= Map::<u16, Seq<u8>>::empty());
        let mut sender_receipts = match self.process_senders(
            transactions,
            block_height,
            timestamp,
            none,
            Direction::Commit,
        ) {
            Ok(new_receipts) => new_receipts,
            Err(error) => {
                return Err(error);
            },
        };
        let ghost senders = receipt_views(sender_receipts@);
        receipts.append(&mut sender_receipts);

        let none: HashMap<u16, &Vec<u8>> = HashMap::new();
        assert(map_data(none@) =~= Map::<u16, Seq<u8>>::empty());
        let mut recipient_receipts = match self.process_recipients(
            transactions,
            block_height,
            timestamp,
            none,
            Direction::Commit,
        ) {
            Ok(new_receipts) => new_receipts,
            Err(error) => {
                return Err(error);
            },
        };
        let ghost recipients = receipt_views(recipient_receipts@);
        receipts.append(&mut recipient_receipts);

        match self.create_contracts(transactions, block_height, timestamp) {
            Ok(()) => {},
            Err(error) => {
                return Err(error);
            },
        }

        let none: HashMap<u16, &Vec<u8>> = HashMap::new();
        assert(map_data(none@) =~= Map::<u16, Seq<u8>>::empty());
        let mut post_receipts = match self.process_inherents(
            inherents,
            false,
            block_height,
            timestamp,
            none,
            Direction::Commit,
        ) {
            Ok(new_receipts) => new_receipts,
            Err(error) => {
                return Err(error);
            },
        };
        let ghost post = receipt_views(post_receipts@);
        receipts.append(&mut post_receipts);

        assert(receipt_views(receipts@) =~= pre + senders + recipients + post);
        let collected = Receipts::from(receipts);
        assert(collected@ =~= receipt_views(receipts@));
        Ok(collected)
    }

    /// Undoes a block that `commit` applied: the phases of `commit` in
    /// reverse, each with the receipts of its own phase. The first
    /// operation that fails ends it with its error; what the operations
    /// before it wrote stays written.
    pub fn revert(
        &mut self,
        transactions: &[Transaction],
        inherents: &[Inherent],
        block_height: u32,
        timestamp: u64,
        receipts: &Receipts,
    ) -> (returned: Result<(), AccountError>)
        ensures
            (final(self)@, returned) == model::revert(
                old(self)@,
                transactions@,
                inherents@,
                block_height,
                timestamp,
                receipts@,
            ),
    {
        let maps = prepare_receipts(receipts);

        match self.process_inherents(
            inherents,
            false,
            block_height,
            timestamp,
            maps.post_tx_inherent_receipts,
            Direction::Revert,
        ) {
            Ok(_) => {},
            Err(error) => {
                return Err(error);
            },
        }

        match self.revert_contracts(transactions, block_height, timestamp) {
            Ok(()) => {},
            Err(error) => {
                return Err(error);
            },
        }

        match self.process_recipients(
            transactions,
            block_height,
            timestamp,
            maps.recipient_receipts,
            Direction::Revert,
        ) {
            Ok(_) => {},
            Err(error) => {
                return Err(error);
            },
        }

        match self.process_senders(
            transactions,
            block_height,
            timestamp,
            maps.sender_receipts,
            Direction::Revert,
        ) {
            Ok(_) => {},
            Err(error) => {
                return Err(error);
            },
        }

        match self.process_inherents(
            inherents,
            true,
            block_height,
            timestamp,
            maps.pre_tx_inherent_receipts,
            Direction::Revert,
        ) {
            Ok(_) => {},
            Err(error) => {
                return Err(error);
            },
        }

        Ok(())
    }

    /// Applies a block to a copy of the account set and returns the copy:
    /// the accounts whose root the block would commit to. The account set
    /// itself stays as it is.
    pub fn get_root_with(
        &self,
        transactions: &[Transaction],
        inherents: &[Inherent],
        block_height: u32,
        timestamp: u64,
    ) -> (preview: Result<Accounts<A>, AccountError>)
        ensures
            match model::commit(self@, transactions@, inherents@, block_height, timestamp).1 {
                Ok(_) => preview is Ok && preview->Ok_0@ == model::commit(
                    self@,
                    transactions@,
                    inherents@,
                    block_height,
                    timestamp,
                ).0,
                Err(error) => preview is Err && preview->Err_0 == error,
            },
    {
        let mut scratch = Accounts { tree: self.tree.duplicate() };
        match scratch.commit(transactions, inherents, block_height, timestamp) {
            Ok(_) => Ok(scratch),
            Err(error) => Err(error),
        }
    }

    /// The stored accounts with their keys, each key once.
    pub fn into_entries(self) -> (entries: Vec<(KeyNibbles, A)>)
        ensures
            crate::trie::distinct_keys(entries@),
            crate::trie::entries_map(entries@) == self@,
    {
        self.tree.into_entries()
    }
}

} // verus!
