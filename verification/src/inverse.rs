//! Reverting undoes applying: the phases of the model as runs of
//! operations, the receipts that each phase is handed, and the contracts.

use vstd::prelude::*;
use crate::account::{account_laws, reverting_commutes_with_applying, AccountInteraction};
use crate::model;
use crate::model::{account_at, Direction, Side, State};
use crate::phase::{
    applied_data, is_touched, lemma_run_frame, lemma_run_inverse,
    lemma_run_respects_same_accounts, lemma_step, may_swap, may_swap_all, run, same_accounts,
    step, Operation,
};
use crate::primitives::{AccountError, Inherent, Transaction};
use crate::receipts::{receipts_of, Phase, ReceiptView};

verus! {

/// The phase that the receipts of one side of the transactions belong to.
pub open spec fn side_phase(side: Side) -> Phase {
    match side {
        Side::Sender => Phase::Senders,
        Side::Recipient => Phase::Recipients,
    }
}

/// Every receipt belongs to `phase`.
pub open spec fn all_of_phase(receipts: Seq<ReceiptView>, phase: Phase) -> bool {
    forall|i: int| 0 <= i < receipts.len() ==> (#[trigger] receipts[i]).phase() == phase
}

/// No receipt belongs to `phase`.
pub open spec fn none_of_phase(receipts: Seq<ReceiptView>, phase: Phase) -> bool {
    forall|i: int| 0 <= i < receipts.len() ==> (#[trigger] receipts[i]).phase() != phase
}

/// Receipts of other phases that follow do not change the map of a phase.
pub proof fn lemma_later_phases_are_ignored(
    earlier: Seq<ReceiptView>,
    later: Seq<ReceiptView>,
    phase: Phase,
)
    requires
        none_of_phase(later, phase),
    ensures
        receipts_of(earlier + later, phase) == receipts_of(earlier, phase),
    decreases later.len(),
{
    if later.len() == 0 {
        assert(earlier + later =~= earlier);
    } else {
        let all = earlier + later;
        assert(all.drop_last() =~= earlier + later.drop_last());
        assert(all.last() == later[later.len() - 1]);
        assert forall|i: int| 0 <= i < later.drop_last().len() implies (
        #[trigger] later.drop_last()[i]).phase() != phase by {
            assert(later.drop_last()[i] == later[i]);
        }
        lemma_later_phases_are_ignored(earlier, later.drop_last(), phase);
    }
}

/// Receipts of other phases that come first do not change the map of a
/// phase.
pub proof fn lemma_earlier_phases_are_ignored(
    earlier: Seq<ReceiptView>,
    later: Seq<ReceiptView>,
    phase: Phase,
)
    requires
        none_of_phase(earlier, phase),
    ensures
        receipts_of(earlier + later, phase) == receipts_of(later, phase),
    decreases later.len() + earlier.len(),
{
    if later.len() == 0 {
        assert(earlier + later =~= earlier);
        if earlier.len() > 0 {
            assert(earlier.last() == earlier[earlier.len() - 1]);
            assert forall|i: int| 0 <= i < earlier.drop_last().len() implies (
            #[trigger] earlier.drop_last()[i]).phase() != phase by {
                assert(earlier.drop_last()[i] == earlier[i]);
            }
            lemma_earlier_phases_are_ignored(earlier.drop_last(), later, phase);
            assert(earlier.drop_last() + later =~= earlier.drop_last());
        }
    } else {
        let all = earlier + later;
        assert(all.drop_last() =~= earlier + later.drop_last());
        assert(all.last() == later.last());
        lemma_earlier_phases_are_ignored(earlier, later.drop_last(), phase);
    }
}

/// The receipt that applying one side of the transaction at `index`
/// returns, when the transactions before it have been applied.
pub open spec fn side_data<A: AccountInteraction>(
    state: State<A>,
    transactions: Seq<Transaction>,
    block_height: u32,
    timestamp: u64,
    side: Side,
    index: int,
) -> Result<Option<Seq<u8>>, AccountError> {
    let none = Map::<u16, Seq<u8>>::empty();
    model::process_transaction(
        model::process_side(
            state,
            transactions,
            block_height,
            timestamp,
            none,
            side,
            Direction::Commit,
            index as nat,
        ).0,
        transactions[index].side_key(side),
        transactions[index].side_type(side),
        transactions[index],
        block_height,
        timestamp,
        None,
        side,
        Direction::Commit,
    ).1
}

/// The receipts that one side of the transactions returns all belong to
/// that side's phase, and the map made of them holds under each position
/// what the operation at that position returned.
pub proof fn lemma_side_receipts<A: AccountInteraction>(
    state: State<A>,
    transactions: Seq<Transaction>,
    block_height: u32,
    timestamp: u64,
    side: Side,
    count: nat,
)
    requires
        count <= 0x10000,
        model::process_side(
            state,
            transactions,
            block_height,
            timestamp,
            Map::<u16, Seq<u8>>::empty(),
            side,
            Direction::Commit,
            count,
        ).1 is Ok,
    ensures
        ({
            let receipts = model::process_side(
                state,
                transactions,
                block_height,
                timestamp,
                Map::<u16, Seq<u8>>::empty(),
                side,
                Direction::Commit,
                count,
            ).1->Ok_0;
            &&& all_of_phase(receipts, side_phase(side))
            &&& forall|index: int|
                0 <= index < count ==> Ok::<Option<Seq<u8>>, AccountError>(
                    model::receipt_at(receipts_of(receipts, side_phase(side)), index),
                ) == #[trigger] side_data(
                    state,
                    transactions,
                    block_height,
                    timestamp,
                    side,
                    index,
                )
            &&& forall|index: u16|
                receipts_of(receipts, side_phase(side)).contains_key(index) ==> index < count
        }),
    decreases count,
{
    let none = Map::<u16, Seq<u8>>::empty();
    let phase = side_phase(side);
    let receipts = model::process_side(
        state,
        transactions,
        block_height,
        timestamp,
        none,
        side,
        Direction::Commit,
        count,
    ).1->Ok_0;
    if count > 0 {
        let last = count - 1;
        lemma_side_receipts(state, transactions, block_height, timestamp, side, last as nat);
        let earlier = model::process_side(
            state,
            transactions,
            block_height,
            timestamp,
            none,
            side,
            Direction::Commit,
            last as nat,
        ).1->Ok_0;
        let returned = side_data(state, transactions, block_height, timestamp, side, last);
        assert(model::receipt_at(none, last) == None::<Seq<u8>>);
        assert(returned is Ok);
        match returned->Ok_0 {
            None => {
                assert(receipts == earlier);
            },
            Some(data) => {
                let receipt = ReceiptView::Transaction {
                    index: last as u16,
                    sender: side == Side::Sender,
                    data,
                };
                assert(receipts == earlier.push(receipt));
                assert(receipts.drop_last() =~= earlier);
                assert(receipts.last() == receipt);
                assert(receipt.phase() == phase);
                assert(receipts_of(receipts, phase) == receipts_of(earlier, phase).insert(
                    last as u16,
                    data,
                ));
            },
        }
        assert forall|index: int| 0 <= index < count implies Ok::<
            Option<Seq<u8>>,
            AccountError,
        >(model::receipt_at(receipts_of(receipts, phase), index)) == #[trigger] side_data(
            state,
            transactions,
            block_height,
            timestamp,
            side,
            index,
        ) by {
            if index < last {
                assert(Ok::<Option<Seq<u8>>, AccountError>(
                    model::receipt_at(receipts_of(earlier, phase), index),
                ) == side_data(state, transactions, block_height, timestamp, side, index));
                assert(index as u16 != last as u16);
            } else {
                assert(!receipts_of(earlier, phase).contains_key(last as u16));
            }
        }
    } else {
        assert(receipts =~= Seq::<ReceiptView>::empty());
    }
}

/// The keys on one side of the first `count` transactions are pairwise
/// different.
pub open spec fn distinct_side_keys(transactions: Seq<Transaction>, side: Side, count: nat) -> bool {
    forall|i: int, j: int|
        0 <= i < j < count ==> (#[trigger] transactions[i]).side_key(side) != (
        #[trigger] transactions[j]).side_key(side)
}

/// Whether `key` is the key on one side of one of the first `count`
/// transactions.
pub open spec fn is_side_key(
    transactions: Seq<Transaction>,
    side: Side,
    count: nat,
    key: Seq<u8>,
) -> bool {
    exists|i: int| 0 <= i < count && (#[trigger] transactions[i]).side_key(side) == key
}

/// One side of the transactions touches the accounts on that side only,
/// takes no account away and stores none but on that side.
pub proof fn lemma_side_frame<A: AccountInteraction>(
    state: State<A>,
    transactions: Seq<Transaction>,
    block_height: u32,
    timestamp: u64,
    receipts: Map<u16, Seq<u8>>,
    side: Side,
    direction: Direction,
    count: nat,
    key: Seq<u8>,
)
    requires
        count <= transactions.len(),
    ensures
        ({
            let after = model::process_side(
                state,
                transactions,
                block_height,
                timestamp,
                receipts,
                side,
                direction,
                count,
            ).0;
            &&& state.contains_key(key) ==> after.contains_key(key)
            &&& after.contains_key(key) ==> state.contains_key(key) || is_side_key(
                transactions,
                side,
                count,
                key,
            )
            &&& !is_side_key(transactions, side, count, key) ==> after.contains_key(key)
                == state.contains_key(key) && after[key] == state[key]
        }),
    decreases count,
{
    if count > 0 {
        lemma_side_frame(
            state,
            transactions,
            block_height,
            timestamp,
            receipts,
            side,
            direction,
            (count - 1) as nat,
            key,
        );
        if transactions[count - 1].side_key(side) == key {
            assert(is_side_key(transactions, side, count, key));
        }
        if is_side_key(transactions, side, (count - 1) as nat, key) {
            let i = choose|i: int|
                0 <= i < count - 1 && (#[trigger] transactions[i]).side_key(side) == key;
            assert(0 <= i < count && transactions[i].side_key(side) == key);
        }
    }
}

/// The phase that the receipts of the inherents of one kind belong to.
pub open spec fn inherent_phase(pre_transactions: bool) -> Phase {
    if pre_transactions {
        Phase::PreTxInherents
    } else {
        Phase::PostTxInherents
    }
}

/// The key of the account that an inherent addresses.
pub open spec fn target_key(inherent: Inherent) -> Seq<u8> {
    crate::keys::bytes_nibbles(inherent.target@)
}

/// The receipt that applying the inherent at `index` returns, when the
/// inherents before it have been applied.
pub open spec fn inherent_data<A: AccountInteraction>(
    state: State<A>,
    inherents: Seq<Inherent>,
    block_height: u32,
    timestamp: u64,
    index: int,
) -> Result<Option<Seq<u8>>, AccountError> {
    model::process_inherent(
        model::process_inherents(
            state,
            inherents,
            block_height,
            timestamp,
            Map::<u16, Seq<u8>>::empty(),
            Direction::Commit,
            index as nat,
        ).0,
        inherents[index],
        block_height,
        timestamp,
        None,
        Direction::Commit,
    ).1
}

/// The inherents of a phase all belong to it.
pub proof fn lemma_phase_inherents_belong(inherents: Seq<Inherent>, pre_transactions: bool)
    ensures
        model::phase_inherents(inherents, pre_transactions).len() <= inherents.len(),
        forall|i: int|
            0 <= i < model::phase_inherents(inherents, pre_transactions).len() ==> (
            #[trigger] model::phase_inherents(inherents, pre_transactions)[i]).pre_transactions
                == pre_transactions,
    decreases inherents.len(),
{
    if inherents.len() > 0 {
        lemma_phase_inherents_belong(inherents.drop_last(), pre_transactions);
    }
}

/// The receipts that the inherents of a phase return all belong to that
/// phase, and the map made of them holds under each position what the
/// operation at that position returned.
pub proof fn lemma_inherent_receipts<A: AccountInteraction>(
    state: State<A>,
    inherents: Seq<Inherent>,
    block_height: u32,
    timestamp: u64,
    pre_transactions: bool,
    count: nat,
)
    requires
        count <= 0x10000,
        count <= inherents.len(),
        forall|i: int|
            0 <= i < count ==> (#[trigger] inherents[i]).pre_transactions == pre_transactions,
        model::process_inherents(
            state,
            inherents,
            block_height,
            timestamp,
            Map::<u16, Seq<u8>>::empty(),
            Direction::Commit,
            count,
        ).1 is Ok,
    ensures
        ({
            let receipts = model::process_inherents(
                state,
                inherents,
                block_height,
                timestamp,
                Map::<u16, Seq<u8>>::empty(),
                Direction::Commit,
                count,
            ).1->Ok_0;
            let phase = inherent_phase(pre_transactions);
            &&& all_of_phase(receipts, phase)
            &&& forall|index: int|
                0 <= index < count ==> Ok::<Option<Seq<u8>>, AccountError>(
                    model::receipt_at(receipts_of(receipts, phase), index),
                ) == #[trigger] inherent_data(state, inherents, block_height, timestamp, index)
            &&& forall|index: u16| receipts_of(receipts, phase).contains_key(index) ==> index < count
        }),
    decreases count,
{
    let none = Map::<u16, Seq<u8>>::empty();
    let phase = inherent_phase(pre_transactions);
    let receipts = model::process_inherents(
        state,
        inherents,
        block_height,
        timestamp,
        none,
        Direction::Commit,
        count,
    ).1->Ok_0;
    if count > 0 {
        let last = count - 1;
        lemma_inherent_receipts(
            state,
            inherents,
            block_height,
            timestamp,
            pre_transactions,
            last as nat,
        );
        let earlier = model::process_inherents(
            state,
            inherents,
            block_height,
            timestamp,
            none,
            Direction::Commit,
            last as nat,
        ).1->Ok_0;
        let returned = inherent_data(state, inherents, block_height, timestamp, last);
        assert(model::receipt_at(none, last) == None::<Seq<u8>>);
        assert(returned is Ok);
        match returned->Ok_0 {
            None => {
                assert(receipts == earlier);
            },
            Some(data) => {
                let receipt = ReceiptView::Inherent {
                    index: last as u16,
                    pre_transactions: inherents[last].pre_transactions,
                    data,
                };
                assert(receipts == earlier.push(receipt));
                assert(receipts.drop_last() =~= earlier);
                assert(receipts.last() == receipt);
                assert(receipt.phase() == phase);
                assert(receipts_of(receipts, phase) == receipts_of(earlier, phase).insert(
                    last as u16,
                    data,
                ));
            },
        }
        assert forall|index: int| 0 <= index < count implies Ok::<
            Option<Seq<u8>>,
            AccountError,
        >(model::receipt_at(receipts_of(receipts, phase), index)) == #[trigger] inherent_data(
            state,
            inherents,
            block_height,
            timestamp,
            index,
        ) by {
            if index < last {
                assert(Ok::<Option<Seq<u8>>, AccountError>(
                    model::receipt_at(receipts_of(earlier, phase), index),
                ) == inherent_data(state, inherents, block_height, timestamp, index));
                assert(index as u16 != last as u16);
            } else {
                assert(!receipts_of(earlier, phase).contains_key(last as u16));
            }
        }
    } else {
        assert(receipts =~= Seq::<ReceiptView>::empty());
    }
}

/// The targets of the first `count` inherents are pairwise different.
pub open spec fn distinct_targets(inherents: Seq<Inherent>, count: nat) -> bool {
    forall|i: int, j: int|
        0 <= i < j < count ==> target_key(#[trigger] inherents[i]) != target_key(
            #[trigger] inherents[j],
        )
}

/// Whether `key` is the key of the target of one of the first `count`
/// inherents.
pub open spec fn is_target_key(inherents: Seq<Inherent>, count: nat, key: Seq<u8>) -> bool {
    exists|i: int| 0 <= i < count && target_key(#[trigger] inherents[i]) == key
}

/// Inherents touch the accounts at their targets only, take no account
/// away and store none but at their targets.
pub proof fn lemma_inherents_frame<A: AccountInteraction>(
    state: State<A>,
    inherents: Seq<Inherent>,
    block_height: u32,
    timestamp: u64,
    receipts: Map<u16, Seq<u8>>,
    direction: Direction,
    count: nat,
    key: Seq<u8>,
)
    requires
        count <= inherents.len(),
    ensures
        ({
            let after = model::process_inherents(
                state,
                inherents,
                block_height,
                timestamp,
                receipts,
                direction,
                count,
            ).0;
            &&& state.contains_key(key) ==> after.contains_key(key)
            &&& after.contains_key(key) ==> state.contains_key(key) || is_target_key(
                inherents,
                count,
                key,
            )
            &&& !is_target_key(inherents, count, key) ==> after.contains_key(key)
                == state.contains_key(key) && after[key] == state[key]
        }),
    decreases count,
{
    if count > 0 {
        lemma_inherents_frame(
            state,
            inherents,
            block_height,
            timestamp,
            receipts,
            direction,
            (count - 1) as nat,
            key,
        );
        if target_key(inherents[count - 1]) == key {
            assert(is_target_key(inherents, count, key));
        }
        if is_target_key(inherents, (count - 1) as nat, key) {
            let i = choose|i: int|
                0 <= i < count - 1 && target_key(#[trigger] inherents[i]) == key;
            assert(0 <= i < count && target_key(inherents[i]) == key);
        }
    }
}

/// Whether an account is a plain account: nothing but its balance.
pub open spec fn is_plain<A: AccountInteraction>(account: A) -> bool {
    account == A::spec_new_basic(account.spec_balance())
}

/// A plain account is stored at the recipient of each of the first
/// `count` transactions that creates a contract.
pub open spec fn plain_before_creation<A: AccountInteraction>(
    state: State<A>,
    transactions: Seq<Transaction>,
    count: nat,
) -> bool {
    forall|i: int|
        0 <= i < count && (#[trigger] transactions[i]).spec_is_contract_creation() ==> is_plain(
            account_at(state, transactions[i].side_key(Side::Recipient)),
        )
}

/// Whether `key` is the key of the recipient of one of the first `count`
/// transactions that creates a contract.
pub open spec fn is_created_key(transactions: Seq<Transaction>, count: nat, key: Seq<u8>) -> bool {
    exists|i: int|
        0 <= i < count && (#[trigger] transactions[i]).spec_is_contract_creation()
            && transactions[i].side_key(Side::Recipient) == key
}

/// `changed` with the accounts at the recipients of those of the first
/// `count` transactions that create a contract as they are in `initial`.
pub open spec fn restore_created<A: AccountInteraction>(
    changed: State<A>,
    initial: State<A>,
    transactions: Seq<Transaction>,
    count: nat,
) -> State<A>
    decreases count,
{
    if count == 0 {
        changed
    } else {
        let earlier = restore_created(changed, initial, transactions, (count - 1) as nat);
        if transactions[count - 1].spec_is_contract_creation() {
            earlier.insert(
                transactions[count - 1].side_key(Side::Recipient),
                account_at(initial, transactions[count - 1].side_key(Side::Recipient)),
            )
        } else {
            earlier
        }
    }
}

/// What `restore_created` holds under a key.
pub proof fn lemma_restore_created<A: AccountInteraction>(
    changed: State<A>,
    initial: State<A>,
    transactions: Seq<Transaction>,
    count: nat,
    key: Seq<u8>,
)
    requires
        count <= transactions.len(),
    ensures
        ({
            let restored = restore_created(changed, initial, transactions, count);
            if is_created_key(transactions, count, key) {
                restored.contains_key(key) && restored[key] == account_at(initial, key)
            } else {
                restored.contains_key(key) == changed.contains_key(key) && restored[key]
                    == changed[key]
            }
        }),
    decreases count,
{
    if count > 0 {
        lemma_restore_created(changed, initial, transactions, (count - 1) as nat, key);
        let last = transactions[count - 1];
        if last.spec_is_contract_creation() && last.side_key(Side::Recipient) == key {
            assert(is_created_key(transactions, count, key));
        } else if is_created_key(transactions, count, key) {
            let i = choose|i: int|
                0 <= i < count && (#[trigger] transactions[i]).spec_is_contract_creation()
                    && transactions[i].side_key(Side::Recipient) == key;
            assert(0 <= i < count - 1 && transactions[i].spec_is_contract_creation()
                && transactions[i].side_key(Side::Recipient) == key);
        } else if is_created_key(transactions, (count - 1) as nat, key) {
            let i = choose|i: int|
                0 <= i < count - 1 && (#[trigger] transactions[i]).spec_is_contract_creation()
                    && transactions[i].side_key(Side::Recipient) == key;
            assert(0 <= i < count && transactions[i].spec_is_contract_creation()
                && transactions[i].side_key(Side::Recipient) == key);
        }
    }
}

/// Creating contracts touches the recipients of the creating
/// transactions only, takes no account away and stores none but at these
/// recipients.
pub proof fn lemma_create_frame<A: AccountInteraction>(
    state: State<A>,
    transactions: Seq<Transaction>,
    block_height: u32,
    timestamp: u64,
    count: nat,
    key: Seq<u8>,
)
    requires
        count <= transactions.len(),
    ensures
        ({
            let after = model::create_contracts(
                state,
                transactions,
                block_height,
                timestamp,
                count,
            ).0;
            &&& state.contains_key(key) ==> after.contains_key(key)
            &&& after.contains_key(key) ==> state.contains_key(key) || is_created_key(
                transactions,
                count,
                key,
            )
            &&& !is_created_key(transactions, count, key) ==> after.contains_key(key)
                == state.contains_key(key) && after[key] == state[key]
        }),
    decreases count,
{
    if count > 0 {
        lemma_create_frame(
            state,
            transactions,
            block_height,
            timestamp,
            (count - 1) as nat,
            key,
        );
        let last = transactions[count - 1];
        if last.spec_is_contract_creation() && last.side_key(Side::Recipient) == key {
            assert(is_created_key(transactions, count, key));
        }
        if is_created_key(transactions, (count - 1) as nat, key) {
            let i = choose|i: int|
                0 <= i < count - 1 && (#[trigger] transactions[i]).spec_is_contract_creation()
                    && transactions[i].side_key(Side::Recipient) == key;
            assert(0 <= i < count && transactions[i].spec_is_contract_creation()
                && transactions[i].side_key(Side::Recipient) == key);
        }
    }
}

/// No two of the first `count` transactions create a contract at the
/// same recipient.
pub open spec fn distinct_created_keys(transactions: Seq<Transaction>, count: nat) -> bool {
    forall|i: int, j: int|
        0 <= i < j < count && (#[trigger] transactions[i]).spec_is_contract_creation() && (
        #[trigger] transactions[j]).spec_is_contract_creation() ==> transactions[i].side_key(
            Side::Recipient,
        ) != transactions[j].side_key(Side::Recipient)
}

/// Reverting the contracts undoes creating them, where each was created
/// over a plain account. The accounts may have been written to in
/// between, but not the contracts.
pub proof fn lemma_contracts_inverse<A: AccountInteraction>(
    initial: State<A>,
    changed: State<A>,
    transactions: Seq<Transaction>,
    block_height: u32,
    timestamp: u64,
    count: nat,
)
    requires
        account_laws::<A>(),
        count <= transactions.len(),
        distinct_created_keys(transactions, count),
        plain_before_creation(initial, transactions, count),
        model::create_contracts(initial, transactions, block_height, timestamp, count).1 is Ok,
        forall|i: int|
            0 <= i < count && (#[trigger] transactions[i]).spec_is_contract_creation()
                ==> account_at(changed, transactions[i].side_key(Side::Recipient)) == account_at(
                model::create_contracts(
                    initial,
                    transactions,
                    block_height,
                    timestamp,
                    count,
                ).0,
                transactions[i].side_key(Side::Recipient),
            ),
    ensures
        model::revert_contracts(changed, transactions, count) == (
            restore_created(changed, initial, transactions, count),
            Ok::<(), AccountError>(()),
        ),
    decreases count,
{
    if count > 0 {
        let last = count - 1;
        let transaction = transactions[last];
        let key = transaction.side_key(Side::Recipient);
        let before = model::create_contracts(
            initial,
            transactions,
            block_height,
            timestamp,
            last as nat,
        ).0;
        let applied = model::create_contracts(
            initial,
            transactions,
            block_height,
            timestamp,
            count,
        ).0;
        assert forall|i: int|
            0 <= i < last && (
            #[trigger] transactions[i]).spec_is_contract_creation() implies account_at(
            changed,
            transactions[i].side_key(Side::Recipient),
        ) == account_at(before, transactions[i].side_key(Side::Recipient)) by {
            if transaction.spec_is_contract_creation() {
                assert(transactions[i].side_key(Side::Recipient) != transactions[last].side_key(
                    Side::Recipient,
                ));
            }
        }
        lemma_contracts_inverse(
            initial,
            changed,
            transactions,
            block_height,
            timestamp,
            last as nat,
        );
        if transaction.spec_is_contract_creation() {
            assert(!is_created_key(transactions, last as nat, key)) by {
                if is_created_key(transactions, last as nat, key) {
                    let i = choose|i: int|
                        0 <= i < last && (#[trigger] transactions[i]).spec_is_contract_creation()
                            && transactions[i].side_key(Side::Recipient) == key;
                    assert(transactions[i].side_key(Side::Recipient) != transactions[last].side_key(
                        Side::Recipient,
                    ));
                }
            }
            lemma_create_frame(initial, transactions, block_height, timestamp, last as nat, key);
            assert(account_at(before, key) == account_at(initial, key));
            let restored = restore_created(changed, initial, transactions, last as nat);
            lemma_restore_created(changed, initial, transactions, last as nat, key);
            let balance = account_at(initial, key).spec_balance();
            let contract = A::spec_new_contract(
                transaction.recipient_type,
                balance,
                transaction,
                block_height,
                timestamp,
            );
            assert(contract is Ok);
            assert(applied == before.insert(key, contract->Ok_0));
            assert(account_at(changed, transactions[last].side_key(Side::Recipient))
                == account_at(applied, transactions[last].side_key(Side::Recipient)));
            assert(account_at(restored, key) == contract->Ok_0);
            assert(is_plain(account_at(initial, transactions[last].side_key(Side::Recipient))));
        }
    }
}

/// Putting back the accounts that the contracts were created over, into
/// an account set that holds the same accounts as the one that the
/// creation gave, gives the same accounts as there were before it.
pub proof fn lemma_contracts_restored<A: AccountInteraction>(
    initial: State<A>,
    changed: State<A>,
    transactions: Seq<Transaction>,
    block_height: u32,
    timestamp: u64,
    count: nat,
)
    requires
        count <= transactions.len(),
        same_accounts(
            changed,
            model::create_contracts(initial, transactions, block_height, timestamp, count).0,
        ),
    ensures
        same_accounts(restore_created(changed, initial, transactions, count), initial),
{
    let applied = model::create_contracts(
        initial,
        transactions,
        block_height,
        timestamp,
        count,
    ).0;
    let restored = restore_created(changed, initial, transactions, count);
    assert forall|key: Seq<u8>| #[trigger] account_at(restored, key) == account_at(
        initial,
        key,
    ) by {
        lemma_restore_created(changed, initial, transactions, count, key);
        lemma_create_frame(initial, transactions, block_height, timestamp, count, key);
        assert(account_at(changed, key) == account_at(applied, key));
    }
}

/// One side of the transactions as operations.
pub open spec fn side_operations(transactions: Seq<Transaction>, side: Side) -> Seq<Operation> {
    Seq::new(
        transactions.len(),
        |i: int| Operation::Transaction { transaction: transactions[i], side },
    )
}

/// The inherents as operations.
pub open spec fn inherent_operations(inherents: Seq<Inherent>) -> Seq<Operation> {
    Seq::new(inherents.len(), |i: int| Operation::Inherent { inherent: inherents[i] })
}

/// One side of the transactions does to the accounts what the run of its
/// operations does, and succeeds where that run succeeds. Reverting
/// returns no receipt.
pub proof fn lemma_side_is_run<A: AccountInteraction>(
    state: State<A>,
    transactions: Seq<Transaction>,
    block_height: u32,
    timestamp: u64,
    receipts: Map<u16, Seq<u8>>,
    side: Side,
    direction: Direction,
    count: nat,
)
    requires
        count <= transactions.len(),
    ensures
        ({
            let processed = model::process_side(
                state,
                transactions,
                block_height,
                timestamp,
                receipts,
                side,
                direction,
                count,
            );
            let ran = run(
                state,
                side_operations(transactions, side),
                block_height,
                timestamp,
                receipts,
                direction,
                count,
            );
            &&& processed.0 == ran.0
            &&& processed.1 is Ok <==> ran.1 is Ok
            &&& direction == Direction::Revert && processed.1 is Ok ==> processed.1 == Ok::<
                Seq<ReceiptView>,
                AccountError,
            >(Seq::empty())
        }),
    decreases count,
{
    if count > 0 {
        lemma_side_is_run(
            state,
            transactions,
            block_height,
            timestamp,
            receipts,
            side,
            direction,
            (count - 1) as nat,
        );
        let before = run(
            state,
            side_operations(transactions, side),
            block_height,
            timestamp,
            receipts,
            direction,
            (count - 1) as nat,
        ).0;
        lemma_step(
            before,
            side_operations(transactions, side)[count - 1],
            block_height,
            timestamp,
            model::receipt_at(receipts, count - 1),
            direction,
        );
    }
}

/// The inherents do to the accounts what the run of their operations
/// does, and succeed where that run succeeds. Reverting returns no
/// receipt.
pub proof fn lemma_inherents_are_run<A: AccountInteraction>(
    state: State<A>,
    inherents: Seq<Inherent>,
    block_height: u32,
    timestamp: u64,
    receipts: Map<u16, Seq<u8>>,
    direction: Direction,
    count: nat,
)
    requires
        count <= inherents.len(),
    ensures
        ({
            let processed = model::process_inherents(
                state,
                inherents,
                block_height,
                timestamp,
                receipts,
                direction,
                count,
            );
            let ran = run(
                state,
                inherent_operations(inherents),
                block_height,
                timestamp,
                receipts,
                direction,
                count,
            );
            &&& processed.0 == ran.0
            &&& processed.1 is Ok <==> ran.1 is Ok
            &&& direction == Direction::Revert && processed.1 is Ok ==> processed.1 == Ok::<
                Seq<ReceiptView>,
                AccountError,
            >(Seq::empty())
        }),
    decreases count,
{
    if count > 0 {
        lemma_inherents_are_run(
            state,
            inherents,
            block_height,
            timestamp,
            receipts,
            direction,
            (count - 1) as nat,
        );
        let before = run(
            state,
            inherent_operations(inherents),
            block_height,
            timestamp,
            receipts,
            direction,
            (count - 1) as nat,
        ).0;
        lemma_step(
            before,
            inherent_operations(inherents)[count - 1],
            block_height,
            timestamp,
            model::receipt_at(receipts, count - 1),
            direction,
        );
    }
}

/// Reverting one side of all transactions undoes applying it: it
/// succeeds on every account set that holds the accounts that applying
/// it gave, returns no receipt, gives back the accounts that there were
/// before, and stores an account for that side of each transaction and
/// nothing else on top of what was stored.
///
/// This holds where no account is on that side of two transactions, or
/// where accounts of this kind let reversals commute with applications.
pub proof fn lemma_side_round_trip<A: AccountInteraction>(
    initial: State<A>,
    changed: State<A>,
    transactions: Seq<Transaction>,
    block_height: u32,
    timestamp: u64,
    receipts: Map<u16, Seq<u8>>,
    side: Side,
)
    requires
        account_laws::<A>(),
        distinct_side_keys(transactions, side, transactions.len())
            || reverting_commutes_with_applying::<A>(),
        model::process_side(
            initial,
            transactions,
            block_height,
            timestamp,
            Map::<u16, Seq<u8>>::empty(),
            side,
            Direction::Commit,
            transactions.len(),
        ).1 is Ok,
        same_accounts(
            changed,
            model::process_side(
                initial,
                transactions,
                block_height,
                timestamp,
                Map::<u16, Seq<u8>>::empty(),
                side,
                Direction::Commit,
                transactions.len(),
            ).0,
        ),
        forall|i: int|
            0 <= i < transactions.len() ==> Ok::<Option<Seq<u8>>, AccountError>(
                model::receipt_at(receipts, i),
            ) == #[trigger] side_data(initial, transactions, block_height, timestamp, side, i),
    ensures
        ({
            let reverted = model::process_side(
                changed,
                transactions,
                block_height,
                timestamp,
                receipts,
                side,
                Direction::Revert,
                transactions.len(),
            );
            &&& reverted.1 == Ok::<Seq<ReceiptView>, AccountError>(Seq::empty())
            &&& same_accounts(reverted.0, initial)
            &&& forall|key: Seq<u8>|
                #[trigger] reverted.0.contains_key(key) <==> changed.contains_key(key)
                    || is_side_key(transactions, side, transactions.len(), key)
        }),
{
    let none = Map::<u16, Seq<u8>>::empty();
    let count = transactions.len();
    let operations = side_operations(transactions, side);
    lemma_side_is_run(
        initial,
        transactions,
        block_height,
        timestamp,
        none,
        side,
        Direction::Commit,
        count,
    );
    let applied = run(initial, operations, block_height, timestamp, none, Direction::Commit, count).0;
    assert forall|i: int| 0 <= i < count implies Ok::<Option<Seq<u8>>, AccountError>(
        model::receipt_at(receipts, i),
    ) == #[trigger] applied_data(initial, operations, block_height, timestamp, i) by {
        lemma_side_is_run(
            initial,
            transactions,
            block_height,
            timestamp,
            none,
            side,
            Direction::Commit,
            i as nat,
        );
        assert(side_data(initial, transactions, block_height, timestamp, side, i) == applied_data(
            initial,
            operations,
            block_height,
            timestamp,
            i,
        ));
    }
    assert(may_swap_all::<A>(operations, count)) by {
        assert forall|i: int, j: int| 0 <= i < j < count implies may_swap::<A>(
            #[trigger] operations[i],
            #[trigger] operations[j],
        ) by {
            if !reverting_commutes_with_applying::<A>() {
                assert(transactions[i].side_key(side) != transactions[j].side_key(side));
            }
        }
    }
    lemma_run_inverse(initial, operations, block_height, timestamp, receipts, count);
    lemma_run_respects_same_accounts(
        changed,
        applied,
        operations,
        block_height,
        timestamp,
        receipts,
        Direction::Revert,
        count,
    );
    lemma_side_is_run(
        changed,
        transactions,
        block_height,
        timestamp,
        receipts,
        side,
        Direction::Revert,
        count,
    );
    let reverted = run(
        changed,
        operations,
        block_height,
        timestamp,
        receipts,
        Direction::Revert,
        count,
    ).0;
    let exact = run(applied, operations, block_height, timestamp, receipts, Direction::Revert, count).0;
    assert forall|key: Seq<u8>| #[trigger] account_at(reverted, key) == account_at(
        initial,
        key,
    ) by {
        assert(account_at(reverted, key) == account_at(exact, key));
    }
    assert forall|key: Seq<u8>| #[trigger]
        reverted.contains_key(key) <==> changed.contains_key(key) || is_side_key(
            transactions,
            side,
            count,
            key,
        ) by {
        lemma_run_frame(
            changed,
            operations,
            block_height,
            timestamp,
            receipts,
            Direction::Revert,
            count,
            key,
        );
        if is_touched(operations, count, key) {
            let i = choose|i: int| 0 <= i < count && (#[trigger] operations[i]).key() == key;
            assert(transactions[i].side_key(side) == key);
        }
        if is_side_key(transactions, side, count, key) {
            let i = choose|i: int|
                0 <= i < count && (#[trigger] transactions[i]).side_key(side) == key;
            assert(operations[i].key() == key);
        }
    }
}

/// Reverting the inherents of a phase undoes applying them: it succeeds
/// on every account set that holds the accounts that applying them gave,
/// returns no receipt, gives back the accounts that there were before,
/// and stores an account at the target of each inherent and nothing else
/// on top of what was stored.
///
/// This holds where no account is the target of two of the inherents, or
/// where accounts of this kind let reversals commute with applications.
pub proof fn lemma_inherents_round_trip<A: AccountInteraction>(
    initial: State<A>,
    changed: State<A>,
    inherents: Seq<Inherent>,
    block_height: u32,
    timestamp: u64,
    receipts: Map<u16, Seq<u8>>,
)
    requires
        account_laws::<A>(),
        distinct_targets(inherents, inherents.len()) || reverting_commutes_with_applying::<A>(),
        model::process_inherents(
            initial,
            inherents,
            block_height,
            timestamp,
            Map::<u16, Seq<u8>>::empty(),
            Direction::Commit,
            inherents.len(),
        ).1 is Ok,
        same_accounts(
            changed,
            model::process_inherents(
                initial,
                inherents,
                block_height,
                timestamp,
                Map::<u16, Seq<u8>>::empty(),
                Direction::Commit,
                inherents.len(),
            ).0,
        ),
        forall|i: int|
            0 <= i < inherents.len() ==> Ok::<Option<Seq<u8>>, AccountError>(
                model::receipt_at(receipts, i),
            ) == #[trigger] inherent_data(initial, inherents, block_height, timestamp, i),
    ensures
        ({
            let reverted = model::process_inherents(
                changed,
                inherents,
                block_height,
                timestamp,
                receipts,
                Direction::Revert,
                inherents.len(),
            );
            &&& reverted.1 == Ok::<Seq<ReceiptView>, AccountError>(Seq::empty())
            &&& same_accounts(reverted.0, initial)
            &&& forall|key: Seq<u8>|
                #[trigger] reverted.0.contains_key(key) <==> changed.contains_key(key)
                    || is_target_key(inherents, inherents.len(), key)
        }),
{
    let none = Map::<u16, Seq<u8>>::empty();
    let count = inherents.len();
    let operations = inherent_operations(inherents);
    lemma_inherents_are_run(
        initial,
        inherents,
        block_height,
        timestamp,
        none,
        Direction::Commit,
        count,
    );
    let applied = run(initial, operations, block_height, timestamp, none, Direction::Commit, count).0;
    assert forall|i: int| 0 <= i < count implies Ok::<Option<Seq<u8>>, AccountError>(
        model::receipt_at(receipts, i),
    ) == #[trigger] applied_data(initial, operations, block_height, timestamp, i) by {
        lemma_inherents_are_run(
            initial,
            inherents,
            block_height,
            timestamp,
            none,
            Direction::Commit,
            i as nat,
        );
        assert(inherent_data(initial, inherents, block_height, timestamp, i) == applied_data(
            initial,
            operations,
            block_height,
            timestamp,
            i,
        ));
    }
    assert(may_swap_all::<A>(operations, count)) by {
        assert forall|i: int, j: int| 0 <= i < j < count implies may_swap::<A>(
            #[trigger] operations[i],
            #[trigger] operations[j],
        ) by {
            if !reverting_commutes_with_applying::<A>() {
                assert(target_key(inherents[i]) != target_key(inherents[j]));
            }
        }
    }
    lemma_run_inverse(initial, operations, block_height, timestamp, receipts, count);
    lemma_run_respects_same_accounts(
        changed,
        applied,
        operations,
        block_height,
        timestamp,
        receipts,
        Direction::Revert,
        count,
    );
    lemma_inherents_are_run(
        changed,
        inherents,
        block_height,
        timestamp,
        receipts,
        Direction::Revert,
        count,
    );
    let reverted = run(
        changed,
        operations,
        block_height,
        timestamp,
        receipts,
        Direction::Revert,
        count,
    ).0;
    let exact = run(applied, operations, block_height, timestamp, receipts, Direction::Revert, count).0;
    assert forall|key: Seq<u8>| #[trigger] account_at(reverted, key) == account_at(
        initial,
        key,
    ) by {
        assert(account_at(reverted, key) == account_at(exact, key));
    }
    assert forall|key: Seq<u8>| #[trigger]
        reverted.contains_key(key) <==> changed.contains_key(key) || is_target_key(
            inherents,
            count,
            key,
        ) by {
        lemma_run_frame(
            changed,
            operations,
            block_height,
            timestamp,
            receipts,
            Direction::Revert,
            count,
            key,
        );
        if is_touched(operations, count, key) {
            let i = choose|i: int| 0 <= i < count && (#[trigger] operations[i]).key() == key;
            assert(target_key(inherents[i]) == key);
        }
        if is_target_key(inherents, count, key) {
            let i = choose|i: int| 0 <= i < count && target_key(#[trigger] inherents[i]) == key;
            assert(operations[i].key() == key);
        }
    }
}

/// Reverting the contracts of all transactions undoes creating them: it
/// succeeds on every account set that holds the accounts that creating
/// them gave, gives back the accounts that there were before, and stores
/// an account at the recipient of each creating transaction and nothing
/// else on top of what was stored.
///
/// This holds where each contract was created over a plain account and
/// no two at the same recipient.
pub proof fn lemma_contracts_round_trip<A: AccountInteraction>(
    initial: State<A>,
    changed: State<A>,
    transactions: Seq<Transaction>,
    block_height: u32,
    timestamp: u64,
)
    requires
        account_laws::<A>(),
        distinct_created_keys(transactions, transactions.len()),
        plain_before_creation(initial, transactions, transactions.len()),
        model::create_contracts(
            initial,
            transactions,
            block_height,
            timestamp,
            transactions.len(),
        ).1 is Ok,
        same_accounts(
            changed,
            model::create_contracts(
                initial,
                transactions,
                block_height,
                timestamp,
                transactions.len(),
            ).0,
        ),
    ensures
        ({
            let reverted = model::revert_contracts(changed, transactions, transactions.len());
            &&& reverted.1 == Ok::<(), AccountError>(())
            &&& same_accounts(reverted.0, initial)
            &&& forall|key: Seq<u8>|
                #[trigger] reverted.0.contains_key(key) <==> changed.contains_key(key)
                    || is_created_key(transactions, transactions.len(), key)
        }),
{
    let count = transactions.len();
    let applied = model::create_contracts(
        initial,
        transactions,
        block_height,
        timestamp,
        count,
    ).0;
    assert forall|i: int|
        0 <= i < count && (
        #[trigger] transactions[i]).spec_is_contract_creation() implies account_at(
        changed,
        transactions[i].side_key(Side::Recipient),
    ) == account_at(applied, transactions[i].side_key(Side::Recipient)) by {}
    lemma_contracts_inverse(initial, changed, transactions, block_height, timestamp, count);
    lemma_contracts_restored(initial, changed, transactions, block_height, timestamp, count);
    let reverted = restore_created(changed, initial, transactions, count);
    assert forall|key: Seq<u8>| #[trigger]
        reverted.contains_key(key) <==> changed.contains_key(key) || is_created_key(
            transactions,
            count,
            key,
        ) by {
        lemma_restore_created(changed, initial, transactions, count, key);
    }
}

} // verus!
