//! What holds of applying and reverting, proved from the model.

use vstd::prelude::*;
use crate::account::{account_laws, AccountInteraction};
use crate::account::reverting_commutes_with_applying;
use crate::inverse::{
    all_of_phase, distinct_created_keys, distinct_side_keys, distinct_targets, is_created_key,
    is_side_key, is_target_key, lemma_contracts_round_trip, lemma_create_frame,
    lemma_earlier_phases_are_ignored, lemma_inherent_receipts, lemma_inherents_frame,
    lemma_inherents_round_trip, lemma_later_phases_are_ignored, lemma_phase_inherents_belong,
    lemma_side_frame, lemma_side_receipts, lemma_side_round_trip, none_of_phase,
    plain_before_creation, target_key,
};
use crate::phase::same_accounts;
use crate::keys::bytes_nibbles;
use crate::model;
use crate::model::{account_at, Direction, Side, State};
use crate::primitives::{AccountError, Inherent, Transaction};
use crate::receipts::{receipts_of, Phase, ReceiptView};

verus! {

/// A sender of another kind than its transaction claims ends the
/// application before anything is written: where no inherent comes before
/// the transactions and the first transaction names a kind that its
/// sender does not have, `commit` fails with the mismatch and the account
/// set is as it was.
pub proof fn lemma_sender_type_mismatch_aborts<A: AccountInteraction>(
    state: State<A>,
    transactions: Seq<Transaction>,
    inherents: Seq<Inherent>,
    block_height: u32,
    timestamp: u64,
)
    requires
        transactions.len() > 0,
        model::phase_inherents(inherents, true).len() == 0,
        account_at(state, transactions[0].side_key(Side::Sender)).spec_account_type()
            != transactions[0].sender_type,
    ensures
        model::commit(state, transactions, inherents, block_height, timestamp) == (
            state,
            Err::<Seq<crate::receipts::ReceiptView>, AccountError>(
                AccountError::TypeMismatch {
                    expected: account_at(
                        state,
                        transactions[0].side_key(Side::Sender),
                    ).spec_account_type(),
                    got: transactions[0].sender_type,
                },
            ),
        ),
{
    let none = Map::<u16, Seq<u8>>::empty();
    let first = model::process_side(
        state,
        transactions,
        block_height,
        timestamp,
        none,
        Side::Sender,
        model::Direction::Commit,
        1,
    );
    assert(model::process_side(
        state,
        transactions,
        block_height,
        timestamp,
        none,
        Side::Sender,
        model::Direction::Commit,
        0,
    ) == (state, Ok::<Seq<crate::receipts::ReceiptView>, AccountError>(Seq::empty())));
    assert(first.1 is Err);
    crate::accounts::lemma_side_failure_ends_phase(
        state,
        transactions,
        block_height,
        timestamp,
        none,
        Side::Sender,
        model::Direction::Commit,
        1,
        transactions.len(),
    );
}

/// A contract that was created is reverted to a plain account with the
/// balance found before the creation: the creation and its reversal need
/// no receipt.
pub proof fn lemma_contract_round_trip<A: AccountInteraction>(
    state: State<A>,
    transaction: Transaction,
    block_height: u32,
    timestamp: u64,
)
    requires
        account_laws::<A>(),
        model::create_contract(state, transaction, block_height, timestamp).1 is Ok,
    ensures
        model::revert_contract(
            model::create_contract(state, transaction, block_height, timestamp).0,
            transaction,
        ) == (
            state.insert(
                bytes_nibbles(transaction.recipient@),
                A::spec_new_basic(
                    account_at(state, bytes_nibbles(transaction.recipient@)).spec_balance(),
                ),
            ),
            Ok::<(), AccountError>(()),
        ),
{
    let key = bytes_nibbles(transaction.recipient@);
    let balance = account_at(state, key).spec_balance();
    let created = model::create_contract(state, transaction, block_height, timestamp).0;
    let contract = A::spec_new_contract(
        transaction.recipient_type,
        balance,
        transaction,
        block_height,
        timestamp,
    )->Ok_0;
    assert(created == state.insert(key, contract));
    assert(account_at(created, key) == contract);
    assert(created.insert(key, A::spec_new_basic(balance)) =~= state.insert(
        key,
        A::spec_new_basic(balance),
    ));
}

/// A contract whose kind is not the one its transaction names is not
/// reverted: the reversal fails with the mismatch and writes nothing.
pub proof fn lemma_revert_contract_type_mismatch<A: AccountInteraction>(
    state: State<A>,
    transaction: Transaction,
)
    requires
        account_at(state, bytes_nibbles(transaction.recipient@)).spec_account_type()
            != transaction.recipient_type,
    ensures
        model::revert_contract(state, transaction) == (
            state,
            Err::<(), AccountError>(
                AccountError::TypeMismatch {
                    expected: account_at(
                        state,
                        bytes_nibbles(transaction.recipient@),
                    ).spec_account_type(),
                    got: transaction.recipient_type,
                },
            ),
        ),
{
}

/// An account is stored at every address that the block touches: at the
/// sender and the recipient of each transaction and at the target of each
/// inherent.
pub open spec fn touched_accounts_stored<A>(
    state: State<A>,
    transactions: Seq<Transaction>,
    inherents: Seq<Inherent>,
) -> bool {
    &&& forall|i: int|
        0 <= i < transactions.len() ==> state.contains_key(
            (#[trigger] transactions[i]).side_key(Side::Sender),
        ) && state.contains_key(transactions[i].side_key(Side::Recipient))
    &&& forall|i: int|
        0 <= i < inherents.len() ==> state.contains_key(target_key(#[trigger] inherents[i]))
}

/// No phase touches an account twice: no two transactions have the same
/// sender, no two the same recipient, and no two inherents of one phase
/// the same target.
pub open spec fn no_account_twice_in_a_phase(
    transactions: Seq<Transaction>,
    inherents: Seq<Inherent>,
) -> bool {
    &&& distinct_side_keys(transactions, Side::Sender, transactions.len())
    &&& distinct_side_keys(transactions, Side::Recipient, transactions.len())
    &&& distinct_targets(
        model::phase_inherents(inherents, true),
        model::phase_inherents(inherents, true).len(),
    )
    &&& distinct_targets(
        model::phase_inherents(inherents, false),
        model::phase_inherents(inherents, false).len(),
    )
}

/// The account set when the block's contracts are created: after the
/// inherents that come before the transactions and both sides of the
/// transactions.
pub open spec fn before_contracts<A: AccountInteraction>(
    state: State<A>,
    transactions: Seq<Transaction>,
    inherents: Seq<Inherent>,
    block_height: u32,
    timestamp: u64,
) -> State<A> {
    let none = Map::<u16, Seq<u8>>::empty();
    let pre = model::phase_inherents(inherents, true);
    let state1 = model::process_inherents(
        state,
        pre,
        block_height,
        timestamp,
        none,
        Direction::Commit,
        pre.len(),
    ).0;
    let state2 = model::process_side(
        state1,
        transactions,
        block_height,
        timestamp,
        none,
        Side::Sender,
        Direction::Commit,
        transactions.len(),
    ).0;
    model::process_side(
        state2,
        transactions,
        block_height,
        timestamp,
        none,
        Side::Recipient,
        Direction::Commit,
        transactions.len(),
    ).0
}

/// Each contract of the block is created in the place of a plain account.
pub open spec fn contracts_replace_plain_accounts<A: AccountInteraction>(
    state: State<A>,
    transactions: Seq<Transaction>,
    inherents: Seq<Inherent>,
    block_height: u32,
    timestamp: u64,
) -> bool {
    plain_before_creation(
        before_contracts(state, transactions, inherents, block_height, timestamp),
        transactions,
        transactions.len(),
    )
}

/// The targets of the inherents of a phase are among the targets of all
/// inherents.
proof fn lemma_phase_targets_are_targets(
    inherents: Seq<Inherent>,
    pre_transactions: bool,
    key: Seq<u8>,
)
    requires
        is_target_key(
            model::phase_inherents(inherents, pre_transactions),
            model::phase_inherents(inherents, pre_transactions).len(),
            key,
        ),
    ensures
        is_target_key(inherents, inherents.len(), key),
    decreases inherents.len(),
{
    let selected = model::phase_inherents(inherents, pre_transactions);
    let i = choose|i: int| 0 <= i < selected.len() && target_key(#[trigger] selected[i]) == key;
    if inherents.len() > 0 {
        let earlier = model::phase_inherents(inherents.drop_last(), pre_transactions);
        if i < earlier.len() {
            assert(target_key(earlier[i]) == key);
            lemma_phase_targets_are_targets(inherents.drop_last(), pre_transactions, key);
            let j = choose|j: int|
                0 <= j < inherents.drop_last().len() && target_key(
                    #[trigger] inherents.drop_last()[j],
                ) == key;
            assert(target_key(inherents[j]) == key);
        } else {
            assert(target_key(inherents[inherents.len() - 1]) == key);
        }
    }
}

/// Reverting a block that was applied, with the receipts that applying it
/// returned, succeeds and gives back the accounts: every address holds
/// the account it held, where an address at which nothing is stored
/// counts as holding a plain account without funds. Where an account was
/// stored at every address that the block touches, the account set is
/// exactly the one before the block, and so is its root.
///
/// This holds of every block that creates contracts in the place of
/// plain accounts only, no two at one address, and that touches no
/// account twice within a phase, for every kind of account that keeps
/// the laws of accounts. It holds of blocks that touch an account twice
/// within a phase too, for the kinds of account that let reversals
/// commute with applications.
pub proof fn lemma_revert_inverts_commit<A: AccountInteraction>(
    state: State<A>,
    transactions: Seq<Transaction>,
    inherents: Seq<Inherent>,
    block_height: u32,
    timestamp: u64,
)
    requires
        account_laws::<A>(),
        transactions.len() <= 0x10000,
        inherents.len() <= 0x10000,
        no_account_twice_in_a_phase(transactions, inherents)
            || reverting_commutes_with_applying::<A>(),
        distinct_created_keys(transactions, transactions.len()),
        contracts_replace_plain_accounts(state, transactions, inherents, block_height, timestamp),
        model::commit(state, transactions, inherents, block_height, timestamp).1 is Ok,
    ensures
        ({
            let applied = model::commit(state, transactions, inherents, block_height, timestamp);
            let reverted = model::revert(
                applied.0,
                transactions,
                inherents,
                block_height,
                timestamp,
                applied.1->Ok_0,
            );
            &&& reverted.1 == Ok::<(), AccountError>(())
            &&& same_accounts(reverted.0, state)
            &&& touched_accounts_stored(state, transactions, inherents) ==> reverted.0 == state
        }),
{
    let none = Map::<u16, Seq<u8>>::empty();
    let count = transactions.len();
    let pre = model::phase_inherents(inherents, true);
    let post = model::phase_inherents(inherents, false);
    let (state1, pre_receipts) = model::process_inherents(
        state,
        pre,
        block_height,
        timestamp,
        none,
        Direction::Commit,
        pre.len(),
    );
    let (state2, sender_receipts) = model::process_side(
        state1,
        transactions,
        block_height,
        timestamp,
        none,
        Side::Sender,
        Direction::Commit,
        count,
    );
    let (state3, recipient_receipts) = model::process_side(
        state2,
        transactions,
        block_height,
        timestamp,
        none,
        Side::Recipient,
        Direction::Commit,
        count,
    );
    let (state4, created) = model::create_contracts(
        state3,
        transactions,
        block_height,
        timestamp,
        count,
    );
    let (state5, post_receipts) = model::process_inherents(
        state4,
        post,
        block_height,
        timestamp,
        none,
        Direction::Commit,
        post.len(),
    );
    assert(pre_receipts is Ok && sender_receipts is Ok && recipient_receipts is Ok && created is Ok
        && post_receipts is Ok);
    let r1 = pre_receipts->Ok_0;
    let r2 = sender_receipts->Ok_0;
    let r3 = recipient_receipts->Ok_0;
    let r5 = post_receipts->Ok_0;
    let receipts = r1 + r2 + r3 + r5;
    assert(model::commit(state, transactions, inherents, block_height, timestamp) == (
        state5,
        Ok::<Seq<ReceiptView>, AccountError>(receipts),
    ));
    assert(state3 == before_contracts(state, transactions, inherents, block_height, timestamp));

    // What each phase returned, and the phase of each receipt.
    lemma_phase_inherents_belong(inherents, true);
    lemma_phase_inherents_belong(inherents, false);
    lemma_inherent_receipts(state, pre, block_height, timestamp, true, pre.len());
    lemma_side_receipts(state1, transactions, block_height, timestamp, Side::Sender, count);
    lemma_side_receipts(state2, transactions, block_height, timestamp, Side::Recipient, count);
    lemma_inherent_receipts(state4, post, block_height, timestamp, false, post.len());
    assert(all_of_phase(r1, Phase::PreTxInherents));
    assert(all_of_phase(r2, Phase::Senders));
    assert(all_of_phase(r3, Phase::Recipients));
    assert(all_of_phase(r5, Phase::PostTxInherents));

    // The receipts that each phase of the reversal is handed are its own.
    let post_map = receipts_of(receipts, Phase::PostTxInherents);
    let recipient_map = receipts_of(receipts, Phase::Recipients);
    let sender_map = receipts_of(receipts, Phase::Senders);
    let pre_map = receipts_of(receipts, Phase::PreTxInherents);
    assert(post_map == receipts_of(r5, Phase::PostTxInherents)) by {
        assert(none_of_phase(r1 + r2 + r3, Phase::PostTxInherents));
        lemma_earlier_phases_are_ignored(r1 + r2 + r3, r5, Phase::PostTxInherents);
    }
    assert(recipient_map == receipts_of(r3, Phase::Recipients)) by {
        assert(none_of_phase(r5, Phase::Recipients));
        lemma_later_phases_are_ignored(r1 + r2 + r3, r5, Phase::Recipients);
        assert(none_of_phase(r1 + r2, Phase::Recipients));
        lemma_earlier_phases_are_ignored(r1 + r2, r3, Phase::Recipients);
    }
    assert(sender_map == receipts_of(r2, Phase::Senders)) by {
        assert(none_of_phase(r5, Phase::Senders));
        lemma_later_phases_are_ignored(r1 + r2 + r3, r5, Phase::Senders);
        assert(none_of_phase(r3, Phase::Senders));
        lemma_later_phases_are_ignored(r1 + r2, r3, Phase::Senders);
        assert(none_of_phase(r1, Phase::Senders));
        lemma_earlier_phases_are_ignored(r1, r2, Phase::Senders);
    }
    assert(pre_map == receipts_of(r1, Phase::PreTxInherents)) by {
        assert(none_of_phase(r5, Phase::PreTxInherents));
        lemma_later_phases_are_ignored(r1 + r2 + r3, r5, Phase::PreTxInherents);
        assert(none_of_phase(r3, Phase::PreTxInherents));
        lemma_later_phases_are_ignored(r1 + r2, r3, Phase::PreTxInherents);
        assert(none_of_phase(r2, Phase::PreTxInherents));
        lemma_later_phases_are_ignored(r1, r2, Phase::PreTxInherents);
    }

    // The phases are undone one after the other, the last one first.
    assert(same_accounts(state5, state5));
    lemma_inherents_round_trip(state4, state5, post, block_height, timestamp, post_map);
    let back4 = model::process_inherents(
        state5,
        post,
        block_height,
        timestamp,
        post_map,
        Direction::Revert,
        post.len(),
    ).0;
    lemma_contracts_round_trip(state3, back4, transactions, block_height, timestamp);
    let back3 = model::revert_contracts(back4, transactions, count).0;
    lemma_side_round_trip(
        state2,
        back3,
        transactions,
        block_height,
        timestamp,
        recipient_map,
        Side::Recipient,
    );
    let back2 = model::process_side(
        back3,
        transactions,
        block_height,
        timestamp,
        recipient_map,
        Side::Recipient,
        Direction::Revert,
        count,
    ).0;
    lemma_side_round_trip(
        state1,
        back2,
        transactions,
        block_height,
        timestamp,
        sender_map,
        Side::Sender,
    );
    let back1 = model::process_side(
        back2,
        transactions,
        block_height,
        timestamp,
        sender_map,
        Side::Sender,
        Direction::Revert,
        count,
    ).0;
    lemma_inherents_round_trip(state, back1, pre, block_height, timestamp, pre_map);
    let back0 = model::process_inherents(
        back1,
        pre,
        block_height,
        timestamp,
        pre_map,
        Direction::Revert,
        pre.len(),
    ).0;
    let reverted = model::revert(state5, transactions, inherents, block_height, timestamp, receipts);
    assert(reverted == (back0, Ok::<(), AccountError>(())));

    // Where every touched account was stored, no account was added.
    if touched_accounts_stored(state, transactions, inherents) {
        assert forall|key: Seq<u8>| (#[trigger] back0.contains_key(key)) == state.contains_key(
            key,
        ) by {
            lemma_inherents_frame(
                state,
                pre,
                block_height,
                timestamp,
                none,
                Direction::Commit,
                pre.len(),
                key,
            );
            lemma_side_frame(
                state1,
                transactions,
                block_height,
                timestamp,
                none,
                Side::Sender,
                Direction::Commit,
                count,
                key,
            );
            lemma_side_frame(
                state2,
                transactions,
                block_height,
                timestamp,
                none,
                Side::Recipient,
                Direction::Commit,
                count,
                key,
            );
            lemma_create_frame(state3, transactions, block_height, timestamp, count, key);
            lemma_inherents_frame(
                state4,
                post,
                block_height,
                timestamp,
                none,
                Direction::Commit,
                post.len(),
                key,
            );
            assert(back4.contains_key(key) <==> state5.contains_key(key) || is_target_key(
                post,
                post.len(),
                key,
            ));
            assert(back3.contains_key(key) <==> back4.contains_key(key) || is_created_key(
                transactions,
                count,
                key,
            ));
            assert(back2.contains_key(key) <==> back3.contains_key(key) || is_side_key(
                transactions,
                Side::Recipient,
                count,
                key,
            ));
            assert(back1.contains_key(key) <==> back2.contains_key(key) || is_side_key(
                transactions,
                Side::Sender,
                count,
                key,
            ));
            assert(back0.contains_key(key) <==> back1.contains_key(key) || is_target_key(
                pre,
                pre.len(),
                key,
            ));
            if is_target_key(pre, pre.len(), key) {
                lemma_phase_targets_are_targets(inherents, true, key);
            }
            if is_target_key(post, post.len(), key) {
                lemma_phase_targets_are_targets(inherents, false, key);
            }
            if is_target_key(inherents, inherents.len(), key) {
                let i = choose|i: int|
                    0 <= i < inherents.len() && target_key(#[trigger] inherents[i]) == key;
                assert(state.contains_key(target_key(inherents[i])));
            }
            if is_side_key(transactions, Side::Sender, count, key) {
                let i = choose|i: int|
                    0 <= i < count && (#[trigger] transactions[i]).side_key(Side::Sender) == key;
                assert(state.contains_key(transactions[i].side_key(Side::Sender)));
            }
            if is_side_key(transactions, Side::Recipient, count, key) {
                let i = choose|i: int|
                    0 <= i < count && (#[trigger] transactions[i]).side_key(Side::Recipient)
                        == key;
                assert(state.contains_key(transactions[i].side_key(Side::Recipient)));
            }
            if is_created_key(transactions, count, key) {
                let i = choose|i: int|
                    0 <= i < count && (#[trigger] transactions[i]).spec_is_contract_creation()
                        && transactions[i].side_key(Side::Recipient) == key;
                assert(state.contains_key(transactions[i].side_key(Side::Recipient)));
            }
        }
        assert forall|key: Seq<u8>| state.contains_key(key) implies back0[key] == state[key] by {
            assert(account_at(back0, key) == account_at(state, key));
        }
        assert(back0 =~= state);
    }
}

/// The root after a block was applied and reverted is the root before it,
/// whatever function of the stored accounts the root is, for every block
/// of which `lemma_revert_inverts_commit` holds and that touches stored
/// accounts only.
pub proof fn lemma_root_is_restored<A: AccountInteraction, R>(
    root_hash: spec_fn(State<A>) -> R,
    state: State<A>,
    transactions: Seq<Transaction>,
    inherents: Seq<Inherent>,
    block_height: u32,
    timestamp: u64,
)
    requires
        account_laws::<A>(),
        transactions.len() <= 0x10000,
        inherents.len() <= 0x10000,
        no_account_twice_in_a_phase(transactions, inherents)
            || reverting_commutes_with_applying::<A>(),
        distinct_created_keys(transactions, transactions.len()),
        contracts_replace_plain_accounts(state, transactions, inherents, block_height, timestamp),
        touched_accounts_stored(state, transactions, inherents),
        model::commit(state, transactions, inherents, block_height, timestamp).1 is Ok,
    ensures
        root_hash(
            model::revert(
                model::commit(state, transactions, inherents, block_height, timestamp).0,
                transactions,
                inherents,
                block_height,
                timestamp,
                model::commit(state, transactions, inherents, block_height, timestamp).1->Ok_0,
            ).0,
        ) == root_hash(state),
{
    lemma_revert_inverts_commit(state, transactions, inherents, block_height, timestamp);
}

} // verus!
