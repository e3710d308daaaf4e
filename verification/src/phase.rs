//! A phase as a run of operations, each on one account, and why running
//! it backwards undoes it.

use vstd::prelude::*;
use crate::account::{
    account_laws, incoming_commute_at, inherents_commute_at, outgoing_commute_at,
    reverting_commutes_with_applying, AccountInteraction,
};
use crate::model;
use crate::model::{account_at, Direction, Side, State};
use crate::primitives::{AccountError, AccountType, Inherent, Transaction};

verus! {

/// The two account sets hold the same account at every address, where an
/// address at which nothing is stored counts as holding a plain account
/// without funds.
pub open spec fn same_accounts<A: AccountInteraction>(one: State<A>, other: State<A>) -> bool {
    forall|key: Seq<u8>| #[trigger] account_at(one, key) == account_at(other, key)
}

/// One operation of a phase: one side of a transaction, or an inherent.
pub enum Operation {
    Transaction { transaction: Transaction, side: Side },
    Inherent { inherent: Inherent },
}

impl Operation {
    /// The key of the account that the operation is made on.
    pub open spec fn key(self) -> Seq<u8> {
        match self {
            Operation::Transaction { transaction, side } => transaction.side_key(side),
            Operation::Inherent { inherent } => crate::keys::bytes_nibbles(inherent.target@),
        }
    }

    /// The kind that the account must have, where it is checked.
    pub open spec fn checked_type(self) -> Option<AccountType> {
        match self {
            Operation::Transaction { transaction, side } => transaction.side_type(side),
            Operation::Inherent { inherent } => None,
        }
    }

    /// Whether both are the same side of transactions, or both inherents.
    pub open spec fn same_side(self, other: Operation) -> bool {
        match (self, other) {
            (
                Operation::Transaction { side: one, .. },
                Operation::Transaction { side: two, .. },
            ) => one == two,
            (Operation::Inherent { .. }, Operation::Inherent { .. }) => true,
            _ => false,
        }
    }
}

/// The operation made on, or undone on, one account.
pub open spec fn apply<A: AccountInteraction>(
    account: A,
    operation: Operation,
    block_height: u32,
    timestamp: u64,
    receipt: Option<Seq<u8>>,
    direction: Direction,
) -> Result<(A, Option<Seq<u8>>), AccountError> {
    match operation {
        Operation::Transaction { transaction, side } => model::transaction_op(
            account,
            transaction,
            block_height,
            timestamp,
            receipt,
            side,
            direction,
        ),
        Operation::Inherent { inherent } => model::inherent_op(
            account,
            inherent,
            block_height,
            timestamp,
            receipt,
            direction,
        ),
    }
}

/// The operation on the account set: `model::process_transaction` for one
/// side of a transaction, `model::process_inherent` for an inherent.
pub open spec fn step<A: AccountInteraction>(
    state: State<A>,
    operation: Operation,
    block_height: u32,
    timestamp: u64,
    receipt: Option<Seq<u8>>,
    direction: Direction,
) -> (State<A>, Result<Option<Seq<u8>>, AccountError>) {
    match operation {
        Operation::Transaction { transaction, side } => model::process_transaction(
            state,
            transaction.side_key(side),
            transaction.side_type(side),
            transaction,
            block_height,
            timestamp,
            receipt,
            side,
            direction,
        ),
        Operation::Inherent { inherent } => model::process_inherent(
            state,
            inherent,
            block_height,
            timestamp,
            receipt,
            direction,
        ),
    }
}

/// What `step` does, said for both kinds of operation at once.
pub proof fn lemma_step<A: AccountInteraction>(
    state: State<A>,
    operation: Operation,
    block_height: u32,
    timestamp: u64,
    receipt: Option<Seq<u8>>,
    direction: Direction,
)
    ensures
        ({
            let account = account_at(state, operation.key());
            let made = apply(account, operation, block_height, timestamp, receipt, direction);
            let stepped = step(state, operation, block_height, timestamp, receipt, direction);
            if operation.checked_type() is Some && account.spec_account_type()
                != operation.checked_type()->Some_0 {
                stepped.0 == state && stepped.1 is Err
            } else if made is Ok {
                &&& stepped.0 == state.insert(operation.key(), made->Ok_0.0)
                &&& stepped.1 == Ok::<Option<Seq<u8>>, AccountError>(made->Ok_0.1)
                &&& direction == Direction::Revert ==> made->Ok_0.1 is None
            } else {
                stepped.0 == state && stepped.1 is Err
            }
        }),
{
}

/// The first `count` operations, in order, each with the receipt stored
/// under its position, up to the first that fails.
pub open spec fn run<A: AccountInteraction>(
    state: State<A>,
    operations: Seq<Operation>,
    block_height: u32,
    timestamp: u64,
    receipts: Map<u16, Seq<u8>>,
    direction: Direction,
    count: nat,
) -> (State<A>, Result<(), AccountError>)
    decreases count,
{
    if count == 0 {
        (state, Ok(()))
    } else {
        let (before, done) = run(
            state,
            operations,
            block_height,
            timestamp,
            receipts,
            direction,
            (count - 1) as nat,
        );
        if done is Err {
            (before, done)
        } else {
            let (after, returned) = step(
                before,
                operations[count - 1],
                block_height,
                timestamp,
                model::receipt_at(receipts, count - 1),
                direction,
            );
            match returned {
                Ok(_) => (after, Ok(())),
                Err(error) => (after, Err(error)),
            }
        }
    }
}

/// Whether `key` is the key of one of the first `count` operations.
pub open spec fn is_touched(operations: Seq<Operation>, count: nat, key: Seq<u8>) -> bool {
    exists|i: int| 0 <= i < count && (#[trigger] operations[i]).key() == key
}

/// A run touches the accounts of its operations only, takes no account
/// away and, where it succeeds, stores an account for each operation.
pub proof fn lemma_run_frame<A: AccountInteraction>(
    state: State<A>,
    operations: Seq<Operation>,
    block_height: u32,
    timestamp: u64,
    receipts: Map<u16, Seq<u8>>,
    direction: Direction,
    count: nat,
    key: Seq<u8>,
)
    requires
        count <= operations.len(),
    ensures
        ({
            let (after, done) = run(
                state,
                operations,
                block_height,
                timestamp,
                receipts,
                direction,
                count,
            );
            &&& state.contains_key(key) ==> after.contains_key(key)
            &&& after.contains_key(key) ==> state.contains_key(key) || is_touched(
                operations,
                count,
                key,
            )
            &&& done is Ok && is_touched(operations, count, key) ==> after.contains_key(key)
            &&& !is_touched(operations, count, key) ==> account_at(after, key) == account_at(
                state,
                key,
            )
        }),
    decreases count,
{
    if count > 0 {
        let last = (count - 1) as nat;
        lemma_run_frame(
            state,
            operations,
            block_height,
            timestamp,
            receipts,
            direction,
            last,
            key,
        );
        let before = run(state, operations, block_height, timestamp, receipts, direction, last);
        lemma_step(
            before.0,
            operations[count - 1],
            block_height,
            timestamp,
            model::receipt_at(receipts, count - 1),
            direction,
        );
        if operations[count - 1].key() == key {
            assert(is_touched(operations, count, key));
        }
        if is_touched(operations, last, key) {
            let i = choose|i: int| 0 <= i < last && (#[trigger] operations[i]).key() == key;
            assert(0 <= i < count && operations[i].key() == key);
        }
        if is_touched(operations, count, key) && operations[count - 1].key() != key {
            let i = choose|i: int| 0 <= i < count && (#[trigger] operations[i]).key() == key;
            assert(0 <= i < last && operations[i].key() == key);
        }
    }
}

/// An operation does the same to account sets that hold the same
/// accounts.
pub proof fn lemma_step_respects_same_accounts<A: AccountInteraction>(
    one: State<A>,
    other: State<A>,
    operation: Operation,
    block_height: u32,
    timestamp: u64,
    receipt: Option<Seq<u8>>,
    direction: Direction,
)
    requires
        same_accounts(one, other),
    ensures
        step(one, operation, block_height, timestamp, receipt, direction).1 == step(
            other,
            operation,
            block_height,
            timestamp,
            receipt,
            direction,
        ).1,
        same_accounts(
            step(one, operation, block_height, timestamp, receipt, direction).0,
            step(other, operation, block_height, timestamp, receipt, direction).0,
        ),
{
    let key = operation.key();
    assert(account_at(one, key) == account_at(other, key));
    lemma_step(one, operation, block_height, timestamp, receipt, direction);
    lemma_step(other, operation, block_height, timestamp, receipt, direction);
    let first = step(one, operation, block_height, timestamp, receipt, direction).0;
    let second = step(other, operation, block_height, timestamp, receipt, direction).0;
    assert forall|q: Seq<u8>| #[trigger] account_at(first, q) == account_at(second, q) by {
        assert(account_at(one, q) == account_at(other, q));
    }
}

/// A run does the same to account sets that hold the same accounts.
pub proof fn lemma_run_respects_same_accounts<A: AccountInteraction>(
    one: State<A>,
    other: State<A>,
    operations: Seq<Operation>,
    block_height: u32,
    timestamp: u64,
    receipts: Map<u16, Seq<u8>>,
    direction: Direction,
    count: nat,
)
    requires
        same_accounts(one, other),
    ensures
        run(one, operations, block_height, timestamp, receipts, direction, count).1 == run(
            other,
            operations,
            block_height,
            timestamp,
            receipts,
            direction,
            count,
        ).1,
        same_accounts(
            run(one, operations, block_height, timestamp, receipts, direction, count).0,
            run(other, operations, block_height, timestamp, receipts, direction, count).0,
        ),
    decreases count,
{
    if count > 0 {
        let last = (count - 1) as nat;
        lemma_run_respects_same_accounts(
            one,
            other,
            operations,
            block_height,
            timestamp,
            receipts,
            direction,
            last,
        );
        lemma_step_respects_same_accounts(
            run(one, operations, block_height, timestamp, receipts, direction, last).0,
            run(other, operations, block_height, timestamp, receipts, direction, last).0,
            operations[count - 1],
            block_height,
            timestamp,
            model::receipt_at(receipts, count - 1),
            direction,
        );
    }
}

/// Two operations can be made in either order: they are made on
/// different accounts, or they are of the same side and accounts of this
/// kind let reversals commute with applications.
pub open spec fn may_swap<A: AccountInteraction>(reverted: Operation, applied: Operation) -> bool {
    reverted.key() == applied.key() ==> reverted.same_side(applied)
        && reverting_commutes_with_applying::<A>()
}

/// Where an account set takes both the reversal of one operation and the
/// application of another, the two can be made in either order: each is
/// taken after the other, the application returns the same receipt, and
/// both ways end in the same accounts.
pub proof fn lemma_slide_one<A: AccountInteraction>(
    state: State<A>,
    reverted: Operation,
    receipt: Option<Seq<u8>>,
    applied: Operation,
    block_height: u32,
    timestamp: u64,
)
    requires
        account_laws::<A>(),
        may_swap::<A>(reverted, applied),
        step(state, reverted, block_height, timestamp, receipt, Direction::Revert).1 is Ok,
        step(state, applied, block_height, timestamp, None, Direction::Commit).1 is Ok,
    ensures
        ({
            let back = step(state, reverted, block_height, timestamp, receipt, Direction::Revert).0;
            let forth = step(state, applied, block_height, timestamp, None, Direction::Commit);
            let back_forth = step(back, applied, block_height, timestamp, None, Direction::Commit);
            let forth_back = step(
                forth.0,
                reverted,
                block_height,
                timestamp,
                receipt,
                Direction::Revert,
            );
            &&& back_forth.1 == forth.1
            &&& forth_back.1 is Ok
            &&& same_accounts(back_forth.0, forth_back.0)
        }),
{
    let back = step(state, reverted, block_height, timestamp, receipt, Direction::Revert).0;
    let forth = step(state, applied, block_height, timestamp, None, Direction::Commit).0;
    lemma_step(state, reverted, block_height, timestamp, receipt, Direction::Revert);
    lemma_step(state, applied, block_height, timestamp, None, Direction::Commit);
    lemma_step(back, applied, block_height, timestamp, None, Direction::Commit);
    lemma_step(forth, reverted, block_height, timestamp, receipt, Direction::Revert);
    let back_forth = step(back, applied, block_height, timestamp, None, Direction::Commit).0;
    let forth_back = step(forth, reverted, block_height, timestamp, receipt, Direction::Revert).0;
    if reverted.key() == applied.key() {
        let account = account_at(state, reverted.key());
        match (reverted, applied) {
            (
                Operation::Transaction { transaction: undone, side },
                Operation::Transaction { transaction: made, side: same },
            ) => {
                match side {
                    Side::Sender => {
                        assert(outgoing_commute_at(
                            account,
                            undone,
                            receipt,
                            made,
                            block_height,
                            timestamp,
                        ));
                    },
                    Side::Recipient => {
                        assert(incoming_commute_at(
                            account,
                            undone,
                            receipt,
                            made,
                            block_height,
                            timestamp,
                        ));
                    },
                }
            },
            (Operation::Inherent { inherent: undone }, Operation::Inherent { inherent: made }) => {
                assert(inherents_commute_at(
                    account,
                    undone,
                    receipt,
                    made,
                    block_height,
                    timestamp,
                ));
            },
            _ => {},
        }
    }
    assert forall|q: Seq<u8>| #[trigger] account_at(back_forth, q) == account_at(
        forth_back,
        q,
    ) by {}
}

/// Where an account set takes the reversal of the first `count`
/// operations and the application of another, the application is taken
/// after the reversals with the same receipt, the reversals are taken
/// after the application, and both ways end in the same accounts.
pub proof fn lemma_slide_many<A: AccountInteraction>(
    state: State<A>,
    operations: Seq<Operation>,
    block_height: u32,
    timestamp: u64,
    receipts: Map<u16, Seq<u8>>,
    applied: Operation,
    count: nat,
)
    requires
        account_laws::<A>(),
        count <= operations.len(),
        forall|i: int| 0 <= i < count ==> may_swap::<A>(#[trigger] operations[i], applied),
        run(
            state,
            operations,
            block_height,
            timestamp,
            receipts,
            Direction::Revert,
            count,
        ).1 is Ok,
        step(state, applied, block_height, timestamp, None, Direction::Commit).1 is Ok,
    ensures
        ({
            let back = run(
                state,
                operations,
                block_height,
                timestamp,
                receipts,
                Direction::Revert,
                count,
            ).0;
            let forth = step(state, applied, block_height, timestamp, None, Direction::Commit);
            let back_forth = step(back, applied, block_height, timestamp, None, Direction::Commit);
            let forth_back = run(
                forth.0,
                operations,
                block_height,
                timestamp,
                receipts,
                Direction::Revert,
                count,
            );
            &&& back_forth.1 == forth.1
            &&& forth_back.1 is Ok
            &&& same_accounts(forth_back.0, back_forth.0)
        }),
    decreases count,
{
    let forth = step(state, applied, block_height, timestamp, None, Direction::Commit).0;
    if count == 0 {
        assert forall|q: Seq<u8>| #[trigger] account_at(forth, q) == account_at(forth, q) by {}
    } else {
        let last = (count - 1) as nat;
        let reverted = operations[count - 1];
        let receipt = model::receipt_at(receipts, count - 1);
        lemma_slide_many(
            state,
            operations,
            block_height,
            timestamp,
            receipts,
            applied,
            last,
        );
        // The reversals before the last one, on the accounts as they are
        // and on the accounts after the application.
        let earlier = run(
            state,
            operations,
            block_height,
            timestamp,
            receipts,
            Direction::Revert,
            last,
        ).0;
        let earlier_forth = step(
            earlier,
            applied,
            block_height,
            timestamp,
            None,
            Direction::Commit,
        ).0;
        let forth_earlier = run(
            forth,
            operations,
            block_height,
            timestamp,
            receipts,
            Direction::Revert,
            last,
        ).0;
        assert(may_swap::<A>(operations[count - 1], applied));
        lemma_slide_one(earlier, reverted, receipt, applied, block_height, timestamp);
        lemma_step_respects_same_accounts(
            forth_earlier,
            earlier_forth,
            reverted,
            block_height,
            timestamp,
            receipt,
            Direction::Revert,
        );
        let back = run(
            state,
            operations,
            block_height,
            timestamp,
            receipts,
            Direction::Revert,
            count,
        ).0;
        let back_forth = step(back, applied, block_height, timestamp, None, Direction::Commit).0;
        let forth_back = run(
            forth,
            operations,
            block_height,
            timestamp,
            receipts,
            Direction::Revert,
            count,
        ).0;
        let middle = step(
            earlier_forth,
            reverted,
            block_height,
            timestamp,
            receipt,
            Direction::Revert,
        ).0;
        assert forall|q: Seq<u8>| #[trigger] account_at(forth_back, q) == account_at(
            back_forth,
            q,
        ) by {
            assert(account_at(forth_back, q) == account_at(middle, q));
            assert(account_at(back_forth, q) == account_at(middle, q));
        }
    }
}

/// What applying the operation at `index` returns, when the operations
/// before it have been applied.
pub open spec fn applied_data<A: AccountInteraction>(
    state: State<A>,
    operations: Seq<Operation>,
    block_height: u32,
    timestamp: u64,
    index: int,
) -> Result<Option<Seq<u8>>, AccountError> {
    step(
        run(
            state,
            operations,
            block_height,
            timestamp,
            Map::<u16, Seq<u8>>::empty(),
            Direction::Commit,
            index as nat,
        ).0,
        operations[index],
        block_height,
        timestamp,
        None,
        Direction::Commit,
    ).1
}

/// Any two of the first `count` operations can be made in either order.
pub open spec fn may_swap_all<A: AccountInteraction>(operations: Seq<Operation>, count: nat) -> bool {
    forall|i: int, j: int|
        0 <= i < j < count ==> may_swap::<A>(#[trigger] operations[i], #[trigger] operations[j])
}

/// Running a phase backwards, front to back, undoes it: where the first
/// `count` operations were applied, and the receipts hold under each
/// position what the operation at that position returned, their
/// reversals succeed on the accounts that the application gave and give
/// back the accounts that it started from.
pub proof fn lemma_run_inverse<A: AccountInteraction>(
    state: State<A>,
    operations: Seq<Operation>,
    block_height: u32,
    timestamp: u64,
    receipts: Map<u16, Seq<u8>>,
    count: nat,
)
    requires
        account_laws::<A>(),
        count <= operations.len(),
        may_swap_all::<A>(operations, count),
        run(
            state,
            operations,
            block_height,
            timestamp,
            Map::<u16, Seq<u8>>::empty(),
            Direction::Commit,
            count,
        ).1 is Ok,
        forall|i: int|
            0 <= i < count ==> Ok::<Option<Seq<u8>>, AccountError>(
                model::receipt_at(receipts, i),
            ) == #[trigger] applied_data(state, operations, block_height, timestamp, i),
    ensures
        ({
            let applied = run(
                state,
                operations,
                block_height,
                timestamp,
                Map::<u16, Seq<u8>>::empty(),
                Direction::Commit,
                count,
            ).0;
            let reverted = run(
                applied,
                operations,
                block_height,
                timestamp,
                receipts,
                Direction::Revert,
                count,
            );
            &&& reverted.1 is Ok
            &&& same_accounts(reverted.0, state)
        }),
    decreases count,
{
    let none = Map::<u16, Seq<u8>>::empty();
    if count == 0 {
        assert forall|q: Seq<u8>| #[trigger] account_at(state, q) == account_at(state, q) by {}
    } else {
        let last = (count - 1) as nat;
        let operation = operations[count - 1];
        let key = operation.key();
        let before = run(
            state,
            operations,
            block_height,
            timestamp,
            none,
            Direction::Commit,
            last,
        ).0;
        let applied = run(
            state,
            operations,
            block_height,
            timestamp,
            none,
            Direction::Commit,
            count,
        ).0;
        assert(model::receipt_at(none, count - 1) == None::<Seq<u8>>);
        assert(applied == step(before, operation, block_height, timestamp, None, Direction::Commit).0);
        let returned = applied_data(state, operations, block_height, timestamp, count - 1);
        assert(returned is Ok);
        lemma_run_inverse(state, operations, block_height, timestamp, receipts, last);
        // The accounts before the last operation, after the reversal of
        // the operations before it: the accounts at the start.
        let start = run(
            before,
            operations,
            block_height,
            timestamp,
            receipts,
            Direction::Revert,
            last,
        ).0;
        assert forall|i: int| 0 <= i < last implies may_swap::<A>(
            #[trigger] operations[i],
            operation,
        ) by {
            assert(may_swap::<A>(operations[i], operations[count - 1]));
        }
        lemma_slide_many(
            before,
            operations,
            block_height,
            timestamp,
            receipts,
            operation,
            last,
        );
        let start_forth = step(start, operation, block_height, timestamp, None, Direction::Commit);
        let forth_start = run(
            applied,
            operations,
            block_height,
            timestamp,
            receipts,
            Direction::Revert,
            last,
        ).0;
        assert(start_forth.1 == returned);
        // The last operation is undone on what it made of the account
        // at the start.
        let account = account_at(start, key);
        assert(account == account_at(state, key));
        lemma_step(start, operation, block_height, timestamp, None, Direction::Commit);
        let made = apply(account, operation, block_height, timestamp, None, Direction::Commit);
        assert(made is Ok);
        let receipt = model::receipt_at(receipts, count - 1);
        assert(Ok::<Option<Seq<u8>>, AccountError>(receipt) == returned);
        assert(receipt == made->Ok_0.1);
        let undone = apply(
            made->Ok_0.0,
            operation,
            block_height,
            timestamp,
            receipt,
            Direction::Revert,
        );
        assert(undone == Ok::<(A, Option<Seq<u8>>), AccountError>((account, None)));
        assert(operation.checked_type() is Some ==> made->Ok_0.0.spec_account_type()
            == account.spec_account_type());
        lemma_step(start_forth.0, operation, block_height, timestamp, receipt, Direction::Revert);
        lemma_step_respects_same_accounts(
            forth_start,
            start_forth.0,
            operation,
            block_height,
            timestamp,
            receipt,
            Direction::Revert,
        );
        let reverted = run(
            applied,
            operations,
            block_height,
            timestamp,
            receipts,
            Direction::Revert,
            count,
        );
        let ideal = step(
            start_forth.0,
            operation,
            block_height,
            timestamp,
            receipt,
            Direction::Revert,
        ).0;
        assert forall|q: Seq<u8>| #[trigger] account_at(reverted.0, q) == account_at(state, q) by {
            assert(account_at(reverted.0, q) == account_at(ideal, q));
            assert(account_at(start, q) == account_at(state, q));
        }
    }
}

} // verus!
