//! What the engine asks of an account: applying and reverting the two
//! sides of a transaction and an inherent, as exact inverses.

use vstd::prelude::*;
use crate::primitives::{AccountError, AccountType, Inherent, Transaction};

verus! {

/// The bytes of an optional receipt.
pub open spec fn receipt_view(receipt: Option<Vec<u8>>) -> Option<Seq<u8>> {
    match receipt {
        Some(data) => Some(data@),
        None => None,
    }
}

/// The bytes of an optional borrowed receipt.
pub open spec fn receipt_ref_view(receipt: Option<&Vec<u8>>) -> Option<Seq<u8>> {
    match receipt {
        Some(data) => Some(data@),
        None => None,
    }
}

/// The interactions every kind of account offers.
///
/// Each executable method is tied to a spec function of the same name with
/// `spec_` in front, which says what the method computes; a kind of
/// account that does not say what its methods compute leaves these
/// functions as they are, and nothing is known of them. A method that
/// fails leaves the account as it was. What the engine's laws ask beyond
/// that is stated by `account_laws`.
pub trait AccountInteraction: Sized {
    open spec fn spec_account_type(&self) -> AccountType {
        arbitrary()
    }

    open spec fn spec_balance(&self) -> u64 {
        arbitrary()
    }

    open spec fn spec_new_basic(balance: u64) -> Self {
        arbitrary()
    }

    open spec fn spec_new_contract(
        account_type: AccountType,
        balance: u64,
        transaction: Transaction,
        block_height: u32,
        timestamp: u64,
    ) -> Result<Self, AccountError> {
        arbitrary()
    }

    open spec fn spec_commit_incoming_transaction(
        self,
        transaction: Transaction,
        block_height: u32,
        timestamp: u64,
    ) -> Result<(Self, Option<Seq<u8>>), AccountError> {
        arbitrary()
    }

    open spec fn spec_revert_incoming_transaction(
        self,
        transaction: Transaction,
        block_height: u32,
        timestamp: u64,
        receipt: Option<Seq<u8>>,
    ) -> Result<Self, AccountError> {
        arbitrary()
    }

    open spec fn spec_commit_outgoing_transaction(
        self,
        transaction: Transaction,
        block_height: u32,
        timestamp: u64,
    ) -> Result<(Self, Option<Seq<u8>>), AccountError> {
        arbitrary()
    }

    open spec fn spec_revert_outgoing_transaction(
        self,
        transaction: Transaction,
        block_height: u32,
        timestamp: u64,
        receipt: Option<Seq<u8>>,
    ) -> Result<Self, AccountError> {
        arbitrary()
    }

    open spec fn spec_commit_inherent(
        self,
        inherent: Inherent,
        block_height: u32,
        timestamp: u64,
    ) -> Result<(Self, Option<Seq<u8>>), AccountError> {
        arbitrary()
    }

    open spec fn spec_revert_inherent(
        self,
        inherent: Inherent,
        block_height: u32,
        timestamp: u64,
        receipt: Option<Seq<u8>>,
    ) -> Result<Self, AccountError> {
        arbitrary()
    }

    /// The kind of the account.
    fn account_type(&self) -> (account_type: AccountType)
        ensures
            account_type == self.spec_account_type(),
    ;

    /// The balance of the account.
    fn balance(&self) -> (balance: u64)
        ensures
            balance == self.spec_balance(),
    ;

    /// A copy of the account.
    fn duplicate(&self) -> (copy: Self)
        ensures
            copy == *self,
    ;

    /// A plain account with the given balance.
    fn new_basic(balance: u64) -> (account: Self)
        ensures
            account == Self::spec_new_basic(balance),
    ;

    /// The contract that `transaction` creates, seeded with `balance`.
    fn new_contract(
        account_type: AccountType,
        balance: u64,
        transaction: &Transaction,
        block_height: u32,
        timestamp: u64,
    ) -> (created: Result<Self, AccountError>)
        ensures
            created == Self::spec_new_contract(
                account_type,
                balance,
                *transaction,
                block_height,
                timestamp,
            ),
    ;

    /// Applies the recipient side of `transaction`.
    fn commit_incoming_transaction(
        &mut self,
        transaction: &Transaction,
        block_height: u32,
        timestamp: u64,
    ) -> (receipt: Result<Option<Vec<u8>>, AccountError>)
        ensures
            match old(self).spec_commit_incoming_transaction(*transaction, block_height, timestamp) {
                Ok((account, data)) => *final(self) == account && receipt is Ok && receipt_view(
                    receipt->Ok_0,
                ) == data,
                Err(error) => *final(self) == *old(self) && receipt == Err::<
                    Option<Vec<u8>>,
                    AccountError,
                >(error),
            },
    ;

    /// Undoes the recipient side of `transaction`.
    fn revert_incoming_transaction(
        &mut self,
        transaction: &Transaction,
        block_height: u32,
        timestamp: u64,
        receipt: Option<&Vec<u8>>,
    ) -> (reverted: Result<(), AccountError>)
        ensures
            match old(self).spec_revert_incoming_transaction(
                *transaction,
                block_height,
                timestamp,
                receipt_ref_view(receipt),
            ) {
                Ok(account) => *final(self) == account && reverted is Ok,
                Err(error) => *final(self) == *old(self) && reverted == Err::<(), AccountError>(
                    error,
                ),
            },
    ;

    /// Applies the sender side of `transaction`.
    fn commit_outgoing_transaction(
        &mut self,
        transaction: &Transaction,
        block_height: u32,
        timestamp: u64,
    ) -> (receipt: Result<Option<Vec<u8>>, AccountError>)
        ensures
            match old(self).spec_commit_outgoing_transaction(*transaction, block_height, timestamp) {
                Ok((account, data)) => *final(self) == account && receipt is Ok && receipt_view(
                    receipt->Ok_0,
                ) == data,
                Err(error) => *final(self) == *old(self) && receipt == Err::<
                    Option<Vec<u8>>,
                    AccountError,
                >(error),
            },
    ;

    /// Undoes the sender side of `transaction`.
    fn revert_outgoing_transaction(
        &mut self,
        transaction: &Transaction,
        block_height: u32,
        timestamp: u64,
        receipt: Option<&Vec<u8>>,
    ) -> (reverted: Result<(), AccountError>)
        ensures
            match old(self).spec_revert_outgoing_transaction(
                *transaction,
                block_height,
                timestamp,
                receipt_ref_view(receipt),
            ) {
                Ok(account) => *final(self) == account && reverted is Ok,
                Err(error) => *final(self) == *old(self) && reverted == Err::<(), AccountError>(
                    error,
                ),
            },
    ;

    /// Applies `inherent`.
    fn commit_inherent(&mut self, inherent: &Inherent, block_height: u32, timestamp: u64) -> (receipt:
        Result<Option<Vec<u8>>, AccountError>)
        ensures
            match old(self).spec_commit_inherent(*inherent, block_height, timestamp) {
                Ok((account, data)) => *final(self) == account && receipt is Ok && receipt_view(
                    receipt->Ok_0,
                ) == data,
                Err(error) => *final(self) == *old(self) && receipt == Err::<
                    Option<Vec<u8>>,
                    AccountError,
                >(error),
            },
    ;

    /// Undoes `inherent`.
    fn revert_inherent(
        &mut self,
        inherent: &Inherent,
        block_height: u32,
        timestamp: u64,
        receipt: Option<&Vec<u8>>,
    ) -> (reverted: Result<(), AccountError>)
        ensures
            match old(self).spec_revert_inherent(
                *inherent,
                block_height,
                timestamp,
                receipt_ref_view(receipt),
            ) {
                Ok(account) => *final(self) == account && reverted is Ok,
                Err(error) => *final(self) == *old(self) && reverted == Err::<(), AccountError>(
                    error,
                ),
            },
    ;
}

/// Reverting the recipient side of a transaction, with the receipt that
/// applying it returned, gives back the account it was applied to.
pub open spec fn incoming_is_inverted<A: AccountInteraction>() -> bool {
    forall|account: A, transaction: Transaction, block_height: u32, timestamp: u64|
        #[trigger] account.spec_commit_incoming_transaction(
            transaction,
            block_height,
            timestamp,
        ) matches Ok((applied, data)) ==> applied.spec_revert_incoming_transaction(
            transaction,
            block_height,
            timestamp,
            data,
        ) == Ok::<A, AccountError>(account) && applied.spec_account_type()
            == account.spec_account_type()
}

/// Reverting the sender side of a transaction, with the receipt that
/// applying it returned, gives back the account it was applied to.
pub open spec fn outgoing_is_inverted<A: AccountInteraction>() -> bool {
    forall|account: A, transaction: Transaction, block_height: u32, timestamp: u64|
        #[trigger] account.spec_commit_outgoing_transaction(
            transaction,
            block_height,
            timestamp,
        ) matches Ok((applied, data)) ==> applied.spec_revert_outgoing_transaction(
            transaction,
            block_height,
            timestamp,
            data,
        ) == Ok::<A, AccountError>(account) && applied.spec_account_type()
            == account.spec_account_type()
}

/// Reverting an inherent, with the receipt that applying it returned,
/// gives back the account it was applied to.
pub open spec fn inherent_is_inverted<A: AccountInteraction>() -> bool {
    forall|account: A, inherent: Inherent, block_height: u32, timestamp: u64|
        #[trigger] account.spec_commit_inherent(inherent, block_height, timestamp) matches Ok(
            (applied, data),
        ) ==> applied.spec_revert_inherent(inherent, block_height, timestamp, data) == Ok::<
            A,
            AccountError,
        >(account)
}

/// A plain account is of the basic kind and holds the balance it was made
/// with; a contract is of the kind it was asked for and holds the balance
/// it was seeded with.
pub open spec fn constructors_keep_kind_and_balance<A: AccountInteraction>() -> bool {
    &&& forall|balance: u64|
        (#[trigger] A::spec_new_basic(balance)).spec_account_type() == AccountType::Basic
            && A::spec_new_basic(balance).spec_balance() == balance
    &&& forall|
        account_type: AccountType,
        balance: u64,
        transaction: Transaction,
        block_height: u32,
        timestamp: u64,
    |
        #[trigger] A::spec_new_contract(
            account_type,
            balance,
            transaction,
            block_height,
            timestamp,
        ) matches Ok(contract) ==> contract.spec_account_type() == account_type
            && contract.spec_balance() == balance
}

/// What the engine's laws ask of a kind of account beyond what each
/// method promises: applying and reverting are exact inverses, an
/// operation on a transaction leaves the kind of the account as it is,
/// and the constructors give the kind and the balance they are asked for.
pub open spec fn account_laws<A: AccountInteraction>() -> bool {
    &&& incoming_is_inverted::<A>()
    &&& outgoing_is_inverted::<A>()
    &&& inherent_is_inverted::<A>()
    &&& constructors_keep_kind_and_balance::<A>()
}

/// Whether reverting `reverted` and applying `applied` to `account`, both
/// on the recipient side, can be made in either order.
pub open spec fn incoming_commute_at<A: AccountInteraction>(
    account: A,
    reverted: Transaction,
    receipt: Option<Seq<u8>>,
    applied: Transaction,
    block_height: u32,
    timestamp: u64,
) -> bool {
    account.spec_revert_incoming_transaction(reverted, block_height, timestamp, receipt) matches Ok(
        back,
    ) ==> account.spec_commit_incoming_transaction(applied, block_height, timestamp) matches Ok(
        (forth, data),
    ) ==> {
        let other_way = back.spec_commit_incoming_transaction(applied, block_height, timestamp);
        &&& other_way is Ok
        &&& other_way->Ok_0.1 == data
        &&& forth.spec_revert_incoming_transaction(reverted, block_height, timestamp, receipt)
            == Ok::<A, AccountError>(other_way->Ok_0.0)
        &&& back.spec_account_type() == account.spec_account_type()
    }
}

/// Whether reverting `reverted` and applying `applied` to `account`, both
/// on the sender side, can be made in either order.
pub open spec fn outgoing_commute_at<A: AccountInteraction>(
    account: A,
    reverted: Transaction,
    receipt: Option<Seq<u8>>,
    applied: Transaction,
    block_height: u32,
    timestamp: u64,
) -> bool {
    account.spec_revert_outgoing_transaction(reverted, block_height, timestamp, receipt) matches Ok(
        back,
    ) ==> account.spec_commit_outgoing_transaction(applied, block_height, timestamp) matches Ok(
        (forth, data),
    ) ==> {
        let other_way = back.spec_commit_outgoing_transaction(applied, block_height, timestamp);
        &&& other_way is Ok
        &&& other_way->Ok_0.1 == data
        &&& forth.spec_revert_outgoing_transaction(reverted, block_height, timestamp, receipt)
            == Ok::<A, AccountError>(other_way->Ok_0.0)
        &&& back.spec_account_type() == account.spec_account_type()
    }
}

/// Whether reverting `reverted` and applying `applied` to `account`, both
/// inherents, can be made in either order.
pub open spec fn inherents_commute_at<A: AccountInteraction>(
    account: A,
    reverted: Inherent,
    receipt: Option<Seq<u8>>,
    applied: Inherent,
    block_height: u32,
    timestamp: u64,
) -> bool {
    account.spec_revert_inherent(reverted, block_height, timestamp, receipt) matches Ok(
        back,
    ) ==> account.spec_commit_inherent(applied, block_height, timestamp) matches Ok(
        (forth, data),
    ) ==> {
        let other_way = back.spec_commit_inherent(applied, block_height, timestamp);
        &&& other_way is Ok
        &&& other_way->Ok_0.1 == data
        &&& forth.spec_revert_inherent(reverted, block_height, timestamp, receipt) == Ok::<
            A,
            AccountError,
        >(other_way->Ok_0.0)
    }
}

/// Reverting one operation and applying another of the same side can be
/// made in either order: where an account takes both, the reverted
/// account takes the other operation with the same receipt, the account
/// that the other operation was applied to takes the reversal, and both
/// ways end in the same account. The reversal of one side of a
/// transaction leaves the kind of the account as it is.
///
/// Accounts that only add to and take from a balance are of this kind;
/// accounts whose receipts hold what an operation overwrote are not.
pub open spec fn reverting_commutes_with_applying<A: AccountInteraction>() -> bool {
    &&& forall|
        account: A,
        reverted: Transaction,
        receipt: Option<Seq<u8>>,
        applied: Transaction,
        block_height: u32,
        timestamp: u64,
    | #[trigger]
        incoming_commute_at(account, reverted, receipt, applied, block_height, timestamp)
    &&& forall|
        account: A,
        reverted: Transaction,
        receipt: Option<Seq<u8>>,
        applied: Transaction,
        block_height: u32,
        timestamp: u64,
    | #[trigger]
        outgoing_commute_at(account, reverted, receipt, applied, block_height, timestamp)
    &&& forall|
        account: A,
        reverted: Inherent,
        receipt: Option<Seq<u8>>,
        applied: Inherent,
        block_height: u32,
        timestamp: u64,
    | #[trigger]
        inherents_commute_at(account, reverted, receipt, applied, block_height, timestamp)
}

} // verus!
