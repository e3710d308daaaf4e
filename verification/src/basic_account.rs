//! The plain account: a balance and nothing else.

use vstd::prelude::*;
use nimiq_primitives::coin::Coin;
use crate::account::{
    account_laws, incoming_commute_at, inherents_commute_at, outgoing_commute_at,
    reverting_commutes_with_applying, AccountInteraction,
};
use crate::primitives::{AccountError, AccountType, Inherent, Transaction, MAX_COIN};

verus! {

/// `Coin::checked_add`, on the two amounts as `Coin`s: their sum, or `None`
/// where it passes the largest amount. `Coin::from_u64_unchecked` takes
/// every amount up to the largest.
#[verifier::external_body]
fn coin_checked_add(a: u64, b: u64) -> (sum: Option<u64>)
    requires
        a <= MAX_COIN,
        b <= MAX_COIN,
    ensures
        sum == if a + b <= MAX_COIN {
            Some((a + b) as u64)
        } else {
            None
        },
{
    Coin::from_u64_unchecked(a).checked_add(Coin::from_u64_unchecked(b)).map(u64::from)
}

/// `Coin::checked_sub`, on the two amounts as `Coin`s: their difference,
/// or `None` where the second is the larger.
#[verifier::external_body]
fn coin_checked_sub(a: u64, b: u64) -> (difference: Option<u64>)
    requires
        a <= MAX_COIN,
        b <= MAX_COIN,
    ensures
        difference == if b <= a {
            Some((a - b) as u64)
        } else {
            None
        },
{
    Coin::from_u64_unchecked(a).checked_sub(Coin::from_u64_unchecked(b)).map(u64::from)
}

/// What adding `amount` to `balance` gives.
pub open spec fn spec_credit(balance: u64, amount: int) -> Result<u64, AccountError> {
    if balance > MAX_COIN || amount > MAX_COIN || balance + amount > MAX_COIN {
        Err(AccountError::InvalidCoinValue)
    } else {
        Ok((balance + amount) as u64)
    }
}

/// What taking `amount` from `balance` gives.
pub open spec fn spec_debit(balance: u64, amount: int) -> Result<u64, AccountError> {
    if balance > MAX_COIN || amount > MAX_COIN {
        Err(AccountError::InvalidCoinValue)
    } else if balance < amount {
        Err(AccountError::InsufficientFunds { needed: amount as u64, balance })
    } else {
        Ok((balance - amount) as u64)
    }
}

/// What a transaction takes from its sender: its value and its fee.
pub open spec fn spec_total(transaction: Transaction) -> int {
    transaction.value + transaction.fee
}

/// Adds `amount` to `balance`.
fn credit(balance: u64, amount: u64) -> (r: Result<u64, AccountError>)
    ensures
        r == spec_credit(balance, amount as int),
{
    if balance > MAX_COIN || amount > MAX_COIN {
        return Err(AccountError::InvalidCoinValue);
    }
    match coin_checked_add(balance, amount) {
        Some(sum) => Ok(sum),
        None => Err(AccountError::InvalidCoinValue),
    }
}

/// Takes `amount` from `balance`.
fn debit(balance: u64, amount: u64) -> (r: Result<u64, AccountError>)
    ensures
        r == spec_debit(balance, amount as int),
{
    if balance > MAX_COIN || amount > MAX_COIN {
        return Err(AccountError::InvalidCoinValue);
    }
    match coin_checked_sub(balance, amount) {
        Some(difference) => Ok(difference),
        None => Err(AccountError::InsufficientFunds { needed: amount, balance }),
    }
}

/// The value and the fee of a transaction together, where they fit an
/// amount.
fn total(transaction: &Transaction) -> (r: Option<u64>)
    ensures
        r == if spec_total(*transaction) <= MAX_COIN {
            Some(spec_total(*transaction) as u64)
        } else {
            None
        },
{
    if transaction.value > MAX_COIN || transaction.fee > MAX_COIN {
        return None;
    }
    coin_checked_add(transaction.value, transaction.fee)
}

/// A plain account. Money comes in and goes out; no receipt is needed to
/// undo either.
#[derive(Clone, Copy, Debug, PartialEq, Eq, Structural)]
pub struct BasicAccount {
    pub balance: u64,
}

impl AccountInteraction for BasicAccount {
    open spec fn spec_account_type(&self) -> AccountType {
        AccountType::Basic
    }

    open spec fn spec_balance(&self) -> u64 {
        self.balance
    }

    open spec fn spec_new_basic(balance: u64) -> Self {
        BasicAccount { balance }
    }

    open spec fn spec_new_contract(
        account_type: AccountType,
        balance: u64,
        transaction: Transaction,
        block_height: u32,
        timestamp: u64,
    ) -> Result<Self, AccountError> {
        Err(AccountError::InvalidForRecipient)
    }

    open spec fn spec_commit_incoming_transaction(
        self,
        transaction: Transaction,
        block_height: u32,
        timestamp: u64,
    ) -> Result<(Self, Option<Seq<u8>>), AccountError> {
        match spec_credit(self.balance, transaction.value as int) {
            Ok(balance) => Ok((BasicAccount { balance }, None)),
            Err(error) => Err(error),
        }
    }

    open spec fn spec_revert_incoming_transaction(
        self,
        transaction: Transaction,
        block_height: u32,
        timestamp: u64,
        receipt: Option<Seq<u8>>,
    ) -> Result<Self, AccountError> {
        if receipt is Some {
            Err(AccountError::InvalidReceipt)
        } else {
            match spec_debit(self.balance, transaction.value as int) {
                Ok(balance) => Ok(BasicAccount { balance }),
                Err(error) => Err(error),
            }
        }
    }

    open spec fn spec_commit_outgoing_transaction(
        self,
        transaction: Transaction,
        block_height: u32,
        timestamp: u64,
    ) -> Result<(Self, Option<Seq<u8>>), AccountError> {
        match spec_debit(self.balance, spec_total(transaction)) {
            Ok(balance) => Ok((BasicAccount { balance }, None)),
            Err(error) => Err(error),
        }
    }

    open spec fn spec_revert_outgoing_transaction(
        self,
        transaction: Transaction,
        block_height: u32,
        timestamp: u64,
        receipt: Option<Seq<u8>>,
    ) -> Result<Self, AccountError> {
        if receipt is Some {
            Err(AccountError::InvalidReceipt)
        } else {
            match spec_credit(self.balance, spec_total(transaction)) {
                Ok(balance) => Ok(BasicAccount { balance }),
                Err(error) => Err(error),
            }
        }
    }

    open spec fn spec_commit_inherent(
        self,
        inherent: Inherent,
        block_height: u32,
        timestamp: u64,
    ) -> Result<(Self, Option<Seq<u8>>), AccountError> {
        match spec_credit(self.balance, inherent.value as int) {
            Ok(balance) => Ok((BasicAccount { balance }, None)),
            Err(error) => Err(error),
        }
    }

    open spec fn spec_revert_inherent(
        self,
        inherent: Inherent,
        block_height: u32,
        timestamp: u64,
        receipt: Option<Seq<u8>>,
    ) -> Result<Self, AccountError> {
        if receipt is Some {
            Err(AccountError::InvalidReceipt)
        } else {
            match spec_debit(self.balance, inherent.value as int) {
                Ok(balance) => Ok(BasicAccount { balance }),
                Err(error) => Err(error),
            }
        }
    }

    fn account_type(&self) -> (account_type: AccountType) {
        AccountType::Basic
    }

    fn balance(&self) -> (balance: u64) {
        self.balance
    }

    fn duplicate(&self) -> (copy: Self) {
        BasicAccount { balance: self.balance }
    }

    fn new_basic(balance: u64) -> (account: Self) {
        BasicAccount { balance }
    }

    fn new_contract(
        account_type: AccountType,
        balance: u64,
        transaction: &Transaction,
        block_height: u32,
        timestamp: u64,
    ) -> (created: Result<Self, AccountError>) {
        Err(AccountError::InvalidForRecipient)
    }

    fn commit_incoming_transaction(
        &mut self,
        transaction: &Transaction,
        block_height: u32,
        timestamp: u64,
    ) -> (receipt: Result<Option<Vec<u8>>, AccountError>) {
        match credit(self.balance, transaction.value) {
            Ok(balance) => {
                self.balance = balance;
                Ok(None)
            },
            Err(error) => Err(error),
        }
    }

    fn revert_incoming_transaction(
        &mut self,
        transaction: &Transaction,
        block_height: u32,
        timestamp: u64,
        receipt: Option<&Vec<u8>>,
    ) -> (reverted: Result<(), AccountError>) {
        if receipt.is_some() {
            return Err(AccountError::InvalidReceipt);
        }
        match debit(self.balance, transaction.value) {
            Ok(balance) => {
                self.balance = balance;
                Ok(())
            },
            Err(error) => Err(error),
        }
    }

    fn commit_outgoing_transaction(
        &mut self,
        transaction: &Transaction,
        block_height: u32,
        timestamp: u64,
    ) -> (receipt: Result<Option<Vec<u8>>, AccountError>) {
        if self.balance > MAX_COIN {
            return Err(AccountError::InvalidCoinValue);
        }
        let amount = match total(transaction) {
            Some(amount) => amount,
            None => {
                return Err(AccountError::InvalidCoinValue);
            },
        };
        match debit(self.balance, amount) {
            Ok(balance) => {
                self.balance = balance;
                Ok(None)
            },
            Err(error) => Err(error),
        }
    }

    fn revert_outgoing_transaction(
        &mut self,
        transaction: &Transaction,
        block_height: u32,
        timestamp: u64,
        receipt: Option<&Vec<u8>>,
    ) -> (reverted: Result<(), AccountError>) {
        if receipt.is_some() {
            return Err(AccountError::InvalidReceipt);
        }
        let amount = match total(transaction) {
            Some(amount) => amount,
            None => {
                return Err(AccountError::InvalidCoinValue);
            },
        };
        match credit(self.balance, amount) {
            Ok(balance) => {
                self.balance = balance;
                Ok(())
            },
            Err(error) => Err(error),
        }
    }

    fn commit_inherent(&mut self, inherent: &Inherent, block_height: u32, timestamp: u64) -> (receipt:
        Result<Option<Vec<u8>>, AccountError>) {
        match credit(self.balance, inherent.value) {
            Ok(balance) => {
                self.balance = balance;
                Ok(None)
            },
            Err(error) => Err(error),
        }
    }

    fn revert_inherent(
        &mut self,
        inherent: &Inherent,
        block_height: u32,
        timestamp: u64,
        receipt: Option<&Vec<u8>>,
    ) -> (reverted: Result<(), AccountError>) {
        if receipt.is_some() {
            return Err(AccountError::InvalidReceipt);
        }
        match debit(self.balance, inherent.value) {
            Ok(balance) => {
                self.balance = balance;
                Ok(())
            },
            Err(error) => Err(error),
        }
    }
}

/// The plain account keeps the laws of accounts.
pub proof fn lemma_basic_account_laws()
    ensures
        account_laws::<BasicAccount>(),
{
}

/// On a plain account, reverting one operation and applying another can
/// be made in either order.
pub proof fn lemma_basic_account_commutes()
    ensures
        reverting_commutes_with_applying::<BasicAccount>(),
{
    assert forall|
        account: BasicAccount,
        reverted: Transaction,
        receipt: Option<Seq<u8>>,
        applied: Transaction,
        block_height: u32,
        timestamp: u64,
    | #[trigger]
        incoming_commute_at(account, reverted, receipt, applied, block_height, timestamp) by {
        let back = spec_debit(account.balance, reverted.value as int);
        let forth = spec_credit(account.balance, applied.value as int);
        if receipt is None && back is Ok && forth is Ok {
            assert(spec_credit(back->Ok_0, applied.value as int) is Ok);
            assert(spec_debit(forth->Ok_0, reverted.value as int) is Ok);
            let b = account.spec_revert_incoming_transaction(reverted, block_height, timestamp, receipt);
            let f = account.spec_commit_incoming_transaction(applied, block_height, timestamp);
            assert(b is Ok);
            assert(f is Ok);
            let o = b->Ok_0.spec_commit_incoming_transaction(applied, block_height, timestamp);
            assert(o is Ok);
            assert(o->Ok_0.1 == f->Ok_0.1);
            assert(f->Ok_0.0.spec_revert_incoming_transaction(reverted, block_height, timestamp, receipt) == Ok::<BasicAccount, AccountError>(o->Ok_0.0));
            assert(b->Ok_0.spec_account_type() == account.spec_account_type());
        } else {
            let b = account.spec_revert_incoming_transaction(reverted, block_height, timestamp, receipt);
            let f = account.spec_commit_incoming_transaction(applied, block_height, timestamp);
            assert(!(b is Ok && f is Ok));
        }
    }
    assert forall|
        account: BasicAccount,
        reverted: Transaction,
        receipt: Option<Seq<u8>>,
        applied: Transaction,
        block_height: u32,
        timestamp: u64,
    | #[trigger]
        outgoing_commute_at(account, reverted, receipt, applied, block_height, timestamp) by {
        let back = spec_credit(account.balance, spec_total(reverted));
        let forth = spec_debit(account.balance, spec_total(applied));
        if receipt is None && back is Ok && forth is Ok {
            assert(spec_debit(back->Ok_0, spec_total(applied)) is Ok);
            assert(spec_credit(forth->Ok_0, spec_total(reverted)) is Ok);
        }
    }
    assert forall|
        account: BasicAccount,
        reverted: Inherent,
        receipt: Option<Seq<u8>>,
        applied: Inherent,
        block_height: u32,
        timestamp: u64,
    | #[trigger]
        inherents_commute_at(account, reverted, receipt, applied, block_height, timestamp) by {
        let back = spec_debit(account.balance, reverted.value as int);
        let forth = spec_credit(account.balance, applied.value as int);
        if receipt is None && back is Ok && forth is Ok {
            assert(spec_credit(back->Ok_0, applied.value as int) is Ok);
            assert(spec_debit(forth->Ok_0, reverted.value as int) is Ok);
        }
    }
}

} // verus!
