//! Plain-value types the engine works on: account kinds, transactions,
//! inherents and errors.

use vstd::prelude::*;
use crate::keys::Address;

verus! {

/// The largest amount an account or a transaction can hold.
pub const MAX_COIN: u64 = 9_007_199_254_740_991u64;

/// The flag bit that marks a transaction as creating a contract at its
/// recipient.
pub const CONTRACT_CREATION: u8 = 1u8;

/// The kind of an account. A transaction names the kind it expects at its
/// sender and at its recipient.
#[derive(Clone, Copy, Debug, PartialEq, Eq, Structural)]
pub enum AccountType {
    Basic,
    Vesting,
    HTLC,
    Staking,
}

/// Why applying or reverting an operation failed.
#[derive(Clone, Copy, Debug, PartialEq, Eq, Structural)]
pub enum AccountError {
    /// The account stored at the address (`expected`) is not of the kind
    /// the transaction claims (`got`).
    TypeMismatch { expected: AccountType, got: AccountType },
    /// The account holds less than the operation takes from it.
    InsufficientFunds { needed: u64, balance: u64 },
    /// The recipient cannot take the transaction: no contract of the kind
    /// it names can be made from it.
    InvalidForRecipient,
    /// The receipt handed to a revert is missing, superfluous or malformed.
    InvalidReceipt,
    /// A balance would leave the range of amounts.
    InvalidCoinValue,
}

/// A set of transaction flag bits.
#[derive(Clone, Copy, Debug, PartialEq, Eq, Structural)]
pub struct TransactionFlags {
    pub bits: u8,
}

impl TransactionFlags {
    /// Whether every bit of `flag` is set.
    pub open spec fn spec_contains(self, flag: u8) -> bool {
        self.bits & flag == flag
    }

    /// Whether every bit of `flag` is set.
    pub fn contains(&self, flag: u8) -> (r: bool)
        ensures
            r == self.spec_contains(flag),
    {
        self.bits & flag == flag
    }
}

/// A validated transaction, as far as applying it to accounts reads it.
#[derive(Clone, Debug, PartialEq, Eq)]
pub struct Transaction {
    pub sender: Address,
    /// The kind the sender account is claimed to have.
    pub sender_type: AccountType,
    pub recipient: Address,
    /// The kind the recipient account is claimed to have.
    pub recipient_type: AccountType,
    pub value: u64,
    pub fee: u64,
    pub flags: TransactionFlags,
    /// Payload for the account kinds that read one.
    pub data: Vec<u8>,
}

impl Transaction {
    /// Whether the transaction creates a contract at its recipient.
    pub open spec fn spec_is_contract_creation(&self) -> bool {
        self.flags.spec_contains(CONTRACT_CREATION)
    }

    /// Whether the transaction creates a contract at its recipient.
    pub fn is_contract_creation(&self) -> (r: bool)
        ensures
            r == self.spec_is_contract_creation(),
    {
        self.flags.contains(CONTRACT_CREATION)
    }
}

/// A state change the protocol itself generates, such as a reward or a
/// penalty.
#[derive(Clone, Debug, PartialEq, Eq)]
pub struct Inherent {
    pub target: Address,
    /// Whether it is applied before the block's transactions.
    pub pre_transactions: bool,
    pub value: u64,
    /// Payload for the account kinds that read one.
    pub data: Vec<u8>,
}

impl Inherent {
    /// Whether the inherent belongs to the phase before the transactions.
    pub open spec fn spec_is_pre_transactions(&self) -> bool {
        self.pre_transactions
    }

    /// Whether the inherent belongs to the phase before the transactions.
    pub fn is_pre_transactions(&self) -> (r: bool)
        ensures
            r == self.spec_is_pre_transactions(),
    {
        self.pre_transactions
    }
}

} // verus!
