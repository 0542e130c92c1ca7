use vstd::prelude::*;
use crate::amount::Amount;

verus! {

/// A 256-bit big-endian word split into its high and low 128-bit halves
/// (an event topic, a batch key, a field element).
#[derive(Clone, Copy, Debug, PartialEq, Eq, Structural)]
pub struct Word {
    pub hi: u128,
    pub lo: u128,
}

impl Word {
    pub open spec fn value(self) -> nat {
        self.hi as nat * 0x1_0000_0000_0000_0000_0000_0000_0000_0000 + self.lo as nat
    }

    pub fn zero() -> (r: Word)
        ensures
            r.hi == 0 && r.lo == 0,
    {
        Word { hi: 0, lo: 0 }
    }
}

/// The topic hashes that tell action events from cancellation events.
#[derive(Clone, Copy, Debug, PartialEq, Eq, Structural)]
pub struct EventTopics {
    pub action: Word,
    pub cancel: Word,
}

/// An on-chain log event, reduced to the fields that reconciliation reads.
#[derive(Clone, Copy, Debug, PartialEq, Eq, Structural)]
pub struct Event {
    /// Event-signature hash (topic 0).
    pub topic: Word,
    /// Account id carried by the event.
    pub account: u32,
    /// Packed public key carried by a deposit request (zero otherwise).
    pub key: Word,
    /// Amount carried in the payload of a deposit request, a 256-bit
    /// big-endian integer (zero otherwise).
    pub amount: Word,
    pub block_number: u64,
    pub log_index: u64,
    /// Set when the event was reorged away.
    pub removed: bool,
}

/// One account of the ledger.
#[derive(Debug)]
pub struct Account {
    /// Balance of the base asset, without upper bound.
    pub balance: Amount,
    pub nonce: u32,
    pub pub_x: Word,
    pub pub_y: Word,
}

/// What an account holds, with its balance as a number.
pub struct AccountModel {
    pub balance: nat,
    pub nonce: u32,
    pub pub_x: Word,
    pub pub_y: Word,
}

impl View for Account {
    type V = AccountModel;

    open spec fn view(&self) -> AccountModel {
        AccountModel { balance: self.balance@, nonce: self.nonce, pub_x: self.pub_x, pub_y: self.pub_y }
    }
}

impl Account {
    pub open spec fn spec_empty() -> AccountModel {
        AccountModel { balance: 0, nonce: 0, pub_x: Word { hi: 0, lo: 0 }, pub_y: Word { hi: 0, lo: 0 } }
    }

    /// A fresh account: zero balance, nonce 0, unset public key.
    pub fn empty() -> (r: Account)
        ensures
            r@ == Account::spec_empty(),
    {
        Account { balance: Amount::zero(), nonce: 0, pub_x: Word::zero(), pub_y: Word::zero() }
    }

    /// A copy of this account.
    pub fn copy(&self) -> (r: Account)
        ensures
            r@ == self@,
    {
        Account { balance: self.balance.copy(), nonce: self.nonce, pub_x: self.pub_x, pub_y: self.pub_y }
    }
}

#[derive(Debug)]
pub struct DepositTx {
    pub account: u32,
    pub amount: Amount,
    pub pub_x: Word,
    pub pub_y: Word,
}

/// What a deposit carries, with its amount as a number.
pub struct DepositModel {
    pub account: u32,
    pub amount: nat,
    pub pub_x: Word,
    pub pub_y: Word,
}

impl View for DepositTx {
    type V = DepositModel;

    open spec fn view(&self) -> DepositModel {
        DepositModel { account: self.account, amount: self.amount@, pub_x: self.pub_x, pub_y: self.pub_y }
    }
}

/// The models of a list of deposits.
pub open spec fn deposits_model(s: Seq<DepositTx>) -> Seq<DepositModel> {
    Seq::new(s.len(), |i: int| s[i]@)
}

#[derive(Clone, Copy, Debug, PartialEq, Eq, Structural)]
pub struct ExitTx {
    pub account: u32,
    /// Always zero: the withdrawable amount is settled on chain.
    pub amount: u128,
}

/// A transfer record as it stands in a transfer block, with its amount and
/// fee still in their packed form.
#[derive(Clone, Copy, Debug, PartialEq, Eq, Structural)]
pub struct TransferRecord {
    pub from: u32,
    pub to: u32,
    pub packed_amount: u16,
    pub packed_fee: u8,
    pub nonce: u32,
}

/// A transfer with its amount and fee decoded (the packed codec yields
/// values well inside `u128`).
#[derive(Clone, Copy, Debug, PartialEq, Eq, Structural)]
pub struct TransferTx {
    pub from: u32,
    pub to: u32,
    pub amount: u128,
    pub fee: u128,
    pub nonce: u32,
}

#[derive(Clone, Copy, Debug, PartialEq, Eq, Structural)]
pub enum DataRestoreError {
    /// The operation block's type is not handled.
    WrongType,
    /// Transfer or exit from an account that does not exist.
    NonexistentAccount,
    /// Sender balance below amount plus fee.
    WrongAmount,
    /// Public key bytes that are not a point of the curve.
    WrongPubKey,
    /// Two exit requests for one account in one batch.
    DoubleExit,
    /// Two events at the same block number and log index.
    DuplicateLogIndex,
    /// Cancellation with no pending request for its account.
    MissingRecord,
    /// Event whose topic is neither the action nor the cancellation topic.
    UnexpectedTopic,
    /// Commitment data too short.
    MalformedBlock,
    /// A nonce would pass `u32::MAX`.
    Overflow,
}

} // verus!
