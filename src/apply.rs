use vstd::prelude::*;
use crate::ledger::Ledger;
use crate::amount::Amount;
use crate::types::{deposits_model, Account, AccountModel, DataRestoreError, DepositModel, DepositTx, ExitTx, TransferTx};

verus! {

pub type Accounts = Map<u32, AccountModel>;

/// A deposit applied to the accounts: a new account takes the deposit's
/// public key, an existing one keeps its own; the amount is added.
pub open spec fn deposit_step(m: Accounts, tx: DepositModel) -> Accounts {
    if m.contains_key(tx.account) {
        m.insert(tx.account, AccountModel { balance: m[tx.account].balance + tx.amount, ..m[tx.account] })
    } else {
        m.insert(tx.account, AccountModel { balance: tx.amount, nonce: 0, pub_x: tx.pub_x, pub_y: tx.pub_y })
    }
}

/// The sender after a transfer: amount plus fee taken, nonce raised by one.
pub open spec fn transfer_sender(m: Accounts, tx: TransferTx) -> AccountModel {
    let f = m[tx.from];
    AccountModel { balance: (f.balance - tx.amount - tx.fee) as nat, nonce: (f.nonce + 1) as u32, ..f }
}

/// The recipient as it stands once the sender has been written back (the
/// sender itself on a transfer to oneself), or an empty account.
pub open spec fn transfer_target(m: Accounts, tx: TransferTx) -> AccountModel {
    let m1 = m.insert(tx.from, transfer_sender(m, tx));
    if m1.contains_key(tx.to) { m1[tx.to] } else { Account::spec_empty() }
}

/// The recipient as it is written back by a transfer: credited with the
/// amount unless it is the zero id.
pub open spec fn transfer_recipient(m: Accounts, tx: TransferTx) -> AccountModel {
    let t = transfer_target(m, tx);
    if tx.to != 0 {
        AccountModel { balance: (t.balance + tx.amount) as nat, ..t }
    } else {
        t
    }
}

/// A transfer applied to the accounts: the sender is debited and written
/// back, then the recipient, read after that, is credited and written back.
pub open spec fn transfer_step(m: Accounts, tx: TransferTx) -> Result<Accounts, DataRestoreError> {
    if !m.contains_key(tx.from) {
        Err(DataRestoreError::NonexistentAccount)
    } else if m[tx.from].balance < tx.amount + tx.fee {
        Err(DataRestoreError::WrongAmount)
    } else if m[tx.from].nonce == u32::MAX {
        Err(DataRestoreError::Overflow)
    } else {
        Ok(m.insert(tx.from, transfer_sender(m, tx)).insert(tx.to, transfer_recipient(m, tx)))
    }
}

/// A full exit applied to the accounts: the account is deleted.
pub open spec fn exit_step(m: Accounts, tx: ExitTx) -> Result<Accounts, DataRestoreError> {
    if m.contains_key(tx.account) {
        Ok(m.remove(tx.account))
    } else {
        Err(DataRestoreError::NonexistentAccount)
    }
}

/// A batch of deposits applied in order; the first failure stops the batch
/// and leaves the accounts as the earlier deposits made them.
pub open spec fn deposits_applied(m: Accounts, txs: Seq<DepositModel>) -> Accounts
    decreases txs.len(),
{
    if txs.len() == 0 {
        m
    } else {
        deposit_step(deposits_applied(m, txs.drop_last()), txs.last())
    }
}

/// A batch of transfers applied in order, stopping at the first failure.
pub open spec fn transfers_applied(m: Accounts, txs: Seq<TransferTx>) -> (Accounts, Result<(), DataRestoreError>)
    decreases txs.len(),
{
    if txs.len() == 0 {
        (m, Ok(()))
    } else {
        let (m1, r1) = transfers_applied(m, txs.drop_last());
        if r1 is Err {
            (m1, r1)
        } else {
            match transfer_step(m1, txs.last()) {
                Ok(m2) => (m2, Ok(())),
                Err(err) => (m1, Err(err)),
            }
        }
    }
}

/// A batch of full exits applied in order, stopping at the first failure.
pub open spec fn exits_applied(m: Accounts, txs: Seq<ExitTx>) -> (Accounts, Result<(), DataRestoreError>)
    decreases txs.len(),
{
    if txs.len() == 0 {
        (m, Ok(()))
    } else {
        let (m1, r1) = exits_applied(m, txs.drop_last());
        if r1 is Err {
            (m1, r1)
        } else {
            match exit_step(m1, txs.last()) {
                Ok(m2) => (m2, Ok(())),
                Err(err) => (m1, Err(err)),
            }
        }
    }
}

proof fn lemma_transfers_stop(m: Accounts, txs: Seq<TransferTx>, k: int)
    requires
        0 <= k <= txs.len(),
        transfers_applied(m, txs.take(k)).1 is Err,
    ensures
        transfers_applied(m, txs) == transfers_applied(m, txs.take(k)),
    decreases txs.len() - k,
{
    if k < txs.len() {
        assert(txs.take(k + 1).drop_last() =~= txs.take(k));
        lemma_transfers_stop(m, txs, k + 1);
    } else {
        assert(txs.take(k) =~= txs);
    }
}

proof fn lemma_exits_stop(m: Accounts, txs: Seq<ExitTx>, k: int)
    requires
        0 <= k <= txs.len(),
        exits_applied(m, txs.take(k)).1 is Err,
    ensures
        exits_applied(m, txs) == exits_applied(m, txs.take(k)),
    decreases txs.len() - k,
{
    if k < txs.len() {
        assert(txs.take(k + 1).drop_last() =~= txs.take(k));
        lemma_exits_stop(m, txs, k + 1);
    } else {
        assert(txs.take(k) =~= txs);
    }
}

impl Ledger {
    /// Applies one deposit.
    pub fn apply_deposit(&mut self, tx: &DepositTx)
        requires
            old(self).wf(),
        ensures
            final(self).wf(),
            final(self)@ == deposit_step(old(self)@, tx@),
    {
        match self.get(tx.account) {
            Some(a) => {
                let balance = a.balance.add(&tx.amount);
                self.insert(tx.account, Account { balance, nonce: a.nonce, pub_x: a.pub_x, pub_y: a.pub_y });
            },
            None => {
                self.insert(
                    tx.account,
                    Account { balance: tx.amount.copy(), nonce: 0, pub_x: tx.pub_x, pub_y: tx.pub_y },
                );
            },
        }
    }

    /// Applies one transfer.
    pub fn apply_transfer(&mut self, tx: &TransferTx) -> (r: Result<(), DataRestoreError>)
        requires
            old(self).wf(),
        ensures
            final(self).wf(),
            match transfer_step(old(self)@, *tx) {
                Ok(m) => r is Ok && final(self)@ == m,
                Err(err) => r == Err::<(), DataRestoreError>(err) && final(self)@ == old(self)@,
            },
    {
        let from = match self.get(tx.from) {
            Some(a) => a,
            None => {
                return Err(DataRestoreError::NonexistentAccount);
            },
        };
        let amount = Amount::from_u128(tx.amount);
        let transacted = amount.add(&Amount::from_u128(tx.fee));
        if from.balance.lt(&transacted) {
            return Err(DataRestoreError::WrongAmount);
        }
        if from.nonce == u32::MAX {
            return Err(DataRestoreError::Overflow);
        }
        let sender = Account {
            balance: from.balance.sub(&transacted),
            nonce: from.nonce + 1,
            pub_x: from.pub_x,
            pub_y: from.pub_y,
        };
        let to = if tx.to == tx.from {
            sender.copy()
        } else {
            match self.get(tx.to) {
                Some(a) => a,
                None => Account::empty(),
            }
        };
        let recipient = if tx.to != 0 {
            Account { balance: to.balance.add(&amount), nonce: to.nonce, pub_x: to.pub_x, pub_y: to.pub_y }
        } else {
            to
        };
        self.insert(tx.from, sender);
        self.insert(tx.to, recipient);
        Ok(())
    }

    /// Applies one full exit.
    pub fn apply_exit(&mut self, tx: &ExitTx) -> (r: Result<(), DataRestoreError>)
        requires
            old(self).wf(),
        ensures
            final(self).wf(),
            match exit_step(old(self)@, *tx) {
                Ok(m) => r is Ok && final(self)@ == m,
                Err(err) => r == Err::<(), DataRestoreError>(err) && final(self)@ == old(self)@,
            },
    {
        match self.get(tx.account) {
            Some(_) => {
                self.delete(tx.account);
                Ok(())
            },
            None => Err(DataRestoreError::NonexistentAccount),
        }
    }

    /// Applies a batch of deposits in order.
    pub fn apply_deposits(&mut self, txs: &Vec<DepositTx>)
        requires
            old(self).wf(),
        ensures
            final(self).wf(),
            final(self)@ == deposits_applied(old(self)@, deposits_model(txs@)),
    {
        let ghost start = self@;
        let ghost model = deposits_model(txs@);
        let mut i: usize = 0;
        while i < txs.len()
            invariant
                0 <= i <= txs.len(),
                self.wf(),
                start == old(self)@,
                model == deposits_model(txs@),
                deposits_applied(start, model.take(i as int)) == self@,
            decreases txs.len() - i,
        {
            proof {
                assert(model.take(i + 1).drop_last() =~= model.take(i as int));
                assert(model.take(i + 1).last() == txs@[i as int]@);
            }
            self.apply_deposit(&txs[i]);
            i = i + 1;
        }
        assert(model.take(txs@.len() as int) =~= model);
    }

    /// Applies a batch of transfers in order, stopping at the first failure.
    pub fn apply_transfers(&mut self, txs: &Vec<TransferTx>) -> (r: Result<(), DataRestoreError>)
        requires
            old(self).wf(),
        ensures
            final(self).wf(),
            (final(self)@, r) == transfers_applied(old(self)@, txs@),
    {
        let ghost start = self@;
        let mut i: usize = 0;
        while i < txs.len()
            invariant
                0 <= i <= txs.len(),
                self.wf(),
                start == old(self)@,
                transfers_applied(start, txs@.take(i as int)) == (self@, Ok::<(), DataRestoreError>(())),
            decreases txs.len() - i,
        {
            proof {
                assert(txs@.take(i + 1).drop_last() =~= txs@.take(i as int));
                assert(txs@.take(i + 1).last() == txs@[i as int]);
            }
            let r = self.apply_transfer(&txs[i]);
            if r.is_err() {
                proof {
                    lemma_transfers_stop(start, txs@, i + 1);
                }
                return r;
            }
            i = i + 1;
        }
        assert(txs@.take(txs@.len() as int) =~= txs@);
        Ok(())
    }

    /// Applies a batch of full exits in order, stopping at the first failure.
    pub fn apply_exits(&mut self, txs: &Vec<ExitTx>) -> (r: Result<(), DataRestoreError>)
        requires
            old(self).wf(),
        ensures
            final(self).wf(),
            (final(self)@, r) == exits_applied(old(self)@, txs@),
    {
        let ghost start = self@;
        let mut i: usize = 0;
        while i < txs.len()
            invariant
                0 <= i <= txs.len(),
                self.wf(),
                start == old(self)@,
                exits_applied(start, txs@.take(i as int)) == (self@, Ok::<(), DataRestoreError>(())),
            decreases txs.len() - i,
        {
            proof {
                assert(txs@.take(i + 1).drop_last() =~= txs@.take(i as int));
                assert(txs@.take(i + 1).last() == txs@[i as int]);
            }
            let r = self.apply_exit(&txs[i]);
            if r.is_err() {
                proof {
                    lemma_exits_stop(start, txs@, i + 1);
                }
                return r;
            }
            i = i + 1;
        }
        assert(txs@.take(txs@.len() as int) =~= txs@);
        Ok(())
    }
}

} // verus!
