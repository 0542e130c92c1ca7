use vstd::prelude::*;
use crate::apply::{deposits_applied, exits_applied, transfers_applied};
use crate::decode::{
    deposit_of_entry, deposit_transactions, exit_transactions, get_all_transactions_from_transfer_block,
    record_at, record_count,
};
use crate::ledger::{entries_map, ids_unique, Ledger};
use crate::reconcile::{
    deposit_reduce, exit_reduce, has_duplicate_key, load_sorted_events, reduce_deposit_events,
    entries_model, reduce_exit_events, retained, sorted_by_key, EntryModel,
};
use crate::types::{
    deposits_model, Account, AccountModel, DataRestoreError, DepositModel, DepositTx, Event, EventTopics, ExitTx,
    TransferTx,
};

verus! {

#[derive(Clone, Copy, Debug, PartialEq, Eq, Structural)]
pub enum FranklinOpBlockType {
    Deposit,
    FullExit,
    Transfer,
    Unknown,
}

/// One committed operation block.
#[derive(Debug)]
pub struct FranklinOpBlock {
    pub franklin_op_block_type: FranklinOpBlockType,
    pub commitment_data: Vec<u8>,
}

/// The event topics that reconciliation dispatches on.
#[derive(Clone, Copy, Debug, PartialEq, Eq, Structural)]
pub struct DataRestoreConfig {
    /// `LogDepositRequest` and `LogCancelDepositRequest`.
    pub deposit_topics: EventTopics,
    /// `LogExitRequest` and `LogCancelExitRequest`.
    pub exit_topics: EventTopics,
}

/// The ledger being restored, with its configuration.
pub struct FranklinAccountsStates {
    pub config: DataRestoreConfig,
    pub plasma_state: Ledger,
}

/// `s` is the retained events of the two streams, sorted by key.
pub open spec fn is_sorting_of(s: Seq<Event>, action: Seq<Event>, cancel: Seq<Event>) -> bool {
    s.to_multiset() == retained(action + cancel).to_multiset() && sorted_by_key(s)
}

/// The deposits that a list of pending entries becomes.
pub open spec fn deposits_of(entries: Seq<EntryModel>) -> Result<Seq<DepositModel>, DataRestoreError> {
    if forall|i: int| 0 <= i < entries.len() ==> (#[trigger] deposit_of_entry(entries[i])) is Ok {
        Ok(Seq::new(entries.len(), |i: int| deposit_of_entry(entries[i])->Ok_0))
    } else {
        Err(DataRestoreError::WrongPubKey)
    }
}

/// The deposits of a batch, from its sorted event stream.
pub open spec fn deposit_batch_from(sorted: Seq<Event>, topics: EventTopics) -> Result<Seq<DepositModel>, DataRestoreError> {
    match deposit_reduce(sorted, topics) {
        Ok(entries) => deposits_of(entries),
        Err(err) => Err(err),
    }
}

/// The exits of a batch, from its sorted event stream.
pub open spec fn exit_batch_from(sorted: Seq<Event>, topics: EventTopics) -> Result<Seq<ExitTx>, DataRestoreError> {
    match exit_reduce(sorted, topics) {
        Ok(ids) => Ok(Seq::new(ids.len(), |i: int| ExitTx { account: ids[i], amount: 0 })),
        Err(err) => Err(err),
    }
}

/// `r` is what reconciling the two deposit event streams gives.
pub open spec fn deposit_batch_outcome(action: Seq<Event>, cancel: Seq<Event>, topics: EventTopics, r: Result<Seq<DepositModel>, DataRestoreError>) -> bool {
    if has_duplicate_key(retained(action + cancel)) {
        r == Err::<Seq<DepositModel>, DataRestoreError>(DataRestoreError::DuplicateLogIndex)
    } else {
        exists|s: Seq<Event>| is_sorting_of(s, action, cancel) && r == deposit_batch_from(s, topics)
    }
}

/// `r` is what reconciling the two exit event streams gives.
pub open spec fn exit_batch_outcome(action: Seq<Event>, cancel: Seq<Event>, topics: EventTopics, r: Result<Seq<ExitTx>, DataRestoreError>) -> bool {
    if has_duplicate_key(retained(action + cancel)) {
        r == Err::<Seq<ExitTx>, DataRestoreError>(DataRestoreError::DuplicateLogIndex)
    } else {
        exists|s: Seq<Event>| is_sorting_of(s, action, cancel) && r == exit_batch_from(s, topics)
    }
}

/// The transfers of a transfer block, with the decoded amount and fee of
/// each record.
pub open spec fn transfers_of(data: Seq<u8>, amounts: Seq<(u128, u128)>) -> Seq<TransferTx> {
    Seq::new(
        amounts.len(),
        |i: int|
            TransferTx {
                from: record_at(data, i).from,
                to: record_at(data, i).to,
                amount: amounts[i].0,
                fee: amounts[i].1,
                nonce: record_at(data, i).nonce,
            },
    )
}

impl FranklinAccountsStates {
    pub open spec fn wf(&self) -> bool {
        self.plasma_state.wf()
    }

    /// An empty ledger with the given configuration.
    pub fn new(config: DataRestoreConfig) -> (r: Self)
        ensures
            r.wf(),
            r.config == config,
            r.plasma_state@ == Map::<u32, AccountModel>::empty(),
    {
        FranklinAccountsStates { config, plasma_state: Ledger::new() }
    }

    /// All accounts with their ids, each id once.
    pub fn get_accounts(&self) -> (r: Vec<(u32, Account)>)
        requires
            self.wf(),
        ensures
            ids_unique(r@),
            entries_map(r@) == self.plasma_state@,
    {
        self.plasma_state.get_accounts()
    }

    /// The account with the given id, if there is one.
    pub fn get_account(&self, account_id: u32) -> (r: Option<Account>)
        requires
            self.wf(),
        ensures
            match r {
                Some(a) => self.plasma_state@.contains_key(account_id) && a@ == self.plasma_state@[account_id],
                None => !self.plasma_state@.contains_key(account_id),
            },
    {
        self.plasma_state.get(account_id)
    }

    /// The deposits of a batch, from its deposit-request and cancellation
    /// events: the retained events are sorted, reduced per account, and each
    /// surviving account's public key is recovered.
    pub fn get_all_transactions_from_deposit_batch(&self, action_events: Vec<Event>, cancel_events: Vec<Event>) -> (r: Result<Vec<DepositTx>, DataRestoreError>)
        ensures
            deposit_batch_outcome(
                action_events@,
                cancel_events@,
                self.config.deposit_topics,
                match r {
                    Ok(v) => Ok(deposits_model(v@)),
                    Err(err) => Err(err),
                },
            ),
    {
        let ghost a = action_events@;
        let ghost c = cancel_events@;
        let sorted = match load_sorted_events(action_events, cancel_events) {
            Ok(s) => s,
            Err(err) => {
                return Err(err);
            },
        };
        let topics = self.config.deposit_topics;
        let entries = match reduce_deposit_events(&sorted, topics) {
            Ok(e) => e,
            Err(err) => {
                assert(is_sorting_of(sorted@, a, c));
                assert(deposit_batch_from(sorted@, topics) == Err::<Seq<DepositModel>, DataRestoreError>(err));
                return Err(err);
            },
        };
        let r = deposit_transactions(&entries);
        proof {
            assert(is_sorting_of(sorted@, a, c));
            assert(entries_model(entries@) =~= Seq::new(entries@.len(), |i: int| entries@[i]@));
            if r is Ok {
                assert(deposits_model(r->Ok_0@) =~= Seq::new(entries@.len(), |i: int| deposit_of_entry(entries_model(entries@)[i])->Ok_0));
                assert(deposit_batch_from(sorted@, topics) == Ok::<Seq<DepositModel>, DataRestoreError>(deposits_model(r->Ok_0@)));
            } else {
                let k = choose|k: int| 0 <= k < entries@.len() && !(deposit_of_entry(entries@[k]@) is Ok);
                assert(!(deposit_of_entry(entries_model(entries@)[k]) is Ok));
                assert(deposit_batch_from(sorted@, topics) == Err::<Seq<DepositModel>, DataRestoreError>(DataRestoreError::WrongPubKey));
            }
        }
        match r {
            Ok(v) => Ok(v),
            Err(err) => Err(err),
        }
    }

    /// The exits of a batch, from its exit-request and cancellation events.
    pub fn get_all_transactions_from_full_exit_batch(&self, action_events: Vec<Event>, cancel_events: Vec<Event>) -> (r: Result<Vec<ExitTx>, DataRestoreError>)
        ensures
            exit_batch_outcome(
                action_events@,
                cancel_events@,
                self.config.exit_topics,
                match r {
                    Ok(v) => Ok(v@),
                    Err(err) => Err(err),
                },
            ),
    {
        let ghost a = action_events@;
        let ghost c = cancel_events@;
        let sorted = match load_sorted_events(action_events, cancel_events) {
            Ok(s) => s,
            Err(err) => {
                return Err(err);
            },
        };
        let topics = self.config.exit_topics;
        let ids = match reduce_exit_events(&sorted, topics) {
            Ok(ids) => ids,
            Err(err) => {
                assert(is_sorting_of(sorted@, a, c));
                assert(exit_batch_from(sorted@, topics) == Err::<Seq<ExitTx>, DataRestoreError>(err));
                return Err(err);
            },
        };
        let v = exit_transactions(&ids);
        proof {
            assert(is_sorting_of(sorted@, a, c));
            assert(v@ =~= Seq::new(ids@.len(), |i: int| ExitTx { account: ids@[i], amount: 0 }));
            assert(exit_batch_from(sorted@, topics) == Ok::<Seq<ExitTx>, DataRestoreError>(v@));
        }
        Ok(v)
    }
    /// Applies one operation block. Deposit and full-exit blocks take their
    /// action and cancellation event streams; a transfer block takes the
    /// decoded amount and fee of each of its records, in record order.
    /// Processing stops at the first failing transaction; the transactions
    /// before it stay applied.
    pub fn update_accounts_states_from_op_block(
        &mut self,
        op_block: &FranklinOpBlock,
        action_events: Vec<Event>,
        cancel_events: Vec<Event>,
        amounts: &Vec<(u128, u128)>,
    ) -> (r: Result<(), DataRestoreError>)
        requires
            old(self).wf(),
            op_block.franklin_op_block_type == FranklinOpBlockType::Transfer ==> op_block.commitment_data@.len()
                <= u32::MAX,
        ensures
            final(self).wf(),
            final(self).config == old(self).config,
            block_outcome(
                op_block.franklin_op_block_type,
                op_block.commitment_data@,
                action_events@,
                cancel_events@,
                amounts@,
                old(self).config,
                old(self).plasma_state@,
                final(self).plasma_state@,
                r,
            ),
    {
        match op_block.franklin_op_block_type {
            FranklinOpBlockType::Deposit => {
                self.update_accounts_states_from_deposit_op_block(op_block, action_events, cancel_events)
            },
            FranklinOpBlockType::FullExit => {
                self.update_accounts_states_from_full_exit_op_block(op_block, action_events, cancel_events)
            },
            FranklinOpBlockType::Transfer => {
                self.update_accounts_states_from_transfer_op_block(op_block, amounts)
            },
            FranklinOpBlockType::Unknown => Err(DataRestoreError::WrongType),
        }
    }

    fn update_accounts_states_from_deposit_op_block(
        &mut self,
        op_block: &FranklinOpBlock,
        action_events: Vec<Event>,
        cancel_events: Vec<Event>,
    ) -> (r: Result<(), DataRestoreError>)
        requires
            old(self).wf(),
        ensures
            final(self).wf(),
            final(self).config == old(self).config,
            deposit_block_outcome(
                op_block.commitment_data@,
                action_events@,
                cancel_events@,
                old(self).config.deposit_topics,
                old(self).plasma_state@,
                final(self).plasma_state@,
                r,
            ),
    {
        if op_block.commitment_data.len() < 32 {
            return Err(DataRestoreError::MalformedBlock);
        }
        let ghost a = action_events@;
        let ghost c = cancel_events@;
        match self.get_all_transactions_from_deposit_batch(action_events, cancel_events) {
            Ok(txs) => {
                self.plasma_state.apply_deposits(&txs);
                assert(deposit_batch_outcome(a, c, self.config.deposit_topics, Ok(deposits_model(txs@))));
                Ok(())
            },
            Err(err) => {
                assert(deposit_batch_outcome(a, c, self.config.deposit_topics, Err(err)));
                Err(err)
            },
        }
    }

    fn update_accounts_states_from_full_exit_op_block(
        &mut self,
        op_block: &FranklinOpBlock,
        action_events: Vec<Event>,
        cancel_events: Vec<Event>,
    ) -> (r: Result<(), DataRestoreError>)
        requires
            old(self).wf(),
        ensures
            final(self).wf(),
            final(self).config == old(self).config,
            exit_block_outcome(
                op_block.commitment_data@,
                action_events@,
                cancel_events@,
                old(self).config.exit_topics,
                old(self).plasma_state@,
                final(self).plasma_state@,
                r,
            ),
    {
        if op_block.commitment_data.len() < 32 {
            return Err(DataRestoreError::MalformedBlock);
        }
        let ghost a = action_events@;
        let ghost c = cancel_events@;
        match self.get_all_transactions_from_full_exit_batch(action_events, cancel_events) {
            Ok(txs) => {
                let r = self.plasma_state.apply_exits(&txs);
                assert(exit_batch_outcome(a, c, self.config.exit_topics, Ok(txs@)));
                r
            },
            Err(err) => {
                assert(exit_batch_outcome(a, c, self.config.exit_topics, Err(err)));
                Err(err)
            },
        }
    }

    fn update_accounts_states_from_transfer_op_block(
        &mut self,
        op_block: &FranklinOpBlock,
        amounts: &Vec<(u128, u128)>,
    ) -> (r: Result<(), DataRestoreError>)
        requires
            old(self).wf(),
            op_block.commitment_data@.len() <= u32::MAX,
        ensures
            final(self).wf(),
            final(self).config == old(self).config,
            transfer_block_outcome(
                op_block.commitment_data@,
                amounts@,
                old(self).plasma_state@,
                final(self).plasma_state@,
                r,
            ),
    {
        let records = match get_all_transactions_from_transfer_block(&op_block.commitment_data) {
            Ok(v) => v,
            Err(err) => {
                return Err(err);
            },
        };
        if records.len() != amounts.len() {
            return Err(DataRestoreError::MalformedBlock);
        }
        let mut txs: Vec<TransferTx> = Vec::new();
        let mut i: usize = 0;
        while i < records.len()
            invariant
                records@.len() == amounts@.len(),
                records@.len() == record_count(op_block.commitment_data@),
                forall|j: int| 0 <= j < records@.len() ==> #[trigger] records@[j] == record_at(op_block.commitment_data@, j),
                0 <= i <= records@.len(),
                txs@ == transfers_of(op_block.commitment_data@, amounts@).take(i as int),
            decreases records.len() - i,
        {
            let rec = records[i];
            let (amount, fee) = amounts[i];
            txs.push(TransferTx { from: rec.from, to: rec.to, amount, fee, nonce: rec.nonce });
            assert(txs@ =~= transfers_of(op_block.commitment_data@, amounts@).take(i + 1));
            i = i + 1;
        }
        assert(txs@ =~= transfers_of(op_block.commitment_data@, amounts@));
        self.plasma_state.apply_transfers(&txs)
    }
}

/// What applying a deposit block does to the accounts `before`, giving
/// `after` and `r`.
pub open spec fn deposit_block_outcome(
    data: Seq<u8>,
    action: Seq<Event>,
    cancel: Seq<Event>,
    topics: EventTopics,
    before: Map<u32, AccountModel>,
    after: Map<u32, AccountModel>,
    r: Result<(), DataRestoreError>,
) -> bool {
    if data.len() < 32 {
        r == Err::<(), DataRestoreError>(DataRestoreError::MalformedBlock) && after == before
    } else {
        exists|b: Result<Seq<DepositModel>, DataRestoreError>|
            #[trigger] deposit_batch_outcome(action, cancel, topics, b) && match b {
                Ok(txs) => r is Ok && after == deposits_applied(before, txs),
                Err(err) => r == Err::<(), DataRestoreError>(err) && after == before,
            }
    }
}

/// What applying a full-exit block does to the accounts `before`.
pub open spec fn exit_block_outcome(
    data: Seq<u8>,
    action: Seq<Event>,
    cancel: Seq<Event>,
    topics: EventTopics,
    before: Map<u32, AccountModel>,
    after: Map<u32, AccountModel>,
    r: Result<(), DataRestoreError>,
) -> bool {
    if data.len() < 32 {
        r == Err::<(), DataRestoreError>(DataRestoreError::MalformedBlock) && after == before
    } else {
        exists|b: Result<Seq<ExitTx>, DataRestoreError>|
            #[trigger] exit_batch_outcome(action, cancel, topics, b) && match b {
                Ok(txs) => (after, r) == exits_applied(before, txs),
                Err(err) => r == Err::<(), DataRestoreError>(err) && after == before,
            }
    }
}

/// What applying a transfer block does to the accounts `before`.
pub open spec fn transfer_block_outcome(
    data: Seq<u8>,
    amounts: Seq<(u128, u128)>,
    before: Map<u32, AccountModel>,
    after: Map<u32, AccountModel>,
    r: Result<(), DataRestoreError>,
) -> bool {
    if data.len() < 160 || amounts.len() != record_count(data) {
        r == Err::<(), DataRestoreError>(DataRestoreError::MalformedBlock) && after == before
    } else {
        (after, r) == transfers_applied(before, transfers_of(data, amounts))
    }
}

/// What applying an operation block does to the accounts `before`.
pub open spec fn block_outcome(
    kind: FranklinOpBlockType,
    data: Seq<u8>,
    action: Seq<Event>,
    cancel: Seq<Event>,
    amounts: Seq<(u128, u128)>,
    config: DataRestoreConfig,
    before: Map<u32, AccountModel>,
    after: Map<u32, AccountModel>,
    r: Result<(), DataRestoreError>,
) -> bool {
    match kind {
        FranklinOpBlockType::Deposit => deposit_block_outcome(data, action, cancel, config.deposit_topics, before, after, r),
        FranklinOpBlockType::FullExit => exit_block_outcome(data, action, cancel, config.exit_topics, before, after, r),
        FranklinOpBlockType::Transfer => transfer_block_outcome(data, amounts, before, after, r),
        FranklinOpBlockType::Unknown => r == Err::<(), DataRestoreError>(DataRestoreError::WrongType) && after == before,
    }
}

} // verus!
