use vstd::prelude::*;
use crate::apply::{deposit_step, deposits_applied, exit_step, exits_applied, transfer_step, transfers_applied};
use crate::decode::{deposit_of_entry, jubjub_x_for, key_sign, key_y, pack_key, record_at, record_count};
use crate::engine::{
    deposit_batch_from, deposit_batch_outcome, deposit_block_outcome, exit_batch_from, exit_batch_outcome,
    exit_block_outcome, is_sorting_of, transfer_block_outcome,
};
use crate::reconcile::{
    deposit_reduce, exit_reduce, has_duplicate_key, lemma_no_duplicate_key_permutes, lemma_sorting_unique, retained,
    EntryModel,
};
use crate::types::{AccountModel, DataRestoreError, DepositModel, Event, EventTopics, ExitTx, TransferTx, Word};

verus! {

/// Applying a batch with no transactions leaves the accounts as they were.
pub proof fn lemma_empty_batch_is_noop(m: Map<u32, AccountModel>)
    ensures
        deposits_applied(m, Seq::<DepositModel>::empty()) == m,
        transfers_applied(m, Seq::<TransferTx>::empty()) == (m, Ok::<(), DataRestoreError>(())),
        exits_applied(m, Seq::<ExitTx>::empty()) == (m, Ok::<(), DataRestoreError>(())),
{
}

/// When the retained events have distinct keys, reconciling a deposit batch
/// gives exactly the result on their sorted stream.
pub proof fn lemma_deposit_outcome_of_sorting(
    action: Seq<Event>,
    cancel: Seq<Event>,
    topics: EventTopics,
    s: Seq<Event>,
    b: Result<Seq<DepositModel>, DataRestoreError>,
)
    requires
        !has_duplicate_key(retained(action + cancel)),
        is_sorting_of(s, action, cancel),
        deposit_batch_outcome(action, cancel, topics, b),
    ensures
        b == deposit_batch_from(s, topics),
{
    let s2 = choose|s2: Seq<Event>| is_sorting_of(s2, action, cancel) && b == deposit_batch_from(s2, topics);
    lemma_no_duplicate_key_permutes(retained(action + cancel), s);
    lemma_sorting_unique(s, s2);
}

/// When the retained events have distinct keys, reconciling an exit batch
/// gives exactly the result on their sorted stream.
pub proof fn lemma_exit_outcome_of_sorting(
    action: Seq<Event>,
    cancel: Seq<Event>,
    topics: EventTopics,
    s: Seq<Event>,
    b: Result<Seq<ExitTx>, DataRestoreError>,
)
    requires
        !has_duplicate_key(retained(action + cancel)),
        is_sorting_of(s, action, cancel),
        exit_batch_outcome(action, cancel, topics, b),
    ensures
        b == exit_batch_from(s, topics),
{
    let s2 = choose|s2: Seq<Event>| is_sorting_of(s2, action, cancel) && b == exit_batch_from(s2, topics);
    lemma_no_duplicate_key_permutes(retained(action + cancel), s);
    lemma_sorting_unique(s, s2);
}

/// A deposit block whose events reconcile to no deposit succeeds and leaves
/// the accounts unchanged.
pub proof fn lemma_empty_deposit_block(
    data: Seq<u8>,
    action: Seq<Event>,
    cancel: Seq<Event>,
    topics: EventTopics,
    s: Seq<Event>,
    before: Map<u32, AccountModel>,
    after: Map<u32, AccountModel>,
    r: Result<(), DataRestoreError>,
)
    requires
        data.len() >= 32,
        !has_duplicate_key(retained(action + cancel)),
        is_sorting_of(s, action, cancel),
        deposit_batch_from(s, topics) == Ok::<Seq<DepositModel>, DataRestoreError>(Seq::empty()),
        deposit_block_outcome(data, action, cancel, topics, before, after, r),
    ensures
        r is Ok,
        after == before,
{
    let b = choose|b: Result<Seq<DepositModel>, DataRestoreError>|
        #[trigger] deposit_batch_outcome(action, cancel, topics, b) && match b {
            Ok(txs) => r is Ok && after == deposits_applied(before, txs),
            Err(err) => r == Err::<(), DataRestoreError>(err) && after == before,
        };
    lemma_deposit_outcome_of_sorting(action, cancel, topics, s, b);
}

/// A full-exit block whose events reconcile to no exit succeeds and leaves
/// the accounts unchanged.
pub proof fn lemma_empty_exit_block(
    data: Seq<u8>,
    action: Seq<Event>,
    cancel: Seq<Event>,
    topics: EventTopics,
    s: Seq<Event>,
    before: Map<u32, AccountModel>,
    after: Map<u32, AccountModel>,
    r: Result<(), DataRestoreError>,
)
    requires
        data.len() >= 32,
        !has_duplicate_key(retained(action + cancel)),
        is_sorting_of(s, action, cancel),
        exit_batch_from(s, topics) == Ok::<Seq<ExitTx>, DataRestoreError>(Seq::empty()),
        exit_block_outcome(data, action, cancel, topics, before, after, r),
    ensures
        r is Ok,
        after == before,
{
    let b = choose|b: Result<Seq<ExitTx>, DataRestoreError>|
        #[trigger] exit_batch_outcome(action, cancel, topics, b) && match b {
            Ok(txs) => (after, r) == exits_applied(before, txs),
            Err(err) => r == Err::<(), DataRestoreError>(err) && after == before,
        };
    lemma_exit_outcome_of_sorting(action, cancel, topics, s, b);
}

/// A transfer block that holds only its 160-byte header succeeds and leaves
/// the accounts unchanged.
pub proof fn lemma_empty_transfer_block(
    data: Seq<u8>,
    before: Map<u32, AccountModel>,
    after: Map<u32, AccountModel>,
    r: Result<(), DataRestoreError>,
)
    requires
        data.len() == 160,
        transfer_block_outcome(data, Seq::empty(), before, after, r),
    ensures
        r is Ok,
        after == before,
{
    assert(crate::engine::transfers_of(data, Seq::empty()) =~= Seq::<TransferTx>::empty());
}

/// When two retained events share `(block_number, log_index)`, reconciling
/// a deposit or exit batch fails with the duplicate-ordering error.
pub proof fn lemma_duplicate_key_fails(
    action: Seq<Event>,
    cancel: Seq<Event>,
    topics: EventTopics,
    d: Result<Seq<DepositModel>, DataRestoreError>,
    x: Result<Seq<ExitTx>, DataRestoreError>,
)
    requires
        has_duplicate_key(retained(action + cancel)),
        deposit_batch_outcome(action, cancel, topics, d),
        exit_batch_outcome(action, cancel, topics, x),
    ensures
        d == Err::<Seq<DepositModel>, DataRestoreError>(DataRestoreError::DuplicateLogIndex),
        x == Err::<Seq<ExitTx>, DataRestoreError>(DataRestoreError::DuplicateLogIndex),
{
}

/// A single deposit request reduces to one pending entry, found at
/// position 0 for its account.
proof fn lemma_one_request(a: Event, topics: EventTopics)
    requires
        a.topic == topics.action,
    ensures
        deposit_reduce(seq![a], topics) == Ok::<Seq<EntryModel>, DataRestoreError>(
            seq![EntryModel { account: a.account, amount: a.amount.value(), key: a.key }],
        ),
        crate::reconcile::position(
            crate::reconcile::entry_ids(seq![EntryModel { account: a.account, amount: a.amount.value(), key: a.key }]),
            a.account,
        ) == 0,
{
    let one = seq![EntryModel { account: a.account, amount: a.amount.value(), key: a.key }];
    assert(seq![a].drop_last() =~= Seq::<Event>::empty());
    assert(deposit_reduce(Seq::<Event>::empty(), topics) == Ok::<Seq<EntryModel>, DataRestoreError>(Seq::empty()));
    assert(crate::reconcile::entry_ids(Seq::<EntryModel>::empty()) =~= Seq::<u32>::empty());
    crate::reconcile::lemma_no_position(Seq::<u32>::empty(), a.account);
    assert(Seq::<EntryModel>::empty().push(one[0]) =~= one);
    assert(crate::reconcile::first_at(crate::reconcile::entry_ids(one), a.account, 0));
    crate::reconcile::lemma_position(crate::reconcile::entry_ids(one), a.account, 0);
}

/// Two deposit requests for one account, with no cancellation between
/// them, leave one pending deposit of the summed amount.
pub proof fn lemma_deposits_accumulate(a: Event, b: Event, topics: EventTopics)
    requires
        a.topic == topics.action,
        b.topic == topics.action,
        a.account == b.account,
    ensures
        deposit_reduce(seq![a, b], topics) == Ok::<Seq<EntryModel>, DataRestoreError>(
            seq![EntryModel { account: a.account, amount: a.amount.value() + b.amount.value(), key: a.key }],
        ),
{
    let one = seq![EntryModel { account: a.account, amount: a.amount.value(), key: a.key }];
    assert(seq![a, b].drop_last() =~= seq![a]);
    lemma_one_request(a, topics);
    assert(one.update(0, EntryModel { amount: a.amount.value() + b.amount.value(), ..one[0] }) =~= seq![
        EntryModel { account: a.account, amount: a.amount.value() + b.amount.value(), key: a.key },
    ]);
}

/// A deposit request followed by its cancellation leaves no pending deposit,
/// whatever the amount.
pub proof fn lemma_cancel_voids(a: Event, b: Event, topics: EventTopics)
    requires
        topics.action != topics.cancel,
        a.topic == topics.action,
        b.topic == topics.cancel,
        a.account == b.account,
    ensures
        deposit_reduce(seq![a, b], topics) == Ok::<Seq<EntryModel>, DataRestoreError>(Seq::empty()),
{
    let one = seq![EntryModel { account: a.account, amount: a.amount.value(), key: a.key }];
    assert(seq![a, b].drop_last() =~= seq![a]);
    lemma_one_request(a, topics);
    assert(one.remove(0) =~= Seq::<EntryModel>::empty());
}

proof fn lemma_two_events_sorted(a: Event, b: Event)
    requires
        !a.removed,
        !b.removed,
        a.block_number < b.block_number || (a.block_number == b.block_number && a.log_index < b.log_index),
    ensures
        retained(seq![a, b] + Seq::<Event>::empty()) == seq![a, b],
        is_sorting_of(seq![a, b], seq![a, b], Seq::empty()),
        !has_duplicate_key(retained(seq![a, b] + Seq::<Event>::empty())),
{
    let s = seq![a, b];
    assert(s + Seq::<Event>::empty() =~= s);
    reveal(Seq::filter);
    assert(s.drop_last() =~= seq![a]);
    assert(seq![a].drop_last() =~= Seq::<Event>::empty());
    assert(Seq::<Event>::empty().filter(|e: Event| !e.removed) =~= Seq::<Event>::empty());
    assert(seq![a].filter(|e: Event| !e.removed) =~= seq![a]);
    assert(s.filter(|e: Event| !e.removed) =~= s);
}

/// Reconciling a deposit batch of two requests for one account, in order and
/// with distinct keys, gives one deposit of the summed amount, with the
/// first request's key.
pub proof fn lemma_batch_deposits_accumulate(
    a: Event,
    b: Event,
    topics: EventTopics,
    out: Result<Seq<DepositModel>, DataRestoreError>,
)
    requires
        a.topic == topics.action,
        b.topic == topics.action,
        a.account == b.account,
        !a.removed,
        !b.removed,
        a.block_number < b.block_number || (a.block_number == b.block_number && a.log_index < b.log_index),
        deposit_batch_outcome(seq![a, b], Seq::empty(), topics, out),
    ensures
        out == crate::engine::deposits_of(
            seq![EntryModel { account: a.account, amount: a.amount.value() + b.amount.value(), key: a.key }],
        ),
{
    lemma_two_events_sorted(a, b);
    lemma_deposit_outcome_of_sorting(seq![a, b], Seq::empty(), topics, seq![a, b], out);
    lemma_deposits_accumulate(a, b, topics);
}

/// Reconciling a deposit batch of a request and its later cancellation gives
/// no deposit, whatever the amount or key.
pub proof fn lemma_batch_cancel_voids(
    a: Event,
    b: Event,
    topics: EventTopics,
    out: Result<Seq<DepositModel>, DataRestoreError>,
)
    requires
        topics.action != topics.cancel,
        a.topic == topics.action,
        b.topic == topics.cancel,
        a.account == b.account,
        !a.removed,
        !b.removed,
        a.block_number < b.block_number || (a.block_number == b.block_number && a.log_index < b.log_index),
        deposit_batch_outcome(seq![a], seq![b], topics, out),
    ensures
        out == Ok::<Seq<DepositModel>, DataRestoreError>(Seq::empty()),
{
    lemma_two_events_sorted(a, b);
    assert(seq![a] + seq![b] =~= seq![a, b] + Seq::<Event>::empty());
    lemma_deposit_outcome_of_sorting(seq![a], seq![b], topics, seq![a, b], out);
    lemma_cancel_voids(a, b, topics);
    assert(crate::engine::deposits_of(Seq::<EntryModel>::empty()) == Ok::<Seq<DepositModel>, DataRestoreError>(Seq::empty())) by {
        assert(Seq::new(0, |i: int| deposit_of_entry(Seq::<EntryModel>::empty()[i])->Ok_0) =~= Seq::<DepositModel>::empty());
    }
}

/// Two exit requests for one account in one batch fail with the
/// double-exit error.
pub proof fn lemma_double_exit_fails(a: Event, b: Event, topics: EventTopics)
    requires
        a.topic == topics.action,
        b.topic == topics.action,
        a.account == b.account,
    ensures
        exit_reduce(seq![a, b], topics) == Err::<Seq<u32>, DataRestoreError>(DataRestoreError::DoubleExit),
{
    let s = seq![a, b];
    assert(s.drop_last() =~= seq![a]);
    assert(seq![a].drop_last() =~= Seq::<Event>::empty());
    let one = seq![a.account];
    assert(exit_reduce(seq![a], topics) == Ok::<Seq<u32>, DataRestoreError>(one)) by {
        assert(exit_reduce(Seq::<Event>::empty(), topics) == Ok::<Seq<u32>, DataRestoreError>(Seq::empty()));
        crate::reconcile::lemma_no_position(Seq::<u32>::empty(), a.account);
        assert(Seq::<u32>::empty().push(a.account) =~= one);
    }
    assert(crate::reconcile::first_at(one, a.account, 0));
    crate::reconcile::lemma_position(one, a.account, 0);
}

proof fn lemma_contains_has_position(s: Seq<u32>, k: u32)
    requires
        s.contains(k),
    ensures
        crate::reconcile::position(s, k) >= 0,
    decreases s.len(),
{
    if s[0] == k {
        assert(crate::reconcile::first_at(s, k, 0));
    } else {
        let t = s.drop_first();
        let w = choose|w: int| 0 <= w < s.len() && s[w] == k;
        assert(t[w - 1] == k);
        lemma_contains_has_position(t, k);
        let p = choose|p: int| crate::reconcile::first_at(t, k, p);
        assert(crate::reconcile::first_at(s, k, p + 1)) by {
            assert forall|q: int| 0 <= q < p + 1 implies #[trigger] s[q] != k by {
                if q > 0 {
                    assert(s[q] == t[q - 1]);
                }
            }
        }
    }
}

proof fn lemma_position_holds(s: Seq<u32>, k: u32)
    requires
        crate::reconcile::position(s, k) >= 0,
    ensures
        s[crate::reconcile::position(s, k)] == k,
        0 <= crate::reconcile::position(s, k) < s.len(),
{
}

/// After an exit request for `k` at `i`, the pending exits keep `k` as long
/// as no cancellation for `k` comes and the stream reduces without error.
proof fn lemma_exit_stays_pending(events: Seq<Event>, topics: EventTopics, k: u32, i: int, j: int)
    requires
        0 <= i < j <= events.len(),
        events[i].topic == topics.action,
        events[i].account == k,
        forall|m: int| i < m < j ==> !((#[trigger] events[m]).topic == topics.cancel && events[m].account == k),
        exit_reduce(events.take(j), topics) is Ok,
    ensures
        exit_reduce(events.take(j), topics)->Ok_0.contains(k),
    decreases j - i,
{
    let t = events.take(j);
    assert(t.drop_last() =~= events.take(j - 1));
    assert(t.last() == events[j - 1]);
    let e = events[j - 1];
    if exit_reduce(events.take(j - 1), topics) is Err {
        assert(exit_reduce(t, topics) is Err);
    } else {
        let st = exit_reduce(events.take(j - 1), topics)->Ok_0;
        let p = crate::reconcile::position(st, e.account);
        if j - 1 == i {
            assert(st.push(k)[st.len() as int] == k);
        } else {
            lemma_exit_stays_pending(events, topics, k, i, j - 1);
            let w = choose|w: int| 0 <= w < st.len() && st[w] == k;
            if e.topic == topics.action {
                assert(st.push(e.account)[w] == k);
            } else if e.topic == topics.cancel {
                assert(e.account != k);
                lemma_position_holds(st, e.account);
                let r = st.remove(p);
                if w < p {
                    assert(r[w] == k);
                } else {
                    assert(w != p);
                    assert(r[w - 1] == k);
                }
            }
        }
    }
}

/// Two exit requests for one account in one batch, with no cancellation for
/// that account between them, fail with the double-exit error once every
/// event before the second request reduces without error.
pub proof fn lemma_double_exit_in_stream(events: Seq<Event>, topics: EventTopics, k: u32, i: int, j: int)
    requires
        0 <= i < j < events.len(),
        events[i].topic == topics.action,
        events[j].topic == topics.action,
        events[i].account == k,
        events[j].account == k,
        forall|m: int| i < m < j ==> !((#[trigger] events[m]).topic == topics.cancel && events[m].account == k),
        exit_reduce(events.take(j), topics) is Ok,
    ensures
        exit_reduce(events, topics) == Err::<Seq<u32>, DataRestoreError>(DataRestoreError::DoubleExit),
{
    lemma_exit_stays_pending(events, topics, k, i, j);
    let st = exit_reduce(events.take(j), topics)->Ok_0;
    lemma_contains_has_position(st, k);
    let t = events.take(j + 1);
    assert(t.drop_last() =~= events.take(j));
    assert(t.last() == events[j]);
    crate::reconcile::lemma_exit_err_extends(events, topics, j + 1);
}

/// A successful transfer takes amount plus fee from the sender and raises
/// its nonce by one; unless the recipient is the zero id, the recipient
/// gains the amount, so the two accounts together lose exactly the fee
/// (on a transfer to oneself, the account loses the fee). No other account
/// changes.
pub proof fn lemma_transfer_conserves(m: Map<u32, AccountModel>, tx: TransferTx, m2: Map<u32, AccountModel>)
    requires
        transfer_step(m, tx) == Ok::<Map<u32, AccountModel>, DataRestoreError>(m2),
    ensures
        m2.contains_key(tx.from),
        m2.contains_key(tx.to),
        m2[tx.from].nonce == m[tx.from].nonce + 1,
        tx.from != tx.to ==> m2[tx.from].balance == m[tx.from].balance - tx.amount - tx.fee,
        tx.from != tx.to && tx.to != 0 ==> m2[tx.to].balance == (if m.contains_key(tx.to) {
            m[tx.to].balance
        } else {
            0
        }) + tx.amount,
        tx.to != 0 ==> pair_balance(m2, tx.from, tx.to) == pair_balance(m, tx.from, tx.to) - tx.fee,
        forall|k: u32| k != tx.from && k != tx.to ==> (#[trigger] m2.contains_key(k) == m.contains_key(k) && m2[k] == m[k]),
{
}

/// The balance of `a` and `b` together (counted once when they are the same
/// id), an absent account counting zero.
pub open spec fn pair_balance(m: Map<u32, AccountModel>, a: u32, b: u32) -> int {
    let ba: int = if m.contains_key(a) { m[a].balance as int } else { 0 };
    let bb: int = if m.contains_key(b) { m[b].balance as int } else { 0 };
    if a == b { ba } else { ba + bb }
}

/// A transfer whose sender has less than amount plus fee fails with the
/// insufficient-balance error (and the applier then changes no account).
pub proof fn lemma_insufficient_balance(m: Map<u32, AccountModel>, tx: TransferTx)
    requires
        m.contains_key(tx.from),
        m[tx.from].balance < tx.amount + tx.fee,
    ensures
        transfer_step(m, tx) == Err::<Map<u32, AccountModel>, DataRestoreError>(DataRestoreError::WrongAmount),
{
}

/// After a full exit the account is absent, and a later deposit to the same
/// id creates a fresh account: nonce 0 and the deposit's public key.
pub proof fn lemma_exit_then_fresh_deposit(m: Map<u32, AccountModel>, e: ExitTx, m2: Map<u32, AccountModel>, d: DepositModel)
    requires
        exit_step(m, e) == Ok::<Map<u32, AccountModel>, DataRestoreError>(m2),
        d.account == e.account,
    ensures
        !m2.contains_key(e.account),
        deposit_step(m2, d) == m2.insert(
            d.account,
            AccountModel { balance: d.amount, nonce: 0, pub_x: d.pub_x, pub_y: d.pub_y },
        ),
{
}

/// A transfer block of a 160-byte header and two 9-byte records decodes to
/// two records, with nonces 0 and 1, read from the documented offsets.
pub proof fn lemma_two_records(data: Seq<u8>)
    requires
        data.len() == 178,
    ensures
        record_count(data) == 2,
        record_at(data, 0).nonce == 0,
        record_at(data, 1).nonce == 1,
        record_at(data, 0).from == data[160] as nat * 65536 + data[161] as nat * 256 + data[162] as nat,
        record_at(data, 1).to == data[172] as nat * 65536 + data[173] as nat * 256 + data[174] as nat,
        record_at(data, 1).packed_amount == data[175] as nat * 256 + data[176] as nat,
        record_at(data, 1).packed_fee == data[177],
{
}

/// Packing a y coordinate below 2^255 with an x sign and reading the pair
/// back gives the same sign and y. The deposit built from such a key then
/// carries that y, and the x of the curve point with that y and x sign.
pub proof fn lemma_key_round_trip(y: Word, sign: bool, e: EntryModel)
    requires
        y.hi < 0x8000_0000_0000_0000_0000_0000_0000_0000,
        e.key == pack_key(y, sign),
    ensures
        key_sign(pack_key(y, sign)) == sign,
        key_y(pack_key(y, sign)) == y,
        deposit_of_entry(e) matches Ok(tx) ==> tx.pub_y == y && jubjub_x_for(y, sign) == Some(tx.pub_x),
{
    let h = y.hi;
    assert((h | 0x8000_0000_0000_0000_0000_0000_0000_0000u128) >> 127u128 == 1) by (bit_vector);
    assert((h | 0x8000_0000_0000_0000_0000_0000_0000_0000u128) & 0x7fff_ffff_ffff_ffff_ffff_ffff_ffff_ffffu128 == h) by (bit_vector)
        requires h < 0x8000_0000_0000_0000_0000_0000_0000_0000u128;
    assert(h >> 127u128 == 0) by (bit_vector)
        requires h < 0x8000_0000_0000_0000_0000_0000_0000_0000u128;
    assert(h & 0x7fff_ffff_ffff_ffff_ffff_ffff_ffff_ffffu128 == h) by (bit_vector)
        requires h < 0x8000_0000_0000_0000_0000_0000_0000_0000u128;
}

} // verus!
