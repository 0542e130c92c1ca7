use vstd::prelude::*;
use crate::amount::Amount;
use crate::types::{DataRestoreError, Event, EventTopics, Word};

verus! {

/// Ordering key of an event: `(block_number, log_index)`, lexicographic.
pub open spec fn key_le(a: Event, b: Event) -> bool {
    a.block_number < b.block_number || (a.block_number == b.block_number && a.log_index
        <= b.log_index)
}

pub open spec fn same_key(a: Event, b: Event) -> bool {
    a.block_number == b.block_number && a.log_index == b.log_index
}

pub open spec fn sorted_by_key(s: Seq<Event>) -> bool {
    forall|i: int, j: int| 0 <= i < j < s.len() ==> key_le(#[trigger] s[i], #[trigger] s[j])
}

/// Two distinct positions of `s` hold events with the same ordering key.
pub open spec fn has_duplicate_key(s: Seq<Event>) -> bool {
    exists|i: int, j: int| 0 <= i < j < s.len() && same_key(#[trigger] s[i], #[trigger] s[j])
}

/// The events that were not reorged away, in their order.
pub open spec fn retained(s: Seq<Event>) -> Seq<Event> {
    s.filter(|e: Event| !e.removed)
}

/// Relies on slice::sort_by_key (a stable sort): the result holds the same
/// events, ordered by `(block_number, log_index)`.
#[verifier::external_body]
fn sort_events(v: &mut Vec<Event>)
    ensures
        final(v)@.to_multiset() == old(v)@.to_multiset(),
        sorted_by_key(final(v)@),
{
    v.sort_by_key(|e| (e.block_number, e.log_index));
}

/// Concatenates the action and cancellation streams, drops the events that
/// were reorged away and sorts the rest by `(block_number, log_index)`.
/// Fails when two retained events share that key.
pub fn load_sorted_events(action_events: Vec<Event>, cancel_events: Vec<Event>) -> (r: Result<
    Vec<Event>,
    DataRestoreError,
>)
    ensures
        has_duplicate_key(retained(action_events@ + cancel_events@)) <==> r is Err,
        r is Err ==> r == Err::<Vec<Event>, DataRestoreError>(DataRestoreError::DuplicateLogIndex),
        r matches Ok(v) ==> v@.to_multiset() == retained(action_events@ + cancel_events@).to_multiset()
            && sorted_by_key(v@),
{
    let ghost all = action_events@ + cancel_events@;
    let mut kept: Vec<Event> = Vec::new();
    let n: usize = action_events.len();
    let mut i: usize = 0;
    while i < n
        invariant
            n == action_events.len(),
            all == action_events@ + cancel_events@,
            0 <= i <= n,
            kept@ == retained(all.take(i as int)),
        decreases n - i,
    {
        let e = action_events[i];
        proof {
            assert(all.take(i + 1).drop_last() =~= all.take(i as int));
            reveal(Seq::filter);
        }
        if !e.removed {
            kept.push(e);
        }
        i = i + 1;
    }
    let m: usize = cancel_events.len();
    let mut j: usize = 0;
    while j < m
        invariant
            n == action_events.len(),
            m == cancel_events.len(),
            all == action_events@ + cancel_events@,
            0 <= j <= m,
            kept@ == retained(all.take(n + j)),
        decreases m - j,
    {
        let e = cancel_events[j];
        proof {
            assert(all.take(n + j + 1).drop_last() =~= all.take(n + j));
            assert(all[n + j] == e);
            reveal(Seq::filter);
        }
        if !e.removed {
            kept.push(e);
        }
        j = j + 1;
    }
    assert(all.take(n + m) =~= all);
    if find_duplicate_key(&kept) {
        return Err(DataRestoreError::DuplicateLogIndex);
    }
    sort_events(&mut kept);
    Ok(kept)
}

/// Whether two positions of `v` hold events with the same ordering key.
pub fn find_duplicate_key(v: &Vec<Event>) -> (r: bool)
    ensures
        r == has_duplicate_key(v@),
{
    let n: usize = v.len();
    let mut i: usize = 0;
    while i < n
        invariant
            n == v.len(),
            0 <= i <= n,
            forall|a: int, b: int| 0 <= a < i && a < b < n ==> !same_key(#[trigger] v@[a], #[trigger] v@[b]),
        decreases n - i,
    {
        let mut j: usize = i + 1;
        while j < n
            invariant
                n == v.len(),
                0 <= i < n,
                i + 1 <= j <= n,
                forall|a: int, b: int| 0 <= a < i && a < b < n ==> !same_key(#[trigger] v@[a], #[trigger] v@[b]),
                forall|b: int| i < b < j ==> !same_key(v@[i as int], #[trigger] v@[b]),
            decreases n - j,
        {
            if v[i].block_number == v[j].block_number && v[i].log_index == v[j].log_index {
                assert(same_key(v@[i as int], v@[j as int]));
                return true;
            }
            j = j + 1;
        }
        i = i + 1;
    }
    false
}


/// The pending deposit of one account within a batch.
#[derive(Debug)]
pub struct DepositEntry {
    pub account: u32,
    pub amount: Amount,
    /// The packed public key of the first request.
    pub key: Word,
}

/// What a pending deposit holds, with its amount as a number.
pub struct EntryModel {
    pub account: u32,
    pub amount: nat,
    pub key: Word,
}

impl View for DepositEntry {
    type V = EntryModel;

    open spec fn view(&self) -> EntryModel {
        EntryModel { account: self.account, amount: self.amount@, key: self.key }
    }
}

/// The models of a list of pending deposits.
pub open spec fn entries_model(s: Seq<DepositEntry>) -> Seq<EntryModel> {
    Seq::new(s.len(), |i: int| s[i]@)
}

/// The account ids held by a list of pending deposits.
pub open spec fn entry_ids(s: Seq<EntryModel>) -> Seq<u32> {
    Seq::new(s.len(), |i: int| s[i].account)
}

/// `i` is the first position of `s` that holds `id`.
pub open spec fn first_at(s: Seq<u32>, id: u32, i: int) -> bool {
    0 <= i < s.len() && s[i] == id && forall|j: int| 0 <= j < i ==> #[trigger] s[j] != id
}

/// The first position of `s` that holds `id`, or -1.
pub open spec fn position(s: Seq<u32>, id: u32) -> int {
    if exists|i: int| first_at(s, id, i) {
        choose|i: int| first_at(s, id, i)
    } else {
        -1
    }
}

pub proof fn lemma_position(s: Seq<u32>, id: u32, i: int)
    requires
        first_at(s, id, i),
    ensures
        position(s, id) == i,
{
    let k = choose|k: int| first_at(s, id, k);
    assert(first_at(s, id, k));
    if k < i {
        assert(s[k] != id);
    } else if i < k {
        assert(s[i] != id);
    }
}

pub proof fn lemma_no_position(s: Seq<u32>, id: u32)
    requires
        forall|j: int| 0 <= j < s.len() ==> #[trigger] s[j] != id,
    ensures
        position(s, id) == -1,
{
}

/// One event applied to the pending deposits of a batch.
pub open spec fn deposit_step(s: Seq<EntryModel>, e: Event, topics: EventTopics) -> Result<
    Seq<EntryModel>,
    DataRestoreError,
> {
    let p = position(entry_ids(s), e.account);
    if e.topic == topics.action {
        if p >= 0 {
            Ok(s.update(p, EntryModel { amount: s[p].amount + e.amount.value(), ..s[p] }))
        } else {
            Ok(s.push(EntryModel { account: e.account, amount: e.amount.value(), key: e.key }))
        }
    } else if e.topic == topics.cancel {
        if p >= 0 {
            Ok(s.remove(p))
        } else {
            Err(DataRestoreError::MissingRecord)
        }
    } else {
        Err(DataRestoreError::UnexpectedTopic)
    }
}

/// The pending deposits left by a sorted event stream, in order of first request.
pub open spec fn deposit_reduce(events: Seq<Event>, topics: EventTopics) -> Result<
    Seq<EntryModel>,
    DataRestoreError,
>
    decreases events.len(),
{
    if events.len() == 0 {
        Ok(Seq::empty())
    } else {
        match deposit_reduce(events.drop_last(), topics) {
            Ok(s) => deposit_step(s, events.last(), topics),
            Err(err) => Err(err),
        }
    }
}

/// One event applied to the pending exits of a batch.
pub open spec fn exit_step(s: Seq<u32>, e: Event, topics: EventTopics) -> Result<
    Seq<u32>,
    DataRestoreError,
> {
    let p = position(s, e.account);
    if e.topic == topics.action {
        if p >= 0 {
            Err(DataRestoreError::DoubleExit)
        } else {
            Ok(s.push(e.account))
        }
    } else if e.topic == topics.cancel {
        if p >= 0 {
            Ok(s.remove(p))
        } else {
            Err(DataRestoreError::MissingRecord)
        }
    } else {
        Err(DataRestoreError::UnexpectedTopic)
    }
}

/// The accounts with a pending exit left by a sorted event stream.
pub open spec fn exit_reduce(events: Seq<Event>, topics: EventTopics) -> Result<
    Seq<u32>,
    DataRestoreError,
>
    decreases events.len(),
{
    if events.len() == 0 {
        Ok(Seq::empty())
    } else {
        match exit_reduce(events.drop_last(), topics) {
            Ok(s) => exit_step(s, events.last(), topics),
            Err(err) => Err(err),
        }
    }
}

proof fn lemma_deposit_err_extends(events: Seq<Event>, topics: EventTopics, k: int)
    requires
        0 <= k <= events.len(),
        deposit_reduce(events.take(k), topics) is Err,
    ensures
        deposit_reduce(events, topics) == deposit_reduce(events.take(k), topics),
    decreases events.len() - k,
{
    if k < events.len() {
        assert(events.take(k + 1).drop_last() =~= events.take(k));
        lemma_deposit_err_extends(events, topics, k + 1);
    } else {
        assert(events.take(k) =~= events);
    }
}

pub proof fn lemma_exit_err_extends(events: Seq<Event>, topics: EventTopics, k: int)
    requires
        0 <= k <= events.len(),
        exit_reduce(events.take(k), topics) is Err,
    ensures
        exit_reduce(events, topics) == exit_reduce(events.take(k), topics),
    decreases events.len() - k,
{
    if k < events.len() {
        assert(events.take(k + 1).drop_last() =~= events.take(k));
        lemma_exit_err_extends(events, topics, k + 1);
    } else {
        assert(events.take(k) =~= events);
    }
}

fn find_entry(s: &Vec<DepositEntry>, id: u32) -> (r: Option<usize>)
    ensures
        r matches Some(i) ==> i < s.len() && position(entry_ids(entries_model(s@)), id) == i as int,
        r is None ==> position(entry_ids(entries_model(s@)), id) == -1,
{
    let ghost ids = entry_ids(entries_model(s@));
    let mut i: usize = 0;
    while i < s.len()
        invariant
            0 <= i <= s.len(),
            ids == entry_ids(entries_model(s@)),
            forall|j: int| 0 <= j < i ==> #[trigger] ids[j] != id,
        decreases s.len() - i,
    {
        if s[i].account == id {
            proof {
                lemma_position(ids, id, i as int);
            }
            return Some(i);
        }
        i = i + 1;
    }
    proof {
        lemma_no_position(ids, id);
    }
    None
}

fn find_account(s: &Vec<u32>, id: u32) -> (r: Option<usize>)
    ensures
        r matches Some(i) ==> i < s.len() && position(s@, id) == i as int,
        r is None ==> position(s@, id) == -1,
{
    let mut i: usize = 0;
    while i < s.len()
        invariant
            0 <= i <= s.len(),
            forall|j: int| 0 <= j < i ==> #[trigger] s@[j] != id,
        decreases s.len() - i,
    {
        if s[i] == id {
            proof {
                lemma_position(s@, id, i as int);
            }
            return Some(i);
        }
        i = i + 1;
    }
    proof {
        lemma_no_position(s@, id);
    }
    None
}

/// Reduces a sorted stream of deposit and cancellation events to the net
/// pending deposit of each account.
pub fn reduce_deposit_events(events: &Vec<Event>, topics: EventTopics) -> (r: Result<
    Vec<DepositEntry>,
    DataRestoreError,
>)
    ensures
        match r {
            Ok(v) => deposit_reduce(events@, topics) == Ok::<Seq<EntryModel>, DataRestoreError>(entries_model(v@)),
            Err(err) => deposit_reduce(events@, topics) == Err::<Seq<EntryModel>, DataRestoreError>(err),
        },
{
    let mut state: Vec<DepositEntry> = Vec::new();
    let mut i: usize = 0;
    assert(entries_model(state@) =~= Seq::<EntryModel>::empty());
    assert(events@.take(0) =~= Seq::<Event>::empty());
    while i < events.len()
        invariant
            0 <= i <= events.len(),
            deposit_reduce(events@.take(i as int), topics) == Ok::<Seq<EntryModel>, DataRestoreError>(entries_model(state@)),
        decreases events.len() - i,
    {
        let e = events[i];
        proof {
            assert(events@.take(i + 1).drop_last() =~= events@.take(i as int));
            assert(events@.take(i + 1).last() == e);
        }
        let found = find_entry(&state, e.account);
        if e.topic == topics.action {
            match found {
                Some(p) => {
                    let sum = state[p].amount.add(&Amount::from_word(e.amount));
                    let entry = DepositEntry { account: state[p].account, amount: sum, key: state[p].key };
                    let ghost before = entries_model(state@);
                    state.set(p, entry);
                    assert(entries_model(state@) =~= before.update(p as int, EntryModel { amount: before[p as int].amount + e.amount.value(), ..before[p as int] }));
                },
                None => {
                    let ghost before = entries_model(state@);
                    state.push(DepositEntry { account: e.account, amount: Amount::from_word(e.amount), key: e.key });
                    assert(entries_model(state@) =~= before.push(EntryModel { account: e.account, amount: e.amount.value(), key: e.key }));
                },
            }
        } else if e.topic == topics.cancel {
            match found {
                Some(p) => {
                    let ghost before = entries_model(state@);
                    state.remove(p);
                    assert(entries_model(state@) =~= before.remove(p as int));
                },
                None => {
                    proof {
                        lemma_deposit_err_extends(events@, topics, i + 1);
                    }
                    return Err(DataRestoreError::MissingRecord);
                },
            }
        } else {
            proof {
                lemma_deposit_err_extends(events@, topics, i + 1);
            }
            return Err(DataRestoreError::UnexpectedTopic);
        }
        i = i + 1;
    }
    assert(events@.take(events@.len() as int) =~= events@);
    Ok(state)
}

/// Reduces a sorted stream of exit and cancellation events to the accounts
/// with a pending exit.
pub fn reduce_exit_events(events: &Vec<Event>, topics: EventTopics) -> (r: Result<
    Vec<u32>,
    DataRestoreError,
>)
    ensures
        match r {
            Ok(v) => exit_reduce(events@, topics) == Ok::<Seq<u32>, DataRestoreError>(v@),
            Err(err) => exit_reduce(events@, topics) == Err::<Seq<u32>, DataRestoreError>(err),
        },
{
    let mut state: Vec<u32> = Vec::new();
    let mut i: usize = 0;
    while i < events.len()
        invariant
            0 <= i <= events.len(),
            exit_reduce(events@.take(i as int), topics) == Ok::<Seq<u32>, DataRestoreError>(state@),
        decreases events.len() - i,
    {
        let e = events[i];
        proof {
            assert(events@.take(i + 1).drop_last() =~= events@.take(i as int));
            assert(events@.take(i + 1).last() == e);
        }
        let found = find_account(&state, e.account);
        if e.topic == topics.action {
            match found {
                Some(_) => {
                    proof {
                        lemma_exit_err_extends(events@, topics, i + 1);
                    }
                    return Err(DataRestoreError::DoubleExit);
                },
                None => {
                    state.push(e.account);
                },
            }
        } else if e.topic == topics.cancel {
            match found {
                Some(p) => {
                    state.remove(p);
                },
                None => {
                    proof {
                        lemma_exit_err_extends(events@, topics, i + 1);
                    }
                    return Err(DataRestoreError::MissingRecord);
                },
            }
        } else {
            proof {
                lemma_exit_err_extends(events@, topics, i + 1);
            }
            return Err(DataRestoreError::UnexpectedTopic);
        }
        i = i + 1;
    }
    assert(events@.take(events@.len() as int) =~= events@);
    Ok(state)
}


/// Two sequences holding the same events agree on whether two of their
/// events share an ordering key.
pub proof fn lemma_no_duplicate_key_permutes(r: Seq<Event>, s: Seq<Event>)
    requires
        r.to_multiset() == s.to_multiset(),
        !has_duplicate_key(r),
    ensures
        !has_duplicate_key(s),
{
    broadcast use vstd::seq_lib::group_to_multiset_ensures;

    assert(r.no_duplicates()) by {
        assert forall|i: int, j: int| 0 <= i < r.len() && 0 <= j < r.len() && i != j implies r[i] != r[j] by {
            if i < j {
                assert(!same_key(r[i], r[j]));
            } else {
                assert(!same_key(r[j], r[i]));
            }
        }
    }
    r.lemma_multiset_has_no_duplicates();
    s.lemma_multiset_has_no_duplicates_conv();
    if has_duplicate_key(s) {
        let (i, j) = choose|i: int, j: int| 0 <= i < j < s.len() && same_key(#[trigger] s[i], #[trigger] s[j]);
        r.to_multiset_ensures();
        s.to_multiset_ensures();
        assert(s.contains(s[i]) && s.contains(s[j]));
        assert(s.to_multiset().count(s[i]) > 0 && s.to_multiset().count(s[j]) > 0);
        assert(r.contains(s[i]) && r.contains(s[j]));
        let p = choose|p: int| 0 <= p < r.len() && r[p] == s[i];
        let q = choose|q: int| 0 <= q < r.len() && r[q] == s[j];
        assert(s[i] != s[j]);
        if p < q {
            assert(same_key(r[p], r[q]));
        } else {
            assert(same_key(r[q], r[p]));
        }
    }
}

/// Two sortings by `(block_number, log_index)` of the same events, whose
/// keys are distinct, are equal: a sorted stream is unique.
pub proof fn lemma_sorting_unique(s1: Seq<Event>, s2: Seq<Event>)
    requires
        s1.to_multiset() == s2.to_multiset(),
        sorted_by_key(s1),
        sorted_by_key(s2),
        !has_duplicate_key(s1),
    ensures
        s1 == s2,
    decreases s1.len(),
{
    broadcast use vstd::seq_lib::group_to_multiset_ensures;
    broadcast use vstd::multiset::group_multiset_axioms;

    s1.to_multiset_ensures();
    s2.to_multiset_ensures();
    assert(s1.len() == s2.len());
    if s1.len() == 0 {
        assert(s1 =~= s2);
    } else {
        let n = s1.len() - 1;
        let a = s1[n];
        let b = s2[n];
        assert(s1.contains(a));
        assert(s1.to_multiset().count(a) > 0);
        assert(s2.contains(a));
        assert(s2.contains(b));
        assert(s2.to_multiset().count(b) > 0);
        assert(s1.contains(b));
        let j = choose|j: int| 0 <= j < s2.len() && s2[j] == a;
        let i = choose|i: int| 0 <= i < s1.len() && s1[i] == b;
        if j < n {
            assert(key_le(s2[j], s2[n]));
        }
        if i < n {
            assert(key_le(s1[i], s1[n]));
            assert(same_key(s1[i], s1[n]));
            assert(false);
        }
        assert(a == b);
        let t1 = s1.drop_last();
        let t2 = s2.drop_last();
        assert(t1.push(a) =~= s1);
        assert(t2.push(a) =~= s2);
        assert(t1.to_multiset() =~= t2.to_multiset()) by {
            assert(t1.to_multiset().insert(a) == t2.to_multiset().insert(a));
            assert forall|x: Event| #[trigger] t1.to_multiset().count(x) == t2.to_multiset().count(x) by {
                assert(t1.to_multiset().insert(a).count(x) == t2.to_multiset().insert(a).count(x));
            }
        }
        assert(sorted_by_key(t1)) by {
            assert forall|x: int, y: int| 0 <= x < y < t1.len() implies key_le(#[trigger] t1[x], #[trigger] t1[y]) by {
                assert(key_le(s1[x], s1[y]));
            }
        }
        assert(sorted_by_key(t2)) by {
            assert forall|x: int, y: int| 0 <= x < y < t2.len() implies key_le(#[trigger] t2[x], #[trigger] t2[y]) by {
                assert(key_le(s2[x], s2[y]));
            }
        }
        assert(!has_duplicate_key(t1)) by {
            if has_duplicate_key(t1) {
                let (x, y) = choose|x: int, y: int| 0 <= x < y < t1.len() && same_key(#[trigger] t1[x], #[trigger] t1[y]);
                assert(same_key(s1[x], s1[y]));
            }
        }
        lemma_sorting_unique(t1, t2);
    }
}

} // verus!
