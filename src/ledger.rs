use vstd::prelude::*;
use crate::types::{Account, AccountModel};

verus! {

/// The accounts of the ledger, keyed by account id. Ids are unique.
pub struct Ledger {
    items: Vec<(u32, Account)>,
}

/// No id occurs twice in `s`.
pub open spec fn ids_unique(s: Seq<(u32, Account)>) -> bool {
    forall|i: int, j: int| 0 <= i < j < s.len() ==> (#[trigger] s[i]).0 != (#[trigger] s[j]).0
}

/// The mapping from id to account that a list of entries holds.
pub open spec fn entries_map(s: Seq<(u32, Account)>) -> Map<u32, AccountModel> {
    Map::new(
        |k: u32| exists|i: int| 0 <= i < s.len() && (#[trigger] s[i]).0 == k,
        |k: u32| s[choose|i: int| 0 <= i < s.len() && (#[trigger] s[i]).0 == k].1@,
    )
}

proof fn lemma_entry(s: Seq<(u32, Account)>, i: int)
    requires
        ids_unique(s),
        0 <= i < s.len(),
    ensures
        entries_map(s).contains_key(s[i].0),
        entries_map(s)[s[i].0] == s[i].1@,
{
    let k = s[i].0;
    assert(0 <= i < s.len() && s[i].0 == k);
    let c = choose|c: int| 0 <= c < s.len() && (#[trigger] s[c]).0 == k;
    if c != i {
        if c < i {
            assert(s[c].0 != s[i].0);
        } else {
            assert(s[i].0 != s[c].0);
        }
    }
}

proof fn lemma_set(s: Seq<(u32, Account)>, i: int, a: Account)
    requires
        ids_unique(s),
        0 <= i < s.len(),
    ensures
        ids_unique(s.update(i, (s[i].0, a))),
        entries_map(s.update(i, (s[i].0, a))) == entries_map(s).insert(s[i].0, a@),
{
    let t = s.update(i, (s[i].0, a));
    assert(ids_unique(t)) by {
        assert forall|x: int, y: int| 0 <= x < y < t.len() implies (#[trigger] t[x]).0 != (#[trigger] t[y]).0 by {
            assert(t[x].0 == s[x].0 && t[y].0 == s[y].0);
        }
    }
    let m = entries_map(s).insert(s[i].0, a@);
    assert forall|k: u32| #[trigger] entries_map(t).contains_key(k) == m.contains_key(k) by {
        if m.contains_key(k) {
            if k == s[i].0 {
                assert(t[i].0 == k);
            } else {
                let c = choose|c: int| 0 <= c < s.len() && (#[trigger] s[c]).0 == k;
                assert(t[c].0 == k);
            }
        }
        if entries_map(t).contains_key(k) {
            let c = choose|c: int| 0 <= c < t.len() && (#[trigger] t[c]).0 == k;
            assert(s[c].0 == k);
        }
    }
    assert forall|k: u32| #[trigger] entries_map(t).contains_key(k) implies entries_map(t)[k] == m[k] by {
        let c = choose|c: int| 0 <= c < t.len() && (#[trigger] t[c]).0 == k;
        lemma_entry(t, c);
        lemma_entry(s, c);
    }
    assert(entries_map(t) =~= m);
}

proof fn lemma_push(s: Seq<(u32, Account)>, k: u32, a: Account)
    requires
        ids_unique(s),
        !entries_map(s).contains_key(k),
    ensures
        ids_unique(s.push((k, a))),
        entries_map(s.push((k, a))) == entries_map(s).insert(k, a@),
{
    let t = s.push((k, a));
    assert(ids_unique(t)) by {
        assert forall|x: int, y: int| 0 <= x < y < t.len() implies (#[trigger] t[x]).0 != (#[trigger] t[y]).0 by {
            if y == s.len() {
                assert(s[x].0 == t[x].0);
            } else {
                assert(t[x] == s[x] && t[y] == s[y]);
            }
        }
    }
    let m = entries_map(s).insert(k, a@);
    assert forall|q: u32| #[trigger] entries_map(t).contains_key(q) == m.contains_key(q) by {
        if m.contains_key(q) {
            if q == k {
                assert(t[s.len() as int].0 == q);
            } else {
                let c = choose|c: int| 0 <= c < s.len() && (#[trigger] s[c]).0 == q;
                assert(t[c].0 == q);
            }
        }
        if entries_map(t).contains_key(q) {
            let c = choose|c: int| 0 <= c < t.len() && (#[trigger] t[c]).0 == q;
            if c < s.len() {
                assert(s[c].0 == q);
            }
        }
    }
    assert forall|q: u32| #[trigger] entries_map(t).contains_key(q) implies entries_map(t)[q] == m[q] by {
        let c = choose|c: int| 0 <= c < t.len() && (#[trigger] t[c]).0 == q;
        lemma_entry(t, c);
        if c < s.len() {
            lemma_entry(s, c);
        }
    }
    assert(entries_map(t) =~= m);
}

proof fn lemma_remove(s: Seq<(u32, Account)>, i: int)
    requires
        ids_unique(s),
        0 <= i < s.len(),
    ensures
        ids_unique(s.remove(i)),
        entries_map(s.remove(i)) == entries_map(s).remove(s[i].0),
{
    let t = s.remove(i);
    let k = s[i].0;
    assert forall|x: int| 0 <= x < t.len() implies #[trigger] t[x] == (if x < i { s[x] } else { s[x + 1] }) by {}
    assert(ids_unique(t)) by {
        assert forall|x: int, y: int| 0 <= x < y < t.len() implies (#[trigger] t[x]).0 != (#[trigger] t[y]).0 by {
            let sx = if x < i { x } else { x + 1 };
            let sy = if y < i { y } else { y + 1 };
            assert(t[x] == s[sx] && t[y] == s[sy]);
        }
    }
    let m = entries_map(s).remove(k);
    assert forall|q: u32| #[trigger] entries_map(t).contains_key(q) == m.contains_key(q) by {
        if m.contains_key(q) {
            let c = choose|c: int| 0 <= c < s.len() && (#[trigger] s[c]).0 == q;
            assert(c != i);
            let tc = if c < i { c } else { c - 1 };
            assert(t[tc] == s[c]);
        }
        if entries_map(t).contains_key(q) {
            let c = choose|c: int| 0 <= c < t.len() && (#[trigger] t[c]).0 == q;
            let sc = if c < i { c } else { c + 1 };
            assert(t[c] == s[sc]);
            assert(s[sc].0 == q);
            assert(sc != i ==> s[sc].0 != s[i].0);
        }
    }
    assert forall|q: u32| #[trigger] entries_map(t).contains_key(q) implies entries_map(t)[q] == m[q] by {
        let c = choose|c: int| 0 <= c < t.len() && (#[trigger] t[c]).0 == q;
        let sc = if c < i { c } else { c + 1 };
        assert(t[c] == s[sc]);
        lemma_entry(t, c);
        lemma_entry(s, sc);
    }
    assert(entries_map(t) =~= m);
}

impl View for Ledger {
    type V = Map<u32, AccountModel>;

    closed spec fn view(&self) -> Map<u32, AccountModel> {
        entries_map(self.items@)
    }
}

impl Ledger {
    pub closed spec fn wf(&self) -> bool {
        ids_unique(self.items@)
    }

    /// An empty ledger.
    pub fn new() -> (r: Ledger)
        ensures
            r.wf(),
            r@ == Map::<u32, AccountModel>::empty(),
    {
        let r = Ledger { items: Vec::new() };
        assert(r@ =~= Map::<u32, AccountModel>::empty());
        r
    }

    fn find(&self, id: u32) -> (r: Option<usize>)
        requires
            self.wf(),
        ensures
            r matches Some(i) ==> i < self.items@.len() && self.items@[i as int].0 == id,
            r is None ==> !self@.contains_key(id),
    {
        let mut i: usize = 0;
        while i < self.items.len()
            invariant
                0 <= i <= self.items@.len(),
                forall|j: int| 0 <= j < i ==> (#[trigger] self.items@[j]).0 != id,
            decreases self.items.len() - i,
        {
            if self.items[i].0 == id {
                return Some(i);
            }
            i = i + 1;
        }
        None
    }

    /// The account with id `id`, if there is one.
    pub fn get(&self, id: u32) -> (r: Option<Account>)
        requires
            self.wf(),
        ensures
            match r {
                Some(a) => self@.contains_key(id) && a@ == self@[id],
                None => !self@.contains_key(id),
            },
    {
        match self.find(id) {
            Some(i) => {
                proof {
                    lemma_entry(self.items@, i as int);
                }
                Some(self.items[i].1.copy())
            },
            None => None,
        }
    }

    /// Sets the account with id `id`.
    pub fn insert(&mut self, id: u32, account: Account)
        requires
            old(self).wf(),
        ensures
            final(self).wf(),
            final(self)@ == old(self)@.insert(id, account@),
    {
        match self.find(id) {
            Some(i) => {
                proof {
                    lemma_set(self.items@, i as int, account);
                }
                self.items.set(i, (id, account));
                assert(self.items@ == old(self).items@.update(i as int, (old(self).items@[i as int].0, account)));
            },
            None => {
                proof {
                    lemma_push(self.items@, id, account);
                }
                self.items.push((id, account));
            },
        }
    }

    /// Removes the account with id `id`, if there is one.
    pub fn delete(&mut self, id: u32)
        requires
            old(self).wf(),
        ensures
            final(self).wf(),
            final(self)@ == old(self)@.remove(id),
    {
        match self.find(id) {
            Some(i) => {
                proof {
                    lemma_remove(self.items@, i as int);
                }
                self.items.remove(i);
            },
            None => {
                assert(self@.remove(id) =~= self@);
            },
        }
    }

    /// All accounts with their ids, each id once.
    pub fn get_accounts(&self) -> (r: Vec<(u32, Account)>)
        requires
            self.wf(),
        ensures
            ids_unique(r@),
            entries_map(r@) == self@,
    {
        let mut out: Vec<(u32, Account)> = Vec::new();
        let mut i: usize = 0;
        while i < self.items.len()
            invariant
                0 <= i <= self.items@.len(),
                out@.len() == i,
                forall|j: int| 0 <= j < i ==> (#[trigger] out@[j]).0 == self.items@[j].0 && out@[j].1@ == self.items@[j].1@,
            decreases self.items.len() - i,
        {
            let id = self.items[i].0;
            let account = self.items[i].1.copy();
            out.push((id, account));
            i = i + 1;
        }
        proof {
            lemma_same_entries(self.items@, out@);
        }
        out
    }
}

/// Two entry lists with the same ids and account values, position by
/// position, hold the same mapping.
proof fn lemma_same_entries(s: Seq<(u32, Account)>, t: Seq<(u32, Account)>)
    requires
        ids_unique(s),
        s.len() == t.len(),
        forall|j: int| 0 <= j < s.len() ==> (#[trigger] t[j]).0 == s[j].0 && t[j].1@ == s[j].1@,
    ensures
        ids_unique(t),
        entries_map(t) == entries_map(s),
{
    assert(ids_unique(t)) by {
        assert forall|x: int, y: int| 0 <= x < y < t.len() implies (#[trigger] t[x]).0 != (#[trigger] t[y]).0 by {
            assert(s[x].0 != s[y].0);
        }
    }
    assert forall|k: u32| #[trigger] entries_map(t).contains_key(k) == entries_map(s).contains_key(k) by {
        if entries_map(s).contains_key(k) {
            let c = choose|c: int| 0 <= c < s.len() && (#[trigger] s[c]).0 == k;
            assert(t[c].0 == k);
        }
        if entries_map(t).contains_key(k) {
            let c = choose|c: int| 0 <= c < t.len() && (#[trigger] t[c]).0 == k;
            assert(s[c].0 == k);
        }
    }
    assert forall|k: u32| #[trigger] entries_map(t).contains_key(k) implies entries_map(t)[k] == entries_map(s)[k] by {
        let c = choose|c: int| 0 <= c < t.len() && (#[trigger] t[c]).0 == k;
        lemma_entry(t, c);
        lemma_entry(s, c);
    }
    assert(entries_map(t) =~= entries_map(s));
}

} // verus!
