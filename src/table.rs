//! A small keyed store: the host ledger's key-value storage, held in memory.
use vstd::prelude::*;

verus! {

/// A key that can be compared at run time.
pub trait TableKey: Copy + Sized {
    fn same(&self, other: &Self) -> (r: bool)
        ensures
            r == (*self == *other),
    ;
}

impl TableKey for u64 {
    fn same(&self, other: &Self) -> (r: bool) {
        *self == *other
    }
}

/// A user's holding of one token.
#[derive(Debug, Clone, Copy, PartialEq, Eq, Structural)]
pub struct AccountToken {
    pub user: u64,
    pub token: u64,
}

impl TableKey for AccountToken {
    fn same(&self, other: &Self) -> (r: bool) {
        self.user == other.user && self.token == other.token
    }
}

/// One of a user's announced keys.
#[derive(Debug, Clone, Copy, PartialEq, Eq, Structural)]
pub struct UserKeySlot {
    pub user: u64,
    pub key_id: u32,
}

impl TableKey for UserKeySlot {
    fn same(&self, other: &Self) -> (r: bool) {
        self.user == other.user && self.key_id == other.key_id
    }
}

/// Entries with distinct keys, in the order they were first written.
#[derive(Debug)]
pub struct Table<K, V> {
    entries: Vec<(K, V)>,
}

impl<K: TableKey, V: Copy> Table<K, V> {
    pub closed spec fn entries(&self) -> Seq<(K, V)> {
        self.entries@
    }

    pub open spec fn wf(&self) -> bool {
        forall|i: int, j: int|
            0 <= i < j < self.entries().len() ==> self.entries()[i].0 != self.entries()[j].0
    }

    /// The value stored under each key.
    pub open spec fn view(&self) -> Map<K, V> {
        Map::new(
            |k: K| exists|i: int| 0 <= i < self.entries().len() && self.entries()[i].0 == k,
            |k: K|
                self.entries()[choose|i: int|
                    0 <= i < self.entries().len() && self.entries()[i].0 == k].1,
        )
    }

    pub fn new() -> (r: Self)
        ensures
            r.wf(),
            r@ == Map::<K, V>::empty(),
    {
        let r = Table { entries: Vec::new() };
        proof {
            assert(r@ =~= Map::<K, V>::empty());
        }
        r
    }

    /// An independent copy holding the same entries.
    pub fn copy_table(&self) -> (r: Self)
        requires
            self.wf(),
        ensures
            r.wf(),
            r@ == self@,
    {
        let mut entries: Vec<(K, V)> = Vec::new();
        let mut i: usize = 0;
        while i < self.entries.len()
            invariant
                0 <= i <= self.entries@.len(),
                entries@ == self.entries@.take(i as int),
            decreases self.entries@.len() - i,
        {
            entries.push(self.entries[i]);
            proof {
                assert(self.entries@.take(i + 1) == self.entries@.take(i as int).push(self.entries@[i as int]));
            }
            i += 1;
        }
        proof {
            assert(self.entries@.take(i as int) == self.entries@);
        }
        let r = Table { entries };
        proof {
            assert(r.entries() == self.entries());
            assert(r@ =~= self@);
        }
        r
    }

    fn find(&self, key: &K) -> (r: Option<usize>)
        requires
            self.wf(),
        ensures
            r matches Some(i) ==> i < self.entries().len() && self.entries()[i as int].0 == *key,
            r is None ==> !self@.contains_key(*key),
    {
        let mut i: usize = 0;
        while i < self.entries.len()
            invariant
                0 <= i <= self.entries@.len(),
                forall|j: int| 0 <= j < i ==> self.entries@[j].0 != *key,
            decreases self.entries@.len() - i,
        {
            if self.entries[i].0.same(key) {
                return Some(i);
            }
            i += 1;
        }
        None
    }

    pub fn get(&self, key: &K) -> (r: Option<V>)
        requires
            self.wf(),
        ensures
            r == if self@.contains_key(*key) {
                Some(self@[*key])
            } else {
                None
            },
    {
        match self.find(key) {
            Some(i) => {
                proof {
                    assert(self@.contains_key(*key));
                    let c = choose|c: int| 0 <= c < self.entries().len() && self.entries()[c].0 == *key;
                    assert(c == i as int);
                }
                Some(self.entries[i].1)
            },
            None => None,
        }
    }

    pub fn set(&mut self, key: K, value: V)
        requires
            old(self).wf(),
        ensures
            final(self).wf(),
            final(self)@ == old(self)@.insert(key, value),
    {
        match self.find(&key) {
            Some(i) => {
                self.entries.set(i, (key, value));
                proof {
                    assert forall|k: K| #[trigger] self@.contains_key(k) == old(self)@.insert(key, value).contains_key(k) by {
                        if old(self)@.contains_key(k) {
                            let c = choose|c: int| 0 <= c < old(self).entries().len() && old(self).entries()[c].0 == k;
                            assert(self.entries()[c].0 == k);
                        }
                    }
                    assert forall|k: K| self@.contains_key(k) implies #[trigger] self@[k] == old(self)@.insert(key, value)[k] by {
                        let c = choose|c: int| 0 <= c < self.entries().len() && self.entries()[c].0 == k;
                        if k != key {
                            let d = choose|d: int| 0 <= d < old(self).entries().len() && old(self).entries()[d].0 == k;
                            assert(self.entries()[d].0 == k);
                        }
                    }
                    assert(self@ =~= old(self)@.insert(key, value));
                }
            },
            None => {
                self.entries.push((key, value));
                proof {
                    let n = old(self).entries().len() as int;
                    assert forall|k: K| #[trigger] self@.contains_key(k) == old(self)@.insert(key, value).contains_key(k) by {
                        if old(self)@.contains_key(k) {
                            let c = choose|c: int| 0 <= c < old(self).entries().len() && old(self).entries()[c].0 == k;
                            assert(self.entries()[c].0 == k);
                        }
                        if k == key {
                            assert(self.entries()[n].0 == k);
                        }
                    }
                    assert forall|k: K| self@.contains_key(k) implies #[trigger] self@[k] == old(self)@.insert(key, value)[k] by {
                        let c = choose|c: int| 0 <= c < self.entries().len() && self.entries()[c].0 == k;
                        if k != key {
                            let d = choose|d: int| 0 <= d < old(self).entries().len() && old(self).entries()[d].0 == k;
                            assert(self.entries()[d].0 == k);
                        } else {
                            assert(c == n);
                        }
                    }
                    assert(self@ =~= old(self)@.insert(key, value));
                }
            },
        }
    }
}

} // verus!
