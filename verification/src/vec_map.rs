use vstd::prelude::*;

use crate::types::{DocumentId, SchemaAttr};

verus! {

/// A key of a [`VecMap`]: it has an abstract value, and two keys are tested
/// for equality by their abstract values.
pub trait MapKey: Sized {
    /// The abstract value of a key.
    type Key;

    spec fn key(&self) -> Self::Key;

    fn same_key(&self, other: &Self) -> (r: bool)
        ensures
            r == (self.key() == other.key()),
    ;
}

impl MapKey for u64 {
    type Key = u64;

    open spec fn key(&self) -> u64 {
        *self
    }

    fn same_key(&self, other: &Self) -> (r: bool) {
        *self == *other
    }
}

impl MapKey for DocumentId {
    type Key = u64;

    open spec fn key(&self) -> u64 {
        self.0
    }

    fn same_key(&self, other: &Self) -> (r: bool) {
        self.0 == other.0
    }
}

impl MapKey for SchemaAttr {
    type Key = u16;

    open spec fn key(&self) -> u16 {
        self.0
    }

    fn same_key(&self, other: &Self) -> (r: bool) {
        self.0 == other.0
    }
}

impl MapKey for (DocumentId, SchemaAttr) {
    type Key = (u64, u16);

    open spec fn key(&self) -> (u64, u16) {
        (self.0.0, self.1.0)
    }

    fn same_key(&self, other: &Self) -> (r: bool) {
        self.0.0 == other.0.0 && self.1.0 == other.1.0
    }
}

impl MapKey for Vec<u8> {
    type Key = Seq<u8>;

    open spec fn key(&self) -> Seq<u8> {
        self@
    }

    fn same_key(&self, other: &Self) -> (r: bool) {
        bytes_eq(self, other)
    }
}

/// Whether two byte strings are equal.
pub fn bytes_eq(a: &Vec<u8>, b: &Vec<u8>) -> (r: bool)
    ensures
        r == (a@ == b@),
{
    if a.len() != b.len() {
        return false;
    }
    let n = a.len();
    let mut i: usize = 0;
    while i < n
        invariant
            n == a@.len(),
            n == b@.len(),
            i <= n,
            forall|j: int| 0 <= j < i ==> a@[j] == b@[j],
        decreases n - i,
    {
        if a[i] != b[i] {
            return false;
        }
        i = i + 1;
    }
    assert(a@ =~= b@);
    true
}

/// A map held as a vector of entries whose keys are distinct.
pub struct VecMap<K, V> {
    entries: Vec<(K, V)>,
}

impl<K: MapKey, V> VecMap<K, V> {
    /// The abstract keys of the entries, in the order of the entries.
    pub closed spec fn keys(&self) -> Seq<K::Key> {
        self.entries@.map_values(|e: (K, V)| e.0.key())
    }

    /// The values of the entries, in the order of the entries.
    pub closed spec fn values(&self) -> Seq<V> {
        self.entries@.map_values(|e: (K, V)| e.1)
    }

    /// No two entries have the same key.
    pub closed spec fn wf(&self) -> bool {
        self.keys().no_duplicates()
    }

    /// The map that the entries hold.
    pub closed spec fn map(&self) -> Map<K::Key, V> {
        Map::new(
            |k: K::Key| self.keys().contains(k),
            |k: K::Key| self.values()[self.keys().index_of(k)],
        )
    }

    /// The map holds the entries, and the keys are those of the map.
    pub proof fn lemma_entries(&self)
        requires
            self.wf(),
        ensures
            self.keys().len() == self.values().len(),
            forall|i: int| 0 <= i < self.keys().len() ==> #[trigger] self.map().contains_key(self.keys()[i]),
            forall|i: int| 0 <= i < self.keys().len() ==> self.map()[self.keys()[i]] == #[trigger] self.values()[i],
            forall|k: K::Key| #[trigger] self.map().contains_key(k) ==> self.keys().contains(k),
            self.map().dom() =~= self.keys().to_set(),
            self.map().dom().finite(),
            self.map().len() == self.keys().len(),
    {
        assert forall|i: int| 0 <= i < self.keys().len() implies self.map()[self.keys()[i]] == #[trigger] self.values()[i] by {
            assert(self.keys().contains(self.keys()[i]));
            let j = self.keys().index_of(self.keys()[i]);
            assert(self.keys()[j] == self.keys()[i]);
        }
        assert forall|i: int| 0 <= i < self.keys().len() implies #[trigger] self.map().contains_key(self.keys()[i]) by {
            assert(self.keys().contains(self.keys()[i]));
        }
        self.keys().unique_seq_to_set();
    }

    pub fn new() -> (r: Self)
        ensures
            r.wf(),
            r.map() =~= Map::<K::Key, V>::empty(),
            r.keys() =~= Seq::<K::Key>::empty(),
    {
        VecMap { entries: Vec::new() }
    }

    /// The number of entries.
    pub fn len(&self) -> (r: usize)
        requires
            self.wf(),
        ensures
            r == self.keys().len(),
            r == self.map().len(),
    {
        proof { self.lemma_entries(); }
        self.entries.len()
    }

    /// The key of the entry at `i`.
    pub fn key_at(&self, i: usize) -> (r: &K)
        requires
            i < self.keys().len(),
        ensures
            r.key() == self.keys()[i as int],
    {
        &self.entries[i].0
    }

    /// The value of the entry at `i`.
    pub fn value_at(&self, i: usize) -> (r: &V)
        requires
            i < self.keys().len(),
        ensures
            *r == self.values()[i as int],
    {
        &self.entries[i].1
    }

    /// The position of the entry of a key.
    pub fn find(&self, k: &K) -> (r: Option<usize>)
        requires
            self.wf(),
        ensures
            match r {
                Some(i) => i < self.keys().len() && self.keys()[i as int] == k.key(),
                None => !self.map().contains_key(k.key()),
            },
    {
        let n = self.entries.len();
        let mut i: usize = 0;
        while i < n
            invariant
                n == self.entries@.len(),
                i <= n,
                forall|j: int| 0 <= j < i ==> self.keys()[j] != k.key(),
            decreases n - i,
        {
            if self.entries[i].0.same_key(k) {
                return Some(i);
            }
            i = i + 1;
        }
        None
    }

    /// The value of a key.
    pub fn get(&self, k: &K) -> (r: Option<&V>)
        requires
            self.wf(),
        ensures
            match r {
                Some(v) => self.map().contains_key(k.key()) && *v == self.map()[k.key()],
                None => !self.map().contains_key(k.key()),
            },
    {
        proof { self.lemma_entries(); }
        match self.find(k) {
            Some(i) => Some(&self.entries[i].1),
            None => None,
        }
    }

    /// Sets the value of a key.
    pub fn insert(&mut self, k: K, v: V)
        requires
            old(self).wf(),
        ensures
            final(self).wf(),
            final(self).map() =~= old(self).map().insert(k.key(), v),
    {
        proof { self.lemma_entries(); }
        let ghost kk = k.key();
        match self.find(&k) {
            Some(i) => {
                let ghost old_keys = self.keys();
                let ghost old_values = self.values();
                self.entries.set(i, (k, v));
                assert(self.keys() =~= old_keys.update(i as int, kk));
                assert(self.values() =~= old_values.update(i as int, v));
                assert(self.keys() =~= old_keys);
                proof { self.lemma_entries(); }
                assert forall|key: K::Key| #[trigger] self.map().contains_key(key) == old(self).map().insert(kk, v).contains_key(key) by {}
                assert forall|key: K::Key| #[trigger] self.map().contains_key(key) implies self.map()[key] == old(self).map().insert(kk, v)[key] by {
                    let j = self.keys().index_of(key);
                    assert(self.map()[self.keys()[j]] == self.values()[j]);
                    if j != i {
                        assert(old(self).map()[old_keys[j]] == old_values[j]);
                    }
                }
            },
            None => {
                let ghost old_keys = self.keys();
                let ghost old_values = self.values();
                self.entries.push((k, v));
                assert(self.keys() =~= old_keys.push(kk));
                assert(self.values() =~= old_values.push(v));
                proof { self.lemma_entries(); }
                assert forall|key: K::Key| #[trigger] self.map().contains_key(key) == old(self).map().insert(kk, v).contains_key(key) by {
                    if old_keys.contains(key) {
                        let j = old_keys.index_of(key);
                        assert(self.keys()[j] == key);
                    }
                    if key == kk {
                        assert(self.keys()[old_keys.len() as int] == key);
                    }
                }
                assert forall|key: K::Key| #[trigger] self.map().contains_key(key) implies self.map()[key] == old(self).map().insert(kk, v)[key] by {
                    let j = self.keys().index_of(key);
                    assert(self.map()[self.keys()[j]] == self.values()[j]);
                    if j < old_keys.len() {
                        assert(old(self).map()[old_keys[j]] == old_values[j]);
                    }
                }
            },
        }
    }

    /// Removes the entry of a key and hands its value out.
    pub fn remove(&mut self, k: &K) -> (r: Option<V>)
        requires
            old(self).wf(),
        ensures
            final(self).wf(),
            final(self).map() =~= old(self).map().remove(k.key()),
            match r {
                Some(v) => old(self).map().contains_key(k.key()) && v == old(self).map()[k.key()],
                None => !old(self).map().contains_key(k.key()),
            },
    {
        proof { self.lemma_entries(); }
        let ghost kk = k.key();
        match self.find(k) {
            Some(i) => {
                let ghost old_keys = self.keys();
                let ghost old_values = self.values();
                let (_, v) = self.entries.remove(i);
                assert(self.keys() =~= old_keys.remove(i as int));
                assert(self.values() =~= old_values.remove(i as int));
                assert(self.wf()) by {
                    assert forall|a: int, b: int| 0 <= a < b < self.keys().len() implies self.keys()[a] != self.keys()[b] by {
                        let a2 = if a < i { a } else { a + 1 };
                        let b2 = if b < i { b } else { b + 1 };
                        assert(old_keys[a2] != old_keys[b2]);
                    }
                }
                proof { self.lemma_entries(); }
                assert forall|key: K::Key| #[trigger] self.map().contains_key(key) == old(self).map().remove(kk).contains_key(key) by {
                    if old_keys.contains(key) && key != kk {
                        let j = old_keys.index_of(key);
                        if j < i {
                            assert(self.keys()[j] == key);
                        } else {
                            assert(j != i);
                            assert(self.keys()[j - 1] == key);
                        }
                    }
                    if self.keys().contains(key) {
                        let j = self.keys().index_of(key);
                        if j < i {
                            assert(old_keys[j] == key);
                        } else {
                            assert(old_keys[j + 1] == key);
                            assert(old_keys[i as int] == kk);
                        }
                    }
                }
                assert forall|key: K::Key| #[trigger] self.map().contains_key(key) implies self.map()[key] == old(self).map().remove(kk)[key] by {
                    let j = self.keys().index_of(key);
                    assert(self.map()[self.keys()[j]] == self.values()[j]);
                    if j < i {
                        assert(old(self).map()[old_keys[j]] == old_values[j]);
                    } else {
                        assert(old(self).map()[old_keys[j + 1]] == old_values[j + 1]);
                    }
                }
                assert(old(self).map()[kk] == old_values[i as int]);
                Some(v)
            },
            None => None,
        }
    }
}

impl<V> VecMap<u64, V> {
    /// The greatest key, if there is one.
    pub fn max_key(&self) -> (r: Option<u64>)
        requires
            self.wf(),
        ensures
            match r {
                Some(n) => self.map().contains_key(n) && forall|k: u64| #[trigger] self.map().contains_key(k) ==> k <= n,
                None => self.map().dom() =~= Set::<u64>::empty(),
            },
    {
        proof { self.lemma_entries(); }
        let n = self.entries.len();
        let mut best: Option<u64> = None;
        let mut i: usize = 0;
        while i < n
            invariant
                n == self.keys().len(),
                i <= n,
                self.wf(),
                match best {
                    Some(b) => (exists|j: int| 0 <= j < i && self.keys()[j] == b)
                        && forall|j: int| 0 <= j < i ==> #[trigger] self.keys()[j] <= b,
                    None => i == 0,
                },
            decreases n - i,
        {
            let k = self.entries[i].0;
            assert(k == self.keys()[i as int]);
            match best {
                Some(b) => {
                    if k > b {
                        best = Some(k);
                    }
                },
                None => {
                    best = Some(k);
                },
            }
            i = i + 1;
        }
        proof { self.lemma_entries(); }
        match best {
            Some(b) => {
                assert forall|k: u64| #[trigger] self.map().contains_key(k) implies k <= b by {
                    let j = self.keys().index_of(k);
                    assert(self.keys()[j] <= b);
                }
                proof {
                    let j = choose|j: int| 0 <= j < n && self.keys()[j] == b;
                    assert(self.map().contains_key(self.keys()[j]));
                }
            },
            None => {
                assert forall|k: u64| !#[trigger] self.map().contains_key(k) by {
                    if self.map().contains_key(k) {
                        assert(self.keys().contains(k));
                    }
                }
            },
        }
        best
    }
}

} // verus!
