//! A small keyed table that remembers the order in which keys arrived.

use vstd::prelude::*;

verus! {

/// A key of a table: a value that is found again by its view.
pub trait Key: View + Sized {
    /// What holds of the view of every key of this type.
    spec fn legal(k: Self::V) -> bool;

    /// Whether two keys are the same: whether their views are equal.
    fn same_key(&self, other: &Self) -> (r: bool)
        ensures
            r == (self@ == other@),
    ;

    /// Does nothing; states that the view of this key is legal.
    fn witness(&self)
        ensures
            Self::legal(self@),
    ;
}

/// The mathematical model of a table: its keys in the order of their first
/// arrival, and the value under each key.
#[verifier::reject_recursive_types(K)]
pub struct TableModel<K, V> {
    pub keys: Seq<K>,
    pub map: Map<K, V>,
}

impl<K, V> TableModel<K, V> {
    /// No key occurs twice, and the keys are exactly those with a value.
    pub open spec fn wf(self) -> bool {
        &&& self.keys.no_duplicates()
        &&& forall|k: K| self.map.contains_key(k) <==> self.keys.contains(k)
    }

    /// The table without entries.
    pub open spec fn empty() -> Self {
        TableModel { keys: Seq::empty(), map: Map::empty() }
    }

    /// The table holds a value under `k`.
    pub open spec fn contains_key(self, k: K) -> bool {
        self.map.contains_key(k)
    }

    /// The table with `v` under `k`: a known key keeps its place, a new one
    /// comes last.
    pub open spec fn insert(self, k: K, v: V) -> Self {
        TableModel {
            keys: if self.map.contains_key(k) {
                self.keys
            } else {
                self.keys.push(k)
            },
            map: self.map.insert(k, v),
        }
    }

    /// The table without `k`; the other keys keep their order.
    pub open spec fn remove(self, k: K) -> Self {
        TableModel {
            keys: if self.map.contains_key(k) {
                self.keys.remove(self.keys.index_of(k))
            } else {
                self.keys
            },
            map: self.map.remove(k),
        }
    }
}

/// Inserting keeps a table well formed.
pub proof fn insert_keeps_wf<K, V>(m: TableModel<K, V>, k: K, v: V)
    requires
        m.wf(),
    ensures
        m.insert(k, v).wf(),
{
    let n = m.insert(k, v);
    if !m.map.contains_key(k) {
        assert(!m.keys.contains(k));
        assert forall|i: int, j: int|
            0 <= i < n.keys.len() && 0 <= j < n.keys.len() && i != j implies n.keys[i]
            != n.keys[j] by {
            if i < m.keys.len() {
                assert(m.keys.contains(m.keys[i]));
            }
            if j < m.keys.len() {
                assert(m.keys.contains(m.keys[j]));
            }
        }
        assert forall|x: K| n.map.contains_key(x) <==> n.keys.contains(x) by {
            if m.keys.contains(x) {
                let i = choose|i: int| 0 <= i < m.keys.len() && m.keys[i] == x;
                assert(n.keys[i] == x);
            }
            if x == k {
                assert(n.keys[m.keys.len() as int] == k);
            }
        }
    }
}

/// Putting the same value under the same key twice is putting it once.
pub proof fn insert_twice<K, V>(m: TableModel<K, V>, k: K, v: V)
    ensures
        m.insert(k, v).insert(k, v) == m.insert(k, v),
{
    assert(m.insert(k, v).map.insert(k, v) =~= m.insert(k, v).map);
}

/// Removing keeps a table well formed.
pub proof fn remove_keeps_wf<K, V>(m: TableModel<K, V>, k: K)
    requires
        m.wf(),
    ensures
        m.remove(k).wf(),
{
    let n = m.remove(k);
    if m.map.contains_key(k) {
        let at = m.keys.index_of(k);
        assert(m.keys.contains(k));
        assert(0 <= at < m.keys.len() && m.keys[at] == k);
        assert forall|x: K| n.map.contains_key(x) <==> n.keys.contains(x) by {
            if n.keys.contains(x) {
                let i = choose|i: int| 0 <= i < n.keys.len() && n.keys[i] == x;
                if i < at {
                    assert(m.keys[i] == x);
                } else {
                    assert(m.keys[i + 1] == x);
                }
            }
            if m.keys.contains(x) && x != k {
                let i = choose|i: int| 0 <= i < m.keys.len() && m.keys[i] == x;
                if i < at {
                    assert(n.keys[i] == x);
                } else {
                    assert(n.keys[i - 1] == x);
                }
            }
        }
    }
}

/// A table from keys to values, searched by the view of the key.
pub struct Table<K: Key, V: View> {
    entries: Vec<(K, V)>,
}

impl<K: Key, V: View> View for Table<K, V> {
    type V = TableModel<K::V, V::V>;

    closed spec fn view(&self) -> TableModel<K::V, V::V> {
        TableModel {
            keys: self.key_seq(),
            map: Map::new(
                |k: K::V| self.key_seq().contains(k),
                |k: K::V| self.entries@[self.key_seq().index_of(k)].1@,
            ),
        }
    }
}

impl<K: Key, V: View> Table<K, V> {
    spec fn key_seq(&self) -> Seq<K::V> {
        Seq::new(self.entries@.len(), |i: int| self.entries@[i].0@)
    }

    #[verifier::type_invariant]
    spec fn inv(&self) -> bool {
        &&& self.key_seq().no_duplicates()
        &&& forall|i: int| 0 <= i < self.entries@.len() ==> K::legal(#[trigger] self.key_seq()[i])
    }

    /// No key occurs twice, the keys are those with a value, and each is
    /// legal.
    pub open spec fn sound(&self) -> bool {
        &&& self@.wf()
        &&& forall|k: K::V| self@.map.contains_key(k) ==> #[trigger] K::legal(k)
    }

    proof fn slot_of(&self, i: int)
        requires
            self.inv(),
            0 <= i < self.entries@.len(),
        ensures
            self.key_seq().index_of(self.entries@[i].0@) == i,
            self@.map.contains_key(self.entries@[i].0@),
            self@.map[self.entries@[i].0@] == self.entries@[i].1@,
            self@.keys[i] == self.entries@[i].0@,
    {
        let ks = self.key_seq();
        assert(ks[i] == self.entries@[i].0@);
        assert(ks.contains(ks[i]));
        let j = ks.index_of(ks[i]);
        assert(0 <= j < ks.len() && ks[j] == ks[i]);
    }

    /// The empty table.
    pub fn new() -> (t: Self)
        ensures
            t@ == TableModel::<K::V, V::V>::empty(),
            t.sound(),
    {
        let t = Table { entries: Vec::new() };
        proof {
            assert(t.key_seq() =~= Seq::empty());
            assert(t@.map =~= Map::empty());
        }
        t
    }

    /// Does nothing; states that the table is sound.
    pub fn witness(&self)
        ensures
            self.sound(),
    {
        proof {
            use_type_invariant(self);
            self.model_wf();
        }
    }

    /// The number of entries.
    pub fn len(&self) -> (n: usize)
        ensures
            n == self@.keys.len(),
            self.sound(),
    {
        proof {
            use_type_invariant(self);
            self.model_wf();
        }
        self.entries.len()
    }

    proof fn model_wf(&self)
        requires
            self.inv(),
        ensures
            self.sound(),
            self@.keys.len() == self.entries@.len(),
    {
        assert forall|k: K::V| self@.map.contains_key(k) implies #[trigger] K::legal(k) by {
            let i = self.key_seq().index_of(k);
            assert(0 <= i < self.key_seq().len() && self.key_seq()[i] == k);
        }
    }

    fn find(&self, k: &K) -> (r: Option<usize>)
        ensures
            r is Some ==> r->0 < self.entries@.len() && self.entries@[r->0 as int].0@ == k@,
            r is None ==> !self@.map.contains_key(k@),
    {
        let mut i: usize = 0;
        while i < self.entries.len()
            invariant
                i <= self.entries@.len(),
                forall|j: int| 0 <= j < i ==> self.key_seq()[j] != k@,
            decreases self.entries@.len() - i,
        {
            if self.entries[i].0.same_key(k) {
                return Some(i);
            }
            i += 1;
        }
        None
    }

    /// Whether the table holds a value under `k`.
    pub fn contains_key(&self, k: &K) -> (r: bool)
        ensures
            r == self@.map.contains_key(k@),
            self.sound(),
    {
        proof {
            use_type_invariant(self);
            self.model_wf();
        }
        match self.find(k) {
            Some(i) => {
                proof {
                    self.slot_of(i as int);
                }
                true
            },
            None => false,
        }
    }

    /// The value under `k`, if there is one.
    pub fn get(&self, k: &K) -> (r: Option<&V>)
        ensures
            r is Some <==> self@.map.contains_key(k@),
            r is Some ==> r->0@ == self@.map[k@],
            self.sound(),
    {
        proof {
            use_type_invariant(self);
            self.model_wf();
        }
        match self.find(k) {
            Some(i) => {
                proof {
                    self.slot_of(i as int);
                }
                Some(&self.entries[i].1)
            },
            None => None,
        }
    }

    /// The key that arrived as number `i`.
    pub fn key_at(&self, i: usize) -> (k: &K)
        requires
            i < self@.keys.len(),
        ensures
            k@ == self@.keys[i as int],
            self.sound(),
    {
        proof {
            use_type_invariant(self);
            self.model_wf();
        }
        &self.entries[i].0
    }

    /// The value under the key that arrived as number `i`.
    pub fn value_at(&self, i: usize) -> (v: &V)
        requires
            i < self@.keys.len(),
        ensures
            v@ == self@.map[self@.keys[i as int]],
            self.sound(),
    {
        proof {
            use_type_invariant(self);
            self.model_wf();
            self.slot_of(i as int);
        }
        &self.entries[i].1
    }

    /// Puts `v` under `k`, in place of the value that was there, if any.
    pub fn insert(&mut self, k: K, v: V)
        ensures
            final(self)@ == old(self)@.insert(k@, v@),
            final(self).sound(),
    {
        proof {
            use_type_invariant(&*self);
            self.model_wf();
            insert_keeps_wf(self@, k@, v@);
        }
        let ghost before = *self;
        let ghost kv = k@;
        let ghost vv = v@;
        k.witness();
        match self.find(&k) {
            Some(i) => {
                let mut entries: Vec<(K, V)> = Vec::new();
                core::mem::swap(&mut entries, &mut self.entries);
                entries.set(i, (k, v));
                proof {
                    let ks = Seq::new(entries@.len(), |j: int| entries@[j].0@);
                    assert(ks =~= before.key_seq());
                }
                self.entries = entries;
                proof {
                    before.slot_of(i as int);
                    assert(self.key_seq() =~= before.key_seq());
                    assert(self@.map =~= before@.map.insert(kv, vv)) by {
                        assert forall|x: K::V| self.key_seq().contains(x) implies #[trigger] self@.map[x]
                            == before@.map.insert(kv, vv)[x] by {
                            let j = self.key_seq().index_of(x);
                            assert(0 <= j < self.key_seq().len() && self.key_seq()[j] == x);
                            before.slot_of(j);
                        }
                    }
                }
            },
            None => {
                let mut entries: Vec<(K, V)> = Vec::new();
                core::mem::swap(&mut entries, &mut self.entries);
                entries.push((k, v));
                proof {
                    let ks = Seq::new(entries@.len(), |j: int| entries@[j].0@);
                    assert(ks =~= before.key_seq().push(kv));
                }
                self.entries = entries;
                proof {
                    assert(self.key_seq() =~= before.key_seq().push(kv));
                    let n = before.entries@.len() as int;
                    assert(self.key_seq().no_duplicates());
                    assert(self@.map =~= before@.map.insert(kv, vv)) by {
                        assert forall|x: K::V| self.key_seq().contains(x) implies #[trigger] self@.map[x]
                            == before@.map.insert(kv, vv)[x] by {
                            let j = self.key_seq().index_of(x);
                            assert(0 <= j < self.key_seq().len() && self.key_seq()[j] == x);
                            if j < n {
                                before.slot_of(j);
                                assert(before.key_seq()[j] == x);
                            }
                        }
                        assert forall|x: K::V| self.key_seq().contains(x)
                            <==> before@.map.insert(kv, vv).contains_key(x) by {
                            if before.key_seq().contains(x) {
                                let j = before.key_seq().index_of(x);
                                assert(self.key_seq()[j] == x);
                            }
                            if x == kv {
                                assert(self.key_seq()[n] == x);
                            }
                        }
                    }
                }
            },
        }
    }

    /// Takes the entry under `k` out of the table and hands its value back.
    pub fn remove(&mut self, k: &K) -> (r: Option<V>)
        ensures
            final(self)@ == old(self)@.remove(k@),
            final(self).sound(),
            r is Some <==> old(self)@.map.contains_key(k@),
            r is Some ==> r->0@ == old(self)@.map[k@],
    {
        proof {
            use_type_invariant(&*self);
            self.model_wf();
            remove_keeps_wf(self@, k@);
        }
        let ghost before = *self;
        match self.find(k) {
            Some(i) => {
                let mut entries: Vec<(K, V)> = Vec::new();
                core::mem::swap(&mut entries, &mut self.entries);
                let (_, v) = entries.remove(i);
                proof {
                    let ks = Seq::new(entries@.len(), |j: int| entries@[j].0@);
                    assert(ks =~= before.key_seq().remove(i as int));
                }
                self.entries = entries;
                proof {
                    before.slot_of(i as int);
                    assert(self.key_seq() =~= before.key_seq().remove(i as int));
                    assert forall|a: int, b: int|
                        0 <= a < self.key_seq().len() && 0 <= b < self.key_seq().len() && a
                            != b implies self.key_seq()[a] != self.key_seq()[b] by {
                        let a0 = if a < i { a } else { a + 1 };
                        let b0 = if b < i { b } else { b + 1 };
                        assert(self.key_seq()[a] == before.key_seq()[a0]);
                        assert(self.key_seq()[b] == before.key_seq()[b0]);
                    }
                    assert(self@.map =~= before@.map.remove(k@)) by {
                        assert forall|x: K::V| self.key_seq().contains(x)
                            <==> before@.map.remove(k@).contains_key(x) by {
                            if self.key_seq().contains(x) {
                                let j = self.key_seq().index_of(x);
                                assert(0 <= j < self.key_seq().len() && self.key_seq()[j] == x);
                                let j0 = if j < i { j } else { j + 1 };
                                assert(before.key_seq()[j0] == x);
                            }
                            if before.key_seq().contains(x) && x != k@ {
                                let j = before.key_seq().index_of(x);
                                assert(0 <= j < before.key_seq().len() && before.key_seq()[j] == x);
                                let j1 = if j < i { j } else { j - 1 };
                                assert(self.key_seq()[j1] == x);
                            }
                        }
                        assert forall|x: K::V| self.key_seq().contains(x) implies #[trigger] self@.map[x]
                            == before@.map.remove(k@)[x] by {
                            let j = self.key_seq().index_of(x);
                            assert(0 <= j < self.key_seq().len() && self.key_seq()[j] == x);
                            let j0 = if j < i { j } else { j + 1 };
                            assert(before.key_seq()[j0] == x);
                            before.slot_of(j0);
                            assert(self.entries@[j] == before.entries@[j0]);
                        }
                    }
                }
                Some(v)
            },
            None => {
                proof {
                    assert(self@.map =~= before@.map.remove(k@));
                }
                None
            },
        }
    }
}

} // verus!
