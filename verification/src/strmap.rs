//! A map from strings to values that keeps its entries in the order in which
//! their keys were first inserted.

use vstd::prelude::*;

verus! {

/// A map keyed by strings. No key occurs twice; the entries stand in the
/// order in which their keys came in.
pub struct StrMap<V> {
    entries: Vec<(String, V)>,
}

/// The keys of `entries`, in order.
pub open spec fn keys_of<V>(entries: Seq<(Seq<char>, V)>) -> Seq<Seq<char>> {
    Seq::new(entries.len(), |i: int| entries[i].0)
}

/// The entries that `stored` holds, each as its key's characters and its
/// value.
pub open spec fn entries_of<V>(stored: Seq<(String, V)>) -> Seq<(Seq<char>, V)> {
    Seq::new(stored.len(), |i: int| (stored[i].0@, stored[i].1))
}

impl<V> StrMap<V> {
    #[verifier::type_invariant]
    spec fn keys_differ(self) -> bool {
        keys_of(self.entries()).no_duplicates()
    }

    /// The entries, each as its key's characters and its value.
    pub closed spec fn entries(&self) -> Seq<(Seq<char>, V)> {
        entries_of(self.entries@)
    }

    /// The keys, in order.
    pub open spec fn keys(&self) -> Seq<Seq<char>> {
        keys_of(self.entries())
    }

    /// The map that the entries make up.
    pub open spec fn view(&self) -> Map<Seq<char>, V> {
        Map::new(
            |k: Seq<char>| self.keys().contains(k),
            |k: Seq<char>| self.entries()[self.keys().index_of(k)].1,
        )
    }

    /// The map without entries.
    pub fn new() -> (m: Self)
        ensures
            m.entries() == Seq::<(Seq<char>, V)>::empty(),
            m@ == Map::<Seq<char>, V>::empty(),
    {
        let m = StrMap { entries: Vec::new() };
        assert(m.entries() =~= Seq::<(Seq<char>, V)>::empty());
        assert(m@ =~= Map::<Seq<char>, V>::empty());
        m
    }

    /// The number of entries, which is the number of keys.
    pub fn len(&self) -> (n: usize)
        ensures
            n == self.entries().len(),
            self.keys().no_duplicates(),
            self@.dom().finite(),
            self@.dom().len() == n,
    {
        proof {
            use_type_invariant(self);
            self.keys().unique_seq_to_set();
            assert(self@.dom() =~= self.keys().to_set());
        }
        self.entries.len()
    }

    /// The key of the entry at `i`.
    pub fn key_at(&self, i: usize) -> (k: &String)
        requires
            i < self.entries().len(),
        ensures
            k@ == self.entries()[i as int].0,
    {
        &self.entries[i].0
    }

    /// The value of the entry at `i`.
    pub fn value_at(&self, i: usize) -> (v: &V)
        requires
            i < self.entries().len(),
        ensures
            *v == self.entries()[i as int].1,
            self@.contains_key(self.entries()[i as int].0),
            self@[self.entries()[i as int].0] == *v,
    {
        proof {
            use_type_invariant(self);
            let k = self.keys()[i as int];
            assert(self.keys().contains(k));
            let j = self.keys().index_of(k);
            assert(self.keys()[j] == k);
        }
        &self.entries[i].1
    }

    /// The position of the entry with the key `key`.
    pub fn position(&self, key: &str) -> (r: Option<usize>)
        ensures
            match r {
                Some(i) => i < self.entries().len() && self.entries()[i as int].0 == key@
                    && self@.contains_key(key@) && self@[key@] == self.entries()[i as int].1,
                None => !self@.contains_key(key@) && !self.keys().contains(key@),
            },
    {
        proof {
            use_type_invariant(self);
        }
        let wanted = key.to_owned();
        let mut i: usize = 0;
        while i < self.entries.len()
            invariant
                i <= self.entries@.len(),
                wanted@ == key@,
                self.keys().no_duplicates(),
                forall|j: int| 0 <= j < i ==> self.keys()[j] != key@,
            decreases self.entries@.len() - i,
        {
            if self.entries[i].0 == wanted {
                proof {
                    assert(self.keys()[i as int] == key@);
                    assert(self.keys().contains(key@));
                    let j = self.keys().index_of(key@);
                    assert(self.keys()[j] == key@);
                }
                return Some(i);
            }
            i += 1;
        }
        None
    }

    /// Whether there is an entry with the key `key`.
    pub fn contains_key(&self, key: &str) -> (r: bool)
        ensures
            r == self@.contains_key(key@),
    {
        self.position(key).is_some()
    }

    /// The value that stands under `key`.
    pub fn get(&self, key: &str) -> (r: Option<&V>)
        ensures
            match r {
                Some(v) => self@.contains_key(key@) && *v == self@[key@],
                None => !self@.contains_key(key@),
            },
    {
        match self.position(key) {
            Some(i) => Some(&self.entries[i].1),
            None => None,
        }
    }

    /// Gives the entry at `i` the value `value`.
    pub fn set_at(&mut self, i: usize, value: V)
        requires
            i < old(self).entries().len(),
        ensures
            final(self).entries() == old(self).entries().update(
                i as int,
                (old(self).entries()[i as int].0, value),
            ),
            final(self).keys() == old(self).keys(),
            final(self)@ == old(self)@.insert(old(self).entries()[i as int].0, value),
    {
        proof {
            use_type_invariant(&*self);
        }
        let ghost before = *self;
        let mut taken: Vec<(String, V)> = Vec::new();
        core::mem::swap(&mut self.entries, &mut taken);
        taken[i].1 = value;
        proof {
            assert(keys_of(entries_of(taken@)) =~= before.keys());
        }
        core::mem::swap(&mut self.entries, &mut taken);
        assert(self.entries() =~= before.entries().update(
            i as int,
            (before.entries()[i as int].0, value),
        ));
        assert(self.keys() =~= before.keys());
        proof {
            let key = before.entries()[i as int].0;
            assert(before.keys()[i as int] == key);
            assert forall|k: Seq<char>| self@.contains_key(k) implies #[trigger] self@[k]
                == before@.insert(key, value)[k] by {
                let j = self.keys().index_of(k);
                assert(self.keys()[j] == k);
                assert(before.keys()[j] == k);
                assert(before.keys().contains(k));
                let j2 = before.keys().index_of(k);
                assert(before.keys()[j2] == k);
                assert(j2 == j);
                if k == key {
                    assert(j == i);
                }
            }
            assert(self@ =~= before@.insert(key, value));
        }
    }

    /// Puts `value` under `key`. A key that is there already keeps its place
    /// and gets the new value; a new key goes to the end.
    pub fn insert(&mut self, key: String, value: V)
        ensures
            final(self)@ == old(self)@.insert(key@, value),
            old(self)@.contains_key(key@) ==> final(self).keys() == old(self).keys(),
            !old(self)@.contains_key(key@) ==> final(self).entries() == old(self).entries().push(
                (key@, value),
            ),
    {
        proof {
            use_type_invariant(&*self);
        }
        let ghost before = *self;
        match self.position(key.as_str()) {
            Some(i) => {
                let mut taken: Vec<(String, V)> = Vec::new();
                core::mem::swap(&mut self.entries, &mut taken);
                taken[i].1 = value;
                proof {
                    assert(keys_of(entries_of(taken@)) =~= before.keys());
                }
                core::mem::swap(&mut self.entries, &mut taken);
                proof {
                    assert(self.keys() =~= before.keys());
                    assert forall|k: Seq<char>| self@.contains_key(k) implies #[trigger] self@[k]
                        == before@.insert(key@, value)[k] by {
                        let j = self.keys().index_of(k);
                        assert(self.keys()[j] == k);
                        assert(before.keys().no_duplicates());
                        assert(before.keys()[i as int] == key@);
                        assert(before.keys()[j] == k);
                        if k == key@ {
                            assert(j == i);
                        } else {
                            assert(j != i);
                            assert(before.keys().contains(k));
                            let j2 = before.keys().index_of(k);
                            assert(before.keys()[j2] == k);
                            assert(j2 == j);
                        }
                    }
                    assert(self@ =~= before@.insert(key@, value));
                }
            },
            None => {
                let mut taken: Vec<(String, V)> = Vec::new();
                core::mem::swap(&mut self.entries, &mut taken);
                taken.push((key, value));
                proof {
                    let ks = keys_of(entries_of(taken@));
                    assert(ks =~= before.keys().push(key@));
                    assert forall|a: int, b: int| 0 <= a < ks.len() && 0 <= b < ks.len() && a
                        != b implies ks[a] != ks[b] by {
                        if a < before.keys().len() {
                            assert(before.keys().contains(ks[a]));
                        }
                        if b < before.keys().len() {
                            assert(before.keys().contains(ks[b]));
                        }
                    }
                }
                core::mem::swap(&mut self.entries, &mut taken);
                proof {
                    assert(self.entries() =~= before.entries().push((key@, value)));
                    assert(self.keys() =~= before.keys().push(key@));
                    assert forall|k: Seq<char>| self@.contains_key(k) implies #[trigger] self@[k]
                        == before@.insert(key@, value)[k] by {
                        let j = self.keys().index_of(k);
                        assert(self.keys()[j] == k);
                        if k == key@ {
                            assert(j == before.keys().len());
                        } else {
                            assert(before.keys()[j] == k);
                            assert(before.keys().contains(k));
                            let j2 = before.keys().index_of(k);
                            assert(before.keys()[j2] == k);
                            assert(self.keys()[j2] == k);
                        }
                    }
                    assert forall|k: Seq<char>| before@.insert(key@, value).contains_key(
                        k,
                    ) implies self@.contains_key(k) by {
                        if k == key@ {
                            assert(self.keys()[before.keys().len() as int] == k);
                        } else {
                            let j2 = before.keys().index_of(k);
                            assert(before.keys()[j2] == k);
                            assert(self.keys()[j2] == k);
                        }
                    }
                    assert(self@ =~= before@.insert(key@, value));
                }
            },
        }
    }
}

} // verus!
