//! A table from names to values that keeps the order in which the names
//! first came: looked up by exact name, the last value written for a name
//! wins.

use vstd::prelude::*;
use vstd::string::*;

verus! {

/// A table from names to values, in the order in which the names first came.
#[derive(Debug)]
pub struct Registry<T> {
    entries: Vec<(String, T)>,
}

/// No name occurs twice.
pub open spec fn distinct(keys: Seq<Seq<char>>) -> bool {
    forall|i: int, j: int| 0 <= i < j < keys.len() ==> keys[i] != keys[j]
}

impl<T> Registry<T> {
    /// The names, in the order in which they first came.
    pub closed spec fn keys(&self) -> Seq<Seq<char>> {
        Seq::new(self.entries@.len(), |i: int| self.entries@[i].0@)
    }

    /// The values, each at the place of its name.
    pub closed spec fn values(&self) -> Seq<T> {
        Seq::new(self.entries@.len(), |i: int| self.entries@[i].1)
    }

    /// No name occurs twice.
    pub open spec fn wf(&self) -> bool {
        distinct(self.keys()) && self.keys().len() == self.values().len()
    }

    /// The place of the name `key`, if the table holds it.
    pub open spec fn index_of(&self, key: Seq<char>) -> Option<int> {
        if self.keys().contains(key) {
            Some(choose|i: int| 0 <= i < self.keys().len() && self.keys()[i] == key)
        } else {
            None
        }
    }

    /// The value that the name `key` stands for, if the table holds it.
    pub open spec fn lookup(&self, key: Seq<char>) -> Option<T> {
        match self.index_of(key) {
            Some(i) => Some(self.values()[i]),
            None => None,
        }
    }

    /// In a table without repeated names, the name at a place is found there.
    pub proof fn lemma_index_of(&self, i: int)
        requires
            self.wf(),
            0 <= i < self.keys().len(),
        ensures
            self.index_of(self.keys()[i]) == Some(i),
            self.lookup(self.keys()[i]) == Some(self.values()[i]),
    {
        let key = self.keys()[i];
        assert(self.keys().contains(key));
        let c = choose|c: int| 0 <= c < self.keys().len() && self.keys()[c] == key;
        if c < i {
            assert(self.keys()[c] != self.keys()[i]);
        } else if i < c {
            assert(self.keys()[i] != self.keys()[c]);
        }
    }

    pub fn new() -> (r: Registry<T>)
        ensures
            r.wf(),
            r.keys() == Seq::<Seq<char>>::empty(),
            r.values() == Seq::<T>::empty(),
    {
        let r = Registry { entries: Vec::new() };
        assert(r.keys() =~= Seq::<Seq<char>>::empty());
        assert(r.values() =~= Seq::<T>::empty());
        r
    }

    pub fn len(&self) -> (n: usize)
        ensures
            n == self.keys().len(),
            n == self.values().len(),
    {
        self.entries.len()
    }

    /// The name at the place `i`.
    pub fn key_at(&self, i: usize) -> (k: &String)
        requires
            i < self.keys().len(),
        ensures
            k@ == self.keys()[i as int],
    {
        &self.entries[i].0
    }

    /// The value at the place `i`.
    pub fn value_at(&self, i: usize) -> (v: &T)
        requires
            i < self.values().len(),
        ensures
            *v == self.values()[i as int],
    {
        &self.entries[i].1
    }

    /// Finds the place of the name `key`.
    pub fn find(&self, key: &str) -> (r: Option<usize>)
        requires
            self.wf(),
        ensures
            match r {
                Some(i) => self.index_of(key@) == Some(i as int) && i < self.keys().len()
                    && self.keys()[i as int] == key@,
                None => self.index_of(key@) is None && !self.keys().contains(key@),
            },
    {
        let probe = String::from_str(key);
        let mut i: usize = 0;
        while i < self.entries.len()
            invariant
                self.wf(),
                i <= self.entries@.len(),
                probe@ == key@,
                forall|j: int| 0 <= j < i ==> self.keys()[j] != key@,
            decreases self.entries@.len() - i,
        {
            if self.entries[i].0 == probe {
                proof {
                    self.lemma_index_of(i as int);
                }
                return Some(i);
            }
            i += 1;
        }
        None
    }

    /// Tells whether the table holds the name `key`.
    pub fn contains_key(&self, key: &str) -> (r: bool)
        requires
            self.wf(),
        ensures
            r == self.keys().contains(key@),
    {
        self.find(key).is_some()
    }

    /// The value that the name `key` stands for.
    pub fn get(&self, key: &str) -> (r: Option<&T>)
        requires
            self.wf(),
        ensures
            match r {
                Some(v) => self.lookup(key@) == Some(*v),
                None => self.lookup(key@) is None && !self.keys().contains(key@),
            },
    {
        match self.find(key) {
            Some(i) => Some(&self.entries[i].1),
            None => None,
        }
    }

    /// Writes `value` for the name `key`: in place of the value that the
    /// name had, or with the name as the last of the table.
    pub fn insert(&mut self, key: String, value: T)
        requires
            old(self).wf(),
        ensures
            final(self).wf(),
            final(self).lookup(key@) == Some(value),
            forall|k: Seq<char>| k != key@ ==> final(self).lookup(k) == old(self).lookup(k),
            final(self).keys() == if old(self).keys().contains(key@) {
                old(self).keys()
            } else {
                old(self).keys().push(key@)
            },
            match old(self).index_of(key@) {
                Some(i) => final(self).values() == old(self).values().update(i, value),
                None => final(self).values() == old(self).values().push(value),
            },
    {
        let ghost before = *self;
        let ghost k = key@;
        match self.find(key.as_str()) {
            Some(i) => {
                self.entries.set(i, (key, value));
                assert(self.keys() =~= before.keys());
                assert(self.values() =~= before.values().update(i as int, value));
                proof {
                    self.lemma_index_of(i as int);
                    assert forall|q: Seq<char>| q != k implies self.lookup(q) == before.lookup(
                        q,
                    ) by {
                        if self.keys().contains(q) {
                            let c = choose|c: int| 0 <= c < self.keys().len() && self.keys()[c] == q;
                            assert(c != i);
                        }
                    }
                }
            },
            None => {
                self.entries.push((key, value));
                assert(self.keys() =~= before.keys().push(k));
                assert(self.values() =~= before.values().push(value));
                proof {
                    let n = before.keys().len() as int;
                    assert(distinct(self.keys())) by {
                        assert forall|a: int, b: int| 0 <= a < b < self.keys().len() implies self.keys()[a]
                            != self.keys()[b] by {
                            if b == n {
                                assert(before.keys().contains(before.keys()[a]));
                            }
                        }
                    }
                    self.lemma_index_of(n);
                    assert forall|q: Seq<char>| q != k implies self.lookup(q) == before.lookup(
                        q,
                    ) by {
                        if self.keys().contains(q) {
                            let c = choose|c: int| 0 <= c < self.keys().len() && self.keys()[c] == q;
                            assert(c < n);
                            assert(before.keys()[c] == q);
                            before.lemma_index_of(c);
                            self.lemma_index_of(c);
                        } else {
                            if before.keys().contains(q) {
                                let c = choose|c: int| 0 <= c < before.keys().len() && before.keys()[c] == q;
                                assert(self.keys()[c] == q);
                            }
                        }
                    }
                }
            },
        }
    }

    /// A copy of the names, in their order.
    pub fn names(&self) -> (r: Vec<String>)
        ensures
            crate::suggest::texts(r@) == self.keys(),
    {
        let mut r: Vec<String> = Vec::new();
        let mut i: usize = 0;
        while i < self.entries.len()
            invariant
                i <= self.entries@.len(),
                r@.len() == i,
                forall|j: int| 0 <= j < i ==> (#[trigger] r@[j])@ == self.keys()[j],
            decreases self.entries@.len() - i,
        {
            r.push(self.entries[i].0.clone());
            i += 1;
        }
        assert(crate::suggest::texts(r@) =~= self.keys());
        r
    }
}

} // verus!
