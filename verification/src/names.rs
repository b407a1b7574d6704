//! A map from names to values that keeps its entries in the order in which
//! the names first came.

use crate::text::same_text;
use vstd::prelude::*;

verus! {

/// A map keyed by name.
pub struct NamedMap<V> {
    entries: Vec<(String, V)>,
}

impl<V> NamedMap<V> {
    /// The names, in the order in which they first came.
    pub closed spec fn keys(&self) -> Seq<Seq<char>> {
        Seq::new(self.entries@.len(), |i: int| self.entries@[i].0@)
    }

    /// The values, in the order of the names.
    pub closed spec fn values(&self) -> Seq<V> {
        Seq::new(self.entries@.len(), |i: int| self.entries@[i].1)
    }

    /// No name stands twice.
    pub open spec fn wf(&self) -> bool {
        &&& self.keys().no_duplicates()
        &&& self.keys().len() == self.values().len()
        &&& self.keys().len() <= usize::MAX
    }
}

impl<V> View for NamedMap<V> {
    type V = Map<Seq<char>, V>;

    open spec fn view(&self) -> Map<Seq<char>, V> {
        Map::new(
            |k: Seq<char>| self.keys().contains(k),
            |k: Seq<char>| self.values()[self.keys().index_of(k)],
        )
    }
}

impl<V> NamedMap<V> {
    /// The entry at place `i` is the entry of its name.
    pub proof fn entry_at(&self, i: int)
        requires
            self.wf(),
            0 <= i < self.keys().len(),
        ensures
            self@.contains_key(self.keys()[i]),
            self@[self.keys()[i]] == self.values()[i],
    {
        assert(self.keys().contains(self.keys()[i]));
    }

    /// There are as many names as entries.
    pub proof fn size(&self)
        requires
            self.wf(),
        ensures
            self@.dom().finite(),
            self@.dom().len() == self.keys().len(),
    {
        self.keys().unique_seq_to_set();
        assert(self@.dom() =~= self.keys().to_set());
    }

    /// A map without entries.
    pub fn new() -> (r: Self)
        ensures
            r.wf(),
            r@ == Map::<Seq<char>, V>::empty(),
            r.keys().len() == 0,
    {
        let r: Self = NamedMap { entries: Vec::new() };
        assert(r@ =~= Map::<Seq<char>, V>::empty());
        r
    }

    /// The number of entries.
    pub fn len(&self) -> (n: usize)
        requires
            self.wf(),
        ensures
            n == self.keys().len(),
            n == self@.dom().len(),
    {
        proof {
            self.size();
        }
        self.entries.len()
    }

    fn find(&self, name: &str) -> (r: Option<usize>)
        requires
            self.wf(),
        ensures
            match r {
                Some(i) => {
                    &&& 0 <= i < self.keys().len()
                    &&& self.keys()[i as int] == name@
                    &&& self@.contains_key(name@)
                    &&& self@[name@] == self.values()[i as int]
                },
                None => !self@.contains_key(name@),
            },
    {
        let mut i: usize = 0;
        while i < self.entries.len()
            invariant
                i <= self.entries@.len(),
                self.wf(),
                forall|k: int| 0 <= k < i ==> self.entries@[k].0@ != name@,
            decreases self.entries@.len() - i,
        {
            if same_text(self.entries[i].0.as_str(), name) {
                proof {
                    assert(self.keys()[i as int] == name@);
                    self.entry_at(i as int);
                }
                return Some(i);
            }
            i += 1;
        }
        proof {
            if self.keys().contains(name@) {
                let k = choose|k: int| 0 <= k < self.keys().len() && self.keys()[k] == name@;
                assert(self.entries@[k].0@ == name@);
            }
        }
        None
    }

    /// Whether the name has an entry.
    pub fn contains_key(&self, name: &str) -> (r: bool)
        requires
            self.wf(),
        ensures
            r == self@.contains_key(name@),
    {
        self.find(name).is_some()
    }

    /// The value of a name.
    pub fn get(&self, name: &str) -> (r: Option<&V>)
        requires
            self.wf(),
        ensures
            match r {
                Some(v) => self@.contains_key(name@) && *v == self@[name@],
                None => !self@.contains_key(name@),
            },
    {
        match self.find(name) {
            Some(i) => Some(&self.entries[i].1),
            None => None,
        }
    }

    /// Gives the name the value; a name that was there keeps its place.
    pub fn insert(&mut self, name: String, value: V) -> (replaced: Option<V>)
        requires
            old(self).wf(),
        ensures
            final(self).wf(),
            final(self)@ == old(self)@.insert(name@, value),
            final(self).keys() == if old(self)@.contains_key(name@) {
                old(self).keys()
            } else {
                old(self).keys().push(name@)
            },
            replaced == if old(self)@.contains_key(name@) {
                Some(old(self)@[name@])
            } else {
                None
            },
    {
        match self.find(name.as_str()) {
            Some(i) => {
                let mut held: V = value;
                std::mem::swap(&mut self.entries[i].1, &mut held);
                proof {
                    assert(self.keys() =~= old(self).keys());
                    assert(self.values() =~= old(self).values().update(i as int, value));
                    assert forall|k: Seq<char>| self.keys().contains(k) implies self@[k]
                        == old(self)@.insert(name@, value)[k] by {
                        let j = self.keys().index_of(k);
                        assert(self.keys()[j] == k);
                        assert(old(self).keys()[i as int] == name@);
                    }
                    assert(self@ =~= old(self)@.insert(name@, value));
                }
                Some(held)
            },
            None => {
                let ghost key = name@;
                self.entries.push((name, value));
                proof {
                    assert(self.entries.len() == self.entries@.len());
                    assert(self.keys() =~= old(self).keys().push(key));
                    assert(self.values() =~= old(self).values().push(value));
                    let n = old(self).keys().len() as int;
                    assert(self.keys()[n] == key);
                    assert(!old(self).keys().contains(key));
                    assert forall|a: int, b: int|
                        0 <= a < self.keys().len() && 0 <= b < self.keys().len() && a
                            != b implies self.keys()[a] != self.keys()[b] by {
                        if a == n {
                            assert(old(self).keys().contains(old(self).keys()[b]));
                        } else if b == n {
                            assert(old(self).keys().contains(old(self).keys()[a]));
                        }
                    }
                    assert forall|k: Seq<char>| #[trigger]
                        self@.contains_key(k) == old(self)@.insert(key, value).contains_key(k) by {
                        if old(self).keys().contains(k) {
                            let j = old(self).keys().index_of(k);
                            assert(self.keys()[j] == k);
                        }
                        if self.keys().contains(k) && k != key {
                            let j = self.keys().index_of(k);
                            assert(old(self).keys()[j] == k);
                        }
                    }
                    assert forall|k: Seq<char>| self.keys().contains(k) implies self@[k]
                        == old(self)@.insert(key, value)[k] by {
                        let j = self.keys().index_of(k);
                        if k == key {
                            self.entry_at(n);
                        } else {
                            assert(old(self).keys()[j] == k);
                            self.entry_at(j);
                            old(self).entry_at(j);
                        }
                    }
                    assert(self@ =~= old(self)@.insert(key, value));
                }
                None
            },
        }
    }

    /// Takes the entry of a name out.
    pub fn remove(&mut self, name: &str) -> (removed: Option<V>)
        requires
            old(self).wf(),
        ensures
            final(self).wf(),
            final(self)@ == old(self)@.remove(name@),
            !old(self)@.contains_key(name@) ==> final(self).keys() == old(self).keys(),
            old(self)@.contains_key(name@) ==> final(self).keys() == old(self).keys().remove(
                old(self).keys().index_of(name@),
            ),
            removed == if old(self)@.contains_key(name@) {
                Some(old(self)@[name@])
            } else {
                None
            },
    {
        match self.find(name) {
            Some(i) => {
                let entry: (String, V) = self.entries.remove(i);
                proof {
                    let n = i as int;
                    assert(old(self).keys()[n] == name@);
                    assert(old(self).keys().index_of(name@) == n);
                    assert(self.keys() =~= old(self).keys().remove(n));
                    assert(self.values() =~= old(self).values().remove(n));
                    assert forall|k: Seq<char>| #[trigger]
                        self@.contains_key(k) == old(self)@.remove(name@).contains_key(k) by {
                        if self.keys().contains(k) {
                            let j = self.keys().index_of(k);
                            let w = if j < n { j } else { j + 1 };
                            assert(old(self).keys()[w] == k);
                        }
                        if old(self).keys().contains(k) && k != name@ {
                            let j = old(self).keys().index_of(k);
                            let w = if j < n { j } else { j - 1 };
                            assert(self.keys()[w] == k);
                        }
                    }
                    assert forall|k: Seq<char>| self.keys().contains(k) implies self@[k]
                        == old(self)@[k] by {
                        let j = self.keys().index_of(k);
                        let w = if j < n { j } else { j + 1 };
                        assert(old(self).keys()[w] == k);
                        self.entry_at(j);
                        old(self).entry_at(w);
                    }
                    assert(self@ =~= old(self)@.remove(name@));
                }
                Some(entry.1)
            },
            None => {
                proof {
                    assert(self@ =~= old(self)@.remove(name@));
                }
                None
            },
        }
    }

    /// The name at place `i`.
    pub fn key_at(&self, i: usize) -> (r: &String)
        requires
            self.wf(),
            i < self.keys().len(),
        ensures
            r@ == self.keys()[i as int],
    {
        &self.entries[i].0
    }

    /// The value at place `i`.
    pub fn value_at(&self, i: usize) -> (r: &V)
        requires
            self.wf(),
            i < self.keys().len(),
        ensures
            *r == self.values()[i as int],
            *r == self@[self.keys()[i as int]],
            self@.contains_key(self.keys()[i as int]),
    {
        proof {
            self.entry_at(i as int);
        }
        &self.entries[i].1
    }

    /// All names, in the order in which they first came.
    pub fn names(&self) -> (r: Vec<String>)
        requires
            self.wf(),
        ensures
            r@.len() == self.keys().len(),
            forall|i: int| 0 <= i < r@.len() ==> (#[trigger] r@[i])@ == self.keys()[i],
    {
        let mut out: Vec<String> = Vec::new();
        let mut i: usize = 0;
        while i < self.entries.len()
            invariant
                i <= self.entries@.len(),
                out@.len() == i,
                forall|k: int| 0 <= k < i ==> (#[trigger] out@[k])@ == self.keys()[k],
            decreases self.entries@.len() - i,
        {
            out.push(self.entries[i].0.clone());
            i += 1;
        }
        out
    }
}

} // verus!
