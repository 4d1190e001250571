//! A map from names to values, kept as a list in which no name occurs twice.

use crate::text;
use vstd::prelude::*;

verus! {

/// Values by name, in the order in which the names came first.
pub struct NameMap<V> {
    pub entries: Vec<(String, V)>,
}

/// The names of a list of entries.
pub open spec fn entry_names<V>(entries: Seq<(String, V)>) -> Seq<Seq<char>> {
    entries.map_values(|e: (String, V)| e.0@)
}

/// The map that a list of entries stands for; for a name that occurs twice the first entry counts.
pub open spec fn entry_map<V>(entries: Seq<(String, V)>) -> Map<Seq<char>, V> {
    Map::new(
        |k: Seq<char>| entry_names(entries).contains(k),
        |k: Seq<char>| entries[entry_names(entries).index_of(k)].1,
    )
}

impl<V> View for NameMap<V> {
    type V = Map<Seq<char>, V>;

    open spec fn view(&self) -> Map<Seq<char>, V> {
        entry_map(self.entries@)
    }
}

impl<V> NameMap<V> {
    /// No name occurs twice.
    pub open spec fn wf(self) -> bool {
        entry_names(self.entries@).no_duplicates()
    }

    /// The names, in order.
    pub open spec fn names(self) -> Seq<Seq<char>> {
        entry_names(self.entries@)
    }

    /// The entry at a position is what the map holds under that name.
    pub proof fn lemma_entry(self, i: int)
        requires
            self.wf(),
            0 <= i < self.entries@.len(),
        ensures
            self@.contains_key(self.entries@[i].0@),
            self@[self.entries@[i].0@] == self.entries@[i].1,
    {
        let names = self.names();
        let k = self.entries@[i].0@;
        assert(names[i] == k);
        assert(names.contains(k));
        let j = names.index_of(k);
        assert(names[j] == k);
        assert(i == j);
    }

    /// Every name of the map stands at some position.
    pub proof fn lemma_position(self, k: Seq<char>) -> (i: int)
        requires
            self.wf(),
            self@.contains_key(k),
        ensures
            0 <= i < self.entries@.len(),
            self.entries@[i].0@ == k,
            self@[k] == self.entries@[i].1,
    {
        let i = self.names().index_of(k);
        assert(self.names().contains(k));
        assert(self.names()[i] == k);
        i
    }

    /// A list that differs from another in the value of one entry stands for the other's map with
    /// that value in place.
    pub proof fn lemma_value_replaced(self, before: Self, i: int)
        requires
            before.wf(),
            0 <= i < before.entries@.len(),
            self.entries@.len() == before.entries@.len(),
            forall|j: int|
                0 <= j < self.entries@.len() && j != i ==> #[trigger] self.entries@[j]
                    == before.entries@[j],
            self.entries@[i].0 == before.entries@[i].0,
        ensures
            self.wf(),
            self@ == before@.insert(before.entries@[i].0@, self.entries@[i].1),
    {
        let k = before.entries@[i].0@;
        let value = self.entries@[i].1;
        assert(self.names() =~= before.names());
        assert forall|x: Seq<char>| self@.contains_key(x) implies #[trigger] self@[x]
            == before@.insert(k, value)[x] by {
            let p = self.lemma_position(x);
            if x == k {
                self.lemma_entry(i as int);
            } else {
                before.lemma_entry(p);
            }
        }
        assert(before.names()[i as int] == k);
        assert(self@ =~= before@.insert(k, value));
    }

    /// The empty map.
    pub fn new() -> (m: Self)
        ensures
            m.wf(),
            m.entries@.len() == 0,
            m@ == Map::<Seq<char>, V>::empty(),
    {
        let m = NameMap { entries: Vec::new() };
        assert(m@ =~= Map::<Seq<char>, V>::empty());
        m
    }

    /// Whether the map is empty.
    pub fn is_empty(&self) -> (r: bool)
        ensures
            r == (self.entries@.len() == 0),
            r == (self@ == Map::<Seq<char>, V>::empty()),
    {
        proof {
            if self.entries@.len() == 0 {
                assert(self@ =~= Map::<Seq<char>, V>::empty());
            } else {
                assert(self.names()[0] == self.entries@[0].0@);
                assert(self@.contains_key(self.entries@[0].0@));
            }
        }
        self.entries.len() == 0
    }

    /// The position of a name.
    pub fn find(&self, name: &str) -> (r: Option<usize>)
        requires
            self.wf(),
        ensures
            match r {
                Some(i) => {
                    &&& i < self.entries@.len()
                    &&& self.entries@[i as int].0@ == name@
                    &&& self@.contains_key(name@)
                    &&& self@[name@] == self.entries@[i as int].1
                },
                None => !self@.contains_key(name@),
            },
    {
        let mut i: usize = 0;
        while i < self.entries.len()
            invariant
                self.wf(),
                i <= self.entries@.len(),
                forall|j: int| 0 <= j < i ==> #[trigger] self.names()[j] != name@,
            decreases self.entries@.len() - i,
        {
            if text::str_eq(self.entries[i].0.as_str(), name) {
                proof {
                    self.lemma_entry(i as int);
                }
                return Some(i);
            }
            assert(self.names()[i as int] == self.entries@[i as int].0@);
            i = i + 1;
        }
        assert(self.names().len() == self.entries@.len());
        assert(!self.names().contains(name@));
        None
    }

    /// Whether the map holds a name.
    pub fn contains(&self, name: &str) -> (r: bool)
        requires
            self.wf(),
        ensures
            r == self@.contains_key(name@),
    {
        self.find(name).is_some()
    }

    /// The value under a name.
    pub fn get(&self, name: &str) -> (r: Option<&V>)
        requires
            self.wf(),
        ensures
            match r {
                Some(v) => self@.contains_key(name@) && self@[name@] == *v,
                None => !self@.contains_key(name@),
            },
    {
        match self.find(name) {
            Some(i) => Some(&self.entries[i].1),
            None => None,
        }
    }

    /// Puts a value under a name, in place of the value that was there.
    pub fn insert(&mut self, name: String, value: V)
        requires
            old(self).wf(),
        ensures
            final(self).wf(),
            final(self)@ == old(self)@.insert(name@, value),
    {
        let ghost before = *self;
        let ghost k = name@;
        match self.find(name.as_str()) {
            Some(i) => {
                let mut replaced = value;
                std::mem::swap(&mut self.entries[i].1, &mut replaced);
                proof {
                    self.lemma_value_replaced(before, i as int);
                }
            },
            None => {
                self.entries.push((name, value));
                proof {
                    let n = before.entries@.len() as int;
                    assert(self.names() =~= before.names().push(k));
                    assert(!before.names().contains(k));
                    assert forall|a: int, b: int|
                        0 <= a < self.names().len() && 0 <= b < self.names().len() && a
                            != b implies self.names()[a] != self.names()[b] by {
                        if a == n {
                            assert(before.names()[b] == self.names()[b]);
                        } else if b == n {
                            assert(before.names()[a] == self.names()[a]);
                        }
                    }
                    assert forall|x: Seq<char>| #[trigger]
                        self@.contains_key(x) == before@.insert(k, value).contains_key(x) by {
                        if self@.contains_key(x) {
                            let p = self.lemma_position(x);
                            if p < n {
                                assert(before.names()[p] == x);
                            }
                        }
                        if before@.contains_key(x) {
                            let p = before.lemma_position(x);
                            assert(self.names()[p] == x);
                        }
                        if x == k {
                            assert(self.names()[n] == k);
                        }
                    }
                    assert forall|x: Seq<char>| self@.contains_key(x) implies #[trigger] self@[x]
                        == before@.insert(k, value)[x] by {
                        let p = self.lemma_position(x);
                        if p < n {
                            before.lemma_entry(p);
                        }
                    }
                    assert(self@ =~= before@.insert(k, value));
                }
            },
        }
    }

    /// Takes a name out and says whether it was there.
    pub fn remove(&mut self, name: &str) -> (r: bool)
        requires
            old(self).wf(),
        ensures
            final(self).wf(),
            r == old(self)@.contains_key(name@),
            final(self)@ == old(self)@.remove(name@),
    {
        let ghost before = *self;
        match self.find(name) {
            Some(i) => {
                self.entries.remove(i);
                proof {
                    let at = i as int;
                    assert(self.names() =~= before.names().remove(at));
                    assert forall|a: int, b: int|
                        0 <= a < self.names().len() && 0 <= b < self.names().len() && a
                            != b implies self.names()[a] != self.names()[b] by {
                        let a0 = if a < at { a } else { a + 1 };
                        let b0 = if b < at { b } else { b + 1 };
                        assert(self.names()[a] == before.names()[a0]);
                        assert(self.names()[b] == before.names()[b0]);
                    }
                    assert forall|x: Seq<char>| #[trigger]
                        self@.contains_key(x) == before@.remove(name@).contains_key(x) by {
                        if self@.contains_key(x) {
                            let p = self.lemma_position(x);
                            let p0 = if p < at { p } else { p + 1 };
                            assert(before.names()[p0] == x);
                            assert(before.names()[at] == name@);
                        }
                        if before@.contains_key(x) && x != name@ {
                            let p = before.lemma_position(x);
                            let p1 = if p < at { p } else { p - 1 };
                            assert(self.names()[p1] == x);
                        }
                    }
                    assert forall|x: Seq<char>| self@.contains_key(x) implies #[trigger] self@[x]
                        == before@.remove(name@)[x] by {
                        let p = self.lemma_position(x);
                        let p0 = if p < at { p } else { p + 1 };
                        before.lemma_entry(p0);
                    }
                    assert(self@ =~= before@.remove(name@));
                }
                true
            },
            None => {
                assert(before@.remove(name@) =~= before@);
                false
            },
        }
    }
}

} // verus!
