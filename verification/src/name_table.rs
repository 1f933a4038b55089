//! A table of values that are found by name.

use vstd::prelude::*;

verus! {

/// Specifies `==` of the standard library on two string slices.
/// Trusted: it answers whether the two hold the same characters.
pub assume_specification[ <str as PartialEq>::eq ](a: &str, b: &str) -> (r: bool)
    ensures
        r == (a@ == b@),
;

/// Values keyed by name, each name at most once. The table stands for the
/// map from every name it holds to the value held under it; in which order
/// it holds them is its own affair and shows only in `name_at` and
/// `value_at`.
pub struct NameTable<V> {
    names: Vec<String>,
    values: Vec<V>,
}

impl<V> View for NameTable<V> {
    type V = Map<Seq<char>, V>;

    closed spec fn view(&self) -> Map<Seq<char>, V> {
        Map::new(
            |k: Seq<char>| self.names().contains(k),
            |k: Seq<char>| self.values@[self.names().index_of(k)],
        )
    }
}

impl<V> NameTable<V> {
    /// The names in the order in which the table holds them.
    pub closed spec fn names(&self) -> Seq<Seq<char>> {
        self.names@.map_values(|s: String| s@)
    }

    /// The values in the order in which the table holds them.
    pub closed spec fn values(&self) -> Seq<V> {
        self.values@
    }

    /// Every name has its value, and no name stands twice.
    pub closed spec fn wf(&self) -> bool {
        &&& self.names.len() == self.values.len()
        &&& self.names().no_duplicates()
    }

    /// How the map that the table stands for follows from what it holds.
    pub proof fn lemma_view(&self)
        requires
            self.wf(),
        ensures
            self.names().len() == self.values().len(),
            self.names().no_duplicates(),
            self@.dom().finite(),
            forall|k: Seq<char>| self@.contains_key(k) <==> self.names().contains(k),
            forall|i: int|
                0 <= i < self.names().len() ==> self@.contains_key(#[trigger] self.names()[i])
                    && self@[self.names()[i]] == self.values()[i],
    {
        let names = self.names();
        assert forall|i: int| 0 <= i < names.len() implies self@.contains_key(#[trigger] names[i])
            && self@[names[i]] == self.values()[i] by {
            assert(names.contains(names[i]));
            let j = names.index_of(names[i]);
            assert(0 <= j < names.len() && names[j] == names[i]);
        }
        assert(self@.dom() =~= names.to_set());
        vstd::seq_lib::seq_to_set_is_finite(names);
    }

    /// The empty table.
    pub fn new() -> (t: Self)
        ensures
            t.wf(),
            t@ == Map::<Seq<char>, V>::empty(),
    {
        let t = NameTable { names: Vec::new(), values: Vec::new() };
        assert(t@ =~= Map::<Seq<char>, V>::empty());
        t
    }

    /// How many names the table holds.
    pub fn len(&self) -> (n: usize)
        requires
            self.wf(),
        ensures
            n == self.names().len(),
            n == self@.dom().len(),
    {
        proof {
            self.lemma_view();
            assert(self@.dom() =~= self.names().to_set());
            self.names().unique_seq_to_set();
        }
        self.names.len()
    }

    /// The name held at place `i`.
    pub fn name_at(&self, i: usize) -> (name: &str)
        requires
            self.wf(),
            i < self.names().len(),
        ensures
            name@ == self.names()[i as int],
    {
        self.names[i].as_str()
    }

    /// The value held at place `i`.
    pub fn value_at(&self, i: usize) -> (value: &V)
        requires
            self.wf(),
            i < self.names().len(),
        ensures
            *value == self.values()[i as int],
    {
        &self.values[i]
    }

    /// The place at which `name` is held, if it is held.
    pub fn position(&self, name: &str) -> (r: Option<usize>)
        requires
            self.wf(),
        ensures
            match r {
                Some(i) => i < self.names().len() && self.names()[i as int] == name@,
                None => !self.names().contains(name@),
            },
    {
        let mut i: usize = 0;
        while i < self.names.len()
            invariant
                i <= self.names.len(),
                self.names.len() == self.names().len(),
                forall|j: int| 0 <= j < i ==> self.names()[j] != name@,
            decreases self.names.len() - i,
        {
            assert(self.names()[i as int] == self.names@[i as int]@);
            if self.names[i].as_str().eq(name) {
                return Some(i);
            }
            i += 1;
        }
        assert forall|k: int| 0 <= k < self.names().len() implies self.names()[k] != name@ by {}
        None
    }

    /// Whether a value is held under `name`.
    pub fn contains_key(&self, name: &str) -> (r: bool)
        requires
            self.wf(),
        ensures
            r == self@.contains_key(name@),
    {
        self.position(name).is_some()
    }

    /// The value held under `name`.
    pub fn get(&self, name: &str) -> (r: Option<&V>)
        requires
            self.wf(),
        ensures
            r == if self@.contains_key(name@) {
                Some(&self@[name@])
            } else {
                None
            },
    {
        proof {
            self.lemma_view();
        }
        match self.position(name) {
            Some(i) => Some(&self.values[i]),
            None => None,
        }
    }

    /// Puts `value` under `name` and hands back what was held there before.
    pub fn insert(&mut self, name: String, value: V) -> (replaced: Option<V>)
        requires
            old(self).wf(),
        ensures
            final(self).wf(),
            final(self)@ == old(self)@.insert(name@, value),
            replaced == if old(self)@.contains_key(name@) {
                Some(old(self)@[name@])
            } else {
                None
            },
    {
        proof {
            self.lemma_view();
        }
        let ghost before = *self;
        match self.position(name.as_str()) {
            Some(i) => {
                self.values.push(value);
                let replaced = self.values.swap_remove(i);
                proof {
                    assert(self.names() == before.names());
                    assert(self.values@ =~= before.values@.update(i as int, value));
                    self.lemma_view();
                    assert forall|k: Seq<char>| #[trigger]
                        self@.contains_key(k) implies self@[k] == before@.insert(name@, value)[k] by {
                        let j = self.names().index_of(k);
                        assert(self.names()[j] == k);
                    }
                    assert(self@ =~= before@.insert(name@, value));
                }
                Some(replaced)
            },
            None => {
                self.names.push(name);
                self.values.push(value);
                proof {
                    assert(self.names() =~= before.names().push(name@));
                    assert(self.values@ =~= before.values@.push(value));
                    assert forall|i: int, j: int|
                        0 <= i < j < self.names().len() implies self.names()[i] != self.names()[j] by {
                        if j == before.names().len() {
                            assert(before.names().contains(before.names()[i]));
                        }
                    }
                    self.lemma_view();
                    assert forall|k: Seq<char>|
                        self@.contains_key(k) <==> #[trigger] before@.insert(
                            name@,
                            value,
                        ).contains_key(k) by {
                        if self.names().contains(k) {
                            let j = self.names().index_of(k);
                            assert(self.names()[j] == k);
                            if j < before.names().len() {
                                assert(before.names()[j] == k);
                                assert(before.names().contains(k));
                            }
                        }
                        if before.names().contains(k) {
                            let j = before.names().index_of(k);
                            assert(self.names()[j] == k);
                        }
                        if k == name@ {
                            assert(self.names()[before.names().len() as int] == k);
                        }
                    }
                    assert forall|k: Seq<char>| #[trigger]
                        self@.contains_key(k) implies self@[k] == before@.insert(name@, value)[k] by {
                        let j = self.names().index_of(k);
                        assert(self.names()[j] == k);
                        if j < before.names().len() {
                            assert(before.names()[j] == k);
                        }
                    }
                    assert(self@ =~= before@.insert(name@, value));
                }
                None
            },
        }
    }

    /// Takes out what is held under `name` and hands it back.
    pub fn remove(&mut self, name: &str) -> (removed: Option<V>)
        requires
            old(self).wf(),
        ensures
            final(self).wf(),
            final(self)@ == old(self)@.remove(name@),
            removed == if old(self)@.contains_key(name@) {
                Some(old(self)@[name@])
            } else {
                None
            },
    {
        proof {
            self.lemma_view();
        }
        let ghost before = *self;
        match self.position(name) {
            Some(i) => {
                let _ = self.names.swap_remove(i);
                let removed = self.values.swap_remove(i);
                proof {
                    let last = before.names().len() - 1;
                    assert(self.names() =~= before.names().update(
                        i as int,
                        before.names()[last],
                    ).drop_last());
                    assert forall|a: int, b: int|
                        0 <= a < b < self.names().len() implies self.names()[a] != self.names()[b] by {
                        let a0 = if a == i { last } else { a };
                        let b0 = if b == i { last } else { b };
                        assert(self.names()[a] == before.names()[a0]);
                        assert(self.names()[b] == before.names()[b0]);
                    }
                    self.lemma_view();
                    assert forall|k: Seq<char>|
                        self@.contains_key(k) <==> #[trigger] before@.remove(name@).contains_key(
                            k,
                        ) by {
                        if self.names().contains(k) {
                            let j = self.names().index_of(k);
                            let j0 = if j == i { last } else { j };
                            assert(before.names()[j0] == k);
                            assert(before.names().contains(k));
                        }
                        if before.names().contains(k) && k != name@ {
                            let j = before.names().index_of(k);
                            let j1 = if j == last { i as int } else { j };
                            assert(self.names()[j1] == k);
                        }
                    }
                    assert forall|k: Seq<char>| #[trigger]
                        self@.contains_key(k) implies self@[k] == before@[k] by {
                        let j = self.names().index_of(k);
                        let j0 = if j == i { last } else { j };
                        assert(before.names()[j0] == k);
                    }
                    assert(self@ =~= before@.remove(name@));
                }
                Some(removed)
            },
            None => {
                assert(self@ =~= before@.remove(name@));
                None
            },
        }
    }
}

} // verus!
