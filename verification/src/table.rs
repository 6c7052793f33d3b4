//! A table from names to values, kept as a list of entries with distinct names.
use vstd::prelude::*;

verus! {

/// Entries whose names are distinct; the table maps each name to its value.
#[derive(Debug)]
pub struct Table<V> {
    entries: Vec<(String, V)>,
}

/// Where in `entries` the name `k` stands.
pub open spec fn slot_of<V>(entries: Seq<(String, V)>, k: Seq<char>) -> int {
    choose|i: int| 0 <= i < entries.len() && entries[i].0@ == k
}

/// The map that a list of entries writes.
pub open spec fn entries_map<V>(entries: Seq<(String, V)>) -> Map<Seq<char>, V> {
    Map::new(
        |k: Seq<char>| exists|i: int| 0 <= i < entries.len() && entries[i].0@ == k,
        |k: Seq<char>| entries[slot_of(entries, k)].1,
    )
}

/// No name occurs twice.
pub open spec fn distinct_names<V>(entries: Seq<(String, V)>) -> bool {
    forall|i: int, j: int|
        0 <= i < entries.len() && 0 <= j < entries.len() && i != j ==> #[trigger] entries[i].0@
            != #[trigger] entries[j].0@
}

impl<V> View for Table<V> {
    type V = Map<Seq<char>, V>;

    closed spec fn view(&self) -> Map<Seq<char>, V> {
        entries_map(self.entries@)
    }
}

impl<V> Table<V> {
    #[verifier::type_invariant]
    closed spec fn inv(self) -> bool {
        distinct_names(self.entries@)
    }

    /// The entries in the order they were first added.
    pub closed spec fn entries_view(self) -> Seq<(String, V)> {
        self.entries@
    }

    proof fn lemma_slot(entries: Seq<(String, V)>, i: int)
        requires
            distinct_names(entries),
            0 <= i < entries.len(),
        ensures
            slot_of(entries, entries[i].0@) == i,
            entries_map(entries).contains_key(entries[i].0@),
            entries_map(entries)[entries[i].0@] == entries[i].1,
    {
        let k = entries[i].0@;
        assert(0 <= i < entries.len() && entries[i].0@ == k);
        let j = slot_of(entries, k);
        assert(0 <= j < entries.len() && entries[j].0@ == k);
    }

    /// An empty table.
    pub fn new() -> (r: Table<V>)
        ensures
            r@ == Map::<Seq<char>, V>::empty(),
    {
        let r = Table { entries: Vec::new() };
        assert(r@ =~= Map::<Seq<char>, V>::empty());
        r
    }

    /// The entries, each name once; every entry is in the table.
    pub fn entries(&self) -> (r: &Vec<(String, V)>)
        ensures
            r@ == self.entries_view(),
            forall|i: int| 0 <= i < r@.len() ==> #[trigger] self@.contains_key(r@[i].0@)
                && self@[r@[i].0@] == r@[i].1,
            forall|k: Seq<char>| #[trigger] self@.contains_key(k) ==> exists|i: int|
                0 <= i < r@.len() && r@[i].0@ == k,
            r@.len() == self@.dom().len(),
    {
        proof {
            use_type_invariant(self);
            assert forall|i: int| 0 <= i < self.entries@.len() implies #[trigger] self@.contains_key(
                self.entries@[i].0@,
            ) && self@[self.entries@[i].0@] == self.entries@[i].1 by {
                Self::lemma_slot(self.entries@, i);
            }
            Self::lemma_dom_len(self.entries@);
        }
        &self.entries
    }

    proof fn lemma_dom_len(entries: Seq<(String, V)>)
        requires
            distinct_names(entries),
        ensures
            entries_map(entries).dom().len() == entries.len(),
            entries_map(entries).dom().finite(),
        decreases entries.len(),
    {
        let m = entries_map(entries);
        if entries.len() == 0 {
            assert(m.dom() =~= Set::<Seq<char>>::empty());
        } else {
            let e = entries.drop_last();
            assert(distinct_names(e)) by {
                assert forall|i: int, j: int|
                    0 <= i < e.len() && 0 <= j < e.len() && i != j implies #[trigger] e[i].0@
                    != #[trigger] e[j].0@ by {
                    assert(e[i] == entries[i]);
                    assert(e[j] == entries[j]);
                }
            }
            Self::lemma_dom_len(e);
            let last = entries.last().0@;
            assert(!entries_map(e).dom().contains(last)) by {
                if entries_map(e).dom().contains(last) {
                    let j = choose|j: int| 0 <= j < e.len() && e[j].0@ == last;
                    assert(entries[j].0@ == entries[entries.len() - 1].0@);
                }
            }
            assert(m.dom() =~= entries_map(e).dom().insert(last)) by {
                assert forall|k: Seq<char>| m.dom().contains(k) implies entries_map(e).dom().insert(
                    last,
                ).contains(k) by {
                    let i = choose|i: int| 0 <= i < entries.len() && entries[i].0@ == k;
                    if i < entries.len() - 1 {
                        assert(e[i] == entries[i]);
                    }
                }
                assert forall|k: Seq<char>| entries_map(e).dom().insert(last).contains(k) implies m.dom().contains(
                    k,
                ) by {
                    if k != last {
                        let i = choose|i: int| 0 <= i < e.len() && e[i].0@ == k;
                        assert(entries[i] == e[i]);
                    } else {
                        assert(entries[entries.len() - 1].0@ == k);
                    }
                }
            }
        }
    }

    fn find(&self, key: &String) -> (r: Option<usize>)
        ensures
            match r {
                Some(i) => i < self.entries@.len() && self.entries@[i as int].0@ == key@,
                None => !self@.contains_key(key@),
            },
    {
        let mut i: usize = 0;
        while i < self.entries.len()
            invariant
                i <= self.entries@.len(),
                forall|j: int| 0 <= j < i ==> self.entries@[j].0@ != key@,
            decreases self.entries@.len() - i,
        {
            if self.entries[i].0 == *key {
                return Some(i);
            }
            i = i + 1;
        }
        None
    }

    /// The value under `key`, if there is one.
    pub fn get(&self, key: &String) -> (r: Option<&V>)
        ensures
            match r {
                Some(v) => self@.contains_key(key@) && self@[key@] == *v,
                None => !self@.contains_key(key@),
            },
    {
        proof {
            use_type_invariant(self);
        }
        match self.find(key) {
            Some(i) => {
                proof {
                    Self::lemma_slot(self.entries@, i as int);
                }
                Some(&self.entries[i].1)
            },
            None => None,
        }
    }

    /// Whether `key` has a value.
    pub fn contains(&self, key: &String) -> (r: bool)
        ensures
            r == self@.contains_key(key@),
    {
        proof {
            use_type_invariant(self);
        }
        match self.find(key) {
            Some(i) => {
                proof {
                    Self::lemma_slot(self.entries@, i as int);
                }
                true
            },
            None => false,
        }
    }

    /// Puts `value` under `key`, replacing any value there.
    pub fn insert(&mut self, key: String, value: V)
        ensures
            final(self)@ == old(self)@.insert(key@, value),
    {
        proof {
            use_type_invariant(&*self);
        }
        let ghost old_entries = self.entries@;
        let ghost k = key@;
        match self.find(&key) {
            Some(i) => {
                let mut entries: Vec<(String, V)> = Vec::new();
                std::mem::swap(&mut entries, &mut self.entries);
                entries.set(i, (key, value));
                let ghost ne = entries@;
                assert(ne == old_entries.update(i as int, (ne[i as int].0, value)));
                assert(distinct_names(ne)) by {
                    assert forall|a: int, b: int|
                        0 <= a < ne.len() && 0 <= b < ne.len() && a != b implies #[trigger] ne[a].0@
                        != #[trigger] ne[b].0@ by {
                        if a != i && b != i {
                            assert(ne[a] == old_entries[a]);
                            assert(ne[b] == old_entries[b]);
                        } else if a == i {
                            assert(ne[b] == old_entries[b]);
                        } else {
                            assert(ne[a] == old_entries[a]);
                        }
                    }
                }
                proof {
                    Self::lemma_slot(ne, i as int);
                    assert(entries_map(ne) =~= entries_map(old_entries).insert(k, value)) by {
                        assert forall|q: Seq<char>| #[trigger] entries_map(ne).contains_key(q)
                            <==> entries_map(old_entries).insert(k, value).contains_key(q) by {
                            if entries_map(ne).contains_key(q) {
                                let j = choose|j: int| 0 <= j < ne.len() && ne[j].0@ == q;
                                if j != i {
                                    assert(old_entries[j] == ne[j]);
                                }
                            }
                            if q != k && entries_map(old_entries).contains_key(q) {
                                let j = choose|j: int| 0 <= j < old_entries.len() && old_entries[j].0@ == q;
                                assert(ne[j] == old_entries[j]);
                            }
                        }
                        assert forall|q: Seq<char>| #[trigger] entries_map(ne).contains_key(q) implies entries_map(
                            ne,
                        )[q] == entries_map(old_entries).insert(k, value)[q] by {
                            let j = choose|j: int| 0 <= j < ne.len() && ne[j].0@ == q;
                            Self::lemma_slot(ne, j);
                            if j != i {
                                assert(old_entries[j] == ne[j]);
                                Self::lemma_slot(old_entries, j);
                            }
                        }
                    }
                }
                self.entries = entries;
            },
            None => {
                let mut entries: Vec<(String, V)> = Vec::new();
                std::mem::swap(&mut entries, &mut self.entries);
                entries.push((key, value));
                let ghost ne = entries@;
                assert(distinct_names(ne)) by {
                    assert forall|a: int, b: int|
                        0 <= a < ne.len() && 0 <= b < ne.len() && a != b implies #[trigger] ne[a].0@
                        != #[trigger] ne[b].0@ by {
                        if a < old_entries.len() && b < old_entries.len() {
                            assert(ne[a] == old_entries[a]);
                            assert(ne[b] == old_entries[b]);
                        } else if a < old_entries.len() {
                            assert(ne[a] == old_entries[a]);
                            Self::lemma_slot(old_entries, a);
                        } else {
                            assert(ne[b] == old_entries[b]);
                            Self::lemma_slot(old_entries, b);
                        }
                    }
                }
                proof {
                    let last = (ne.len() - 1) as int;
                    Self::lemma_slot(ne, last);
                    assert(entries_map(ne) =~= entries_map(old_entries).insert(k, value)) by {
                        assert forall|q: Seq<char>| #[trigger] entries_map(ne).contains_key(q)
                            <==> entries_map(old_entries).insert(k, value).contains_key(q) by {
                            if entries_map(ne).contains_key(q) && q != k {
                                let j = choose|j: int| 0 <= j < ne.len() && ne[j].0@ == q;
                                assert(old_entries[j] == ne[j]);
                            }
                            if q != k && entries_map(old_entries).contains_key(q) {
                                let j = choose|j: int| 0 <= j < old_entries.len() && old_entries[j].0@ == q;
                                assert(ne[j] == old_entries[j]);
                            }
                        }
                        assert forall|q: Seq<char>| #[trigger] entries_map(ne).contains_key(q) implies entries_map(
                            ne,
                        )[q] == entries_map(old_entries).insert(k, value)[q] by {
                            let j = choose|j: int| 0 <= j < ne.len() && ne[j].0@ == q;
                            Self::lemma_slot(ne, j);
                            if j != last {
                                assert(old_entries[j] == ne[j]);
                                Self::lemma_slot(old_entries, j);
                            }
                        }
                    }
                }
                self.entries = entries;
            },
        }
    }

    /// Takes the value under `key` out of the table.
    pub fn remove(&mut self, key: &String) -> (r: Option<V>)
        ensures
            final(self)@ == old(self)@.remove(key@),
            match r {
                Some(v) => old(self)@.contains_key(key@) && old(self)@[key@] == v,
                None => !old(self)@.contains_key(key@),
            },
    {
        proof {
            use_type_invariant(&*self);
        }
        let ghost old_entries = self.entries@;
        let ghost k = key@;
        match self.find(key) {
            Some(i) => {
                proof {
                    Self::lemma_slot(old_entries, i as int);
                }
                let mut entries: Vec<(String, V)> = Vec::new();
                std::mem::swap(&mut entries, &mut self.entries);
                let (_, v) = entries.remove(i);
                let ghost ne = entries@;
                assert(forall|a: int| 0 <= a < ne.len() ==> #[trigger] ne[a] == if a < i {
                    old_entries[a]
                } else {
                    old_entries[a + 1]
                });
                assert(distinct_names(ne)) by {
                    assert forall|a: int, b: int|
                        0 <= a < ne.len() && 0 <= b < ne.len() && a != b implies #[trigger] ne[a].0@
                        != #[trigger] ne[b].0@ by {
                        let a2 = if a < i { a } else { a + 1 };
                        let b2 = if b < i { b } else { b + 1 };
                        assert(ne[a] == old_entries[a2]);
                        assert(ne[b] == old_entries[b2]);
                    }
                }
                proof {
                    assert(entries_map(ne) =~= entries_map(old_entries).remove(k)) by {
                        assert forall|q: Seq<char>| #[trigger] entries_map(ne).contains_key(q)
                            <==> entries_map(old_entries).remove(k).contains_key(q) by {
                            if entries_map(ne).contains_key(q) {
                                let j = choose|j: int| 0 <= j < ne.len() && ne[j].0@ == q;
                                let j2 = if j < i { j } else { j + 1 };
                                assert(ne[j] == old_entries[j2]);
                                assert(old_entries[j2].0@ != old_entries[i as int].0@);
                            }
                            if q != k && entries_map(old_entries).contains_key(q) {
                                let j = choose|j: int| 0 <= j < old_entries.len() && old_entries[j].0@ == q;
                                if j < i {
                                    assert(ne[j] == old_entries[j]);
                                } else {
                                    assert(j != i);
                                    assert(ne[j - 1] == old_entries[j]);
                                }
                            }
                        }
                        assert forall|q: Seq<char>| #[trigger] entries_map(ne).contains_key(q) implies entries_map(
                            ne,
                        )[q] == entries_map(old_entries).remove(k)[q] by {
                            let j = choose|j: int| 0 <= j < ne.len() && ne[j].0@ == q;
                            Self::lemma_slot(ne, j);
                            let j2 = if j < i { j } else { j + 1 };
                            assert(ne[j] == old_entries[j2]);
                            Self::lemma_slot(old_entries, j2);
                        }
                    }
                }
                self.entries = entries;
                Some(v)
            },
            None => {
                assert(old(self)@.remove(k) =~= old(self)@);
                None
            },
        }
    }

    /// Empties the table.
    pub fn clear(&mut self)
        ensures
            final(self)@ == Map::<Seq<char>, V>::empty(),
    {
        self.entries = Vec::new();
        assert(entries_map(self.entries@) =~= Map::<Seq<char>, V>::empty());
    }

    /// Whether the table has no entries.
    pub fn is_empty(&self) -> (r: bool)
        ensures
            r == (self@.dom() == Set::<Seq<char>>::empty()),
    {
        proof {
            use_type_invariant(self);
            Self::lemma_dom_len(self.entries@);
            if self.entries@.len() > 0 {
                Self::lemma_slot(self.entries@, 0);
                assert(self@.dom().contains(self.entries@[0].0@));
            } else {
                assert(self@.dom() =~= Set::<Seq<char>>::empty());
            }
        }
        self.entries.len() == 0
    }
}

} // verus!
