use vstd::prelude::*;

verus! {

/// One keyed record of a [`KeyedTable`].
pub struct TableEntry<V> {
    pub key: String,
    pub value: V,
}

/// The keys of `entries`, in order.
pub open spec fn entry_keys<V>(entries: Seq<TableEntry<V>>) -> Seq<Seq<char>> {
    entries.map_values(|e: TableEntry<V>| e.key@)
}

/// The map that `entries` stands for: each key to the value stored with it.
pub open spec fn entry_map<V>(entries: Seq<TableEntry<V>>) -> Map<Seq<char>, V>
    decreases entries.len(),
{
    if entries.len() == 0 {
        Map::empty()
    } else {
        entry_map(entries.drop_last()).insert(entries.last().key@, entries.last().value)
    }
}

/// A map from string keys to values that remembers the order in which keys
/// were first inserted.
pub struct KeyedTable<V> {
    entries: Vec<TableEntry<V>>,
}

proof fn lemma_entry_map<V>(entries: Seq<TableEntry<V>>)
    requires
        entry_keys(entries).no_duplicates(),
    ensures
        forall|k: Seq<char>| #[trigger]
            entry_map(entries).contains_key(k) <==> entry_keys(entries).contains(k),
        forall|i: int|
            0 <= i < entries.len() ==> #[trigger] entry_map(entries)[entries[i].key@]
                == entries[i].value,
    decreases entries.len(),
{
    if entries.len() > 0 {
        let prev = entries.drop_last();
        let last = entries.last();
        let ks = entry_keys(entries);
        let pks = entry_keys(prev);
        assert(pks =~= ks.drop_last());
        assert(ks =~= pks.push(last.key@));
        assert(pks.no_duplicates()) by {
            assert forall|a: int, b: int| 0 <= a < pks.len() && 0 <= b < pks.len() && a != b implies pks[a] != pks[b] by {
                assert(pks[a] == ks[a]);
                assert(pks[b] == ks[b]);
            }
        }
        lemma_entry_map(prev);
        assert(entry_map(entries) == entry_map(prev).insert(last.key@, last.value));
        assert forall|k: Seq<char>| #[trigger]
            entry_map(entries).contains_key(k) <==> ks.contains(k) by {
            if ks.contains(k) {
                let j = choose|j: int| 0 <= j < ks.len() && ks[j] == k;
                if j < prev.len() {
                    assert(pks[j] == k);
                    assert(pks.contains(k));
                }
            }
            if pks.contains(k) {
                let j = choose|j: int| 0 <= j < pks.len() && pks[j] == k;
                assert(ks[j] == k);
            }
            assert(ks[ks.len() - 1] == last.key@);
        }
        assert forall|i: int|
            0 <= i < entries.len() implies #[trigger] entry_map(entries)[entries[i].key@]
                == entries[i].value by {
            if i < entries.len() - 1 {
                assert(ks[i] != ks[ks.len() - 1]);
                assert(prev[i] == entries[i]);
                assert(entry_map(prev)[prev[i].key@] == prev[i].value);
            }
        }
    }
}

impl<V> KeyedTable<V> {
    /// No key occurs twice.
    pub closed spec fn wf(self) -> bool {
        entry_keys(self.entries@).no_duplicates()
    }

    /// The keys, in the order in which they were first inserted.
    pub closed spec fn key_seq(self) -> Seq<Seq<char>> {
        entry_keys(self.entries@)
    }

    /// The map from keys to values.
    pub closed spec fn view(self) -> Map<Seq<char>, V> {
        entry_map(self.entries@)
    }

    /// The keys have no duplicates and are exactly the map's domain.
    pub proof fn lemma_keys(self)
        requires
            self.wf(),
        ensures
            self.key_seq().no_duplicates(),
            forall|k: Seq<char>| #[trigger]
                self.view().contains_key(k) <==> self.key_seq().contains(k),
    {
        lemma_entry_map(self.entries@);
    }

    pub fn new() -> (res: Self)
        ensures
            res.wf(),
            res.view() == Map::<Seq<char>, V>::empty(),
            res.key_seq() == Seq::<Seq<char>>::empty(),
    {
        let res = KeyedTable { entries: Vec::new() };
        assert(entry_keys(res.entries@) =~= Seq::<Seq<char>>::empty());
        res
    }

    pub fn len(&self) -> (n: usize)
        ensures
            n == self.key_seq().len(),
    {
        self.entries.len()
    }

    /// The position of `key`, if it is present.
    fn find(&self, key: &str) -> (res: Option<usize>)
        ensures
            match res {
                Some(i) => i < self.entries@.len() && self.entries@[i as int].key@ == key@
                    && entry_keys(self.entries@)[i as int] == key@ && entry_keys(
                    self.entries@,
                ).contains(key@),
                None => !entry_keys(self.entries@).contains(key@),
            },
    {
        let k = key.to_owned();
        let n = self.entries.len();
        let mut i: usize = 0;
        while i < n
            invariant
                n == self.entries@.len(),
                i <= n,
                k@ == key@,
                forall|j: int| 0 <= j < i ==> self.entries@[j].key@ != key@,
            decreases n - i,
        {
            if self.entries[i].key == k {
                assert(entry_keys(self.entries@)[i as int] == key@);
                return Some(i);
            }
            i += 1;
        }
        proof {
            if entry_keys(self.entries@).contains(key@) {
                let j = choose|j: int|
                    0 <= j < entry_keys(self.entries@).len() && entry_keys(self.entries@)[j] == key@;
                assert(self.entries@[j].key@ == key@);
            }
        }
        None
    }

    pub fn contains_key(&self, key: &str) -> (res: bool)
        requires
            self.wf(),
        ensures
            res == self.view().contains_key(key@),
    {
        proof {
            lemma_entry_map(self.entries@);
        }
        self.find(key).is_some()
    }

    pub fn get(&self, key: &str) -> (res: Option<&V>)
        requires
            self.wf(),
        ensures
            match res {
                Some(v) => self.view().contains_key(key@) && *v == self.view()[key@],
                None => !self.view().contains_key(key@),
            },
    {
        proof {
            lemma_entry_map(self.entries@);
        }
        match self.find(key) {
            Some(i) => Some(&self.entries[i].value),
            None => None,
        }
    }

    /// The key at position `i`.
    pub fn key_at(&self, i: usize) -> (res: &String)
        requires
            i < self.key_seq().len(),
        ensures
            res@ == self.key_seq()[i as int],
    {
        &self.entries[i].key
    }

    /// The value at position `i`.
    pub fn value_at(&self, i: usize) -> (res: &V)
        requires
            self.wf(),
            i < self.key_seq().len(),
        ensures
            *res == self.view()[self.key_seq()[i as int]],
    {
        proof {
            lemma_entry_map(self.entries@);
        }
        &self.entries[i].value
    }

    /// Removes `key`, returning the value it had.
    pub fn remove(&mut self, key: &str) -> (res: Option<V>)
        requires
            old(self).wf(),
        ensures
            final(self).wf(),
            final(self).view() == old(self).view().remove(key@),
            match res {
                Some(v) => old(self).view().contains_key(key@) && v == old(self).view()[key@]
                    && final(self).key_seq() == old(self).key_seq().remove(
                        old(self).key_seq().index_of(key@),
                    ),
                None => !old(self).view().contains_key(key@) && final(self).key_seq()
                    == old(self).key_seq(),
            },
    {
        proof {
            lemma_entry_map(self.entries@);
        }
        match self.find(key) {
            None => {
                assert(self.view() =~= self.view().remove(key@));
                None
            },
            Some(i) => {
                let ghost old_entries = self.entries@;
                let e = self.entries.remove(i);
                proof {
                    let ks = entry_keys(old_entries);
                    assert(entry_keys(self.entries@) =~= ks.remove(i as int));
                    assert(ks[i as int] == key@);
                    ks.index_of_first_ensures(key@);
                    assert(ks.index_of(key@) == i) by {
                        let j = ks.index_of(key@);
                        assert(ks.contains(key@));
                        assert(ks[j] == key@);
                        assert(ks.no_duplicates());
                    }
                    assert(entry_keys(self.entries@).no_duplicates()) by {
                        assert forall|a: int, b: int|
                            0 <= a < b < entry_keys(self.entries@).len() implies entry_keys(self.entries@)[a]
                                != entry_keys(self.entries@)[b] by {
                            let a2 = if a < i { a } else { a + 1 };
                            let b2 = if b < i { b } else { b + 1 };
                            assert(entry_keys(self.entries@)[a] == ks[a2]);
                            assert(entry_keys(self.entries@)[b] == ks[b2]);
                        }
                    }
                    lemma_entry_map(self.entries@);
                    assert forall|k: Seq<char>|
                        #![auto]
                        entry_map(self.entries@).contains_key(k) == entry_map(old_entries).remove(
                            key@,
                        ).contains_key(k) by {
                        if entry_keys(self.entries@).contains(k) {
                            let j = choose|j: int|
                                0 <= j < entry_keys(self.entries@).len() && entry_keys(self.entries@)[j] == k;
                            let j2 = if j < i { j } else { j + 1 };
                            assert(ks[j2] == k);
                        }
                        if ks.contains(k) && k != key@ {
                            let j = choose|j: int| 0 <= j < ks.len() && ks[j] == k;
                            assert(j != i);
                            let j2 = if j < i { j } else { j - 1 };
                            assert(entry_keys(self.entries@)[j2] == k);
                        }
                    }
                    assert forall|k: Seq<char>|
                        #![auto]
                        entry_map(self.entries@).contains_key(k) implies entry_map(self.entries@)[k]
                            == entry_map(old_entries)[k] by {
                        let j = choose|j: int|
                            0 <= j < entry_keys(self.entries@).len() && entry_keys(self.entries@)[j] == k;
                        let j2 = if j < i { j } else { j + 1 };
                        assert(self.entries@[j] == old_entries[j2]);
                    }
                    assert(entry_map(self.entries@) =~= entry_map(old_entries).remove(key@));
                }
                Some(e.value)
            },
        }
    }

    /// Sets the value of `key`; a new key goes after all present ones.
    pub fn insert(&mut self, key: String, value: V)
        requires
            old(self).wf(),
        ensures
            final(self).wf(),
            final(self).view() == old(self).view().insert(key@, value),
            final(self).key_seq() == if old(self).view().contains_key(key@) {
                old(self).key_seq()
            } else {
                old(self).key_seq().push(key@)
            },
    {
        proof {
            lemma_entry_map(self.entries@);
        }
        let ghost old_entries = self.entries@;
        match self.find(key.as_str()) {
            None => {
                self.entries.push(TableEntry { key, value });
                proof {
                    assert(entry_keys(self.entries@) =~= entry_keys(old_entries).push(
                        self.entries@.last().key@,
                    ));
                    assert(self.entries@.drop_last() =~= old_entries);
                }
            },
            Some(i) => {
                let k = self.entries.remove(i);
                self.entries.insert(i, TableEntry { key, value });
                proof {
                    let ks = entry_keys(old_entries);
                    assert(entry_keys(self.entries@) =~= ks);
                    lemma_entry_map(self.entries@);
                    assert forall|k2: Seq<char>|
                        #![auto]
                        entry_map(self.entries@).contains_key(k2) implies entry_map(self.entries@)[k2]
                            == entry_map(old_entries).insert(key@, value)[k2] by {
                        let j = choose|j: int| 0 <= j < ks.len() && ks[j] == k2;
                        assert(entry_keys(self.entries@)[j] == k2);
                        if j != i {
                            assert(self.entries@[j] == old_entries[j]);
                        }
                    }
                    assert(entry_map(self.entries@) =~= entry_map(old_entries).insert(key@, value));
                }
                drop_entry(k);
            },
        }
    }
}

fn drop_entry<V>(e: TableEntry<V>) {
}

} // verus!
