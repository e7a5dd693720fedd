//! A small table from texts to values that keeps the order of insertion.

use vstd::prelude::*;

use crate::text;

verus! {

/// A list of entries holds the key `key`.
pub open spec fn has_key<V>(entries: Seq<(Seq<char>, V)>, key: Seq<char>) -> bool {
    exists|i: int| 0 <= i < entries.len() && (#[trigger] entries[i]).0 == key
}

/// Where a list of entries holds the key `key`.
pub open spec fn key_index<V>(entries: Seq<(Seq<char>, V)>, key: Seq<char>) -> int {
    choose|i: int| 0 <= i < entries.len() && (#[trigger] entries[i]).0 == key
}

/// No key occurs twice.
pub open spec fn keys_differ<V>(entries: Seq<(Seq<char>, V)>) -> bool {
    forall|i: int, j: int|
        0 <= i < j < entries.len() ==> (#[trigger] entries[i]).0 != (#[trigger] entries[j]).0
}

/// The entries as a map.
pub open spec fn entry_map<V>(entries: Seq<(Seq<char>, V)>) -> Map<Seq<char>, V> {
    Map::new(|key: Seq<char>| has_key(entries, key), |key: Seq<char>| entries[key_index(entries, key)].1)
}

/// The entries with `key` set to `value`: in place where the key is there
/// already, at the end otherwise.
pub open spec fn entries_with<V>(entries: Seq<(Seq<char>, V)>, key: Seq<char>, value: V) -> Seq<
    (Seq<char>, V),
> {
    if has_key(entries, key) {
        entries.update(key_index(entries, key), (key, value))
    } else {
        entries.push((key, value))
    }
}

/// The entries without `key`.
pub open spec fn entries_without<V>(entries: Seq<(Seq<char>, V)>, key: Seq<char>) -> Seq<
    (Seq<char>, V),
> {
    if has_key(entries, key) {
        entries.remove(key_index(entries, key))
    } else {
        entries
    }
}

/// A table from texts to values.
#[derive(Debug)]
pub struct Table<V> {
    entries: Vec<(String, V)>,
}

impl<V> View for Table<V> {
    type V = Map<Seq<char>, V>;

    open spec fn view(&self) -> Map<Seq<char>, V> {
        entry_map(self.list())
    }
}

proof fn lemma_entry<V>(entries: Seq<(Seq<char>, V)>, i: int)
    requires
        keys_differ(entries),
        0 <= i < entries.len(),
    ensures
        has_key(entries, entries[i].0),
        key_index(entries, entries[i].0) == i,
{
    let k = key_index(entries, entries[i].0);
    assert(0 <= k < entries.len() && entries[k].0 == entries[i].0);
}

proof fn lemma_entries_with<V>(entries: Seq<(Seq<char>, V)>, key: Seq<char>, value: V)
    requires
        keys_differ(entries),
    ensures
        keys_differ(entries_with(entries, key, value)),
        entry_map(entries_with(entries, key, value)) == entry_map(entries).insert(key, value),
{
    let after = entries_with(entries, key, value);
    let k = key_index(entries, key);
    assert(keys_differ(after));
    assert forall|q: Seq<char>| has_key(after, q) <==> (has_key(entries, q) || q == key) by {
        if has_key(entries, q) {
            let i = key_index(entries, q);
            assert(after[i].0 == q);
        }
        if q == key {
            if has_key(entries, key) {
                assert(after[k].0 == key);
            } else {
                assert(after[entries.len() as int].0 == key);
            }
        }
        if has_key(after, q) && q != key {
            let i = key_index(after, q);
            assert(entries[i].0 == q);
        }
    }
    assert forall|q: Seq<char>| has_key(after, q) implies after[key_index(after, q)].1 == (
    if q == key {
        value
    } else {
        entries[key_index(entries, q)].1
    }) by {
        let i = key_index(after, q);
        lemma_entry(after, i);
        if q != key {
            lemma_entry(entries, i);
        }
    }
    assert(entry_map(after) =~= entry_map(entries).insert(key, value));
}

proof fn lemma_entries_without<V>(entries: Seq<(Seq<char>, V)>, key: Seq<char>)
    requires
        keys_differ(entries),
    ensures
        keys_differ(entries_without(entries, key)),
        entry_map(entries_without(entries, key)) == entry_map(entries).remove(key),
{
    let after = entries_without(entries, key);
    if !has_key(entries, key) {
        assert(entry_map(after) =~= entry_map(entries).remove(key));
    } else {
        let k = key_index(entries, key);
        assert forall|i: int| 0 <= i < after.len() implies after[i] == entries[if i < k {
            i
        } else {
            i + 1
        }] by {}
        assert(keys_differ(after));
        assert forall|q: Seq<char>| has_key(after, q) <==> (has_key(entries, q) && q != key) by {
            if has_key(entries, q) && q != key {
                let i = key_index(entries, q);
                let j = if i < k {
                    i
                } else {
                    i - 1
                };
                assert(after[j].0 == q);
            }
            if has_key(after, q) {
                let i = key_index(after, q);
                let j = if i < k {
                    i
                } else {
                    i + 1
                };
                assert(entries[j].0 == q);
            }
        }
        assert forall|q: Seq<char>| has_key(after, q) implies after[key_index(after, q)].1
            == entries[key_index(entries, q)].1 by {
            let i = key_index(after, q);
            let j = if i < k {
                i
            } else {
                i + 1
            };
            lemma_entry(entries, j);
        }
        assert(entry_map(after) =~= entry_map(entries).remove(key));
    }
}

impl<V> Table<V> {
    /// The entries in order.
    pub closed spec fn list(&self) -> Seq<(Seq<char>, V)> {
        self.entries@.map_values(|e: (String, V)| (e.0@, e.1))
    }

    /// No key occurs twice.
    pub open spec fn wf(&self) -> bool {
        keys_differ(self.list())
    }

    /// Every entry of the list is in the map, and its key stands nowhere else.
    pub proof fn lemma_listed(&self, i: int)
        requires
            self.wf(),
            0 <= i < self.list().len(),
        ensures
            self@.contains_key(self.list()[i].0),
            self@[self.list()[i].0] == self.list()[i].1,
            has_key(self.list(), self.list()[i].0),
            key_index(self.list(), self.list()[i].0) == i,
    {
        lemma_entry(self.list(), i);
    }

    /// Every key of the map stands in the list.
    pub proof fn lemma_in_list(&self, key: Seq<char>) -> (i: int)
        requires
            self@.contains_key(key),
        ensures
            0 <= i < self.list().len(),
            self.list()[i].0 == key,
            self.list()[i].1 == self@[key],
    {
        key_index(self.list(), key)
    }

    /// A table without entries.
    pub fn new() -> (r: Self)
        ensures
            r.wf(),
            r.list() == Seq::<(Seq<char>, V)>::empty(),
            r@ == Map::<Seq<char>, V>::empty(),
    {
        let r = Table { entries: Vec::new() };
        assert(r.list() =~= Seq::empty());
        assert(r@ =~= Map::empty());
        r
    }

    /// How many entries there are.
    pub fn len(&self) -> (r: usize)
        ensures
            r == self.list().len(),
    {
        self.entries.len()
    }

    /// The key of an entry.
    pub fn key(&self, i: usize) -> (r: &str)
        requires
            i < self.list().len(),
        ensures
            r@ == self.list()[i as int].0,
    {
        self.entries[i].0.as_str()
    }

    /// The value of an entry.
    pub fn value(&self, i: usize) -> (r: &V)
        requires
            i < self.list().len(),
        ensures
            *r == self.list()[i as int].1,
    {
        &self.entries[i].1
    }

    /// Where a key is.
    fn position(&self, key: &str) -> (r: Option<usize>)
        requires
            self.wf(),
        ensures
            match r {
                Some(i) => {
                    &&& i < self.list().len()
                    &&& has_key(self.list(), key@)
                    &&& key_index(self.list(), key@) == i
                },
                None => !has_key(self.list(), key@),
            },
    {
        let mut i: usize = 0;
        while i < self.entries.len()
            invariant
                self.wf(),
                i <= self.entries@.len() == self.list().len(),
                forall|k: int| 0 <= k < i ==> (#[trigger] self.list()[k]).0 != key@,
            decreases self.entries@.len() - i,
        {
            if text::same_text(self.entries[i].0.as_str(), key) {
                proof {
                    lemma_entry(self.list(), i as int);
                }
                return Some(i);
            }
            i = i + 1;
        }
        None
    }

    /// The value of a key.
    pub fn get(&self, key: &str) -> (r: Option<&V>)
        requires
            self.wf(),
        ensures
            match r {
                Some(v) => self@.contains_key(key@) && *v == self@[key@],
                None => !self@.contains_key(key@),
            },
    {
        match self.position(key) {
            Some(i) => Some(&self.entries[i].1),
            None => None,
        }
    }

    /// Sets the value of a key.
    pub fn insert(&mut self, key: String, value: V)
        requires
            old(self).wf(),
        ensures
            final(self).wf(),
            final(self).list() == entries_with(old(self).list(), key@, value),
            final(self)@ == old(self)@.insert(key@, value),
    {
        let ghost before = self.list();
        proof {
            lemma_entries_with(before, key@, value);
        }
        match self.position(key.as_str()) {
            Some(i) => {
                let ghost text = key@;
                self.entries.set(i, (key, value));
                assert(self.list() =~= before.update(i as int, (text, value)));
            },
            None => {
                let ghost text = key@;
                self.entries.push((key, value));
                assert(self.list() =~= before.push((text, value)));
            },
        }
    }

    /// Removes a key and hands out its value.
    pub fn remove(&mut self, key: &str) -> (r: Option<V>)
        requires
            old(self).wf(),
        ensures
            final(self).wf(),
            final(self).list() == entries_without(old(self).list(), key@),
            final(self)@ == old(self)@.remove(key@),
            match r {
                Some(v) => old(self)@.contains_key(key@) && v == old(self)@[key@],
                None => !old(self)@.contains_key(key@),
            },
    {
        let ghost before = self.list();
        proof {
            lemma_entries_without(before, key@);
        }
        match self.position(key) {
            Some(i) => {
                let (_, value) = self.entries.remove(i);
                assert(self.list() =~= before.remove(i as int));
                Some(value)
            },
            None => None,
        }
    }
}

} // verus!
