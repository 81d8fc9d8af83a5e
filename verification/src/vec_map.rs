//! A map kept as a vector of entries.

use crate::models::Key;
use vstd::prelude::*;

verus! {

/// A value that can be copied faithfully.
pub trait Value: View + Sized {
    /// A value that stands for the same thing.
    fn duplicate(&self) -> (copy: Self)
        ensures
            copy@ == self@,
    ;
}

impl Value for Vec<u8> {
    fn duplicate(&self) -> (copy: Self) {
        let copy = self.clone();
        assert(copy@ =~= self@);
        copy
    }
}

/// The map that a sequence of entries stands for; a later entry wins over an earlier one.
pub open spec fn map_of<K, V: View>(entries: Seq<(K, V)>) -> Map<K, V::V>
    decreases entries.len(),
{
    if entries.len() == 0 {
        Map::empty()
    } else {
        map_of(entries.drop_last()).insert(entries.last().0, entries.last().1@)
    }
}

/// Whether no key occurs twice.
pub open spec fn keys_distinct<K, V>(entries: Seq<(K, V)>) -> bool {
    forall|i: int, j: int|
        0 <= i < entries.len() && 0 <= j < entries.len() && i != j ==> (
        #[trigger] entries[i]).0 != (#[trigger] entries[j]).0
}

proof fn lemma_map_of_entry<K, V: View>(entries: Seq<(K, V)>, i: int)
    requires
        keys_distinct(entries),
        0 <= i < entries.len(),
    ensures
        map_of(entries).contains_key(entries[i].0),
        map_of(entries)[entries[i].0] == entries[i].1@,
    decreases entries.len(),
{
    if i < entries.len() - 1 {
        assert(entries.drop_last()[i] == entries[i]);
        assert(keys_distinct(entries.drop_last()));
        lemma_map_of_entry(entries.drop_last(), i);
        assert(entries[i].0 != entries[entries.len() - 1].0);
    }
}

proof fn lemma_map_of_absent<K, V: View>(entries: Seq<(K, V)>, key: K)
    requires
        forall|i: int| 0 <= i < entries.len() ==> (#[trigger] entries[i]).0 != key,
    ensures
        !map_of(entries).contains_key(key),
    decreases entries.len(),
{
    if entries.len() > 0 {
        assert forall|i: int| 0 <= i < entries.drop_last().len() implies (
        #[trigger] entries.drop_last()[i]).0 != key by {
            assert(entries.drop_last()[i] == entries[i]);
        }
        lemma_map_of_absent(entries.drop_last(), key);
        assert(entries[entries.len() - 1].0 != key);
    }
}

/// Replacing the value of one entry replaces the value of its key.
proof fn lemma_map_of_update<K, V: View>(entries: Seq<(K, V)>, i: int, value: V)
    requires
        keys_distinct(entries),
        0 <= i < entries.len(),
    ensures
        map_of(entries.update(i, (entries[i].0, value))) == map_of(entries).insert(
            entries[i].0,
            value@,
        ),
    decreases entries.len(),
{
    let updated = entries.update(i, (entries[i].0, value));
    let rest = entries.drop_last();
    if i < entries.len() - 1 {
        assert(keys_distinct(rest));
        lemma_map_of_update(rest, i, value);
        assert(updated.drop_last() =~= rest.update(i, (rest[i].0, value)));
        assert(entries[i].0 != entries[entries.len() - 1].0);
        assert(map_of(updated) =~= map_of(entries).insert(entries[i].0, value@));
    } else {
        assert(updated.drop_last() =~= rest);
        assert(map_of(updated) =~= map_of(entries).insert(entries[i].0, value@));
    }
}

/// Taking one entry out takes its key out.
proof fn lemma_map_of_remove<K, V: View>(entries: Seq<(K, V)>, i: int)
    requires
        keys_distinct(entries),
        0 <= i < entries.len(),
    ensures
        map_of(entries.remove(i)) == map_of(entries).remove(entries[i].0),
        keys_distinct(entries.remove(i)),
    decreases entries.len(),
{
    let removed = entries.remove(i);
    let rest = entries.drop_last();
    assert forall|a: int, b: int|
        0 <= a < removed.len() && 0 <= b < removed.len() && a != b implies (
    #[trigger] removed[a]).0 != (#[trigger] removed[b]).0 by {
        let a0 = if a < i { a } else { a + 1 };
        let b0 = if b < i { b } else { b + 1 };
        assert(removed[a] == entries[a0] && removed[b] == entries[b0]);
    }
    if i < entries.len() - 1 {
        assert(keys_distinct(rest));
        lemma_map_of_remove(rest, i);
        assert(removed.drop_last() =~= rest.remove(i));
        assert(entries[i].0 != entries[entries.len() - 1].0);
        assert(map_of(removed) =~= map_of(entries).remove(entries[i].0));
    } else {
        assert(removed =~= rest);
        assert forall|j: int| 0 <= j < rest.len() implies (#[trigger] rest[j]).0
            != entries[i].0 by {
            assert(rest[j] == entries[j]);
        }
        lemma_map_of_absent(rest, entries[i].0);
        assert(map_of(removed) =~= map_of(entries).remove(entries[i].0));
    }
}

/// A map kept as a vector of entries in which no key occurs twice.
pub struct VecMap<K: Key, V: Value> {
    entries: Vec<(K, V)>,
}

impl<K: Key, V: Value> View for VecMap<K, V> {
    type V = Map<K, V::V>;

    closed spec fn view(&self) -> Map<K, V::V> {
        map_of(self.entries@)
    }
}

impl<K: Key, V: Value> VecMap<K, V> {
    #[verifier::type_invariant]
    spec fn well_formed(self) -> bool {
        keys_distinct(self.entries@)
    }

    /// The map of the first `n` entries.
    pub closed spec fn prefix(&self, n: int) -> Map<K, V::V> {
        map_of(self.entries@.take(n))
    }

    /// How many entries there are.
    pub closed spec fn spec_len(&self) -> nat {
        self.entries@.len()
    }

    /// The empty map.
    pub fn new() -> (map: VecMap<K, V>)
        ensures
            map@ == Map::<K, V::V>::empty(),
            map.spec_len() == 0,
    {
        VecMap { entries: Vec::new() }
    }

    /// How many entries there are.
    pub fn len(&self) -> (len: usize)
        ensures
            len == self.spec_len(),
            self.prefix(len as int) == self@,
            self.prefix(0) == Map::<K, V::V>::empty(),
    {
        assert(self.entries@.take(self.entries@.len() as int) =~= self.entries@);
        assert(self.entries@.take(0) =~= Seq::empty());
        self.entries.len()
    }

    /// The entry at position `i`.
    pub fn entry_at(&self, i: usize) -> (entry: (K, &V))
        requires
            i < self.spec_len(),
        ensures
            !self.prefix(i as int).contains_key(entry.0),
            self.prefix(i + 1) == self.prefix(i as int).insert(entry.0, entry.1@),
            self@.contains_key(entry.0),
            self@[entry.0] == entry.1@,
    {
        proof {
            use_type_invariant(self);
            let before = self.entries@.take(i as int);
            let upto = self.entries@.take(i + 1);
            assert(upto.drop_last() =~= before);
            assert(upto.last() == self.entries@[i as int]);
            assert forall|j: int| 0 <= j < before.len() implies (#[trigger] before[j]).0
                != self.entries@[i as int].0 by {
                assert(before[j] == self.entries@[j]);
            }
            lemma_map_of_absent(before, self.entries@[i as int].0);
            lemma_map_of_entry(self.entries@, i as int);
        }
        let entry = &self.entries[i];
        (entry.0, &entry.1)
    }

    /// The position of `key`.
    fn position(&self, key: &K) -> (position: Option<usize>)
        ensures
            match position {
                Some(i) => i < self.entries@.len() && self.entries@[i as int].0 == *key,
                None => forall|i: int|
                    0 <= i < self.entries@.len() ==> (#[trigger] self.entries@[i]).0 != *key,
            },
    {
        let mut i: usize = 0;
        while i < self.entries.len()
            invariant
                i <= self.entries@.len(),
                forall|j: int| 0 <= j < i ==> (#[trigger] self.entries@[j]).0 != *key,
            decreases self.entries@.len() - i,
        {
            if self.entries[i].0.same(key) {
                return Some(i);
            }
            i = i + 1;
        }
        None
    }

    /// The value of `key`.
    pub fn get(&self, key: &K) -> (value: Option<&V>)
        ensures
            match value {
                Some(value) => self@.contains_key(*key) && value@ == self@[*key],
                None => !self@.contains_key(*key),
            },
    {
        match self.position(key) {
            Some(i) => {
                proof {
                    use_type_invariant(self);
                    lemma_map_of_entry(self.entries@, i as int);
                }
                Some(&self.entries[i].1)
            },
            None => {
                proof {
                    lemma_map_of_absent(self.entries@, *key);
                }
                None
            },
        }
    }

    /// Whether `key` has a value.
    pub fn contains_key(&self, key: &K) -> (present: bool)
        ensures
            present == self@.contains_key(*key),
    {
        self.get(key).is_some()
    }

    /// Gives `key` the value `value`.
    pub fn insert(&mut self, key: K, value: V)
        ensures
            final(self)@ == old(self)@.insert(key, value@),
    {
        proof {
            use_type_invariant(&*self);
        }
        let position = self.position(&key);
        let mut entries: Vec<(K, V)> = Vec::new();
        let ghost before = self.entries@;
        std::mem::swap(&mut self.entries, &mut entries);
        match position {
            Some(i) => {
                proof {
                    lemma_map_of_update(before, i as int, value);
                }
                entries[i] = (key, value);
                assert(entries@ =~= before.update(i as int, (before[i as int].0, value)));
                assert forall|a: int, b: int|
                    0 <= a < entries@.len() && 0 <= b < entries@.len() && a != b implies (
                #[trigger] entries@[a]).0 != (#[trigger] entries@[b]).0 by {
                    assert(entries@[a].0 == before[a].0 && entries@[b].0 == before[b].0);
                }
            },
            None => {
                entries.push((key, value));
                assert(entries@.drop_last() =~= before);
            },
        }
        self.entries = entries;
    }

    /// Takes `key` out, if it is there.
    pub fn remove(&mut self, key: &K)
        ensures
            final(self)@ == old(self)@.remove(*key),
    {
        proof {
            use_type_invariant(&*self);
        }
        match self.position(key) {
            Some(i) => {
                let mut entries: Vec<(K, V)> = Vec::new();
                let ghost before = self.entries@;
                std::mem::swap(&mut self.entries, &mut entries);
                proof {
                    lemma_map_of_remove(before, i as int);
                }
                entries.remove(i);
                self.entries = entries;
            },
            None => {
                proof {
                    lemma_map_of_absent(self.entries@, *key);
                    assert(self@ =~= self@.remove(*key));
                }
            },
        }
    }

    /// Takes every entry out.
    pub fn clear(&mut self)
        ensures
            final(self)@ == Map::<K, V::V>::empty(),
    {
        self.entries = Vec::new();
    }
}

impl<K: Key, V: Value> Value for VecMap<K, V> {
    fn duplicate(&self) -> (copy: Self) {
        let mut copy: VecMap<K, V> = VecMap::new();
        let len: usize = self.len();
        let mut i: usize = 0;
        while i < len
            invariant
                i <= len,
                len == self.spec_len(),
                copy@ == self.prefix(i as int),
            decreases len - i,
        {
            let (key, value) = self.entry_at(i);
            copy.insert(key, value.duplicate());
            i = i + 1;
        }
        copy
    }
}

} // verus!
