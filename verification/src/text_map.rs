//! A map from strings to values of any type.

use crate::text::same;
use vstd::prelude::*;

verus! {

/// What a list of entries maps each key to: the last entry with that key counts.
pub open spec fn entries_map<T>(entries: Seq<(String, T)>) -> Map<Seq<char>, T>
    decreases entries.len(),
{
    if entries.len() == 0 {
        Map::empty()
    } else {
        entries_map(entries.drop_last()).insert(entries.last().0@, entries.last().1)
    }
}

/// The keys of entries, in order.
pub open spec fn entry_keys<T>(entries: Seq<(String, T)>) -> Seq<Seq<char>> {
    Seq::new(entries.len(), |i: int| entries[i].0@)
}

/// Whether no key stands in two entries.
pub open spec fn distinct_entries<T>(entries: Seq<(String, T)>) -> bool {
    forall|i: int, j: int|
        0 <= i < j < entries.len() ==> (#[trigger] entries[i]).0@ != (#[trigger] entries[j]).0@
}

/// A map from strings to values. Each key occurs once.
pub struct TextMap<T> {
    entries: Vec<(String, T)>,
}

impl<T> View for TextMap<T> {
    type V = Map<Seq<char>, T>;

    closed spec fn view(&self) -> Map<Seq<char>, T> {
        entries_map(self.entries@)
    }
}

impl<T> TextMap<T> {
    /// The entries, in the order in which they are walked.
    pub closed spec fn listed(&self) -> Seq<(String, T)> {
        self.entries@
    }
}

/// The entries of a map say what the map says.
pub proof fn lemma_listed<T>(m: TextMap<T>)
    ensures
        entries_map(m.listed()) == m@,
{
}

/// The keys of a list of distinct entries are those of the map, each once.
pub proof fn lemma_keys<T>(entries: Seq<(String, T)>)
    requires
        distinct_entries(entries),
    ensures
        entry_keys(entries).no_duplicates(),
        entry_keys(entries).to_set() == entries_map(entries).dom(),
        entries_map(entries).dom().finite(),
        entries_map(entries).dom().len() == entries.len(),
{
    let keys = entry_keys(entries);
    assert forall|i: int, j: int|
        0 <= i < keys.len() && 0 <= j < keys.len() && i != j implies keys[i] != keys[j] by {
        if i < j {
            assert(entries[i].0@ != entries[j].0@);
        } else {
            assert(entries[j].0@ != entries[i].0@);
        }
    }
    assert forall|k: Seq<char>| keys.to_set().contains(k) == entries_map(entries).dom().contains(
        k,
    ) by {
        lemma_entries_map(entries, k);
        if keys.contains(k) {
            let i = choose|i: int| 0 <= i < keys.len() && keys[i] == k;
            assert(entries[i].0@ == k);
        }
        if entries_map(entries).contains_key(k) {
            let i = choose|i: int| 0 <= i < entries.len() && (#[trigger] entries[i]).0@ == k;
            assert(keys[i] == k);
        }
    }
    assert(keys.to_set() =~= entries_map(entries).dom());
    keys.unique_seq_to_set();
}

/// What a list of distinct entries says of a key.
pub proof fn lemma_entries_map<T>(entries: Seq<(String, T)>, key: Seq<char>)
    requires
        distinct_entries(entries),
    ensures
        entries_map(entries).contains_key(key) <==> exists|i: int|
            0 <= i < entries.len() && (#[trigger] entries[i]).0@ == key,
        forall|i: int|
            0 <= i < entries.len() && (#[trigger] entries[i]).0@ == key ==> entries_map(
                entries,
            )[key] == entries[i].1,
    decreases entries.len(),
{
    if entries.len() > 0 {
        let before = entries.drop_last();
        assert(forall|i: int| 0 <= i < before.len() ==> before[i] == entries[i]);
        lemma_entries_map(before, key);
        assert(entries[entries.len() - 1] == entries.last());
        if entries_map(before).contains_key(key) {
            let i = choose|i: int| 0 <= i < before.len() && (#[trigger] before[i]).0@ == key;
            assert(entries[i].0@ == key);
        }
        if exists|i: int| 0 <= i < entries.len() && (#[trigger] entries[i]).0@ == key {
            let i = choose|i: int| 0 <= i < entries.len() && (#[trigger] entries[i]).0@ == key;
            if i < before.len() {
                assert(before[i].0@ == key);
            }
        }
        assert forall|i: int|
            0 <= i < entries.len() && (#[trigger] entries[i]).0@ == key implies entries_map(
            entries,
        )[key] == entries[i].1 by {
            if i < before.len() {
                assert(before[i] == entries[i]);
                assert(entries[i].0@ != entries[entries.len() - 1].0@);
            }
        }
    }
}

proof fn lemma_remove_entry<T>(entries: Seq<(String, T)>, i: int)
    requires
        distinct_entries(entries),
        0 <= i < entries.len(),
    ensures
        distinct_entries(entries.remove(i)),
        entries_map(entries.remove(i)) == entries_map(entries).remove(entries[i].0@),
        entries_map(entries).contains_key(entries[i].0@),
        entries_map(entries)[entries[i].0@] == entries[i].1,
{
    let rest = entries.remove(i);
    let gone = entries[i].0@;
    assert forall|a: int, b: int| 0 <= a < b < rest.len() implies (#[trigger] rest[a]).0@ != (
    #[trigger] rest[b]).0@ by {
        let x = if a < i { a } else { a + 1 };
        let y = if b < i { b } else { b + 1 };
        assert(rest[a] == entries[x] && rest[b] == entries[y]);
    }
    let want = entries_map(entries).remove(gone);
    lemma_entries_map(entries, gone);
    assert forall|k: Seq<char>| entries_map(rest).contains_key(k) == want.contains_key(k) by {
        lemma_entries_map(rest, k);
        lemma_entries_map(entries, k);
        if entries_map(rest).contains_key(k) {
            let a = choose|a: int| 0 <= a < rest.len() && (#[trigger] rest[a]).0@ == k;
            let x = if a < i { a } else { a + 1 };
            assert(rest[a] == entries[x]);
            if x < i {
                assert(entries[x].0@ != entries[i].0@);
            } else {
                assert(entries[i].0@ != entries[x].0@);
            }
        }
        if want.contains_key(k) {
            let x = choose|x: int| 0 <= x < entries.len() && (#[trigger] entries[x]).0@ == k;
            let a = if x < i { x } else { x - 1 };
            assert(rest[a] == entries[x]);
        }
    }
    assert forall|k: Seq<char>| entries_map(rest).contains_key(k) implies entries_map(rest)[k]
        == want[k] by {
        lemma_entries_map(rest, k);
        lemma_entries_map(entries, k);
        let a = choose|a: int| 0 <= a < rest.len() && (#[trigger] rest[a]).0@ == k;
        let x = if a < i { a } else { a + 1 };
        assert(rest[a] == entries[x]);
    }
    assert(entries_map(rest) =~= want);
}

impl<T> TextMap<T> {
    #[verifier::type_invariant]
    closed spec fn inv(self) -> bool {
        distinct_entries(self.entries@)
    }

    /// A map without entries.
    pub fn new() -> (r: Self)
        ensures
            r@ == Map::<Seq<char>, T>::empty(),
            r.listed() == Seq::<(String, T)>::empty(),
    {
        TextMap { entries: Vec::new() }
    }

    fn find(&self, key: &str) -> (r: Option<usize>)
        ensures
            match r {
                Some(i) => i < self.entries@.len() && self.entries@[i as int].0@ == key@,
                None => forall|i: int|
                    0 <= i < self.entries@.len() ==> (#[trigger] self.entries@[i]).0@ != key@,
            },
    {
        let mut i: usize = 0;
        while i < self.entries.len()
            invariant
                i <= self.entries@.len(),
                forall|k: int| 0 <= k < i ==> (#[trigger] self.entries@[k]).0@ != key@,
            decreases self.entries.len() - i,
        {
            if same(self.entries[i].0.as_str(), key) {
                return Some(i);
            }
            i = i + 1;
        }
        None
    }

    /// The value of `key`, if it has one.
    pub fn get(&self, key: &str) -> (r: Option<&T>)
        ensures
            match r {
                Some(v) => self@.contains_key(key@) && self@[key@] == *v,
                None => !self@.contains_key(key@),
            },
    {
        proof {
            use_type_invariant(self);
            lemma_entries_map(self.entries@, key@);
        }
        match self.find(key) {
            Some(i) => Some(&self.entries[i].1),
            None => None,
        }
    }

    /// Takes the value of `key` out, if it has one.
    pub fn remove(&mut self, key: &str) -> (r: Option<T>)
        ensures
            final(self)@ == old(self)@.remove(key@),
            match r {
                Some(v) => old(self)@.contains_key(key@) && old(self)@[key@] == v,
                None => !old(self)@.contains_key(key@),
            },
    {
        proof {
            use_type_invariant(&*self);
            lemma_entries_map(self.entries@, key@);
        }
        match self.find(key) {
            Some(i) => {
                proof {
                    lemma_remove_entry(self.entries@, i as int);
                }
                let mut taken = TextMap::new();
                core::mem::swap(self, &mut taken);
                let mut entries = taken.entries;
                let (_, value) = entries.remove(i);
                *self = TextMap { entries };
                Some(value)
            },
            None => {
                assert(self@ =~= self@.remove(key@));
                None
            },
        }
    }

    /// Gives `key` the value `value`, in place of an earlier one.
    pub fn insert(&mut self, key: String, value: T)
        ensures
            final(self)@ == old(self)@.insert(key@, value),
    {
        let ghost before = self@;
        let _ = self.remove(key.as_str());
        proof {
            use_type_invariant(&*self);
            lemma_entries_map(self.entries@, key@);
            let new = self.entries@.push((key, value));
            assert(new.drop_last() =~= self.entries@);
            assert forall|a: int, b: int| 0 <= a < b < new.len() implies (#[trigger] new[a]).0@ != (
            #[trigger] new[b]).0@ by {
                if b == new.len() - 1 {
                    assert(new[a] == self.entries@[a]);
                } else {
                    assert(new[a] == self.entries@[a] && new[b] == self.entries@[b]);
                }
            }
            assert(entries_map(new) =~= before.insert(key@, value));
        }
        let mut taken = TextMap::new();
        core::mem::swap(self, &mut taken);
        let mut entries = taken.entries;
        entries.push((key, value));
        *self = TextMap { entries };
    }

    /// All entries.
    pub fn entries(&self) -> (r: &Vec<(String, T)>)
        ensures
            r@ == self.listed(),
            entries_map(r@) == self@,
            distinct_entries(r@),
    {
        proof {
            use_type_invariant(self);
        }
        &self.entries
    }
}

} // verus!
