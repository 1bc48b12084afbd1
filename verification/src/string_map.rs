//! A map from strings to strings, in the order in which the keys came.

use crate::text::{same, strip_prefix};
use vstd::prelude::*;

verus! {

/// What a list of pairs maps each key to: the last pair with that key counts.
pub open spec fn pairs_map(pairs: Seq<(String, String)>) -> Map<Seq<char>, Seq<char>>
    decreases pairs.len(),
{
    if pairs.len() == 0 {
        Map::empty()
    } else {
        pairs_map(pairs.drop_last()).insert(pairs.last().0@, pairs.last().1@)
    }
}

/// Whether no key stands in two pairs.
pub open spec fn distinct_keys(pairs: Seq<(String, String)>) -> bool {
    forall|i: int, j: int|
        0 <= i < j < pairs.len() ==> (#[trigger] pairs[i]).0@ != (#[trigger] pairs[j]).0@
}

/// The entries of `m` whose key begins with `prefix`, under the rest of the key.
pub open spec fn under_prefix(m: Map<Seq<char>, Seq<char>>, prefix: Seq<char>) -> Map<
    Seq<char>,
    Seq<char>,
> {
    Map::new(|k: Seq<char>| m.contains_key(prefix + k), |k: Seq<char>| m[prefix + k])
}

/// A map from strings to strings. Each key occurs once.
#[derive(Debug)]
pub struct StringMap {
    pairs: Vec<(String, String)>,
}

impl View for StringMap {
    type V = Map<Seq<char>, Seq<char>>;

    closed spec fn view(&self) -> Map<Seq<char>, Seq<char>> {
        pairs_map(self.pairs@)
    }
}

proof fn lemma_pairs_map(pairs: Seq<(String, String)>)
    ensures
        pairs_map(pairs).dom().finite(),
        forall|k: Seq<char>|
            pairs_map(pairs).contains_key(k) <==> exists|i: int|
                0 <= i < pairs.len() && (#[trigger] pairs[i]).0@ == k,
        distinct_keys(pairs) ==> pairs_map(pairs).len() == pairs.len(),
        distinct_keys(pairs) ==> forall|i: int|
            0 <= i < pairs.len() ==> pairs_map(pairs)[(#[trigger] pairs[i]).0@] == pairs[i].1@,
    decreases pairs.len(),
{
    if pairs.len() > 0 {
        let before = pairs.drop_last();
        lemma_pairs_map(before);
        assert(forall|i: int| 0 <= i < before.len() ==> before[i] == pairs[i]);
        assert forall|k: Seq<char>| pairs_map(pairs).contains_key(k) <==> exists|i: int|
            0 <= i < pairs.len() && (#[trigger] pairs[i]).0@ == k by {
            if pairs_map(before).contains_key(k) {
                let i = choose|i: int| 0 <= i < before.len() && (#[trigger] before[i]).0@ == k;
                assert(pairs[i].0@ == k);
            }
            if pairs.last().0@ == k {
                assert(pairs[pairs.len() - 1].0@ == k);
            }
            if exists|i: int| 0 <= i < pairs.len() && (#[trigger] pairs[i]).0@ == k {
                let i = choose|i: int| 0 <= i < pairs.len() && (#[trigger] pairs[i]).0@ == k;
                if i < before.len() {
                    assert(before[i].0@ == k);
                }
            }
        }
        if distinct_keys(pairs) {
            assert(distinct_keys(before));
            assert(!pairs_map(before).contains_key(pairs.last().0@)) by {
                if pairs_map(before).contains_key(pairs.last().0@) {
                    let i = choose|i: int|
                        0 <= i < before.len() && (#[trigger] before[i]).0@ == pairs.last().0@;
                    assert(pairs[i].0@ != pairs[pairs.len() - 1].0@);
                }
            }
            assert forall|i: int| 0 <= i < pairs.len() implies pairs_map(pairs)[(
            #[trigger] pairs[i]).0@] == pairs[i].1@ by {
                if i < before.len() {
                    assert(before[i] == pairs[i]);
                    assert(pairs[i].0@ != pairs[pairs.len() - 1].0@);
                }
            }
        }
    }
}

proof fn lemma_update_pair(pairs: Seq<(String, String)>, i: int, p: (String, String))
    requires
        distinct_keys(pairs),
        0 <= i < pairs.len(),
        p.0@ == pairs[i].0@,
    ensures
        distinct_keys(pairs.update(i, p)),
        pairs_map(pairs.update(i, p)) == pairs_map(pairs).insert(p.0@, p.1@),
{
    let new = pairs.update(i, p);
    assert(forall|j: int| 0 <= j < pairs.len() ==> (#[trigger] new[j]).0@ == pairs[j].0@);
    assert(distinct_keys(new)) by {
        assert forall|a: int, b: int| 0 <= a < b < new.len() implies (#[trigger] new[a]).0@ != (
        #[trigger] new[b]).0@ by {
            assert(pairs[a].0@ != pairs[b].0@);
        }
    }
    lemma_pairs_map(pairs);
    lemma_pairs_map(new);
    let want = pairs_map(pairs).insert(p.0@, p.1@);
    assert forall|k: Seq<char>| pairs_map(new).contains_key(k) == want.contains_key(k) by {
        if pairs_map(new).contains_key(k) {
            let j = choose|j: int| 0 <= j < new.len() && (#[trigger] new[j]).0@ == k;
            assert(pairs[j].0@ == k);
        }
        if want.contains_key(k) {
            if k == p.0@ {
                assert(new[i].0@ == k);
            } else {
                let j = choose|j: int| 0 <= j < pairs.len() && (#[trigger] pairs[j]).0@ == k;
                assert(new[j].0@ == k);
            }
        }
    }
    assert forall|k: Seq<char>| pairs_map(new).contains_key(k) implies pairs_map(new)[k]
        == want[k] by {
        let j = choose|j: int| 0 <= j < new.len() && (#[trigger] new[j]).0@ == k;
        assert(pairs_map(new)[new[j].0@] == new[j].1@);
        if j != i {
            assert(new[j] == pairs[j]);
            assert(pairs_map(pairs)[pairs[j].0@] == pairs[j].1@);
            if j < i {
                assert(pairs[j].0@ != pairs[i].0@);
            } else {
                assert(pairs[i].0@ != pairs[j].0@);
            }
        }
    }
    assert(pairs_map(new) =~= want);
}

/// The entries say what the map says.
pub proof fn lemma_entries(m: StringMap)
    ensures
        pairs_map(m.entries()) == m@,
{
}

impl StringMap {
    #[verifier::type_invariant]
    closed spec fn inv(self) -> bool {
        distinct_keys(self.pairs@)
    }

    /// A map without entries.
    pub fn new() -> (r: Self)
        ensures
            r@ == Map::<Seq<char>, Seq<char>>::empty(),
    {
        StringMap { pairs: Vec::new() }
    }

    /// The number of entries.
    pub fn len(&self) -> (r: usize)
        ensures
            r == self@.len(),
            self@.dom().finite(),
    {
        proof {
            use_type_invariant(self);
            lemma_pairs_map(self.pairs@);
        }
        self.pairs.len()
    }

    /// Whether there is no entry.
    pub fn is_empty(&self) -> (r: bool)
        ensures
            r == (self@ == Map::<Seq<char>, Seq<char>>::empty()),
    {
        proof {
            lemma_pairs_map(self.pairs@);
            if self.pairs@.len() > 0 {
                assert(self@.contains_key(self.pairs@[0].0@));
            }
        }
        self.pairs.len() == 0
    }

    fn find(&self, key: &str) -> (r: Option<usize>)
        ensures
            match r {
                Some(i) => i < self.pairs@.len() && self.pairs@[i as int].0@ == key@,
                None => forall|i: int|
                    0 <= i < self.pairs@.len() ==> (#[trigger] self.pairs@[i]).0@ != key@,
            },
    {
        let mut i: usize = 0;
        while i < self.pairs.len()
            invariant
                i <= self.pairs@.len(),
                forall|j: int| 0 <= j < i ==> (#[trigger] self.pairs@[j]).0@ != key@,
            decreases self.pairs.len() - i,
        {
            if same(self.pairs[i].0.as_str(), key) {
                return Some(i);
            }
            i = i + 1;
        }
        None
    }

    /// The value of `key`, if it has one.
    pub fn get(&self, key: &str) -> (r: Option<&String>)
        ensures
            match r {
                Some(v) => self@.contains_key(key@) && self@[key@] == v@,
                None => !self@.contains_key(key@),
            },
    {
        proof {
            use_type_invariant(self);
            lemma_pairs_map(self.pairs@);
        }
        match self.find(key) {
            Some(i) => Some(&self.pairs[i].1),
            None => None,
        }
    }

    /// Whether `key` has a value.
    pub fn contains_key(&self, key: &str) -> (r: bool)
        ensures
            r == self@.contains_key(key@),
    {
        self.get(key).is_some()
    }

    /// Gives `key` the value `value`, in place of an earlier one.
    pub fn insert(&mut self, key: String, value: String)
        ensures
            final(self)@ == old(self)@.insert(key@, value@),
    {
        proof {
            use_type_invariant(&*self);
            lemma_pairs_map(self.pairs@);
        }
        match self.find(key.as_str()) {
            Some(i) => {
                proof {
                    lemma_update_pair(self.pairs@, i as int, (key, value));
                }
                let mut taken = StringMap::new();
                core::mem::swap(self, &mut taken);
                let mut pairs = taken.pairs;
                pairs.set(i, (key, value));
                *self = StringMap { pairs };
            },
            None => {
                proof {
                    let new = self.pairs@.push((key, value));
                    assert(new.drop_last() =~= self.pairs@);
                    assert(distinct_keys(new));
                }
                let mut taken = StringMap::new();
                core::mem::swap(self, &mut taken);
                let mut pairs = taken.pairs;
                pairs.push((key, value));
                *self = StringMap { pairs };
            },
        }
    }

    /// Takes over every entry of `other`, in place of earlier ones.
    pub fn extend(&mut self, other: &StringMap)
        ensures
            final(self)@ == old(self)@.union_prefer_right(other@),
    {
        proof {
            use_type_invariant(other);
        }
        let mut i: usize = 0;
        assert(other.pairs@.take(0) =~= Seq::<(String, String)>::empty());
        assert(self@ =~= old(self)@.union_prefer_right(pairs_map(other.pairs@.take(0))));
        while i < other.pairs.len()
            invariant
                i <= other.pairs@.len(),
                self@ == old(self)@.union_prefer_right(pairs_map(other.pairs@.take(i as int))),
            decreases other.pairs.len() - i,
        {
            let ghost before = self@;
            let ghost p = other.pairs@[i as int];
            self.insert(other.pairs[i].0.clone(), other.pairs[i].1.clone());
            proof {
                let t = other.pairs@.take(i + 1);
                assert(t.drop_last() =~= other.pairs@.take(i as int));
                assert(self@ =~= old(self)@.union_prefer_right(pairs_map(t)));
            }
            i = i + 1;
        }
        assert(other.pairs@.take(i as int) =~= other.pairs@);
    }

    /// The entries whose key begins with `prefix`, under the rest of the key.
    pub fn strip_keys(&self, prefix: &str) -> (r: StringMap)
        ensures
            r@ == under_prefix(self@, prefix@),
    {
        proof {
            use_type_invariant(self);
        }
        let mut r = StringMap::new();
        let mut i: usize = 0;
        assert(self.pairs@.take(0) =~= Seq::<(String, String)>::empty());
        assert(r@ =~= under_prefix(pairs_map(self.pairs@.take(0)), prefix@));
        while i < self.pairs.len()
            invariant
                i <= self.pairs@.len(),
                r@ == under_prefix(pairs_map(self.pairs@.take(i as int)), prefix@),
            decreases self.pairs.len() - i,
        {
            let ghost before = pairs_map(self.pairs@.take(i as int));
            let ghost k = self.pairs@[i as int].0@;
            let ghost v = self.pairs@[i as int].1@;
            proof {
                let t = self.pairs@.take(i + 1);
                assert(t.drop_last() =~= self.pairs@.take(i as int));
                assert(pairs_map(t) == before.insert(k, v));
            }
            match strip_prefix(self.pairs[i].0.as_str(), prefix) {
                Some(rest) => {
                    proof {
                        assert(k =~= prefix@ + rest@);
                        assert forall|x: Seq<char>| prefix@ + x == k implies x == rest@ by {
                            assert((prefix@ + x).skip(prefix@.len() as int) =~= x);
                            assert((prefix@ + rest@).skip(prefix@.len() as int) =~= rest@);
                        }
                        assert(under_prefix(before, prefix@).insert(rest@, v) =~= under_prefix(
                            before.insert(k, v),
                            prefix@,
                        ));
                    }
                    r.insert(rest, self.pairs[i].1.clone());
                },
                None => {
                    proof {
                        assert forall|x: Seq<char>| prefix@ + x != k by {
                            if prefix@ + x == k {
                                assert(prefix@ =~= k.subrange(0, prefix@.len() as int));
                            }
                        }
                        assert(under_prefix(before, prefix@) =~= under_prefix(
                            before.insert(k, v),
                            prefix@,
                        ));
                    }
                },
            }
            i = i + 1;
        }
        assert(self.pairs@.take(i as int) =~= self.pairs@);
        r
    }

    /// The entries as pairs.
    pub closed spec fn entries(self) -> Seq<(String, String)> {
        self.pairs@
    }

    /// The entries as pairs, each key once.
    pub fn pairs(&self) -> (r: &Vec<(String, String)>)
        ensures
            r@ == self.entries(),
            pairs_map(r@) == self@,
            distinct_keys(r@),
    {
        proof {
            use_type_invariant(self);
        }
        &self.pairs
    }

    /// A map with the same entries.
    pub fn copy(&self) -> (r: StringMap)
        ensures
            r@ == self@,
    {
        let mut r = StringMap::new();
        r.extend(self);
        assert(r@ =~= self@);
        r
    }
}

} // verus!
