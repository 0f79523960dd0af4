//! A map from texts to values.

use crate::text::text_eq;
use vstd::prelude::*;

verus! {

/// A map from texts to values, in the order in which the keys were first put in.
pub struct StrMap<V> {
    entries: Vec<(String, V)>,
}

/// The map that a list of entries stands for, when no key occurs twice.
pub open spec fn map_of<V>(entries: Seq<(String, V)>) -> Map<Seq<char>, V>
    decreases entries.len(),
{
    if entries.len() == 0 {
        Map::empty()
    } else {
        map_of(entries.drop_last()).insert(entries.last().0@, entries.last().1)
    }
}

/// No key occurs twice.
pub open spec fn keys_distinct<V>(entries: Seq<(String, V)>) -> bool {
    forall|i: int, j: int|
        #![trigger entries[i].0@, entries[j].0@]
        0 <= i < j < entries.len() ==> entries[i].0@ != entries[j].0@
}

proof fn lemma_map_of<V>(entries: Seq<(String, V)>)
    requires
        keys_distinct(entries),
    ensures
        forall|i: int|
            0 <= i < entries.len() ==> map_of(entries).contains_key(#[trigger] entries[i].0@)
                && map_of(entries)[entries[i].0@] == entries[i].1,
        forall|k: Seq<char>| #[trigger]
            map_of(entries).contains_key(k) ==> exists|i: int|
                0 <= i < entries.len() && #[trigger] entries[i].0@ == k,
    decreases entries.len(),
{
    if entries.len() > 0 {
        let rest = entries.drop_last();
        assert(keys_distinct(rest)) by {
            assert forall|i: int, j: int| 0 <= i < j < rest.len() implies #[trigger] rest[i].0@
                != #[trigger] rest[j].0@ by {
                assert(entries[i].0@ != entries[j].0@);
            }
        }
        lemma_map_of(rest);
        assert forall|i: int| 0 <= i < entries.len() implies map_of(entries).contains_key(
            #[trigger] entries[i].0@,
        ) && map_of(entries)[entries[i].0@] == entries[i].1 by {
            if i < rest.len() {
                assert(rest[i] == entries[i]);
                assert(entries[i].0@ != entries[entries.len() - 1].0@);
            }
        }
        assert forall|k: Seq<char>| #[trigger] map_of(entries).contains_key(k) implies exists|
            i: int,
        |
            0 <= i < entries.len() && #[trigger] entries[i].0@ == k by {
            if k == entries.last().0@ {
                assert(entries[entries.len() - 1].0@ == k);
            } else {
                assert(map_of(rest).contains_key(k));
                let i = choose|i: int| 0 <= i < rest.len() && #[trigger] rest[i].0@ == k;
                assert(rest[i] == entries[i]);
            }
        }
    }
}

/// A map is what its entries say of it.
proof fn lemma_map_of_unique<V>(entries: Seq<(String, V)>, m: Map<Seq<char>, V>)
    requires
        keys_distinct(entries),
        forall|i: int|
            0 <= i < entries.len() ==> m.contains_key(#[trigger] entries[i].0@)
                && m[entries[i].0@] == entries[i].1,
        forall|k: Seq<char>| #[trigger]
            m.contains_key(k) ==> exists|i: int|
                0 <= i < entries.len() && #[trigger] entries[i].0@ == k,
    ensures
        map_of(entries) == m,
{
    lemma_map_of(entries);
    assert forall|k: Seq<char>| #[trigger] m.contains_key(k) == map_of(entries).contains_key(k) by {
        if m.contains_key(k) {
            let i = choose|i: int| 0 <= i < entries.len() && #[trigger] entries[i].0@ == k;
            assert(map_of(entries).contains_key(entries[i].0@));
        }
        if map_of(entries).contains_key(k) {
            let i = choose|i: int| 0 <= i < entries.len() && #[trigger] entries[i].0@ == k;
            assert(m.contains_key(entries[i].0@));
        }
    }
    assert forall|k: Seq<char>| #[trigger] m.contains_key(k) implies m[k] == map_of(entries)[k] by {
        let i = choose|i: int| 0 <= i < entries.len() && #[trigger] entries[i].0@ == k;
        assert(m[entries[i].0@] == map_of(entries)[entries[i].0@]);
    }
    assert(map_of(entries) =~= m);
}

/// What is among the first `i + 1` keys.
pub proof fn lemma_among_first(keys: Seq<Seq<char>>, i: int, k: Seq<char>)
    requires
        0 <= i < keys.len(),
    ensures
        keys.take(i + 1).contains(k) <==> keys.take(i).contains(k) || keys[i] == k,
        keys.no_duplicates() ==> !keys.take(i).contains(keys[i]),
{
    let more = keys.take(i + 1);
    let fewer = keys.take(i);
    if more.contains(k) {
        let j = choose|j: int| 0 <= j < more.len() && more[j] == k;
        if j < i {
            assert(fewer[j] == k);
        }
    }
    if fewer.contains(k) {
        let j = choose|j: int| 0 <= j < fewer.len() && fewer[j] == k;
        assert(more[j] == k);
    }
    if keys[i] == k {
        assert(more[i] == k);
    }
    if fewer.contains(keys[i]) {
        let j = choose|j: int| 0 <= j < fewer.len() && fewer[j] == keys[i];
        assert(keys[j] == keys[i]);
    }
}

impl<V> View for StrMap<V> {
    type V = Map<Seq<char>, V>;

    closed spec fn view(&self) -> Map<Seq<char>, V> {
        map_of(self.entries@)
    }
}

impl<V> StrMap<V> {
    #[verifier::type_invariant]
    spec fn wf(self) -> bool {
        keys_distinct(self.entries@)
    }

    /// The keys, in the order in which they were first put in.
    pub closed spec fn keys(self) -> Seq<Seq<char>> {
        self.entries@.map_values(|e: (String, V)| e.0@)
    }

    /// The empty map.
    pub fn new() -> (r: Self)
        ensures
            r@ == Map::<Seq<char>, V>::empty(),
            r.keys() == Seq::<Seq<char>>::empty(),
    {
        let r = StrMap { entries: Vec::new() };
        assert(r.keys() =~= Seq::<Seq<char>>::empty());
        r
    }

    fn index_of(&self, key: &str) -> (r: Option<usize>)
        ensures
            match r {
                Some(i) => i < self.entries@.len() && self.entries@[i as int].0@ == key@,
                None => forall|i: int|
                    0 <= i < self.entries@.len() ==> #[trigger] self.entries@[i].0@ != key@,
            },
    {
        let mut i: usize = 0;
        while i < self.entries.len()
            invariant
                i <= self.entries@.len(),
                forall|j: int| 0 <= j < i ==> #[trigger] self.entries@[j].0@ != key@,
            decreases self.entries@.len() - i,
        {
            if text_eq(self.entries[i].0.as_str(), key) {
                return Some(i);
            }
            i = i + 1;
        }
        None
    }

    /// The value of `key`, if it has one.
    pub fn get(&self, key: &str) -> (r: Option<&V>)
        ensures
            match r {
                Some(v) => self@.contains_key(key@) && self@[key@] == *v,
                None => !self@.contains_key(key@),
            },
    {
        proof {
            use_type_invariant(self);
            lemma_map_of(self.entries@);
        }
        match self.index_of(key) {
            Some(i) => {
                assert(self@.contains_key(self.entries@[i as int].0@));
                Some(&self.entries[i].1)
            },
            None => None,
        }
    }

    /// Whether `key` has a value.
    pub fn contains_key(&self, key: &str) -> (r: bool)
        ensures
            r == self@.contains_key(key@),
    {
        self.get(key).is_some()
    }

    /// Gives `key` the value `value`.
    pub fn insert(&mut self, key: String, value: V)
        ensures
            final(self)@ == old(self)@.insert(key@, value),
            final(self).keys() == if old(self)@.contains_key(key@) {
                old(self).keys()
            } else {
                old(self).keys().push(key@)
            },
    {
        proof {
            use_type_invariant(&*self);
            lemma_map_of(self.entries@);
        }
        let ghost before = self.entries@;
        let ghost m = self@.insert(key@, value);
        match self.index_of(key.as_str()) {
            Some(i) => {
                let mut entries: Vec<(String, V)> = Vec::new();
                std::mem::swap(&mut entries, &mut self.entries);
                let ghost k = key@;
                entries.set(i, (key, value));
                proof {
                    assert(entries@ =~= before.update(i as int, entries@[i as int]));
                    assert(before[i as int].0@ == k);
                    assert forall|a: int, b: int| 0 <= a < b < entries@.len() implies #[trigger]
                    entries@[a].0@ != #[trigger] entries@[b].0@ by {
                        assert(before[a].0@ != before[b].0@);
                    }
                    assert forall|j: int| 0 <= j < entries@.len() implies m.contains_key(
                        #[trigger] entries@[j].0@,
                    ) && m[entries@[j].0@] == entries@[j].1 by {
                        if j < i {
                            assert(before[j].0@ != before[i as int].0@);
                        } else if j > i {
                            assert(before[i as int].0@ != before[j].0@);
                        }
                        assert(map_of(before).contains_key(before[j].0@));
                    }
                    assert forall|q: Seq<char>| #[trigger] m.contains_key(q) implies exists|j: int|
                        0 <= j < entries@.len() && #[trigger] entries@[j].0@ == q by {
                        if q == k {
                            assert(entries@[i as int].0@ == q);
                        } else {
                            let j = choose|j: int|
                                0 <= j < before.len() && #[trigger] before[j].0@ == q;
                            assert(entries@[j].0@ == q);
                        }
                    }
                    lemma_map_of_unique(entries@, m);
                    assert(map_of(before).contains_key(before[i as int].0@));
                }
                self.entries = entries;
                assert(self.keys() =~= old(self).keys());
            },
            None => {
                let mut entries: Vec<(String, V)> = Vec::new();
                std::mem::swap(&mut entries, &mut self.entries);
                let ghost k = key@;
                entries.push((key, value));
                proof {
                    assert(!map_of(before).contains_key(k));
                    assert(entries@.drop_last() =~= before);
                    assert forall|a: int, b: int| 0 <= a < b < entries@.len() implies #[trigger]
                    entries@[a].0@ != #[trigger] entries@[b].0@ by {
                        if b < before.len() {
                            assert(before[a].0@ != before[b].0@);
                        } else {
                            assert(before[a].0@ != k);
                        }
                    }
                }
                self.entries = entries;
                assert(self.keys() =~= old(self).keys().push(k));
            },
        }
    }

    /// Takes the value of `key` out of the map, if it has one.
    pub fn remove(&mut self, key: &str) -> (r: Option<V>)
        ensures
            final(self)@ == old(self)@.remove(key@),
            match r {
                Some(v) => old(self)@.contains_key(key@) && old(self)@[key@] == v,
                None => !old(self)@.contains_key(key@),
            },
    {
        proof {
            use_type_invariant(&*self);
            lemma_map_of(self.entries@);
        }
        let ghost before = self.entries@;
        match self.index_of(key) {
            Some(i) => {
                let mut entries: Vec<(String, V)> = Vec::new();
                std::mem::swap(&mut entries, &mut self.entries);
                let e = entries.remove(i);
                let ghost m = map_of(before).remove(key@);
                proof {
                    assert(entries@ =~= before.remove(i as int));
                    assert forall|a: int, b: int| 0 <= a < b < entries@.len() implies #[trigger]
                    entries@[a].0@ != #[trigger] entries@[b].0@ by {
                        let a0 = if a < i {
                            a
                        } else {
                            a + 1
                        };
                        let b0 = if b < i {
                            b
                        } else {
                            b + 1
                        };
                        assert(before[a0].0@ != before[b0].0@);
                    }
                    assert forall|j: int| 0 <= j < entries@.len() implies m.contains_key(
                        #[trigger] entries@[j].0@,
                    ) && m[entries@[j].0@] == entries@[j].1 by {
                        let j0 = if j < i {
                            j
                        } else {
                            j + 1
                        };
                        assert(before[j0] == entries@[j]);
                        assert(map_of(before).contains_key(before[j0].0@));
                        if j0 < i {
                            assert(before[j0].0@ != before[i as int].0@);
                        } else {
                            assert(before[i as int].0@ != before[j0].0@);
                        }
                    }
                    assert forall|q: Seq<char>| #[trigger] m.contains_key(q) implies exists|j: int|
                        0 <= j < entries@.len() && #[trigger] entries@[j].0@ == q by {
                        let j = choose|j: int| 0 <= j < before.len() && #[trigger] before[j].0@ == q;
                        if j < i {
                            assert(entries@[j].0@ == q);
                        } else {
                            assert(entries@[j - 1].0@ == q);
                        }
                    }
                    lemma_map_of_unique(entries@, m);
                    assert(map_of(before).contains_key(before[i as int].0@));
                }
                self.entries = entries;
                Some(e.1)
            },
            None => {
                assert(!map_of(before).contains_key(key@));
                assert(map_of(before).remove(key@) =~= map_of(before));
                None
            },
        }
    }

    /// The number of keys: the keys are what has a value, each of them once.
    pub fn len(&self) -> (n: usize)
        ensures
            n == self.keys().len(),
            self.keys().no_duplicates(),
            forall|k: Seq<char>| #[trigger] self@.contains_key(k) <==> self.keys().contains(k),
    {
        proof {
            use_type_invariant(self);
            lemma_map_of(self.entries@);
            assert forall|i: int, j: int|
                0 <= i < self.keys().len() && 0 <= j < self.keys().len() && i
                    != j implies self.keys()[i] != self.keys()[j] by {
                if i < j {
                    assert(self.entries@[i].0@ != self.entries@[j].0@);
                } else {
                    assert(self.entries@[j].0@ != self.entries@[i].0@);
                }
            }
            assert forall|k: Seq<char>| #[trigger] self@.contains_key(k) implies self.keys()
                .contains(k) by {
                let i = choose|i: int|
                    0 <= i < self.entries@.len() && #[trigger] self.entries@[i].0@ == k;
                assert(self.keys()[i] == k);
            }
            assert forall|k: Seq<char>| self.keys().contains(k) implies #[trigger] self@
                .contains_key(k) by {
                let i = choose|i: int| 0 <= i < self.keys().len() && self.keys()[i] == k;
                assert(self.entries@[i].0@ == k);
            }
        }
        self.entries.len()
    }

    /// The key at index `i`, with its value.
    pub fn entry(&self, i: usize) -> (r: (&str, &V))
        requires
            i < self.keys().len(),
        ensures
            r.0@ == self.keys()[i as int],
            self@.contains_key(r.0@),
            self@[r.0@] == *r.1,
    {
        proof {
            use_type_invariant(self);
            lemma_map_of(self.entries@);
            assert(self@.contains_key(self.entries@[i as int].0@));
        }
        (self.entries[i].0.as_str(), &self.entries[i].1)
    }
}

} // verus!
