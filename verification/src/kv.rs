//! A finite map from strings to strings, kept as a vector of entries with distinct keys.

use vstd::prelude::*;

use crate::text::chars_of;

verus! {

/// Entries whose keys are pairwise distinct.
pub open spec fn keys_distinct(e: Seq<(String, String)>) -> bool {
    forall|i: int, j: int| 0 <= i < e.len() && 0 <= j < e.len() && i != j ==> e[i].0@ != e[j].0@
}

/// The map that a sequence of entries stands for (a later entry wins).
pub open spec fn map_of(e: Seq<(String, String)>) -> Map<Seq<char>, Seq<char>>
    decreases e.len(),
{
    if e.len() == 0 {
        Map::empty()
    } else {
        map_of(e.drop_last()).insert(e.last().0@, e.last().1@)
    }
}

/// A string-to-string map.
pub struct KeyValues {
    entries: Vec<(String, String)>,
}

impl View for KeyValues {
    type V = Map<Seq<char>, Seq<char>>;

    closed spec fn view(&self) -> Map<Seq<char>, Seq<char>> {
        map_of(self.entries@)
    }
}

proof fn lemma_map_of_lookup(e: Seq<(String, String)>)
    requires
        keys_distinct(e),
    ensures
        map_of(e).dom().finite(),
        map_of(e).len() == e.len(),
        forall|i: int| 0 <= i < e.len() ==> #[trigger] map_of(e).contains_key(e[i].0@) && map_of(e)[e[i].0@] == e[i].1@,
        forall|k: Seq<char>| #[trigger] map_of(e).contains_key(k) ==> exists|i: int| 0 <= i < e.len() && e[i].0@ == k,
    decreases e.len(),
{
    if e.len() > 0 {
        let d = e.drop_last();
        assert(keys_distinct(d));
        lemma_map_of_lookup(d);
        assert(!map_of(d).contains_key(e.last().0@)) by {
            if map_of(d).contains_key(e.last().0@) {
                let i = choose|i: int| 0 <= i < d.len() && d[i].0@ == e.last().0@;
                assert(e[i].0@ == e[e.len() - 1].0@);
            }
        }
        assert forall|i: int| 0 <= i < e.len() implies #[trigger] map_of(e).contains_key(e[i].0@) && map_of(e)[e[i].0@] == e[i].1@ by {
            if i < e.len() - 1 {
                assert(d[i] == e[i]);
                assert(e[i].0@ != e[e.len() - 1].0@);
            }
        }
        assert forall|k: Seq<char>| #[trigger] map_of(e).contains_key(k) implies exists|i: int| 0 <= i < e.len() && e[i].0@ == k by {
            if k != e.last().0@ {
                assert(map_of(d).contains_key(k));
                let i = choose|i: int| 0 <= i < d.len() && d[i].0@ == k;
                assert(e[i] == d[i]);
            } else {
                assert(e[e.len() - 1].0@ == k);
            }
        }
    } else {
        assert(map_of(e) == Map::<Seq<char>, Seq<char>>::empty());
    }
}

proof fn lemma_map_of_update(e: Seq<(String, String)>, i: int, kv: (String, String))
    requires
        keys_distinct(e),
        0 <= i < e.len(),
        e[i].0@ == kv.0@,
    ensures
        keys_distinct(e.update(i, kv)),
        map_of(e.update(i, kv)) == map_of(e).insert(kv.0@, kv.1@),
{
    let u = e.update(i, kv);
    assert(keys_distinct(u)) by {
        assert forall|a: int, b: int| 0 <= a < u.len() && 0 <= b < u.len() && a != b implies u[a].0@ != u[b].0@ by {
            assert(u[a].0@ == e[a].0@);
            assert(u[b].0@ == e[b].0@);
        }
    }
    lemma_map_of_lookup(e);
    lemma_map_of_lookup(u);
    assert(map_of(u) =~= map_of(e).insert(kv.0@, kv.1@)) by {
        assert forall|k: Seq<char>| #[trigger] map_of(u).contains_key(k) <==> map_of(e).insert(kv.0@, kv.1@).contains_key(k) by {
            if map_of(u).contains_key(k) {
                let j = choose|j: int| 0 <= j < u.len() && u[j].0@ == k;
                assert(e[j].0@ == k);
            }
            if map_of(e).contains_key(k) {
                let j = choose|j: int| 0 <= j < e.len() && e[j].0@ == k;
                assert(u[j].0@ == k);
            }
            if k == kv.0@ {
                assert(u[i].0@ == k);
            }
        }
        assert forall|k: Seq<char>| #[trigger] map_of(u).contains_key(k) implies map_of(u)[k] == map_of(e).insert(kv.0@, kv.1@)[k] by {
            let j = choose|j: int| 0 <= j < u.len() && u[j].0@ == k;
            if j != i {
                assert(u[j] == e[j]);
                assert(e[j].0@ != e[i].0@);
            }
        }
    }
}

impl KeyValues {
    #[verifier::type_invariant]
    spec fn wf(&self) -> bool {
        keys_distinct(self.entries@)
    }

    /// The empty map.
    pub fn new() -> (m: Self)
        ensures
            m@ == Map::<Seq<char>, Seq<char>>::empty(),
    {
        KeyValues { entries: Vec::new() }
    }

    /// Number of keys.
    pub fn len(&self) -> (n: usize)
        ensures
            n == self@.len(),
            self@.dom().finite(),
    {
        proof {
            use_type_invariant(self);
            lemma_map_of_lookup(self.entries@);
        }
        self.entries.len()
    }

    fn position(&self, key: &[char]) -> (r: Option<usize>)
        ensures
            match r {
                Some(i) => i < self.entries@.len() && self.entries@[i as int].0@ == key@,
                None => !self@.contains_key(key@),
            },
    {
        proof {
            use_type_invariant(self);
            lemma_map_of_lookup(self.entries@);
        }
        let mut i: usize = 0;
        while i < self.entries.len()
            invariant
                i <= self.entries@.len(),
                forall|j: int| 0 <= j < i ==> self.entries@[j].0@ != key@,
            decreases self.entries@.len() - i,
        {
            let k = chars_of(self.entries[i].0.as_str());
            if crate::text::chars_eq(k.as_slice(), key) {
                return Some(i);
            }
            i = i + 1;
        }
        None
    }

    /// The value stored under `key`.
    pub fn get(&self, key: &[char]) -> (r: Option<String>)
        ensures
            match r {
                Some(v) => self@.contains_key(key@) && self@[key@] == v@,
                None => !self@.contains_key(key@),
            },
    {
        proof {
            use_type_invariant(self);
            lemma_map_of_lookup(self.entries@);
        }
        match self.position(key) {
            Some(i) => {
                assert(map_of(self.entries@).contains_key(self.entries@[i as int].0@));
                Some(self.entries[i].1.clone())
            },
            None => None,
        }
    }

    /// Stores `value` under `key`, replacing what was there.
    pub fn insert(&mut self, key: String, value: String)
        ensures
            final(self)@ == old(self)@.insert(key@, value@),
    {
        proof {
            use_type_invariant(&*self);
            lemma_map_of_lookup(self.entries@);
        }
        let kc = chars_of(key.as_str());
        let pos = self.position(kc.as_slice());
        let mut entries: Vec<(String, String)> = Vec::new();
        std::mem::swap(&mut entries, &mut self.entries);
        match pos {
            Some(i) => {
                proof {
                    lemma_map_of_update(entries@, i as int, (key, value));
                }
                entries.set(i, (key, value));
                self.entries = entries;
            },
            None => {
                proof {
                    let e = entries@.push((key, value));
                    assert(e.drop_last() =~= entries@);
                    assert(keys_distinct(e)) by {
                        assert forall|a: int, b: int| 0 <= a < e.len() && 0 <= b < e.len() && a != b implies e[a].0@ != e[b].0@ by {
                            if a == e.len() - 1 {
                                assert(map_of(entries@).contains_key(e[b].0@));
                            } else if b == e.len() - 1 {
                                assert(map_of(entries@).contains_key(e[a].0@));
                            }
                        }
                    }
                }
                entries.push((key, value));
                self.entries = entries;
            },
        }
    }
}

} // verus!
