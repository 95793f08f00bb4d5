//! A map from strings to strings with the behaviour of `HashMap<String, String>`:
//! each key occurs once, and inserting a key that is present replaces its value.
use vstd::prelude::*;
use crate::text::str_eq;

verus! {

/// The map that a sequence of key/value pairs builds when they are inserted in order.
pub open spec fn pairs_map(e: Seq<(String, String)>) -> Map<Seq<char>, Seq<char>>
    decreases e.len(),
{
    if e.len() == 0 {
        Map::empty()
    } else {
        pairs_map(e.drop_last()).insert(e.last().0@, e.last().1@)
    }
}

/// No key occurs twice.
pub open spec fn keys_distinct(e: Seq<(String, String)>) -> bool {
    forall|i: int, j: int|
        0 <= i < e.len() && 0 <= j < e.len() && i != j ==> #[trigger] e[i].0@ != #[trigger] e[j].0@
}

#[derive(Debug)]
pub struct StrMap {
    entries: Vec<(String, String)>,
}

impl View for StrMap {
    type V = Map<Seq<char>, Seq<char>>;

    closed spec fn view(&self) -> Map<Seq<char>, Seq<char>> {
        pairs_map(self.entries@)
    }
}

proof fn lemma_pairs_map_has(e: Seq<(String, String)>, i: int)
    requires
        keys_distinct(e),
        0 <= i < e.len(),
    ensures
        pairs_map(e).contains_key(e[i].0@),
        pairs_map(e)[e[i].0@] == e[i].1@,
    decreases e.len(),
{
    if i < e.len() - 1 {
        let d = e.drop_last();
        assert(d[i] == e[i]);
        assert(keys_distinct(d)) by {
            assert forall|a: int, b: int|
                0 <= a < d.len() && 0 <= b < d.len() && a != b implies #[trigger] d[a].0@
                != #[trigger] d[b].0@ by {
                assert(d[a] == e[a] && d[b] == e[b]);
            }
        }
        lemma_pairs_map_has(d, i);
        assert(e[i].0@ != e[e.len() - 1].0@);
    }
}

proof fn lemma_pairs_map_key_index(e: Seq<(String, String)>, k: Seq<char>) -> (j: int)
    requires
        pairs_map(e).contains_key(k),
    ensures
        0 <= j < e.len(),
        e[j].0@ == k,
    decreases e.len(),
{
    if e.last().0@ == k {
        e.len() - 1
    } else {
        let d = e.drop_last();
        let j = lemma_pairs_map_key_index(d, k);
        assert(d[j] == e[j]);
        j
    }
}

proof fn lemma_pairs_map_missing(e: Seq<(String, String)>, k: Seq<char>)
    requires
        forall|i: int| 0 <= i < e.len() ==> #[trigger] e[i].0@ != k,
    ensures
        !pairs_map(e).contains_key(k),
{
    if pairs_map(e).contains_key(k) {
        let j = lemma_pairs_map_key_index(e, k);
        assert(e[j].0@ != k);
    }
}

proof fn lemma_pairs_map_update(e: Seq<(String, String)>, i: int, kv: (String, String))
    requires
        keys_distinct(e),
        0 <= i < e.len(),
        e[i].0@ == kv.0@,
    ensures
        pairs_map(e.update(i, kv)) == pairs_map(e).insert(kv.0@, kv.1@),
    decreases e.len(),
{
    let u = e.update(i, kv);
    let d = e.drop_last();
    if i == e.len() - 1 {
        assert(u.drop_last() =~= d);
        assert(pairs_map(u) =~= pairs_map(e).insert(kv.0@, kv.1@));
    } else {
        assert(u.drop_last() =~= d.update(i, kv));
        assert(d[i] == e[i]);
        assert(keys_distinct(d)) by {
            assert forall|a: int, b: int|
                0 <= a < d.len() && 0 <= b < d.len() && a != b implies #[trigger] d[a].0@
                != #[trigger] d[b].0@ by {
                assert(d[a] == e[a] && d[b] == e[b]);
            }
        }
        lemma_pairs_map_update(d, i, kv);
        assert(e[i].0@ != e[e.len() - 1].0@);
        assert(pairs_map(u) =~= pairs_map(e).insert(kv.0@, kv.1@));
    }
}

impl StrMap {
    #[verifier::type_invariant]
    closed spec fn wf(self) -> bool {
        keys_distinct(self.entries@)
    }

    /// An empty map.
    pub fn new() -> (m: StrMap)
        ensures
            m@ == Map::<Seq<char>, Seq<char>>::empty(),
    {
        StrMap { entries: Vec::new() }
    }

    /// Position of `key` among the entries.
    fn position(&self, key: &str) -> (r: Option<usize>)
        ensures
            match r {
                Some(i) => i < self.entries@.len() && self.entries@[i as int].0@ == key@,
                None => forall|i: int|
                    0 <= i < self.entries@.len() ==> #[trigger] self.entries@[i].0@ != key@,
            },
    {
        let mut i: usize = 0;
        while i < self.entries.len()
            invariant
                i <= self.entries@.len(),
                forall|j: int| 0 <= j < i ==> #[trigger] self.entries@[j].0@ != key@,
            decreases self.entries@.len() - i,
        {
            if str_eq(self.entries[i].0.as_str(), key) {
                return Some(i);
            }
            i += 1;
        }
        None
    }

    /// The value of `key`, if the map holds it.
    pub fn get(&self, key: &str) -> (r: Option<&str>)
        ensures
            match r {
                Some(v) => self@.contains_key(key@) && v@ == self@[key@],
                None => !self@.contains_key(key@),
            },
    {
        proof {
            use_type_invariant(self);
        }
        match self.position(key) {
            Some(i) => {
                proof {
                    lemma_pairs_map_has(self.entries@, i as int);
                }
                Some(self.entries[i].1.as_str())
            },
            None => {
                proof {
                    lemma_pairs_map_missing(self.entries@, key@);
                }
                None
            },
        }
    }

    /// Sets the value of `key` to `value`, replacing the value it had.
    pub fn insert(&mut self, key: String, value: String)
        ensures
            final(self)@ == old(self)@.insert(key@, value@),
    {
        proof {
            use_type_invariant(&*self);
        }
        let pos = self.position(key.as_str());
        let mut entries: Vec<(String, String)> = Vec::new();
        std::mem::swap(&mut entries, &mut self.entries);
        let ghost e = entries@;
        match pos {
            Some(i) => {
                proof {
                    lemma_pairs_map_update(e, i as int, (key, value));
                }
                entries.set(i, (key, value));
                assert(keys_distinct(entries@)) by {
                    assert forall|a: int, b: int|
                        0 <= a < entries@.len() && 0 <= b < entries@.len() && a
                            != b implies #[trigger] entries@[a].0@ != #[trigger] entries@[b].0@ by {
                        assert(a != i ==> entries@[a] == e[a]);
                        assert(b != i ==> entries@[b] == e[b]);
                    }
                }
            },
            None => {
                entries.push((key, value));
                assert(entries@.drop_last() =~= e);
                assert(keys_distinct(entries@)) by {
                    assert forall|a: int, b: int|
                        0 <= a < entries@.len() && 0 <= b < entries@.len() && a
                            != b implies #[trigger] entries@[a].0@ != #[trigger] entries@[b].0@ by {
                        assert(a < e.len() ==> entries@[a] == e[a]);
                        assert(b < e.len() ==> entries@[b] == e[b]);
                    }
                }
            },
        }
        *self = StrMap { entries };
    }

    /// A map built by inserting `pairs` in order; a later pair wins over an earlier one
    /// with the same key.
    pub fn from_pairs(pairs: Vec<(String, String)>) -> (m: StrMap)
        ensures
            m@ == pairs_map(pairs@),
    {
        let mut m = StrMap::new();
        let mut i: usize = 0;
        assert(pairs@.take(0) =~= Seq::<(String, String)>::empty());
        while i < pairs.len()
            invariant
                i <= pairs@.len(),
                m@ == pairs_map(pairs@.take(i as int)),
            decreases pairs@.len() - i,
        {
            let k = pairs[i].0.clone();
            let v = pairs[i].1.clone();
            m.insert(k, v);
            assert(pairs@.take(i + 1).drop_last() =~= pairs@.take(i as int));
            i += 1;
        }
        assert(pairs@.take(i as int) =~= pairs@);
        m
    }

    /// Inserts every entry of `other`; its values win over those of `self`.
    pub fn extend(&mut self, other: StrMap)
        ensures
            final(self)@ == old(self)@.union_prefer_right(other@),
    {
        let mut i: usize = 0;
        assert(other.entries@.take(0) =~= Seq::<(String, String)>::empty());
        assert(old(self)@.union_prefer_right(Map::empty()) =~= old(self)@);
        while i < other.entries.len()
            invariant
                i <= other.entries@.len(),
                self@ == old(self)@.union_prefer_right(pairs_map(other.entries@.take(i as int))),
            decreases other.entries@.len() - i,
        {
            let k = other.entries[i].0.clone();
            let v = other.entries[i].1.clone();
            let ghost before = pairs_map(other.entries@.take(i as int));
            self.insert(k, v);
            assert(other.entries@.take(i + 1).drop_last() =~= other.entries@.take(i as int));
            assert(old(self)@.union_prefer_right(before.insert(k@, v@)) =~= old(
                self,
            )@.union_prefer_right(before).insert(k@, v@));
            i += 1;
        }
        assert(other.entries@.take(i as int) =~= other.entries@);
    }

    /// The entries of the map, each key once, in no particular order.
    pub fn to_pairs(&self) -> (r: Vec<(String, String)>)
        ensures
            pairs_map(r@) == self@,
            keys_distinct(r@),
    {
        proof {
            use_type_invariant(self);
        }
        let mut r: Vec<(String, String)> = Vec::new();
        let mut i: usize = 0;
        while i < self.entries.len()
            invariant
                i <= self.entries@.len(),
                r@ == self.entries@.take(i as int),
            decreases self.entries@.len() - i,
        {
            let k = self.entries[i].0.clone();
            let v = self.entries[i].1.clone();
            r.push((k, v));
            assert(r@ =~= self.entries@.take(i + 1));
            i += 1;
        }
        assert(r@ =~= self.entries@);
        r
    }

    /// Every entry of `self` is an entry of `other`.
    fn included_in(&self, other: &StrMap) -> (r: bool)
        ensures
            r == (forall|k: Seq<char>|
                #[trigger] self@.contains_key(k) ==> other@.contains_key(k) && other@[k]
                    == self@[k]),
    {
        proof {
            use_type_invariant(self);
        }
        let mut i: usize = 0;
        while i < self.entries.len()
            invariant
                keys_distinct(self.entries@),
                i <= self.entries@.len(),
                forall|j: int|
                    0 <= j < i ==> other@.contains_key(#[trigger] self.entries@[j].0@)
                        && other@[self.entries@[j].0@] == self.entries@[j].1@,
            decreases self.entries@.len() - i,
        {
            proof {
                lemma_pairs_map_has(self.entries@, i as int);
            }
            let ghost k = self.entries@[i as int].0@;
            match other.get(self.entries[i].0.as_str()) {
                Some(v) => {
                    if !str_eq(v, self.entries[i].1.as_str()) {
                        assert(self@.contains_key(k) && other@[k] != self@[k]);
                        return false;
                    }
                },
                None => {
                    assert(self@.contains_key(k) && !other@.contains_key(k));
                    return false;
                },
            }
            i += 1;
        }
        assert forall|k: Seq<char>| #[trigger]
            self@.contains_key(k) implies other@.contains_key(k) && other@[k] == self@[k] by {
            let j = lemma_pairs_map_key_index(self.entries@, k);
            lemma_pairs_map_has(self.entries@, j);
        }
        true
    }
}

impl PartialEq for StrMap {
    fn eq(&self, other: &Self) -> (r: bool) {
        let r = self.included_in(other) && other.included_in(self);
        proof {
            if r {
                assert(self@ =~= other@);
            }
        }
        r
    }
}

impl vstd::std_specs::cmp::PartialEqSpecImpl for StrMap {
    open spec fn obeys_eq_spec() -> bool {
        true
    }

    open spec fn eq_spec(&self, other: &StrMap) -> bool {
        self@ == other@
    }
}

} // verus!
