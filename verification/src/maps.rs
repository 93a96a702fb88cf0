//! Small verified association maps.
//!
//! The pipeline keeps OSM tags, attribute properties and node-ID tables in
//! insertion-ordered association lists with distinct keys. Each carries a
//! `Map` view; iteration order (first insertion wins) is part of the type,
//! which keeps the emitted output deterministic.

use crate::strutil::str_eq;
use vstd::prelude::*;

verus! {

/// The map described by parallel key/value sequences, later entries winning.
pub open spec fn map_of<K, V>(keys: Seq<K>, vals: Seq<V>) -> Map<K, V>
    decreases keys.len(),
{
    if keys.len() == 0 || vals.len() == 0 {
        Map::empty()
    } else {
        map_of(keys.drop_last(), vals.drop_last()).insert(keys.last(), vals.last())
    }
}

/// Membership in a sequence splits into the last element and the rest.
pub proof fn lemma_contains_split<K>(s: Seq<K>, k: K)
    requires
        s.len() > 0,
    ensures
        s.contains(k) <==> (s.drop_last().contains(k) || s.last() == k),
{
    if s.contains(k) {
        let i = choose|i: int| 0 <= i < s.len() && s[i] == k;
        if i < s.len() - 1 {
            assert(s.drop_last()[i] == k);
            assert(s.drop_last().contains(k));
        }
    }
    if s.drop_last().contains(k) {
        let i = choose|i: int| 0 <= i < s.drop_last().len() && s.drop_last()[i] == k;
        assert(s[i] == k);
    }
    if s.last() == k {
        assert(s[s.len() - 1] == k);
    }
}

/// The domain of `map_of` is exactly the set of keys.
pub proof fn lemma_map_of_dom<K, V>(keys: Seq<K>, vals: Seq<V>)
    requires
        keys.len() == vals.len(),
    ensures
        forall|k: K| #[trigger] map_of(keys, vals).dom().contains(k) <==> keys.contains(k),
    decreases keys.len(),
{
    if keys.len() > 0 {
        lemma_map_of_dom(keys.drop_last(), vals.drop_last());
        assert forall|k: K| #[trigger] map_of(keys, vals).dom().contains(k) <==> keys.contains(
            k,
        ) by {
            lemma_contains_split(keys, k);
            assert(map_of(keys.drop_last(), vals.drop_last()).dom().contains(k)
                <==> keys.drop_last().contains(k));
            assert(map_of(keys, vals) == map_of(keys.drop_last(), vals.drop_last()).insert(
                keys.last(),
                vals.last(),
            ));
        }
    } else {
        assert forall|k: K| #[trigger] map_of(keys, vals).dom().contains(k) <==> keys.contains(
            k,
        ) by {
            if keys.contains(k) {
                let i = choose|i: int| 0 <= i < keys.len() && keys[i] == k;
            }
        }
    }
}

/// An entry with no later duplicate key is what `map_of` returns.
pub proof fn lemma_map_of_get<K, V>(keys: Seq<K>, vals: Seq<V>, i: int)
    requires
        keys.len() == vals.len(),
        0 <= i < keys.len(),
        forall|j: int| i < j < keys.len() ==> keys[j] != keys[i],
    ensures
        map_of(keys, vals).dom().contains(keys[i]),
        map_of(keys, vals)[keys[i]] == vals[i],
    decreases keys.len(),
{
    if i == keys.len() - 1 {
    } else {
        lemma_map_of_get(keys.drop_last(), vals.drop_last(), i);
    }
}

/// Updating the value at an entry (with no later duplicate) is `insert`.
pub proof fn lemma_map_of_update<K, V>(keys: Seq<K>, vals: Seq<V>, i: int, v: V)
    requires
        keys.len() == vals.len(),
        0 <= i < keys.len(),
        forall|j: int| i < j < keys.len() ==> keys[j] != keys[i],
    ensures
        map_of(keys, vals.update(i, v)) == map_of(keys, vals).insert(keys[i], v),
    decreases keys.len(),
{
    let vu = vals.update(i, v);
    if i == keys.len() - 1 {
        assert(vu.drop_last() =~= vals.drop_last());
        assert(vu.last() == v);
        assert(map_of(keys, vu) =~= map_of(keys, vals).insert(keys[i], v));
    } else {
        assert(vu.drop_last() =~= vals.drop_last().update(i, v));
        lemma_map_of_update(keys.drop_last(), vals.drop_last(), i, v);
        assert(keys[i] != keys.last());
        assert(map_of(keys, vu) =~= map_of(keys, vals).insert(keys[i], v));
    }
}

/// Removing an entry of a duplicate-free list removes its key from the map.
pub proof fn lemma_map_of_remove<K, V>(keys: Seq<K>, vals: Seq<V>, i: int)
    requires
        keys.len() == vals.len(),
        0 <= i < keys.len(),
        forall|a: int, b: int| 0 <= a < b < keys.len() ==> keys[a] != keys[b],
    ensures
        map_of(keys.remove(i), vals.remove(i)) == map_of(keys, vals).remove(keys[i]),
    decreases keys.len(),
{
    lemma_map_of_dom(keys.drop_last(), vals.drop_last());
    if i == keys.len() - 1 {
        assert(keys.remove(i) =~= keys.drop_last());
        assert(vals.remove(i) =~= vals.drop_last());
        assert(!keys.drop_last().contains(keys[i]));
        assert(map_of(keys.remove(i), vals.remove(i)) =~= map_of(keys, vals).remove(keys[i]));
    } else {
        assert(keys.remove(i).drop_last() =~= keys.drop_last().remove(i));
        assert(vals.remove(i).drop_last() =~= vals.drop_last().remove(i));
        assert(keys.remove(i).last() == keys.last());
        assert(vals.remove(i).last() == vals.last());
        lemma_map_of_remove(keys.drop_last(), vals.drop_last(), i);
        assert(keys[i] != keys.last());
        assert(map_of(keys.remove(i), vals.remove(i)) =~= map_of(keys, vals).remove(keys[i]));
    }
}

/// OSM tags of one element: an insertion-ordered map from tag key to value.
pub struct TagMap {
    keys: Vec<String>,
    vals: Vec<String>,
}

impl TagMap {
    /// The tag keys, as character sequences, in insertion order.
    pub closed spec fn key_seq(self) -> Seq<Seq<char>> {
        self.keys@.map_values(|k: String| k@)
    }

    /// The tag values, as character sequences, in insertion order.
    pub closed spec fn val_seq(self) -> Seq<Seq<char>> {
        self.vals@.map_values(|v: String| v@)
    }

    /// Keys and values are parallel and keys are distinct.
    pub open spec fn wf(self) -> bool {
        &&& self.key_seq().len() == self.val_seq().len()
        &&& forall|a: int, b: int|
            0 <= a < b < self.key_seq().len() ==> self.key_seq()[a] != self.key_seq()[b]
    }

    /// The map this tag list holds.
    pub open spec fn view(self) -> Map<Seq<char>, Seq<char>> {
        map_of(self.key_seq(), self.val_seq())
    }

    /// The number of tags.
    pub fn len(&self) -> (r: usize)
        ensures
            r == self.key_seq().len(),
    {
        self.keys.len()
    }

    /// An empty tag map.
    pub fn new() -> (r: TagMap)
        ensures
            r.wf(),
            r@ == Map::<Seq<char>, Seq<char>>::empty(),
            r.key_seq() == Seq::<Seq<char>>::empty(),
    {
        let r = TagMap { keys: Vec::new(), vals: Vec::new() };
        proof {
            assert(r.key_seq() =~= Seq::<Seq<char>>::empty());
            assert(r.val_seq() =~= Seq::<Seq<char>>::empty());
        }
        r
    }

    /// The key at a position of the insertion order.
    pub fn key_at(&self, i: usize) -> (r: &String)
        requires
            i < self.key_seq().len(),
        ensures
            r@ == self.key_seq()[i as int],
    {
        &self.keys[i]
    }

    /// The value at a position of the insertion order.
    pub fn val_at(&self, i: usize) -> (r: &String)
        requires
            self.wf(),
            i < self.key_seq().len(),
        ensures
            r@ == self.val_seq()[i as int],
            self@.dom().contains(self.key_seq()[i as int]),
            self@[self.key_seq()[i as int]] == self.val_seq()[i as int],
    {
        proof {
            lemma_map_of_get(self.key_seq(), self.val_seq(), i as int);
        }
        &self.vals[i]
    }

    /// Where `key` sits in the list, if anywhere.
    fn find(&self, key: &str) -> (r: Option<usize>)
        requires
            self.key_seq().len() == self.val_seq().len(),
        ensures
            match r {
                Option::Some(i) => i < self.key_seq().len() && self.key_seq()[i as int] == key@,
                Option::None => forall|i: int|
                    0 <= i < self.key_seq().len() ==> self.key_seq()[i] != key@,
            },
    {
        let n = self.keys.len();
        let mut i: usize = 0;
        while i < n
            invariant
                i <= n,
                n == self.key_seq().len(),
                forall|k: int| 0 <= k < i ==> self.key_seq()[k] != key@,
            decreases n - i,
        {
            if str_eq(self.keys[i].as_str(), key) {
                return Option::Some(i);
            }
            i = i + 1;
        }
        Option::None
    }

    /// Does the map hold `key`?
    pub fn contains_key(&self, key: &str) -> (r: bool)
        requires
            self.wf(),
        ensures
            r == self@.dom().contains(key@),
    {
        proof {
            lemma_map_of_dom(self.key_seq(), self.val_seq());
        }
        match self.find(key) {
            Option::Some(i) => {
                proof {
                    assert(self.key_seq().contains(key@));
                }
                true
            },
            Option::None => {
                proof {
                    if self.key_seq().contains(key@) {
                        let i = choose|i: int|
                            0 <= i < self.key_seq().len() && self.key_seq()[i] == key@;
                    }
                }
                false
            },
        }
    }

    /// The value under `key`, if any.
    pub fn get(&self, key: &str) -> (r: Option<&String>)
        requires
            self.wf(),
        ensures
            match r {
                Option::Some(v) => self@.dom().contains(key@) && self@[key@] == v@,
                Option::None => !self@.dom().contains(key@),
            },
    {
        proof {
            lemma_map_of_dom(self.key_seq(), self.val_seq());
        }
        match self.find(key) {
            Option::Some(i) => {
                proof {
                    lemma_map_of_get(self.key_seq(), self.val_seq(), i as int);
                    assert(self.key_seq().contains(key@));
                }
                Option::Some(&self.vals[i])
            },
            Option::None => {
                proof {
                    if self.key_seq().contains(key@) {
                        let i = choose|i: int|
                            0 <= i < self.key_seq().len() && self.key_seq()[i] == key@;
                    }
                }
                Option::None
            },
        }
    }

    /// Set `key` to `val`: overwrite in place, or append a new entry.
    pub fn insert(&mut self, key: &str, val: String)
        requires
            old(self).wf(),
        ensures
            final(self).wf(),
            final(self)@ == old(self)@.insert(key@, val@),
            old(self)@.dom().contains(key@) ==> final(self).key_seq() == old(self).key_seq(),
            !old(self)@.dom().contains(key@) ==> final(self).key_seq() == old(self).key_seq().push(
                key@,
            ),
    {
        proof {
            lemma_map_of_dom(old(self).key_seq(), old(self).val_seq());
        }
        match self.find(key) {
            Option::Some(i) => {
                proof {
                    assert(self.key_seq().contains(key@));
                }
                let ghost oldks = self.key_seq();
                let ghost oldvs = self.val_seq();
                self.vals.set(i, val);
                proof {
                    assert(self.key_seq() =~= oldks);
                    assert(self.val_seq() =~= oldvs.update(i as int, val@));
                    lemma_map_of_update(oldks, oldvs, i as int, val@);
                }
            },
            Option::None => {
                proof {
                    if old(self).key_seq().contains(key@) {
                        let i = choose|i: int|
                            0 <= i < old(self).key_seq().len() && old(self).key_seq()[i] == key@;
                    }
                }
                let ghost oldks = self.key_seq();
                let ghost oldvs = self.val_seq();
                let kown = key.to_owned();
                self.keys.push(kown);
                self.vals.push(val);
                proof {
                    assert(self.key_seq() =~= oldks.push(key@));
                    assert(self.val_seq() =~= oldvs.push(val@));
                    assert(self.key_seq().drop_last() =~= oldks);
                    assert(self.val_seq().drop_last() =~= oldvs);
                }
            },
        }
    }

    /// Take `key` out of the map, returning its value.
    pub fn remove(&mut self, key: &str) -> (r: Option<String>)
        requires
            old(self).wf(),
        ensures
            final(self).wf(),
            final(self)@ == old(self)@.remove(key@),
            match r {
                Option::Some(v) => old(self)@.dom().contains(key@) && old(self)@[key@] == v@,
                Option::None => !old(self)@.dom().contains(key@),
            },
    {
        proof {
            lemma_map_of_dom(old(self).key_seq(), old(self).val_seq());
        }
        match self.find(key) {
            Option::Some(i) => {
                proof {
                    assert(self.key_seq().contains(key@));
                    lemma_map_of_get(self.key_seq(), self.val_seq(), i as int);
                    lemma_map_of_remove(self.key_seq(), self.val_seq(), i as int);
                }
                let ghost oldks = self.key_seq();
                let ghost oldvs = self.val_seq();
                self.keys.remove(i);
                let v = self.vals.remove(i);
                proof {
                    assert(self.key_seq() =~= oldks.remove(i as int));
                    assert(self.val_seq() =~= oldvs.remove(i as int));
                }
                Option::Some(v)
            },
            Option::None => {
                proof {
                    if old(self).key_seq().contains(key@) {
                        let i = choose|i: int|
                            0 <= i < old(self).key_seq().len() && old(self).key_seq()[i] == key@;
                    }
                    assert(old(self)@ =~= old(self)@.remove(key@));
                }
                Option::None
            },
        }
    }

    /// A copy of this tag map, entry order included.
    pub fn duplicate(&self) -> (r: TagMap)
        requires
            self.wf(),
        ensures
            r.wf(),
            r@ == self@,
            r.key_seq() == self.key_seq(),
            r.val_seq() == self.val_seq(),
    {
        let n = self.keys.len();
        let mut keys: Vec<String> = Vec::new();
        let mut vals: Vec<String> = Vec::new();
        let mut i: usize = 0;
        while i < n
            invariant
                i <= n,
                n == self.key_seq().len() == self.val_seq().len(),
                keys@.map_values(|k: String| k@) =~= self.key_seq().subrange(0, i as int),
                vals@.map_values(|v: String| v@) =~= self.val_seq().subrange(0, i as int),
            decreases n - i,
        {
            let ghost oldk = keys@.map_values(|k: String| k@);
            let ghost oldv = vals@.map_values(|v: String| v@);
            keys.push(self.keys[i].clone());
            vals.push(self.vals[i].clone());
            proof {
                assert(keys@.map_values(|k: String| k@) =~= oldk.push(self.key_seq()[i as int]));
                assert(vals@.map_values(|v: String| v@) =~= oldv.push(self.val_seq()[i as int]));
                assert(oldk.push(self.key_seq()[i as int]) =~= self.key_seq().subrange(
                    0,
                    i + 1 as int,
                ));
                assert(oldv.push(self.val_seq()[i as int]) =~= self.val_seq().subrange(
                    0,
                    i + 1 as int,
                ));
            }
            i = i + 1;
        }
        let r = TagMap { keys, vals };
        proof {
            assert(r.key_seq() =~= self.key_seq());
            assert(r.val_seq() =~= self.val_seq());
        }
        r
    }

    /// Are two tag maps equal as maps?
    pub fn map_eq(&self, other: &TagMap) -> (r: bool)
        requires
            self.wf(),
            other.wf(),
        ensures
            r == (self@ == other@),
    {
        proof {
            lemma_map_of_dom(self.key_seq(), self.val_seq());
            lemma_map_of_dom(other.key_seq(), other.val_seq());
        }
        let n = self.keys.len();
        let m = other.keys.len();
        let mut i: usize = 0;
        while i < n
            invariant
                i <= n,
                self.wf(),
                other.wf(),
                n == self.key_seq().len(),
                forall|k: int|
                    0 <= k < i ==> other@.dom().contains(#[trigger] self.key_seq()[k])
                        && other@[self.key_seq()[k]] == self.val_seq()[k],
            decreases n - i,
        {
            proof {
                lemma_map_of_get(self.key_seq(), self.val_seq(), i as int);
            }
            match other.get(self.keys[i].as_str()) {
                Option::Some(v) => {
                    if !str_eq(v.as_str(), self.vals[i].as_str()) {
                        proof {
                            assert(self@[self.key_seq()[i as int]] == self.val_seq()[i as int]);
                        }
                        return false;
                    }
                },
                Option::None => {
                    proof {
                        assert(self@.dom().contains(self.key_seq()[i as int]));
                    }
                    return false;
                },
            }
            i = i + 1;
        }
        let mut j: usize = 0;
        while j < m
            invariant
                j <= m,
                self.wf(),
                other.wf(),
                m == other.key_seq().len(),
                forall|k: int|
                    0 <= k < self.key_seq().len() ==> other@.dom().contains(
                        #[trigger] self.key_seq()[k],
                    ) && other@[self.key_seq()[k]] == self.val_seq()[k],
                forall|k: int|
                    0 <= k < j ==> self@.dom().contains(#[trigger] other.key_seq()[k]),
            decreases m - j,
        {
            proof {
                lemma_map_of_get(other.key_seq(), other.val_seq(), j as int);
            }
            if !self.contains_key(other.keys[j].as_str()) {
                proof {
                    assert(other@.dom().contains(other.key_seq()[j as int]));
                }
                return false;
            }
            j = j + 1;
        }
        proof {
            lemma_map_of_dom(self.key_seq(), self.val_seq());
            lemma_map_of_dom(other.key_seq(), other.val_seq());
            assert forall|k: Seq<char>| #[trigger]
                self@.dom().contains(k) implies other@.dom().contains(k) && other@[k]
                == self@[k] by {
                let i = choose|i: int| 0 <= i < self.key_seq().len() && self.key_seq()[i] == k;
                lemma_map_of_get(self.key_seq(), self.val_seq(), i);
            }
            assert forall|k: Seq<char>| #[trigger]
                other@.dom().contains(k) implies self@.dom().contains(k) by {
                let i = choose|i: int| 0 <= i < other.key_seq().len() && other.key_seq()[i] == k;
            }
            assert(self@ =~= other@);
        }
        true
    }
}

/// A map from coordinate hash to an assigned node ID.
pub struct IdMap {
    keys: Vec<u64>,
    vals: Vec<i64>,
}

impl IdMap {
    /// The hashes, in insertion order.
    pub closed spec fn key_seq(self) -> Seq<u64> {
        self.keys@
    }

    /// The IDs, in insertion order.
    pub closed spec fn val_seq(self) -> Seq<i64> {
        self.vals@
    }

    /// Keys and values are parallel and keys are distinct.
    pub open spec fn wf(self) -> bool {
        &&& self.key_seq().len() == self.val_seq().len()
        &&& forall|a: int, b: int|
            0 <= a < b < self.key_seq().len() ==> self.key_seq()[a] != self.key_seq()[b]
    }

    /// The map this list holds.
    pub open spec fn view(self) -> Map<u64, i64> {
        map_of(self.key_seq(), self.val_seq())
    }

    /// An empty ID map.
    pub fn new() -> (r: IdMap)
        ensures
            r.wf(),
            r@ == Map::<u64, i64>::empty(),
    {
        IdMap { keys: Vec::new(), vals: Vec::new() }
    }

    /// Where `key` sits in the list, if anywhere.
    fn find(&self, key: u64) -> (r: Option<usize>)
        ensures
            match r {
                Option::Some(i) => i < self.key_seq().len() && self.key_seq()[i as int] == key,
                Option::None => forall|i: int|
                    0 <= i < self.key_seq().len() ==> self.key_seq()[i] != key,
            },
    {
        let n = self.keys.len();
        let mut i: usize = 0;
        while i < n
            invariant
                i <= n,
                n == self.key_seq().len(),
                forall|k: int| 0 <= k < i ==> self.key_seq()[k] != key,
            decreases n - i,
        {
            if self.keys[i] == key {
                return Option::Some(i);
            }
            i = i + 1;
        }
        Option::None
    }

    /// Does the map hold `key`?
    pub fn contains_key(&self, key: u64) -> (r: bool)
        requires
            self.wf(),
        ensures
            r == self@.dom().contains(key),
    {
        proof {
            lemma_map_of_dom(self.key_seq(), self.val_seq());
        }
        match self.find(key) {
            Option::Some(i) => {
                proof {
                    assert(self.key_seq().contains(key));
                }
                true
            },
            Option::None => {
                proof {
                    if self.key_seq().contains(key) {
                        let i = choose|i: int|
                            0 <= i < self.key_seq().len() && self.key_seq()[i] == key;
                    }
                }
                false
            },
        }
    }

    /// The ID under `key`, if any.
    pub fn get(&self, key: u64) -> (r: Option<i64>)
        requires
            self.wf(),
        ensures
            match r {
                Option::Some(v) => self@.dom().contains(key) && self@[key] == v,
                Option::None => !self@.dom().contains(key),
            },
    {
        proof {
            lemma_map_of_dom(self.key_seq(), self.val_seq());
        }
        match self.find(key) {
            Option::Some(i) => {
                proof {
                    lemma_map_of_get(self.key_seq(), self.val_seq(), i as int);
                    assert(self.key_seq().contains(key));
                }
                Option::Some(self.vals[i])
            },
            Option::None => {
                proof {
                    if self.key_seq().contains(key) {
                        let i = choose|i: int|
                            0 <= i < self.key_seq().len() && self.key_seq()[i] == key;
                    }
                }
                Option::None
            },
        }
    }

    /// Add a binding for a key that is not yet present.
    pub fn insert_new(&mut self, key: u64, val: i64)
        requires
            old(self).wf(),
            !old(self)@.dom().contains(key),
        ensures
            final(self).wf(),
            final(self)@ == old(self)@.insert(key, val),
    {
        proof {
            lemma_map_of_dom(old(self).key_seq(), old(self).val_seq());
            if old(self).key_seq().contains(key) {
            }
        }
        let ghost oldks = self.key_seq();
        let ghost oldvs = self.vals@;
        self.keys.push(key);
        self.vals.push(val);
        proof {
            assert(self.key_seq().drop_last() =~= oldks);
            assert(self.vals@.drop_last() =~= oldvs);
            if oldks.contains(key) {
                let i = choose|i: int| 0 <= i < oldks.len() && oldks[i] == key;
            }
        }
    }
}

} // verus!
