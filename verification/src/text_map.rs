//! An insertion-ordered map keyed by strings, with distinct keys.
//!
//! The view is the association list of `(key, value)` pairs in insertion
//! order; `assoc_map` reads it as a mathematical map.
use vstd::prelude::*;
use crate::text::to_owned_string;

verus! {

/// No key occurs twice.
pub open spec fn keys_distinct<K, V>(s: Seq<(K, V)>) -> bool {
    forall|i: int, j: int| 0 <= i < j < s.len() ==> s[i].0 != s[j].0
}

/// The map that an association list denotes (a later pair overrides an earlier one).
pub open spec fn assoc_map<K, V>(s: Seq<(K, V)>) -> Map<K, V>
    decreases s.len(),
{
    if s.len() == 0 {
        Map::empty()
    } else {
        assoc_map(s.drop_last()).insert(s.last().0, s.last().1)
    }
}

/// Index of key `k` in the association list, if present.
pub open spec fn has_key_at<K, V>(s: Seq<(K, V)>, k: K, i: int) -> bool {
    0 <= i < s.len() && s[i].0 == k
}

pub proof fn lemma_assoc_contains<K, V>(s: Seq<(K, V)>, k: K)
    ensures
        assoc_map(s).contains_key(k) <==> exists|i: int| has_key_at(s, k, i),
    decreases s.len(),
{
    if s.len() > 0 {
        lemma_assoc_contains(s.drop_last(), k);
        if s.last().0 == k {
            assert(has_key_at(s, k, s.len() - 1));
        }
        if assoc_map(s.drop_last()).contains_key(k) {
            let i = choose|i: int| has_key_at(s.drop_last(), k, i);
            assert(has_key_at(s, k, i));
        }
        if exists|i: int| has_key_at(s, k, i) {
            let i = choose|i: int| has_key_at(s, k, i);
            if i < s.len() - 1 {
                assert(has_key_at(s.drop_last(), k, i));
            }
        }
    }
}

pub proof fn lemma_assoc_value<K, V>(s: Seq<(K, V)>, i: int)
    requires
        keys_distinct(s),
        0 <= i < s.len(),
    ensures
        assoc_map(s).contains_key(s[i].0),
        assoc_map(s)[s[i].0] == s[i].1,
    decreases s.len(),
{
    if i < s.len() - 1 {
        let t = s.drop_last();
        assert(keys_distinct(t));
        lemma_assoc_value(t, i);
        assert(t[i] == s[i]);
        assert(s.last().0 != s[i].0);
    }
}

pub proof fn lemma_assoc_len<K, V>(s: Seq<(K, V)>)
    requires
        keys_distinct(s),
    ensures
        assoc_map(s).dom().finite(),
        assoc_map(s).len() == s.len(),
    decreases s.len(),
{
    if s.len() > 0 {
        let t = s.drop_last();
        assert(keys_distinct(t));
        lemma_assoc_len(t);
        lemma_assoc_contains(t, s.last().0);
        assert(!assoc_map(t).contains_key(s.last().0)) by {
            if assoc_map(t).contains_key(s.last().0) {
                let i = choose|i: int| has_key_at(t, s.last().0, i);
                assert(s[i].0 == s[s.len() - 1].0);
            }
        }
    }
}

pub proof fn lemma_assoc_update<K, V>(s: Seq<(K, V)>, i: int, v: V)
    requires
        keys_distinct(s),
        0 <= i < s.len(),
    ensures
        keys_distinct(s.update(i, (s[i].0, v))),
        assoc_map(s.update(i, (s[i].0, v))) == assoc_map(s).insert(s[i].0, v),
    decreases s.len(),
{
    let u = s.update(i, (s[i].0, v));
    let t = s.drop_last();
    if i == s.len() - 1 {
        assert(u.drop_last() =~= t);
        lemma_assoc_contains(t, s[i].0);
        assert(assoc_map(u) =~= assoc_map(s).insert(s[i].0, v));
    } else {
        assert(keys_distinct(t));
        lemma_assoc_update(t, i, v);
        assert(u.drop_last() =~= t.update(i, (t[i].0, v)));
        assert(s.last().0 != s[i].0);
        assert(assoc_map(u) =~= assoc_map(s).insert(s[i].0, v));
    }
}

pub proof fn lemma_assoc_remove<K, V>(s: Seq<(K, V)>, i: int)
    requires
        keys_distinct(s),
        0 <= i < s.len(),
    ensures
        keys_distinct(s.remove(i)),
        assoc_map(s.remove(i)) == assoc_map(s).remove(s[i].0),
    decreases s.len(),
{
    let r = s.remove(i);
    let t = s.drop_last();
    assert(keys_distinct(r)) by {
        assert forall|a: int, b: int| 0 <= a < b < r.len() implies r[a].0 != r[b].0 by {
            let a2 = if a < i { a } else { a + 1 };
            let b2 = if b < i { b } else { b + 1 };
            assert(r[a] == s[a2]);
            assert(r[b] == s[b2]);
        }
    }
    if i == s.len() - 1 {
        assert(r =~= t);
        lemma_assoc_contains(t, s[i].0);
        assert(!assoc_map(t).contains_key(s[i].0)) by {
            if assoc_map(t).contains_key(s[i].0) {
                let j = choose|j: int| has_key_at(t, s[i].0, j);
                assert(s[j].0 == s[i].0);
            }
        }
        assert(assoc_map(r) =~= assoc_map(s).remove(s[i].0));
    } else {
        assert(keys_distinct(t));
        lemma_assoc_remove(t, i);
        assert(r.drop_last() =~= t.remove(i));
        assert(r.last() == s.last());
        assert(s.last().0 != s[i].0);
        assert(assoc_map(r) =~= assoc_map(s).remove(s[i].0));
    }
}

pub proof fn lemma_assoc_push<K, V>(s: Seq<(K, V)>, k: K, v: V)
    requires
        keys_distinct(s),
        !assoc_map(s).contains_key(k),
    ensures
        keys_distinct(s.push((k, v))),
        assoc_map(s.push((k, v))) == assoc_map(s).insert(k, v),
{
    let p = s.push((k, v));
    assert(p.drop_last() =~= s);
    lemma_assoc_contains(s, k);
    assert forall|a: int, b: int| 0 <= a < b < p.len() implies p[a].0 != p[b].0 by {
        if b == s.len() {
            assert(!has_key_at(s, k, a));
        } else {
            assert(p[a] == s[a] && p[b] == s[b]);
        }
    }
}

/// An insertion-ordered map from strings to values.
#[derive(Debug)]
pub struct TextMap<V> {
    entries: Vec<(String, V)>,
}

impl<V> TextMap<V> {
    /// The association list of keys (as character sequences) and values.
    pub closed spec fn pairs(self) -> Seq<(Seq<char>, V)> {
        self.entries@.map_values(|e: (String, V)| (e.0@, e.1))
    }

    /// Well-formedness: no key occurs twice.
    pub open spec fn wf(self) -> bool {
        keys_distinct(self.pairs())
    }

    /// The map that this association list denotes.
    pub open spec fn map(self) -> Map<Seq<char>, V> {
        assoc_map(self.pairs())
    }

    /// The distinct keys hold: the map has as many entries as the list.
    pub proof fn lemma_wf(self)
        requires
            self.wf(),
        ensures
            keys_distinct(self.pairs()),
            self.map().dom().finite(),
            self.map().len() == self.pairs().len(),
            forall|i: int|
                0 <= i < self.pairs().len() ==> #[trigger] self.map().contains_key(
                    self.pairs()[i].0,
                ) && self.map()[self.pairs()[i].0] == self.pairs()[i].1,
            forall|k: Seq<char>|
                #[trigger] self.map().contains_key(k) <==> exists|i: int|
                    has_key_at(self.pairs(), k, i),
    {
        lemma_assoc_len(self.pairs());
        assert forall|i: int| 0 <= i < self.pairs().len() implies #[trigger] self.map().contains_key(
            self.pairs()[i].0,
        ) && self.map()[self.pairs()[i].0] == self.pairs()[i].1 by {
            lemma_assoc_value(self.pairs(), i);
        }
        assert forall|k: Seq<char>| #[trigger] self.map().contains_key(k) <==> exists|i: int|
            has_key_at(self.pairs(), k, i) by {
            lemma_assoc_contains(self.pairs(), k);
        }
    }

    /// An empty map.
    pub fn new() -> (m: Self)
        ensures
            m.wf(),
            m.pairs() == Seq::<(Seq<char>, V)>::empty(),
            m.map() == Map::<Seq<char>, V>::empty(),
    {
        let m = TextMap { entries: Vec::new() };
        assert(m.pairs() =~= Seq::<(Seq<char>, V)>::empty());
        m
    }

    /// Number of entries.
    pub fn len(&self) -> (n: usize)
        requires
            self.wf(),
        ensures
            n == self.pairs().len(),
            n == self.map().len(),
    {
        proof {
            self.lemma_wf();
        }
        self.entries.len()
    }

    /// Whether the map has no entries.
    pub fn is_empty(&self) -> (b: bool)
        requires
            self.wf(),
        ensures
            b == (self.pairs().len() == 0),
            b == (self.map().len() == 0),
    {
        proof {
            self.lemma_wf();
        }
        self.entries.len() == 0
    }

    /// Position of `key` in the association list.
    pub fn index_of(&self, key: &str) -> (r: Option<usize>)
        requires
            self.wf(),
        ensures
            match r {
                Some(i) => has_key_at(self.pairs(), key@, i as int),
                None => !self.map().contains_key(key@),
            },
    {
        proof {
            self.lemma_wf();
        }
        let k = to_owned_string(key);
        let mut i: usize = 0;
        while i < self.entries.len()
            invariant
                i <= self.entries@.len(),
                k@ == key@,
                self.pairs().len() == self.entries@.len(),
                forall|j: int| 0 <= j < i ==> !has_key_at(self.pairs(), key@, j),
            decreases self.entries@.len() - i,
        {
            if self.entries[i].0 == k {
                return Some(i);
            }
            i = i + 1;
        }
        None
    }

    /// The value stored under `key`.
    pub fn get(&self, key: &str) -> (r: Option<&V>)
        requires
            self.wf(),
        ensures
            r.is_some() == self.map().contains_key(key@),
            r matches Some(v) ==> *v == self.map()[key@],
    {
        proof {
            self.lemma_wf();
        }
        match self.index_of(key) {
            Some(i) => {
                assert(self.pairs()[i as int].1 == self.entries@[i as int].1);
                Some(&self.entries[i].1)
            },
            None => None,
        }
    }

    /// Whether `key` is present.
    pub fn contains_key(&self, key: &str) -> (b: bool)
        requires
            self.wf(),
        ensures
            b == self.map().contains_key(key@),
    {
        proof {
            self.lemma_wf();
        }
        self.index_of(key).is_some()
    }

    /// Key at position `i` of the association list.
    pub fn key_at(&self, i: usize) -> (k: &String)
        requires
            i < self.pairs().len(),
        ensures
            k@ == self.pairs()[i as int].0,
    {
        &self.entries[i].0
    }

    /// Value at position `i` of the association list.
    pub fn value_at(&self, i: usize) -> (v: &V)
        requires
            i < self.pairs().len(),
        ensures
            *v == self.pairs()[i as int].1,
    {
        &self.entries[i].1
    }

    /// Stores `value` under `key`, returning the value it replaces. An
    /// existing key keeps its position; a new key goes last.
    pub fn insert(&mut self, key: String, value: V) -> (r: Option<V>)
        requires
            old(self).wf(),
        ensures
            final(self).wf(),
            final(self).map() == old(self).map().insert(key@, value),
            r.is_some() == old(self).map().contains_key(key@),
            r matches Some(v) ==> v == old(self).map()[key@],
            match r {
                Some(_) => exists|i: int|
                    has_key_at(old(self).pairs(), key@, i) && final(self).pairs() == old(
                        self,
                    ).pairs().update(i, (key@, value)),
                None => final(self).pairs() == old(self).pairs().push((key@, value)),
            },
    {
        proof {
            self.lemma_wf();
        }
        let ghost old_pairs = self.pairs();
        match self.index_of(key.as_str()) {
            Some(i) => {
                let (_k, old_v) = self.entries.remove(i);
                self.entries.insert(i, (key, value));
                proof {
                    assert(self.pairs() =~= old_pairs.update(i as int, (old_pairs[i as int].0, value)));
                    lemma_assoc_update(old_pairs, i as int, value);
                    lemma_assoc_value(old_pairs, i as int);
                }
                Some(old_v)
            },
            None => {
                let ghost kv = key@;
                self.entries.push((key, value));
                proof {
                    assert(self.pairs() =~= old_pairs.push((kv, value)));
                    lemma_assoc_push(old_pairs, kv, value);
                }
                None
            },
        }
    }

    /// Removes `key`, returning its value; the other entries keep their order.
    pub fn remove(&mut self, key: &str) -> (r: Option<V>)
        requires
            old(self).wf(),
        ensures
            final(self).wf(),
            final(self).map() == old(self).map().remove(key@),
            r.is_some() == old(self).map().contains_key(key@),
            r matches Some(v) ==> v == old(self).map()[key@],
            match r {
                Some(_) => exists|i: int|
                    has_key_at(old(self).pairs(), key@, i) && final(self).pairs() == old(
                        self,
                    ).pairs().remove(i),
                None => final(self).pairs() == old(self).pairs(),
            },
    {
        proof {
            self.lemma_wf();
        }
        let ghost old_pairs = self.pairs();
        match self.index_of(key) {
            Some(i) => {
                let (_k, old_v) = self.entries.remove(i);
                proof {
                    assert(self.pairs() =~= old_pairs.remove(i as int));
                    lemma_assoc_remove(old_pairs, i as int);
                    lemma_assoc_value(old_pairs, i as int);
                }
                Some(old_v)
            },
            None => {
                proof {
                    assert(self.map() =~= old(self).map().remove(key@));
                }
                None
            },
        }
    }

    /// Removes every entry.
    pub fn clear(&mut self)
        ensures
            final(self).wf(),
            final(self).pairs() == Seq::<(Seq<char>, V)>::empty(),
            final(self).map() == Map::<Seq<char>, V>::empty(),
    {
        self.entries.clear();
        assert(self.pairs() =~= Seq::<(Seq<char>, V)>::empty());
    }

    /// The keys, in insertion order.
    pub fn keys(&self) -> (ks: Vec<String>)
        requires
            self.wf(),
        ensures
            ks@.len() == self.pairs().len(),
            forall|i: int| 0 <= i < ks@.len() ==> #[trigger] ks@[i]@ == self.pairs()[i].0,
    {
        let mut ks: Vec<String> = Vec::new();
        let mut i: usize = 0;
        while i < self.entries.len()
            invariant
                i <= self.entries@.len(),
                self.pairs().len() == self.entries@.len(),
                ks@.len() == i,
                forall|j: int| 0 <= j < i ==> #[trigger] ks@[j]@ == self.pairs()[j].0,
            decreases self.entries@.len() - i,
        {
            ks.push(self.entries[i].0.clone());
            i = i + 1;
        }
        ks
    }
}

impl TextMap<String> {
    /// The map with each value taken as its characters.
    pub open spec fn smap(self) -> Map<Seq<char>, Seq<char>> {
        self.map().map_values(|v: String| v@)
    }

    /// Stores `value` under `key` (a string map seen through `smap`).
    pub fn insert_str(&mut self, key: String, value: String)
        requires
            old(self).wf(),
        ensures
            final(self).wf(),
            final(self).smap() == old(self).smap().insert(key@, value@),
            final(self).map() == old(self).map().insert(key@, value),
    {
        let ghost k = key@;
        let ghost v = value;
        let _ = self.insert(key, value);
        assert(self.smap() =~= old(self).smap().insert(k, v@));
    }

    /// A copy with the same entries in the same order.
    pub fn copy(&self) -> (c: Self)
        ensures
            c.pairs() == self.pairs(),
            c.map() == self.map(),
            c.smap() == self.smap(),
            self.wf() ==> c.wf(),
    {
        let mut entries: Vec<(String, String)> = Vec::new();
        let mut i: usize = 0;
        while i < self.entries.len()
            invariant
                i <= self.entries@.len(),
                entries@.len() == i,
                forall|j: int| 0 <= j < i ==> (#[trigger] entries@[j]).0@ == self.entries@[j].0@ && entries@[j].1 == self.entries@[j].1,
            decreases self.entries@.len() - i,
        {
            let k = self.entries[i].0.clone();
            let v = self.entries[i].1.clone();
            entries.push((k, v));
            i = i + 1;
        }
        let c = TextMap { entries };
        assert(c.pairs() =~= self.pairs());
        c
    }

    /// Whether some entry has the value `v`.
    pub fn contains_value(&self, v: &str) -> (b: bool)
        requires
            self.wf(),
        ensures
            b == exists|i: int| 0 <= i < self.pairs().len() && (#[trigger] self.pairs()[i]).1@ == v@,
    {
        let t = to_owned_string(v);
        let mut i: usize = 0;
        while i < self.entries.len()
            invariant
                i <= self.entries@.len(),
                t@ == v@,
                self.pairs().len() == self.entries@.len(),
                forall|j: int| 0 <= j < i ==> (#[trigger] self.pairs()[j]).1@ != v@,
            decreases self.entries@.len() - i,
        {
            if self.entries[i].1 == t {
                assert(self.pairs()[i as int].1@ == v@);
                return true;
            }
            i = i + 1;
        }
        false
    }
}

impl<V: Clone> Clone for TextMap<V> {
    fn clone(&self) -> (c: Self)
        ensures
            c.pairs().len() == self.pairs().len(),
            forall|i: int| 0 <= i < c.pairs().len() ==> (#[trigger] c.pairs()[i]).0 == self.pairs()[i].0,
            self.wf() ==> c.wf(),
    {
        let mut entries: Vec<(String, V)> = Vec::new();
        let mut i: usize = 0;
        while i < self.entries.len()
            invariant
                i <= self.entries@.len(),
                entries@.len() == i,
                forall|j: int| 0 <= j < i ==> (#[trigger] entries@[j]).0@ == self.entries@[j].0@,
            decreases self.entries@.len() - i,
        {
            let k = self.entries[i].0.clone();
            let v = self.entries[i].1.clone();
            entries.push((k, v));
            i = i + 1;
        }
        let c = TextMap { entries };
        proof {
            assert forall|j: int| 0 <= j < c.pairs().len() implies (#[trigger] c.pairs()[j]).0
                == self.pairs()[j].0 by {
                assert(c.entries@[j].0@ == self.entries@[j].0@);
            }
        }
        c
    }
}

/// The string-to-string map used for variables, captures and attributes.
pub type StringMap = TextMap<String>;

} // verus!
