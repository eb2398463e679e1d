//! A map keyed by strings that keeps its entries in insertion order.
//!
//! The map is an association list in which no key occurs twice. Its view is
//! a `Map<Seq<char>, T>`; `keys()` and `values()` give the entries in order.
//!
//! It stands where a map is walked entry by entry: the properties of a
//! manifest, the nodes of a graph, the entries of a build cache. vstd gives
//! `std::collections::HashMap` a model only for keys whose hashing it knows,
//! and `String` is not among them; its `StringHashMap` has a model for
//! `String` keys but no way to walk the entries, and the order in which a
//! hash map hands them out differs from run to run. Where a map is only
//! filled and looked up, as the visited keys and the version overrides of a
//! resolution are, the crate uses `StringHashMap`.

use vstd::prelude::*;

verus! {

/// The map that pairs `keys[i]` with `values[i]`.
pub open spec fn assoc<T>(keys: Seq<Seq<char>>, values: Seq<T>) -> Map<Seq<char>, T> {
    Map::new(|k: Seq<char>| keys.contains(k), |k: Seq<char>| values[keys.index_of(k)])
}

/// In a list without repeated keys each key finds its own value.
pub proof fn lemma_assoc_index<T>(keys: Seq<Seq<char>>, values: Seq<T>, i: int)
    requires
        keys.no_duplicates(),
        0 <= i < keys.len(),
    ensures
        assoc(keys, values).contains_key(keys[i]),
        assoc(keys, values)[keys[i]] == values[i],
{
    assert(keys.contains(keys[i]));
    let j = keys.index_of(keys[i]);
    assert(keys[j] == keys[i]);
}

/// Appending a fresh key is `Map::insert`.
pub proof fn lemma_assoc_push<T>(keys: Seq<Seq<char>>, values: Seq<T>, k: Seq<char>, v: T)
    requires
        keys.no_duplicates(),
        keys.len() == values.len(),
        !keys.contains(k),
    ensures
        keys.push(k).no_duplicates(),
        assoc(keys.push(k), values.push(v)) == assoc(keys, values).insert(k, v),
{
    let keys2 = keys.push(k);
    let values2 = values.push(v);
    assert forall|i: int, j: int| 0 <= i < keys2.len() && 0 <= j < keys2.len() && i != j implies keys2[i]
        != keys2[j] by {
        if i < keys.len() {
            assert(keys.contains(keys[i]));
        }
        if j < keys.len() {
            assert(keys.contains(keys[j]));
        }
    }
    assert forall|q: Seq<char>| assoc(keys2, values2).contains_key(q) <==> assoc(
        keys,
        values,
    ).insert(k, v).contains_key(q) by {
        if keys2.contains(q) {
            let i = keys2.index_of(q);
            if i < keys.len() {
                assert(keys[i] == q);
            }
        }
        if keys.contains(q) {
            let i = keys.index_of(q);
            assert(keys2[i] == q);
        }
        if q == k {
            assert(keys2[keys.len() as int] == k);
        }
    }
    assert forall|q: Seq<char>| assoc(keys2, values2).contains_key(q) implies assoc(
        keys2,
        values2,
    )[q] == assoc(keys, values).insert(k, v)[q] by {
        let i = keys2.index_of(q);
        lemma_assoc_index(keys2, values2, i);
        if i < keys.len() {
            lemma_assoc_index(keys, values, i);
        }
    }
    assert(assoc(keys2, values2) =~= assoc(keys, values).insert(k, v));
}

/// Replacing the value at an existing key is `Map::insert`.
pub proof fn lemma_assoc_update<T>(keys: Seq<Seq<char>>, values: Seq<T>, i: int, v: T)
    requires
        keys.no_duplicates(),
        keys.len() == values.len(),
        0 <= i < keys.len(),
    ensures
        assoc(keys, values.update(i, v)) == assoc(keys, values).insert(keys[i], v),
{
    let values2 = values.update(i, v);
    assert forall|q: Seq<char>| assoc(keys, values2).contains_key(q) <==> assoc(
        keys,
        values,
    ).insert(keys[i], v).contains_key(q) by {
        assert(keys.contains(keys[i]));
    }
    assert forall|q: Seq<char>| assoc(keys, values2).contains_key(q) implies assoc(
        keys,
        values2,
    )[q] == assoc(keys, values).insert(keys[i], v)[q] by {
        let j = keys.index_of(q);
        lemma_assoc_index(keys, values2, j);
        lemma_assoc_index(keys, values, j);
    }
    assert(assoc(keys, values2) =~= assoc(keys, values).insert(keys[i], v));
}

/// A string-keyed map in insertion order.
#[derive(Debug)]
pub struct StringMap<T> {
    entries: Vec<(String, T)>,
}

impl<T> View for StringMap<T> {
    type V = Map<Seq<char>, T>;

    closed spec fn view(&self) -> Map<Seq<char>, T> {
        assoc(self.keys(), self.values())
    }
}

impl<T> StringMap<T> {
    /// The keys in insertion order.
    pub closed spec fn keys(&self) -> Seq<Seq<char>> {
        self.entries@.map_values(|e: (String, T)| e.0@)
    }

    /// The values, in the order of their keys.
    pub closed spec fn values(&self) -> Seq<T> {
        self.entries@.map_values(|e: (String, T)| e.1)
    }

    /// No key occurs twice.
    #[verifier::type_invariant]
    pub closed spec fn wf(&self) -> bool {
        self.keys().no_duplicates()
    }

    /// How `keys()`, `values()` and the view hang together.
    pub proof fn lemma_entries(&self)
        requires
            self.wf(),
        ensures
            self.keys().no_duplicates(),
            self.keys().len() == self.values().len(),
            self@ == assoc(self.keys(), self.values()),
            self@.dom() == self.keys().to_set(),
            forall|i: int|
                0 <= i < self.keys().len() ==> #[trigger] self@.contains_key(self.keys()[i])
                    && self@[self.keys()[i]] == self.values()[i],
    {
        assert(self@.dom() =~= self.keys().to_set());
        assert forall|i: int| 0 <= i < self.keys().len() implies #[trigger] self@.contains_key(
            self.keys()[i],
        ) && self@[self.keys()[i]] == self.values()[i] by {
            lemma_assoc_index(self.keys(), self.values(), i);
        }
    }

    /// An empty map.
    pub fn new() -> (m: Self)
        ensures
            m@ == Map::<Seq<char>, T>::empty(),
            m.keys() == Seq::<Seq<char>>::empty(),
            m.values() == Seq::<T>::empty(),
            m.wf(),
    {
        let m = StringMap { entries: Vec::new() };
        proof {
            assert(m.keys() =~= Seq::<Seq<char>>::empty());
            assert(m.values() =~= Seq::<T>::empty());
            assert(m@ =~= Map::<Seq<char>, T>::empty());
        }
        m
    }

    /// Number of entries.
    pub fn len(&self) -> (n: usize)
        ensures
            n == self.keys().len(),
            n == self.values().len(),
            self.wf(),
    {
        proof {
            use_type_invariant(self);
        }
        self.entries.len()
    }

    /// Whether the map has no entry.
    pub fn is_empty(&self) -> (b: bool)
        ensures
            b == (self.keys().len() == 0),
            b == (self@ == Map::<Seq<char>, T>::empty()),
    {
        proof {
            use_type_invariant(self);
            self.lemma_entries();
            if self.keys().len() > 0 {
                assert(self@.contains_key(self.keys()[0]));
            } else {
                assert(self@ =~= Map::<Seq<char>, T>::empty());
            }
        }
        self.entries.len() == 0
    }

    /// The position of `key` among the keys, if it is one.
    pub fn position(&self, key: &str) -> (r: Option<usize>)
        ensures
            self.wf(),
            match r {
                Some(i) => i < self.keys().len() && self.keys()[i as int] == key@
                    && self@.contains_key(key@) && self@[key@] == self.values()[i as int],
                None => !self.keys().contains(key@) && !self@.contains_key(key@),
            },
    {
        proof {
            use_type_invariant(self);
        }
        let wanted = key.to_owned();
        let mut i: usize = 0;
        while i < self.entries.len()
            invariant
                i <= self.entries.len(),
                wanted@ == key@,
                self.wf(),
                forall|j: int| 0 <= j < i ==> self.keys()[j] != key@,
            decreases self.entries.len() - i,
        {
            if self.entries[i].0 == wanted {
                proof {
                    assert(self.keys()[i as int] == key@);
                    lemma_assoc_index(self.keys(), self.values(), i as int);
                }
                return Some(i);
            }
            i += 1;
        }
        None
    }

    /// Whether `key` has an entry.
    pub fn contains_key(&self, key: &str) -> (b: bool)
        ensures
            b == self@.contains_key(key@),
    {
        self.position(key).is_some()
    }

    /// The value stored under `key`.
    pub fn get(&self, key: &str) -> (r: Option<&T>)
        ensures
            match r {
                Some(v) => self@.contains_key(key@) && *v == self@[key@],
                None => !self@.contains_key(key@),
            },
    {
        match self.position(key) {
            Some(i) => Some(&self.entries[i].1),
            None => None,
        }
    }

    /// The `i`-th key in insertion order.
    pub fn key_at(&self, i: usize) -> (k: &String)
        requires
            i < self.keys().len(),
        ensures
            k@ == self.keys()[i as int],
            self@.contains_key(k@),
            self.wf(),
    {
        proof {
            use_type_invariant(self);
            lemma_assoc_index(self.keys(), self.values(), i as int);
        }
        &self.entries[i].0
    }

    /// The value of the `i`-th key.
    pub fn value_at(&self, i: usize) -> (v: &T)
        requires
            i < self.keys().len(),
        ensures
            *v == self.values()[i as int],
            *v == self@[self.keys()[i as int]],
            self.wf(),
    {
        proof {
            use_type_invariant(self);
            lemma_assoc_index(self.keys(), self.values(), i as int);
        }
        &self.entries[i].1
    }

    /// Stores `value` under `key`. A key that is already there keeps its
    /// place and gets the new value; a new key goes to the end.
    pub fn insert(&mut self, key: String, value: T)
        ensures
            final(self)@ == old(self)@.insert(key@, value),
            final(self).wf(),
            old(self)@.contains_key(key@) ==> final(self).keys() == old(self).keys(),
            !old(self)@.contains_key(key@) ==> final(self).keys() == old(self).keys().push(key@)
                && final(self).values() == old(self).values().push(value),
    {
        proof {
            use_type_invariant(&*self);
        }
        let found = self.position(key.as_str());
        let mut taken = StringMap { entries: Vec::new() };
        proof {
            assert(taken.keys() =~= Seq::<Seq<char>>::empty());
        }
        std::mem::swap(self, &mut taken);
        let mut entries = taken.entries;
        match found {
            Some(i) => {
                proof {
                    lemma_assoc_update(old(self).keys(), old(self).values(), i as int, value);
                }
                entries.set(i, (key, value));
            },
            None => {
                proof {
                    lemma_assoc_push(old(self).keys(), old(self).values(), key@, value);
                }
                entries.push((key, value));
            },
        }
        let ghost keys = entries@.map_values(|e: (String, T)| e.0@);
        let ghost values = entries@.map_values(|e: (String, T)| e.1);
        proof {
            match found {
                Some(i) => {
                    assert(keys =~= old(self).keys());
                    assert(values =~= old(self).values().update(i as int, value));
                },
                None => {
                    assert(keys =~= old(self).keys().push(key@));
                    assert(values =~= old(self).values().push(value));
                },
            }
        }
        *self = StringMap { entries };
    }

    /// Removes every entry.
    pub fn clear(&mut self)
        ensures
            final(self)@ == Map::<Seq<char>, T>::empty(),
            final(self).keys() == Seq::<Seq<char>>::empty(),
    {
        *self = StringMap { entries: Vec::new() };
        proof {
            assert(self.keys() =~= Seq::<Seq<char>>::empty());
            assert(self@ =~= Map::<Seq<char>, T>::empty());
        }
    }
}


/// `own`, with the entries of `other` under the first `i` of `keys` added
/// where `own` has no entry of that key.
pub open spec fn prefix_union<T>(
    own: Map<Seq<char>, T>,
    keys: Seq<Seq<char>>,
    other: Map<Seq<char>, T>,
    i: int,
) -> Map<Seq<char>, T> {
    Map::new(
        |k: Seq<char>| own.contains_key(k) || keys.take(i).contains(k),
        |k: Seq<char>|
            if own.contains_key(k) {
                own[k]
            } else {
                other[k]
            },
    )
}

/// One key more in the prefix is that key more among its members.
pub proof fn lemma_take_contains(keys: Seq<Seq<char>>, i: int, k: Seq<char>)
    requires
        0 <= i < keys.len(),
    ensures
        keys.take(i + 1).contains(k) <==> keys.take(i).contains(k) || keys[i] == k,
{
    if keys.take(i + 1).contains(k) {
        let t = keys.take(i + 1);
        let j = choose|j: int| 0 <= j < t.len() && t[j] == k;
        if j < i {
            assert(keys.take(i)[j] == k);
        }
    }
    if keys.take(i).contains(k) {
        let t = keys.take(i);
        let j = choose|j: int| 0 <= j < t.len() && t[j] == k;
        assert(keys.take(i + 1)[j] == k);
    }
    if keys[i] == k {
        assert(keys.take(i + 1)[i] == k);
    }
}

/// Counting in the key at `i` adds its entry, unless the key is there.
pub proof fn lemma_prefix_union_step<T>(
    own: Map<Seq<char>, T>,
    keys: Seq<Seq<char>>,
    other: Map<Seq<char>, T>,
    i: int,
)
    requires
        0 <= i < keys.len(),
    ensures
        prefix_union(own, keys, other, i + 1) == (if prefix_union(own, keys, other, i).contains_key(
            keys[i],
        ) {
            prefix_union(own, keys, other, i)
        } else {
            prefix_union(own, keys, other, i).insert(keys[i], other[keys[i]])
        }),
{
    let before = prefix_union(own, keys, other, i);
    let after = prefix_union(own, keys, other, i + 1);
    let target = if before.contains_key(keys[i]) {
        before
    } else {
        before.insert(keys[i], other[keys[i]])
    };
    assert forall|k: Seq<char>| after.contains_key(k) <==> target.contains_key(k) by {
        lemma_take_contains(keys, i, k);
    }
    assert forall|k: Seq<char>| after.contains_key(k) implies after[k] == target[k] by {
        lemma_take_contains(keys, i, k);
    }
    assert(after =~= target);
}

/// With no key counted in, nothing is added.
pub proof fn lemma_prefix_union_start<T>(
    own: Map<Seq<char>, T>,
    keys: Seq<Seq<char>>,
    other: Map<Seq<char>, T>,
)
    ensures
        prefix_union(own, keys, other, 0) == own,
{
    assert(keys.take(0) =~= Seq::<Seq<char>>::empty());
    assert(prefix_union(own, keys, other, 0) =~= own);
}

/// With every key counted in, the result is the union in which `own`
/// wins.
pub proof fn lemma_prefix_union_all<T>(
    own: Map<Seq<char>, T>,
    keys: Seq<Seq<char>>,
    other: Map<Seq<char>, T>,
)
    requires
        other.dom() == keys.to_set(),
    ensures
        prefix_union(own, keys, other, keys.len() as int) == other.union_prefer_right(own),
{
    assert(keys.take(keys.len() as int) == keys);
    assert forall|k: Seq<char>| keys.contains(k) <==> other.contains_key(k) by {
        assert(keys.to_set().contains(k) <==> keys.contains(k));
    }
    assert(prefix_union(own, keys, other, keys.len() as int) =~= other.union_prefer_right(own));
}

impl StringMap<String> {
    /// Adds the entries of `other` whose key this map does not have. What
    /// this map holds already stays as it is.
    pub fn insert_missing(&mut self, other: &StringMap<String>)
        ensures
            final(self)@ == other@.union_prefer_right(old(self)@),
            final(self).wf(),
    {
        let ghost own = self@;
        let n = other.len();
        let mut i: usize = 0;
        proof {
            lemma_prefix_union_start(own, other.keys(), other@);
            use_type_invariant(&*self);
        }
        while i < n
            invariant
                i <= n,
                n == other.keys().len(),
                other.wf(),
                self.wf(),
                self@ == prefix_union(own, other.keys(), other@, i as int),
            decreases n - i,
        {
            let k = other.key_at(i);
            proof {
                lemma_prefix_union_step(own, other.keys(), other@, i as int);
            }
            if !self.contains_key(k.as_str()) {
                let v = other.value_at(i);
                self.insert(k.clone(), v.clone());
            }
            i += 1;
        }
        proof {
            other.lemma_entries();
            lemma_prefix_union_all(own, other.keys(), other@);
        }
    }
}

impl<T: Clone> Clone for StringMap<T> {
    fn clone(&self) -> (r: Self)
        ensures
            r.keys() == self.keys(),
            r.values().len() == self.values().len(),
            forall|i: int|
                0 <= i < self.values().len() ==> cloned::<T>(
                    #[trigger] self.values()[i],
                    r.values()[i],
                ),
            r.wf(),
    {
        proof {
            use_type_invariant(self);
        }
        let mut entries: Vec<(String, T)> = Vec::new();
        let mut i: usize = 0;
        while i < self.entries.len()
            invariant
                i <= self.entries.len(),
                entries.len() == i,
                entries@.map_values(|e: (String, T)| e.0@) == self.keys().take(i as int),
                forall|j: int|
                    0 <= j < i ==> cloned::<T>(#[trigger] self.entries@[j].1, entries@[j].1),
            decreases self.entries.len() - i,
        {
            let ghost before = entries@.map_values(|e: (String, T)| e.0@);
            entries.push((self.entries[i].0.clone(), self.entries[i].1.clone()));
            proof {
                assert(entries@.map_values(|e: (String, T)| e.0@) =~= before.push(
                    self.entries@[i as int].0@,
                ));
                assert(self.keys().take(i + 1) =~= self.keys().take(i as int).push(
                    self.keys()[i as int],
                ));
            }
            i += 1;
        }
        proof {
            assert(self.keys().take(self.entries.len() as int) == self.keys());
        }
        let r = StringMap { entries };
        proof {
            assert forall|j: int| 0 <= j < self.values().len() implies cloned::<T>(
                #[trigger] self.values()[j],
                r.values()[j],
            ) by {
                assert(cloned::<T>(self.entries@[j].1, r.entries@[j].1));
            }
        }
        r
    }
}

impl StringMap<String> {
    /// A copy of the map: the same keys with the same texts.
    pub fn copy(&self) -> (r: Self)
        ensures
            r@ == self@,
            r.keys() == self.keys(),
            r.values() == self.values(),
    {
        let r = self.clone();
        proof {
            use_type_invariant(self);
            use_type_invariant(&r);
            assert(r.values() =~= self.values());
        }
        r
    }
}

} // verus!
