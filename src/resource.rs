use vstd::prelude::*;

verus! {

/// One stored singleton: the key of its type and its value.
pub struct ResourceEntry<V> {
    pub key: u64,
    pub value: V,
}

/// A type-keyed store holding at most one value per resource type key.
pub struct Resource<V> {
    entries: Vec<ResourceEntry<V>>,
}

impl<V> Resource<V> {
    /// The entries in insertion order.
    pub closed spec fn entries(&self) -> Seq<ResourceEntry<V>> {
        self.entries@
    }

    /// No key is stored twice.
    pub closed spec fn wf(&self) -> bool {
        Self::keys_unique(self.entries@)
    }

    pub open spec fn keys_unique(s: Seq<ResourceEntry<V>>) -> bool {
        forall|i: int, j: int| 0 <= i < j < s.len() ==> s[i].key != s[j].key
    }

    /// Whether entry `i` holds key `k`.
    pub open spec fn holds_at(s: Seq<ResourceEntry<V>>, i: int, k: u64) -> bool {
        0 <= i < s.len() && s[i].key == k
    }

    /// The stored resources as a map from type key to value.
    pub closed spec fn view(&self) -> Map<u64, V> {
        Self::map_of(self.entries@)
    }

    /// The map that a sequence of entries stands for.
    pub open spec fn map_of(s: Seq<ResourceEntry<V>>) -> Map<u64, V> {
        Map::new(
            |k: u64| exists|i: int| Self::holds_at(s, i, k),
            |k: u64| s[choose|i: int| Self::holds_at(s, i, k)].value,
        )
    }

    /// Replacing the value of an entry replaces the value of its key.
    proof fn lemma_update_value(s: Seq<ResourceEntry<V>>, i: int, w: V)
        requires
            Self::keys_unique(s),
            0 <= i < s.len(),
        ensures
            Self::keys_unique(s.update(i, ResourceEntry { key: s[i].key, value: w })),
            Self::map_of(s.update(i, ResourceEntry { key: s[i].key, value: w }))
                == Self::map_of(s).insert(s[i].key, w),
    {
        let key = s[i].key;
        let t = s.update(i, ResourceEntry { key, value: w });
        let m = Self::map_of(s).insert(key, w);
        assert forall|k: u64| #![auto] Self::map_of(t).dom().contains(k) == m.dom().contains(k) by {
            if exists|j: int| Self::holds_at(s, j, k) {
                let j = choose|j: int| Self::holds_at(s, j, k);
                assert(Self::holds_at(t, j, k));
            }
            if k == key {
                assert(Self::holds_at(s, i, k));
            }
            if exists|j: int| Self::holds_at(t, j, k) {
                let j = choose|j: int| Self::holds_at(t, j, k);
                assert(Self::holds_at(s, j, k));
            }
        }
        assert forall|k: u64| #[trigger] Self::map_of(t).dom().contains(k) implies Self::map_of(t)[k] == m[k] by {
            let j = choose|j: int| Self::holds_at(t, j, k);
            if k != key {
                assert(Self::holds_at(s, j, k));
                let j2 = choose|j2: int| Self::holds_at(s, j2, k);
                assert(j2 == j);
            } else {
                assert(j == i);
            }
        }
        assert(Self::map_of(t) =~= m);
    }

    proof fn lemma_view_at(&self, i: int)
        requires
            self.wf(),
            0 <= i < self.entries@.len(),
        ensures
            self@.dom().contains(self.entries@[i].key),
            self@[self.entries@[i].key] == self.entries@[i].value,
    {
        let k = self.entries@[i].key;
        assert(Self::holds_at(self.entries@, i, k));
        let j = choose|j: int| Self::holds_at(self.entries@, j, k);
        assert(j == i);
    }

    /// The view and well-formedness in terms of the entries.
    pub proof fn lemma_entries(&self)
        ensures
            self@ == Self::map_of(self.entries()),
            self.wf() == Self::keys_unique(self.entries()),
    {
    }

    /// Changing every value in place, keeping each key where it is, changes
    /// the map by the same function.
    pub proof fn lemma_map_values(s: Seq<ResourceEntry<V>>, t: Seq<ResourceEntry<V>>, f: spec_fn(V) -> V)
        requires
            Self::keys_unique(s),
            t.len() == s.len(),
            forall|j: int| 0 <= j < s.len() ==> (#[trigger] t[j]).key == s[j].key && t[j].value == f(s[j].value),
        ensures
            Self::keys_unique(t),
            Self::map_of(t) == Self::map_of(s).map_values(f),
    {
        assert forall|i: int, j: int| 0 <= i < j < t.len() implies t[i].key != t[j].key by {
            assert(t[i].key == s[i].key && t[j].key == s[j].key);
        }
        let m = Self::map_of(s).map_values(f);
        assert forall|k: u64| #![auto] Self::map_of(t).dom().contains(k) == m.dom().contains(k) by {
            if exists|j: int| Self::holds_at(s, j, k) {
                let j = choose|j: int| Self::holds_at(s, j, k);
                assert(t[j].key == s[j].key);
                assert(Self::holds_at(t, j, k));
            }
            if exists|j: int| Self::holds_at(t, j, k) {
                let j = choose|j: int| Self::holds_at(t, j, k);
                assert(t[j].key == s[j].key);
                assert(Self::holds_at(s, j, k));
            }
        }
        assert forall|k: u64| #[trigger] Self::map_of(t).dom().contains(k) implies Self::map_of(t)[k] == m[k] by {
            let j = choose|j: int| Self::holds_at(t, j, k);
            assert(t[j].key == s[j].key);
            assert(Self::holds_at(s, j, k));
            let j2 = choose|j2: int| Self::holds_at(s, j2, k);
            assert(j2 == j);
        }
        assert(Self::map_of(t) =~= m);
    }

    /// The number of stored resources.
    pub fn len(&self) -> (r: usize)
        ensures
            r == self.entries().len(),
    {
        self.entries.len()
    }

    /// The value of the entry at position `i`.
    pub fn value_at(&self, i: usize) -> (r: &V)
        requires
            i < self.entries().len(),
        ensures
            *r == self.entries()[i as int].value,
    {
        &self.entries[i].value
    }

    /// Replaces the value of the entry at position `i`, keeping its key.
    pub fn set_at(&mut self, i: usize, value: V)
        requires
            i < old(self).entries().len(),
        ensures
            final(self).entries() == old(self).entries().update(
                i as int,
                ResourceEntry { key: old(self).entries()[i as int].key, value },
            ),
    {
        let key = self.entries[i].key;
        self.entries.set(i, ResourceEntry { key, value });
    }

    /// An empty store.
    pub fn new() -> (r: Self)
        ensures
            r.wf(),
            r@ == Map::<u64, V>::empty(),
    {
        let r = Resource { entries: Vec::new() };
        assert(r@ =~= Map::<u64, V>::empty());
        r
    }

    /// The position of the entry for `key`, if any.
    fn find(&self, key: u64) -> (r: Option<usize>)
        requires
            self.wf(),
        ensures
            match r {
                Some(i) => Self::holds_at(self.entries@, i as int, key),
                None => !self@.dom().contains(key),
            },
    {
        let mut i: usize = 0;
        while i < self.entries.len()
            invariant
                0 <= i <= self.entries@.len(),
                forall|j: int| 0 <= j < i ==> self.entries@[j].key != key,
            decreases self.entries@.len() - i,
        {
            if self.entries[i].key == key {
                return Some(i);
            }
            i += 1;
        }
        None
    }

    /// Stores `value` under `key`, replacing any earlier value of that key.
    pub fn add(&mut self, key: u64, value: V)
        requires
            old(self).wf(),
        ensures
            final(self).wf(),
            final(self)@ == old(self)@.insert(key, value),
    {
        match self.find(key) {
            Some(i) => {
                proof { Self::lemma_update_value(self.entries@, i as int, value); }
                self.entries.set(i, ResourceEntry { key, value });
            },
            None => {
                let ghost before = self.entries@;
                self.entries.push(ResourceEntry { key, value });
                proof {
                    let n = before.len() as int;
                    assert forall|j: int| 0 <= j < n implies before[j].key != key by {
                        if before[j].key == key { assert(Self::holds_at(before, j, key)); }
                    }
                    assert(self.entries@[n].key == key);
                    assert(forall|j: int| 0 <= j < n ==> self.entries@[j] == before[j]);
                    assert(self.wf());
                    assert forall|k: u64| #![auto] self@.dom().contains(k) == old(self)@.insert(key, value).dom().contains(k) by {
                        if exists|j: int| Self::holds_at(before, j, k) {
                            let j = choose|j: int| Self::holds_at(before, j, k);
                            assert(Self::holds_at(self.entries@, j, k));
                        }
                        if k == key {
                            assert(Self::holds_at(self.entries@, n, k));
                        }
                        if exists|j: int| Self::holds_at(self.entries@, j, k) {
                            let j = choose|j: int| Self::holds_at(self.entries@, j, k);
                            if j != n { assert(Self::holds_at(before, j, k)); }
                        }
                    }
                    assert forall|k: u64| #[trigger] self@.dom().contains(k) implies self@[k] == old(self)@.insert(key, value)[k] by {
                        let j = choose|j: int| Self::holds_at(self.entries@, j, k);
                        self.lemma_view_at(j);
                        if k != key {
                            old(self).lemma_view_at(j);
                        }
                    }
                    assert(self@ =~= old(self)@.insert(key, value));
                }
            },
        }
    }

    /// A shared reference to the value stored under `key`, if any.
    pub fn get_ref(&self, key: u64) -> (r: Option<&V>)
        requires
            self.wf(),
        ensures
            match r {
                Some(v) => self@.dom().contains(key) && *v == self@[key],
                None => !self@.dom().contains(key),
            },
    {
        match self.find(key) {
            Some(i) => {
                proof { self.lemma_view_at(i as int); }
                Some(&self.entries[i].value)
            },
            None => None,
        }
    }

    /// A mutable reference to the value stored under `key`, if any. Whatever is
    /// written through it becomes the value of `key`.
    pub fn get_mut(&mut self, key: u64) -> (r: Option<&mut V>)
        requires
            old(self).wf(),
        ensures
            final(self).wf(),
            match r {
                Some(v) => old(self)@.dom().contains(key) && *v == old(self)@[key]
                    && final(self)@ == old(self)@.insert(key, *final(v)),
                None => !old(self)@.dom().contains(key) && final(self)@ == old(self)@,
            },
    {
        match self.find(key) {
            Some(i) => {
                proof {
                    self.lemma_view_at(i as int);
                    assert forall|w: V| #![auto]
                        Self::keys_unique(self.entries@.update(i as int, ResourceEntry { key, value: w }))
                        && Self::map_of(self.entries@.update(i as int, ResourceEntry { key, value: w }))
                            == self@.insert(key, w) by {
                        Self::lemma_update_value(self.entries@, i as int, w);
                    }
                }
                Some(&mut self.entries[i].value)
            },
            None => None,
        }
    }

    /// Removes the value stored under `key`; nothing happens if there is none.
    pub fn remove(&mut self, key: u64)
        requires
            old(self).wf(),
        ensures
            final(self).wf(),
            final(self)@ == old(self)@.remove(key),
    {
        match self.find(key) {
            Some(i) => {
                let ghost before = self.entries@;
                self.entries.remove(i);
                proof {
                    let after = self.entries@;
                    assert(forall|j: int| 0 <= j < i ==> after[j] == before[j]);
                    assert(forall|j: int| i <= j < after.len() ==> after[j] == before[j + 1]);
                    assert forall|k: u64| #![auto] self@.dom().contains(k) == old(self)@.remove(key).dom().contains(k) by {
                        if exists|j: int| Self::holds_at(before, j, k) {
                            let j = choose|j: int| Self::holds_at(before, j, k);
                            if k != key {
                                if j < i { assert(Self::holds_at(after, j, k)); }
                                else { assert(j != i); assert(Self::holds_at(after, j - 1, k)); }
                            }
                        }
                        if exists|j: int| Self::holds_at(after, j, k) {
                            let j = choose|j: int| Self::holds_at(after, j, k);
                            if j < i { assert(Self::holds_at(before, j, k)); }
                            else { assert(Self::holds_at(before, j + 1, k)); }
                        }
                    }
                    assert forall|k: u64| #[trigger] self@.dom().contains(k) implies self@[k] == old(self)@.remove(key)[k] by {
                        let j = choose|j: int| Self::holds_at(after, j, k);
                        self.lemma_view_at(j);
                        if j < i { old(self).lemma_view_at(j); }
                        else { old(self).lemma_view_at(j + 1); }
                    }
                    assert(self@ =~= old(self)@.remove(key));
                }
            },
            None => {
                assert(self@ =~= old(self)@.remove(key));
            },
        }
    }
}


/// Adding a value for a key twice leaves the second value stored.
pub proof fn lemma_resource_overwrite<V>(s0: Resource<V>, s1: Resource<V>, s2: Resource<V>, key: u64, v1: V, v2: V)
    requires
        s1@ == s0@.insert(key, v1),
        s2@ == s1@.insert(key, v2),
    ensures
        s2@.dom().contains(key),
        s2@[key] == v2,
{
}

/// After adding a value for a key and removing the key, nothing is stored for it.
pub proof fn lemma_resource_removal<V>(s0: Resource<V>, s1: Resource<V>, s2: Resource<V>, key: u64, v: V)
    requires
        s1@ == s0@.insert(key, v),
        s2@ == s1@.remove(key),
    ensures
        !s2@.dom().contains(key),
{
}

} // verus!
