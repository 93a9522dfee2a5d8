use vstd::prelude::*;
use crate::bits::{bit, has_bit, lemma_set_bit, lemma_zero_has_no_bit, MASK_BITS};
use crate::custom_errors::CustomErrors;

verus! {

/// A token for an exclusive borrow of one component cell, handed out by
/// [`Entities::get_component_mut`] and given back by [`Entities::release_component`].
pub struct ComponentMut {
    key: u64,
    index: usize,
}

impl ComponentMut {
    pub closed spec fn key_spec(&self) -> u64 {
        self.key
    }

    pub closed spec fn index_spec(&self) -> usize {
        self.index
    }

    /// The component type key of the borrowed cell.
    pub fn key(&self) -> (r: u64)
        ensures
            r == self.key_spec(),
    {
        self.key
    }

    /// The entity index of the borrowed cell.
    pub fn index(&self) -> (r: usize)
        ensures
            r == self.index_spec(),
    {
        self.index
    }
}

/// The entity table: registered component types, one column of optional
/// values per type, one membership mask per entity, and the entity that the
/// builder currently fills.
pub struct Entities<V> {
    keys: Vec<u64>,
    columns: Vec<Vec<Option<V>>>,
    borrowed: Vec<Vec<bool>>,
    masks: Vec<u32>,
    into_index: Option<usize>,
}

/// Whether `key` is registered at position `c`.
pub open spec fn key_at(keys: Seq<u64>, c: int, key: u64) -> bool {
    0 <= c < keys.len() && keys[c] == key
}

/// The registry position of `key` (meaningful when it is registered).
pub open spec fn position_of(keys: Seq<u64>, key: u64) -> int {
    choose|c: int| key_at(keys, c, key)
}

impl<V: Copy> Entities<V> {
    /// Registered component type keys; the key at position `c` owns mask bit `c`.
    pub closed spec fn keys(&self) -> Seq<u64> {
        self.keys@
    }

    /// Membership masks, one per entity slot.
    pub closed spec fn masks(&self) -> Seq<u32> {
        self.masks@
    }

    /// The value in the column at registry position `c` for entity `e`.
    pub closed spec fn cell(&self, c: int, e: int) -> Option<V> {
        self.columns@[c]@[e]
    }

    /// Whether the cell at registry position `c` for entity `e` is exclusively borrowed.
    pub closed spec fn is_borrowed(&self, c: int, e: int) -> bool {
        self.borrowed@[c]@[e]
    }

    /// The entity that the builder fills, once an entity has been created.
    pub closed spec fn builder(&self) -> Option<usize> {
        self.into_index
    }

    pub open spec fn num_entities(&self) -> int {
        self.masks().len() as int
    }

    pub open spec fn is_registered(&self, key: u64) -> bool {
        exists|c: int| key_at(self.keys(), c, key)
    }

    /// The registry position of a registered key.
    pub open spec fn column_of(&self, key: u64) -> int {
        position_of(self.keys(), key)
    }

    /// The mask bit of a registered key.
    pub open spec fn bit_of(&self, key: u64) -> u32 {
        bit(self.column_of(key))
    }

    /// Whether entity `e` owns a component of type `key`.
    pub open spec fn owns(&self, e: int, key: u64) -> bool {
        self.is_registered(key) && self.cell(self.column_of(key), e) is Some
    }

    pub closed spec fn wf(&self) -> bool {
        &&& self.keys@.len() <= MASK_BITS
        &&& self.masks@.len() <= usize::MAX
        &&& forall|i: int, j: int| 0 <= i < j < self.keys@.len() ==> self.keys@[i] != self.keys@[j]
        &&& self.columns@.len() == self.keys@.len()
        &&& self.borrowed@.len() == self.keys@.len()
        &&& forall|c: int| 0 <= c < self.keys@.len() ==> #[trigger] self.columns@[c]@.len() == self.masks@.len()
        &&& forall|c: int| 0 <= c < self.keys@.len() ==> #[trigger] self.borrowed@[c]@.len() == self.masks@.len()
        &&& forall|c: int, e: int| 0 <= c < self.keys@.len() && 0 <= e < self.masks@.len() ==>
                (has_bit(self.masks@[e], c) <==> #[trigger] self.columns@[c]@[e] is Some)
        &&& forall|c: int, e: int| 0 <= c < self.keys@.len() && 0 <= e < self.masks@.len()
                && #[trigger] self.borrowed@[c]@[e] ==> self.columns@[c]@[e] is Some
        &&& forall|c: int, e: int| self.keys@.len() <= c < MASK_BITS && 0 <= e < self.masks@.len() ==>
                !#[trigger] has_bit(self.masks@[e], c)
        &&& self.into_index matches Some(i) ==> i < self.masks@.len()
    }

    /// The registry facts that every well-formed table has.
    pub proof fn lemma_wf(&self)
        requires
            self.wf(),
        ensures
            self.keys().len() <= MASK_BITS,
            forall|i: int, j: int| 0 <= i < j < self.keys().len() ==> self.keys()[i] != self.keys()[j],
            forall|c: int, e: int| 0 <= c < self.keys().len() && 0 <= e < self.num_entities() ==>
                (has_bit(self.masks()[e], c) <==> #[trigger] self.cell(c, e) is Some),
            forall|c: int, e: int| 0 <= c < self.keys().len() && 0 <= e < self.num_entities()
                && #[trigger] self.is_borrowed(c, e) ==> self.cell(c, e) is Some,
            self.builder() matches Some(i) ==> i < self.num_entities(),
            self.num_entities() <= usize::MAX,
    {
    }

    /// A registered key sits at exactly one position.
    pub proof fn lemma_column_of(&self, c: int)
        requires
            self.wf(),
            0 <= c < self.keys().len(),
        ensures
            self.is_registered(self.keys()[c]),
            self.column_of(self.keys()[c]) == c,
    {
        let key = self.keys()[c];
        assert(key_at(self.keys(), c, key));
        let d = position_of(self.keys(), key);
        assert(key_at(self.keys(), d, key));
    }

    /// Registering a key that is already registered returns the bit it was
    /// given the first time and leaves the registry as it was.
    pub proof fn lemma_register_idempotent(
        e0: Self,
        e1: Self,
        e2: Self,
        key: u64,
        r1: Result<u32, CustomErrors>,
        r2: Result<u32, CustomErrors>,
    )
        requires
            e0.wf(),
            e1.wf(),
            Self::registers(e0, e1, key, r1),
            Self::registers(e1, e2, key, r2),
            r1 is Ok,
        ensures
            r2 == r1,
            e2.keys() == e1.keys(),
    {
        e1.lemma_same_keys_same_bit(e1, key);
    }

    /// Registering any key leaves the bit of every already registered key as it was.
    pub proof fn lemma_register_keeps_bits(
        e0: Self,
        e1: Self,
        other: u64,
        key: u64,
        r: Result<u32, CustomErrors>,
    )
        requires
            e0.wf(),
            e1.wf(),
            Self::registers(e0, e1, other, r),
            e0.is_registered(key),
        ensures
            e1.is_registered(key),
            e1.bit_of(key) == e0.bit_of(key),
    {
        assert(e0.keys().is_prefix_of(e1.keys()));
        e0.lemma_same_keys_same_bit(e1, key);
    }

    /// Positions only grow: a registered key keeps its bit in any table whose
    /// registry extends this one's.
    pub proof fn lemma_same_keys_same_bit(&self, later: Self, key: u64)
        requires
            self.wf(),
            later.wf(),
            self.is_registered(key),
            self.keys().is_prefix_of(later.keys()),
        ensures
            later.is_registered(key),
            later.bit_of(key) == self.bit_of(key),
    {
        let c = self.column_of(key);
        assert(key_at(self.keys(), c, key));
        assert(later.keys()[c] == key);
        later.lemma_column_of(c);
    }

    /// An entity's mask has the bit of a registered type exactly when the
    /// entity's cell in that type's column holds a value.
    pub proof fn lemma_mask_matches_cells(&self, e: int, key: u64)
        requires
            self.wf(),
            0 <= e < self.num_entities(),
            self.is_registered(key),
        ensures
            has_bit(self.masks()[e], self.column_of(key)) <==> self.owns(e, key),
    {
        let c = self.column_of(key);
        assert(key_at(self.keys(), c, key));
        self.lemma_wf();
    }

    /// An empty table: no registered types, no entities.
    pub fn new() -> (r: Self)
        ensures
            r.wf(),
            r.keys() == Seq::<u64>::empty(),
            r.masks() == Seq::<u32>::empty(),
            r.builder() is None,
    {
        Entities {
            keys: Vec::new(),
            columns: Vec::new(),
            borrowed: Vec::new(),
            masks: Vec::new(),
            into_index: None,
        }
    }

    /// The number of entity slots.
    pub fn len(&self) -> (r: usize)
        ensures
            r == self.num_entities(),
    {
        self.masks.len()
    }

    /// The registry position of `key`, if it is registered.
    pub fn find_column(&self, key: u64) -> (r: Option<usize>)
        requires
            self.wf(),
        ensures
            match r {
                Some(c) => self.is_registered(key) && c == self.column_of(key) && c < self.keys().len(),
                None => !self.is_registered(key),
            },
    {
        let mut c: usize = 0;
        while c < self.keys.len()
            invariant
                self.wf(),
                0 <= c <= self.keys@.len(),
                forall|d: int| 0 <= d < c ==> self.keys@[d] != key,
            decreases self.keys@.len() - c,
        {
            if self.keys[c] == key {
                proof { self.lemma_column_of(c as int); }
                return Some(c);
            }
            c += 1;
        }
        None
    }

    /// The outcome of registering `key` in table `pre`: table `post` and result `r`.
    pub open spec fn registers(pre: Self, post: Self, key: u64, r: Result<u32, CustomErrors>) -> bool {
        &&& post.masks() == pre.masks()
        &&& post.builder() == pre.builder()
        &&& pre.is_registered(key) ==> post.keys() == pre.keys()
                && r == Ok::<u32, CustomErrors>(pre.bit_of(key))
        &&& !pre.is_registered(key) && pre.keys().len() == MASK_BITS ==>
                post.keys() == pre.keys() && r == Err::<u32, CustomErrors>(CustomErrors::RegistryFull)
        &&& !pre.is_registered(key) && pre.keys().len() < MASK_BITS ==>
                post.keys() == pre.keys().push(key)
                && r == Ok::<u32, CustomErrors>(bit(pre.keys().len() as int))
                && forall|e: int| 0 <= e < pre.num_entities() ==> post.cell(pre.keys().len() as int, e) is None
        &&& post.is_registered(key) <==> r is Ok
        &&& r is Ok ==> r == Ok::<u32, CustomErrors>(post.bit_of(key))
        &&& forall|c: int, e: int| 0 <= c < pre.keys().len() && 0 <= e < pre.num_entities() ==>
                post.cell(c, e) == pre.cell(c, e) && post.is_borrowed(c, e) == pre.is_borrowed(c, e)
    }

    /// Registers component type `key` and returns its mask bit. Registering a
    /// key again returns the bit it already has and changes nothing.
    pub fn register_component(&mut self, key: u64) -> (r: Result<u32, CustomErrors>)
        requires
            old(self).wf(),
        ensures
            final(self).wf(),
            Self::registers(*old(self), *final(self), key, r),
    {
        if let Some(c) = self.find_column(key) {
            return Ok(1u32 << (c as u32));
        }
        let n = self.keys.len();
        if n == MASK_BITS {
            return Err(CustomErrors::RegistryFull);
        }
        assert(!old(self).is_registered(key));
        let mut column: Vec<Option<V>> = Vec::new();
        let mut flags: Vec<bool> = Vec::new();
        let mut e: usize = 0;
        while e < self.masks.len()
            invariant
                0 <= e <= self.masks@.len(),
                column@.len() == e,
                flags@.len() == e,
                forall|i: int| 0 <= i < e ==> #[trigger] column@[i] is None,
                forall|i: int| 0 <= i < e ==> !#[trigger] flags@[i],
            decreases self.masks@.len() - e,
        {
            column.push(None);
            flags.push(false);
            e += 1;
        }
        self.keys.push(key);
        self.columns.push(column);
        self.borrowed.push(flags);
        proof {
            assert forall|c: int, e: int| 0 <= c < self.keys@.len() && 0 <= e < self.masks@.len() implies
                (has_bit(self.masks@[e], c) <==> #[trigger] self.columns@[c]@[e] is Some) by {
                if c == n {
                    assert(!has_bit(old(self).masks@[e], c));
                }
            }
            assert forall|c: int, e: int| self.keys@.len() <= c < MASK_BITS && 0 <= e < self.masks@.len() implies
                !#[trigger] has_bit(self.masks@[e], c) by {
                assert(old(self).keys@.len() <= c);
            }
            assert(forall|c: int| 0 <= c < n ==> self.columns@[c] == old(self).columns@[c]);
            assert(forall|c: int| 0 <= c < n ==> self.borrowed@[c] == old(self).borrowed@[c]);
            assert(self.columns@[n as int] == column);
            assert(self.borrowed@[n as int] == flags);
            assert forall|i: int, j: int| 0 <= i < j < self.keys@.len() implies self.keys@[i] != self.keys@[j] by {
                assert(self.keys@[i] == old(self).keys@[i]);
                if j < n {
                    assert(self.keys@[j] == old(self).keys@[j]);
                    assert(old(self).keys@[i] != old(self).keys@[j]);
                }
                if j == n {
                    assert(self.keys@[j] == key);
                    assert(self.keys@[i] == old(self).keys@[i]);
                    if self.keys@[i] == key { assert(key_at(old(self).keys(), i, key)); }
                }
            }
            assert forall|c: int, e: int| 0 <= c < self.keys@.len() && 0 <= e < self.masks@.len()
                && #[trigger] self.borrowed@[c]@[e] implies self.columns@[c]@[e] is Some by {
                if c == n { assert(!flags@[e]); }
            }
            assert(self.wf());
            assert(key_at(self.keys@, n as int, key));
            self.lemma_column_of(n as int);
            assert forall|k: u64| #![auto] self.is_registered(k) implies k == key || old(self).is_registered(k) by {
                let c = choose|c: int| key_at(self.keys(), c, k);
                if c < n {
                    assert(self.keys@[c] == old(self).keys@[c]);
                    assert(key_at(old(self).keys(), c, k));
                } else {
                    assert(self.keys@[c] == key);
                }
            }
        }
        Ok(1u32 << (n as u32))
    }

    /// Appends an entity slot with no components, an empty cell in every
    /// column, and makes it the entity that the builder fills. Returns its index.
    pub fn create_entity(&mut self) -> (r: usize)
        requires
            old(self).wf(),
            old(self).num_entities() < usize::MAX,
        ensures
            final(self).wf(),
            r == old(self).num_entities(),
            final(self).keys() == old(self).keys(),
            final(self).masks() == old(self).masks().push(0u32),
            final(self).builder() == Some(r),
            forall|c: int, e: int| 0 <= c < old(self).keys().len() && 0 <= e < old(self).num_entities() ==>
                final(self).cell(c, e) == old(self).cell(c, e) && final(self).is_borrowed(c, e) == old(self).is_borrowed(c, e),
            forall|c: int| 0 <= c < old(self).keys().len() ==> (#[trigger] final(self).cell(c, r as int)) is None,
            forall|c: int| 0 <= c < old(self).keys().len() ==> !#[trigger] final(self).is_borrowed(c, r as int),
    {
        let n = self.masks.len();
        let mut c: usize = 0;
        while c < self.columns.len()
            invariant
                old(self).wf(),
                self.keys@ == old(self).keys@,
                self.masks@ == old(self).masks@,
                self.into_index == old(self).into_index,
                self.columns@.len() == old(self).columns@.len(),
                self.borrowed@.len() == old(self).borrowed@.len(),
                0 <= c <= self.columns@.len(),
                n == self.masks@.len(),
                forall|d: int| 0 <= d < c ==> #[trigger] self.columns@[d]@ == old(self).columns@[d]@.push(None),
                forall|d: int| 0 <= d < c ==> #[trigger] self.borrowed@[d]@ == old(self).borrowed@[d]@.push(false),
                forall|d: int| c <= d < self.columns@.len() ==> #[trigger] self.columns@[d] == old(self).columns@[d],
                forall|d: int| c <= d < self.columns@.len() ==> #[trigger] self.borrowed@[d] == old(self).borrowed@[d],
            decreases self.columns@.len() - c,
        {
            self.columns[c].push(None);
            self.borrowed[c].push(false);
            c += 1;
        }
        self.masks.push(0u32);
        self.into_index = Some(n);
        proof {
            assert forall|c: int, e: int| 0 <= c < self.keys@.len() && 0 <= e < self.masks@.len() implies
                (has_bit(self.masks@[e], c) <==> #[trigger] self.columns@[c]@[e] is Some) by {
                if e == n { lemma_zero_has_no_bit(c as u32); }
                else { assert(self.columns@[c]@[e] == old(self).columns@[c]@[e]); }
            }
            assert forall|c: int, e: int| 0 <= c < self.keys@.len() && 0 <= e < self.masks@.len()
                && #[trigger] self.borrowed@[c]@[e] implies self.columns@[c]@[e] is Some by {
                assert(self.columns@[c]@[e] == old(self).columns@[c]@[e]);
                assert(self.borrowed@[c]@[e] == old(self).borrowed@[c]@[e]);
            }
            assert forall|c: int, e: int| self.keys@.len() <= c < MASK_BITS && 0 <= e < self.masks@.len() implies
                !#[trigger] has_bit(self.masks@[e], c) by {
                if e == n { lemma_zero_has_no_bit(c as u32); }
            }
            assert forall|c: int| 0 <= c < self.keys@.len() implies #[trigger] self.columns@[c]@.len() == self.masks@.len() by {
                assert(self.columns@[c]@ == old(self).columns@[c]@.push(None));
            }
            assert forall|c: int| 0 <= c < self.keys@.len() implies #[trigger] self.borrowed@[c]@.len() == self.masks@.len() by {
                assert(self.borrowed@[c]@ == old(self).borrowed@[c]@.push(false));
            }
            assert forall|c: int| 0 <= c < old(self).keys().len() implies !#[trigger] self.is_borrowed(c, n as int) by {
                assert(self.borrowed@[c]@ == old(self).borrowed@[c]@.push(false));
            }
        }
        n
    }

    /// Puts `value` into the column of `key` for the entity that the builder
    /// fills, replacing any value there, and sets the matching mask bit.
    pub fn with_component(&mut self, key: u64, value: V) -> (r: Result<(), CustomErrors>)
        requires
            old(self).wf(),
        ensures
            final(self).wf(),
            final(self).keys() == old(self).keys(),
            final(self).builder() == old(self).builder(),
            old(self).builder() is None ==> r == Err::<(), CustomErrors>(CustomErrors::CreateEntityNeverCalled),
            old(self).builder() is Some && !old(self).is_registered(key) ==>
                r == Err::<(), CustomErrors>(CustomErrors::ComponentNotRegistered),
            old(self).builder() is Some && old(self).is_registered(key)
                && old(self).is_borrowed(old(self).column_of(key), old(self).builder()->0 as int) ==>
                r == Err::<(), CustomErrors>(CustomErrors::BorrowConflict),
            r is Err ==> *final(self) == *old(self),
            r is Ok <==> old(self).builder() is Some && old(self).is_registered(key)
                && !old(self).is_borrowed(old(self).column_of(key), old(self).builder()->0 as int),
            r is Ok ==> ({
                let i = old(self).builder()->0 as int;
                let c = old(self).column_of(key);
                &&& final(self).masks() == old(self).masks().update(i, old(self).masks()[i] | bit(c))
                &&& final(self).cell(c, i) == Some(value)
                &&& forall|d: int, e: int| 0 <= d < old(self).keys().len() && 0 <= e < old(self).num_entities()
                        && (d != c || e != i) ==> final(self).cell(d, e) == old(self).cell(d, e)
                &&& forall|d: int, e: int| 0 <= d < old(self).keys().len() && 0 <= e < old(self).num_entities() ==>
                        final(self).is_borrowed(d, e) == old(self).is_borrowed(d, e)
            }),
    {
        let i = match self.into_index {
            Some(i) => i,
            None => { return Err(CustomErrors::CreateEntityNeverCalled); },
        };
        let c = match self.find_column(key) {
            Some(c) => c,
            None => { return Err(CustomErrors::ComponentNotRegistered); },
        };
        if self.borrowed[c][i] {
            return Err(CustomErrors::BorrowConflict);
        }
        let m = self.masks[i] | (1u32 << (c as u32));
        self.masks.set(i, m);
        self.columns[c].set(i, Some(value));
        proof {
            assert forall|d: int, e: int| 0 <= d < self.keys@.len() && 0 <= e < self.masks@.len() implies
                (has_bit(self.masks@[e], d) <==> #[trigger] self.columns@[d]@[e] is Some) by {
                if e == i { lemma_set_bit(old(self).masks@[e], c as u32, d as u32); }
                assert(has_bit(old(self).masks@[e], d) <==> old(self).columns@[d]@[e] is Some);
            }
            assert forall|d: int, e: int| self.keys@.len() <= d < MASK_BITS && 0 <= e < self.masks@.len() implies
                !#[trigger] has_bit(self.masks@[e], d) by {
                if e == i { lemma_set_bit(old(self).masks@[e], c as u32, d as u32); }
                assert(!has_bit(old(self).masks@[e], d));
            }
            assert forall|d: int| 0 <= d < self.keys@.len() implies #[trigger] self.columns@[d]@.len() == self.masks@.len() by {
                assert(old(self).columns@[d]@.len() == old(self).masks@.len());
            }
            assert forall|d: int, e: int| 0 <= d < self.keys@.len() && 0 <= e < self.masks@.len()
                && #[trigger] self.borrowed@[d]@[e] implies self.columns@[d]@[e] is Some by {
                assert(old(self).borrowed@[d]@[e] ==> old(self).columns@[d]@[e] is Some);
            }
        }
        Ok(())
    }

    /// The error that reading or borrowing the `key` component of entity
    /// `index` reports, or `None` when the access succeeds.
    pub open spec fn access_error(&self, key: u64, index: usize) -> Option<CustomErrors> {
        if !self.is_registered(key) {
            Some(CustomErrors::ComponentNotRegistered)
        } else if index >= self.num_entities() {
            Some(CustomErrors::EntityDoesNotExist)
        } else if self.cell(self.column_of(key), index as int) is None {
            Some(CustomErrors::ComponentDataDoesNotExist)
        } else if self.is_borrowed(self.column_of(key), index as int) {
            Some(CustomErrors::BorrowConflict)
        } else {
            None
        }
    }

    /// The error that using an exclusive borrow token reports, or `None` when
    /// the token's cell is currently borrowed.
    pub open spec fn token_error(&self, token: ComponentMut) -> Option<CustomErrors> {
        if !self.is_registered(token.key_spec()) {
            Some(CustomErrors::ComponentNotRegistered)
        } else if token.index_spec() >= self.num_entities() {
            Some(CustomErrors::EntityDoesNotExist)
        } else if !self.is_borrowed(self.column_of(token.key_spec()), token.index_spec() as int) {
            Some(CustomErrors::BorrowConflict)
        } else {
            None
        }
    }

    /// Everything but the cells and borrow flags stays as it was.
    pub open spec fn same_shape(&self, other: &Self) -> bool {
        &&& self.keys() == other.keys()
        &&& self.masks() == other.masks()
        &&& self.builder() == other.builder()
    }

    /// All cells and borrow flags other than the one at `(c, i)` stay as they were.
    pub open spec fn same_except(&self, other: &Self, c: int, i: int) -> bool {
        &&& forall|d: int, e: int| 0 <= d < other.keys().len() && 0 <= e < other.num_entities()
                && (d != c || e != i) ==> #[trigger] self.cell(d, e) == other.cell(d, e)
                && self.is_borrowed(d, e) == other.is_borrowed(d, e)
    }

    fn check_access(&self, key: u64, index: usize) -> (r: Result<usize, CustomErrors>)
        requires
            self.wf(),
        ensures
            match self.access_error(key, index) {
                Some(err) => r == Err::<usize, CustomErrors>(err),
                None => r == Ok::<usize, CustomErrors>(self.column_of(key) as usize),
            },
            r is Ok ==> r->Ok_0 < self.keys().len() && index < self.num_entities(),
    {
        let c = match self.find_column(key) {
            Some(c) => c,
            None => { return Err(CustomErrors::ComponentNotRegistered); },
        };
        if index >= self.masks.len() {
            return Err(CustomErrors::EntityDoesNotExist);
        }
        if self.columns[c][index].is_none() {
            return Err(CustomErrors::ComponentDataDoesNotExist);
        }
        if self.borrowed[c][index] {
            return Err(CustomErrors::BorrowConflict);
        }
        Ok(c)
    }

    fn check_token(&self, token: &ComponentMut) -> (r: Result<usize, CustomErrors>)
        requires
            self.wf(),
        ensures
            match self.token_error(*token) {
                Some(err) => r == Err::<usize, CustomErrors>(err),
                None => r == Ok::<usize, CustomErrors>(self.column_of(token.key_spec()) as usize),
            },
            r is Ok ==> r->Ok_0 < self.keys().len() && token.index_spec() < self.num_entities()
                && self.cell(r->Ok_0 as int, token.index_spec() as int) is Some,
    {
        let c = match self.find_column(token.key) {
            Some(c) => c,
            None => { return Err(CustomErrors::ComponentNotRegistered); },
        };
        if token.index >= self.masks.len() {
            return Err(CustomErrors::EntityDoesNotExist);
        }
        if !self.borrowed[c][token.index] {
            return Err(CustomErrors::BorrowConflict);
        }
        Ok(c)
    }

    /// A copy of the `key` component of entity `index`.
    pub fn get_component(&self, key: u64, index: usize) -> (r: Result<V, CustomErrors>)
        requires
            self.wf(),
        ensures
            match self.access_error(key, index) {
                Some(err) => r == Err::<V, CustomErrors>(err),
                None => r == Ok::<V, CustomErrors>(self.cell(self.column_of(key), index as int)->0),
            },
    {
        let c = self.check_access(key, index)?;
        match self.columns[c][index] {
            Some(v) => Ok(v),
            None => Err(CustomErrors::ComponentDataDoesNotExist),
        }
    }

    /// Borrows the `key` component of entity `index` exclusively. Until the
    /// token is released, every other read or borrow of that cell fails.
    pub fn get_component_mut(&mut self, key: u64, index: usize) -> (r: Result<ComponentMut, CustomErrors>)
        requires
            old(self).wf(),
        ensures
            final(self).wf(),
            final(self).same_shape(old(self)),
            match old(self).access_error(key, index) {
                Some(err) => r == Err::<ComponentMut, CustomErrors>(err) && *final(self) == *old(self),
                None => r is Ok && r->Ok_0.key_spec() == key && r->Ok_0.index_spec() == index
                    && final(self).is_borrowed(old(self).column_of(key), index as int)
                    && final(self).cell(old(self).column_of(key), index as int)
                        == old(self).cell(old(self).column_of(key), index as int)
                    && final(self).same_except(old(self), old(self).column_of(key), index as int),
            },
    {
        let c = self.check_access(key, index)?;
        self.borrowed[c].set(index, true);
        Ok(ComponentMut { key, index })
    }

    /// The current value of a cell borrowed through `token`.
    pub fn read_borrowed(&self, token: &ComponentMut) -> (r: Result<V, CustomErrors>)
        requires
            self.wf(),
        ensures
            match self.token_error(*token) {
                Some(err) => r == Err::<V, CustomErrors>(err),
                None => r == Ok::<V, CustomErrors>(
                    self.cell(self.column_of(token.key_spec()), token.index_spec() as int)->0),
            },
    {
        let c = self.check_token(token)?;
        match self.columns[c][token.index] {
            Some(v) => Ok(v),
            None => Err(CustomErrors::ComponentDataDoesNotExist),
        }
    }

    /// Replaces the value of a cell borrowed through `token`.
    pub fn write_borrowed(&mut self, token: &ComponentMut, value: V) -> (r: Result<(), CustomErrors>)
        requires
            old(self).wf(),
        ensures
            final(self).wf(),
            final(self).same_shape(old(self)),
            match old(self).token_error(*token) {
                Some(err) => r == Err::<(), CustomErrors>(err) && *final(self) == *old(self),
                None => r is Ok
                    && final(self).cell(old(self).column_of(token.key_spec()), token.index_spec() as int) == Some(value)
                    && final(self).is_borrowed(old(self).column_of(token.key_spec()), token.index_spec() as int)
                    && final(self).same_except(old(self), old(self).column_of(token.key_spec()), token.index_spec() as int),
            },
    {
        let c = self.check_token(token)?;
        self.columns[c].set(token.index, Some(value));
        Ok(())
    }

    /// Ends the exclusive borrow that `token` stands for.
    pub fn release_component(&mut self, token: ComponentMut) -> (r: Result<(), CustomErrors>)
        requires
            old(self).wf(),
        ensures
            final(self).wf(),
            final(self).same_shape(old(self)),
            match old(self).token_error(token) {
                Some(err) => r == Err::<(), CustomErrors>(err) && *final(self) == *old(self),
                None => r is Ok
                    && !final(self).is_borrowed(old(self).column_of(token.key_spec()), token.index_spec() as int)
                    && final(self).cell(old(self).column_of(token.key_spec()), token.index_spec() as int)
                        == old(self).cell(old(self).column_of(token.key_spec()), token.index_spec() as int)
                    && final(self).same_except(old(self), old(self).column_of(token.key_spec()), token.index_spec() as int),
            },
    {
        let c = self.check_token(&token)?;
        self.borrowed[c].set(token.index, false);
        Ok(())
    }

    /// Clears entity `index`: its mask becomes zero and every column cell of
    /// it becomes empty. The slot stays allocated, so other indexes keep their
    /// meaning. Fails while any cell of the entity is exclusively borrowed.
    pub fn delete_entity(&mut self, index: usize) -> (r: Result<(), CustomErrors>)
        requires
            old(self).wf(),
        ensures
            final(self).wf(),
            final(self).keys() == old(self).keys(),
            final(self).builder() == old(self).builder(),
            index >= old(self).num_entities() ==> r == Err::<(), CustomErrors>(CustomErrors::EntityDoesNotExist),
            index < old(self).num_entities() && (exists|c: int| 0 <= c < old(self).keys().len()
                && #[trigger] old(self).is_borrowed(c, index as int)) ==> r == Err::<(), CustomErrors>(CustomErrors::BorrowConflict),
            r is Ok <==> (index < old(self).num_entities() && forall|c: int| 0 <= c < old(self).keys().len()
                ==> !#[trigger] old(self).is_borrowed(c, index as int)),
            r is Err ==> *final(self) == *old(self),
            r is Ok ==> {
                &&& final(self).masks() == old(self).masks().update(index as int, 0u32)
                &&& forall|c: int| 0 <= c < old(self).keys().len() ==> (#[trigger] final(self).cell(c, index as int)) is None
                &&& forall|c: int, e: int| 0 <= c < old(self).keys().len() && 0 <= e < old(self).num_entities() && e != index
                        ==> #[trigger] final(self).cell(c, e) == old(self).cell(c, e)
                &&& forall|c: int, e: int| 0 <= c < old(self).keys().len() && 0 <= e < old(self).num_entities()
                        ==> #[trigger] final(self).is_borrowed(c, e) == old(self).is_borrowed(c, e)
            },
    {
        if index >= self.masks.len() {
            return Err(CustomErrors::EntityDoesNotExist);
        }
        let mut c: usize = 0;
        while c < self.borrowed.len()
            invariant
                self.wf(),
                index < self.masks@.len(),
                0 <= c <= self.borrowed@.len(),
                forall|d: int| 0 <= d < c ==> !#[trigger] self.borrowed@[d]@[index as int],
            decreases self.borrowed@.len() - c,
        {
            if self.borrowed[c][index] {
                assert(self.is_borrowed(c as int, index as int));
                return Err(CustomErrors::BorrowConflict);
            }
            c += 1;
        }
        let mut c: usize = 0;
        while c < self.columns.len()
            invariant
                old(self).wf(),
                index < old(self).masks@.len(),
                forall|d: int| 0 <= d < old(self).keys@.len() ==> !#[trigger] old(self).borrowed@[d]@[index as int],
                self.keys@ == old(self).keys@,
                self.masks@ == old(self).masks@,
                self.borrowed@ == old(self).borrowed@,
                self.into_index == old(self).into_index,
                self.columns@.len() == old(self).columns@.len(),
                0 <= c <= self.columns@.len(),
                forall|d: int| 0 <= d < c ==> #[trigger] self.columns@[d]@ == old(self).columns@[d]@.update(index as int, None),
                forall|d: int| c <= d < self.columns@.len() ==> #[trigger] self.columns@[d] == old(self).columns@[d],
            decreases self.columns@.len() - c,
        {
            self.columns[c].set(index, None);
            c += 1;
        }
        self.masks.set(index, 0u32);
        proof {
            assert forall|d: int, e: int| 0 <= d < self.keys@.len() && 0 <= e < self.masks@.len() implies
                (has_bit(self.masks@[e], d) <==> #[trigger] self.columns@[d]@[e] is Some) by {
                assert(self.columns@[d]@ == old(self).columns@[d]@.update(index as int, None));
                if e == index { lemma_zero_has_no_bit(d as u32); }
                else { assert(has_bit(old(self).masks@[e], d) <==> old(self).columns@[d]@[e] is Some); }
            }
            assert forall|d: int, e: int| self.keys@.len() <= d < MASK_BITS && 0 <= e < self.masks@.len() implies
                !#[trigger] has_bit(self.masks@[e], d) by {
                if e == index { lemma_zero_has_no_bit(d as u32); }
                else { assert(!has_bit(old(self).masks@[e], d)); }
            }
            assert forall|d: int| 0 <= d < self.keys@.len() implies #[trigger] self.columns@[d]@.len() == self.masks@.len() by {
                assert(self.columns@[d]@ == old(self).columns@[d]@.update(index as int, None));
            }
            assert forall|d: int, e: int| 0 <= d < self.keys@.len() && 0 <= e < self.masks@.len()
                && #[trigger] self.borrowed@[d]@[e] implies self.columns@[d]@[e] is Some by {
                assert(self.columns@[d]@ == old(self).columns@[d]@.update(index as int, None));
                assert(old(self).borrowed@[d]@[e] ==> old(self).columns@[d]@[e] is Some);
            }
            assert forall|d: int| 0 <= d < old(self).keys().len() implies (#[trigger] self.cell(d, index as int)) is None by {
                assert(self.columns@[d]@ == old(self).columns@[d]@.update(index as int, None));
            }
            assert forall|d: int, e: int| 0 <= d < old(self).keys().len() && 0 <= e < old(self).num_entities() && e != index
                implies #[trigger] self.cell(d, e) == old(self).cell(d, e) by {
                assert(self.columns@[d]@ == old(self).columns@[d]@.update(index as int, None));
            }
        }
        Ok(())
    }

    /// The membership mask of entity `index`.
    pub fn mask(&self, index: usize) -> (r: u32)
        requires
            self.wf(),
            index < self.num_entities(),
        ensures
            r == self.masks()[index as int],
    {
        self.masks[index]
    }

    /// Whether the cell at registry position `c` for entity `e` is exclusively borrowed.
    pub fn cell_borrowed(&self, c: usize, e: usize) -> (r: bool)
        requires
            self.wf(),
            c < self.keys().len(),
            e < self.num_entities(),
        ensures
            r == self.is_borrowed(c as int, e as int),
    {
        self.borrowed[c][e]
    }

    /// The raw content of the cell at registry position `c` for entity `e`,
    /// whether or not it is borrowed.
    pub fn cell_value(&self, c: usize, e: usize) -> (r: Option<V>)
        requires
            self.wf(),
            c < self.keys().len(),
            e < self.num_entities(),
        ensures
            r == self.cell(c as int, e as int),
    {
        self.columns[c][e]
    }

    /// The mask bit of `key`, or `None` if it was never registered.
    pub fn get_bitmask(&self, key: u64) -> (r: Option<u32>)
        requires
            self.wf(),
        ensures
            match r {
                Some(b) => self.is_registered(key) && b == self.bit_of(key),
                None => !self.is_registered(key),
            },
    {
        match self.find_column(key) {
            Some(c) => Some(1u32 << (c as u32)),
            None => None,
        }
    }
}

impl<V: Copy> Default for Entities<V> {
    /// An empty table.
    fn default() -> (r: Self)
        ensures
            r.wf(),
            r.keys() == Seq::<u64>::empty(),
            r.masks() == Seq::<u32>::empty(),
            r.builder() is None,
    {
        Self::new()
    }
}

} // verus!
