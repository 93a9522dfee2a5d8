use vstd::prelude::*;
use crate::bits::{bit, covers, has_bit, lemma_covers_union, lemma_covers_zero};
use crate::custom_errors::CustomErrors;
use crate::entities::{ComponentMut, Entities};

verus! {

/// The mask that a query built from the keys `ids`, in order, holds.
pub open spec fn query_mask<V: Copy>(entities: &Entities<V>, ids: Seq<u64>) -> u32
    decreases ids.len(),
{
    if ids.len() == 0 {
        0u32
    } else {
        query_mask(entities, ids.drop_last()) | entities.bit_of(ids.last())
    }
}

/// The indexes below `n` whose mask covers `q`, in ascending order.
pub open spec fn matching(masks: Seq<u32>, q: u32, n: nat) -> Seq<usize>
    decreases n,
{
    if n == 0 {
        Seq::empty()
    } else if covers(masks[n - 1], q) {
        matching(masks, q, (n - 1) as nat).push((n - 1) as usize)
    } else {
        matching(masks, q, (n - 1) as nat)
    }
}

/// Whether a value that a run of a query built from `ids` would return, at
/// the matching indexes `idxs`, is exclusively borrowed.
pub open spec fn run_conflicts<V: Copy>(entities: &Entities<V>, ids: Seq<u64>, idxs: Seq<usize>) -> bool {
    exists|k: int, j: int| 0 <= k < ids.len() && 0 <= j < idxs.len()
        && #[trigger] entities.is_borrowed(entities.column_of(ids[k]), idxs[j] as int)
}

/// A mask covers a query mask exactly when it has the bit of every key the
/// query was built from.
pub proof fn lemma_covers_query_mask<V: Copy>(entities: &Entities<V>, ids: Seq<u64>, m: u32)
    ensures
        covers(m, query_mask(entities, ids)) <==> forall|k: int| 0 <= k < ids.len() ==>
            #[trigger] has_bit(m, entities.column_of(ids[k])),
    decreases ids.len(),
{
    if ids.len() == 0 {
        lemma_covers_zero(m);
    } else {
        let init = ids.drop_last();
        lemma_covers_query_mask(entities, init, m);
        lemma_covers_union(m, query_mask(entities, init), entities.bit_of(ids.last()));
        if covers(m, query_mask(entities, ids)) {
            assert forall|k: int| 0 <= k < ids.len() implies #[trigger] has_bit(m, entities.column_of(ids[k])) by {
                if k < ids.len() - 1 {
                    assert(init[k] == ids[k]);
                }
            }
        }
        if forall|k: int| 0 <= k < ids.len() ==> #[trigger] has_bit(m, entities.column_of(ids[k])) {
            assert forall|k: int| 0 <= k < init.len() implies #[trigger] has_bit(m, entities.column_of(init[k])) by {
                assert(init[k] == ids[k]);
                assert(has_bit(m, entities.column_of(ids[k])));
            }
            assert(has_bit(m, entities.column_of(ids[ids.len() - 1])));
        }
    }
}

/// What `matching` holds: exactly the covering indexes below `n`, each once, ascending.
pub proof fn lemma_matching(masks: Seq<u32>, q: u32, n: nat)
    requires
        n <= masks.len(),
        n <= usize::MAX,
    ensures
        forall|j: int| 0 <= j < matching(masks, q, n).len() ==>
            (#[trigger] matching(masks, q, n)[j]) < n && covers(masks[matching(masks, q, n)[j] as int], q),
        forall|i: int, j: int| 0 <= i < j < matching(masks, q, n).len() ==>
            matching(masks, q, n)[i] < matching(masks, q, n)[j],
        forall|e: int| 0 <= e < n ==> (covers(masks[e], q) <==> matching(masks, q, n).contains(e as usize)),
    decreases n,
{
    if n > 0 {
        let n1 = (n - 1) as nat;
        lemma_matching(masks, q, n1);
        let prev = matching(masks, q, n1);
        let cur = matching(masks, q, n);
        if covers(masks[n - 1], q) {
            assert(cur == prev.push((n - 1) as usize));
            assert forall|i: int, j: int| 0 <= i < j < cur.len() implies cur[i] < cur[j] by {
                if j == cur.len() - 1 {
                    assert(prev[i] < n1);
                } else {
                    assert(prev[i] < prev[j]);
                }
            }
            assert forall|j: int| 0 <= j < cur.len() implies
                (#[trigger] cur[j]) < n && covers(masks[cur[j] as int], q) by {
                if j < prev.len() { assert(cur[j] == prev[j]); }
            }
        }
        assert forall|e: int| 0 <= e < n implies (covers(masks[e], q) <==> matching(masks, q, n).contains(e as usize)) by {
            if covers(masks[e], q) {
                if e < n1 {
                    let j = choose|j: int| 0 <= j < prev.len() && prev[j] == e as usize;
                    if covers(masks[n - 1], q) {
                        assert(matching(masks, q, n)[j] == e as usize);
                    }
                } else {
                    assert(matching(masks, q, n).last() == e as usize);
                }
            }
            if matching(masks, q, n).contains(e as usize) {
                let j = choose|j: int| 0 <= j < matching(masks, q, n).len() && matching(masks, q, n)[j] == e as usize;
                if j < prev.len() {
                    assert(prev[j] == e as usize);
                }
            }
        }
    }
}

/// An entity is among a query's matches exactly when it owns every component
/// type the query was built from; other components it owns do not matter.
pub proof fn lemma_query_conjunction<V: Copy>(entities: &Entities<V>, query: &Query, e: int)
    requires
        entities.wf(),
        query.wf_for(entities),
        0 <= e < entities.num_entities(),
    ensures
        matching(entities.masks(), query.map_spec(), entities.num_entities() as nat).contains(e as usize)
            <==> forall|k: int| 0 <= k < query.type_ids_spec().len() ==>
                #[trigger] entities.owns(e, query.type_ids_spec()[k]),
{
    entities.lemma_wf();
    lemma_matching(entities.masks(), query.map_spec(), entities.num_entities() as nat);
    let ids = query.type_ids_spec();
    let m = entities.masks()[e];
    lemma_covers_query_mask(entities, ids, m);
    assert forall|k: int| 0 <= k < ids.len() implies
        (#[trigger] has_bit(m, entities.column_of(ids[k])) <==> entities.owns(e, ids[k])) by {
        entities.lemma_mask_matches_cells(e, ids[k]);
    }
    if forall|k: int| 0 <= k < ids.len() ==> #[trigger] entities.owns(e, ids[k]) {
        assert forall|k: int| 0 <= k < ids.len() implies #[trigger] has_bit(m, entities.column_of(ids[k])) by {
            assert(entities.owns(e, ids[k]));
        }
    }
}

/// Two runs of one query on one unchanged table give the same indexes, and
/// they ascend.
pub proof fn lemma_run_deterministic<V: Copy>(
    entities: &Entities<V>,
    query: &Query,
    first: Seq<usize>,
    second: Seq<usize>,
)
    requires
        entities.wf(),
        first == matching(entities.masks(), query.map_spec(), entities.num_entities() as nat),
        second == matching(entities.masks(), query.map_spec(), entities.num_entities() as nat),
    ensures
        first == second,
        forall|i: int, j: int| 0 <= i < j < first.len() ==> first[i] < first[j],
{
    entities.lemma_wf();
    lemma_matching(entities.masks(), query.map_spec(), entities.num_entities() as nat);
}

/// A query built from no component type matches every entity.
pub proof fn lemma_empty_query_matches_all<V: Copy>(entities: &Entities<V>)
    requires
        entities.wf(),
    ensures
        matching(entities.masks(), 0u32, entities.num_entities() as nat).len() == entities.num_entities(),
        forall|j: int| 0 <= j < entities.num_entities() ==>
            #[trigger] matching(entities.masks(), 0u32, entities.num_entities() as nat)[j] == j,
{
    entities.lemma_wf();
    lemma_matching_all(entities.masks(), entities.num_entities() as nat);
}

proof fn lemma_matching_all(masks: Seq<u32>, n: nat)
    requires
        n <= masks.len(),
        n <= usize::MAX,
    ensures
        matching(masks, 0u32, n).len() == n,
        forall|j: int| 0 <= j < n ==> #[trigger] matching(masks, 0u32, n)[j] == j,
    decreases n,
{
    if n > 0 {
        let n1 = (n - 1) as nat;
        lemma_matching_all(masks, n1);
        lemma_covers_zero(masks[n - 1]);
        assert(matching(masks, 0u32, n) == matching(masks, 0u32, n1).push(n1 as usize));
        assert forall|j: int| 0 <= j < n implies #[trigger] matching(masks, 0u32, n)[j] == j by {
            if j < n1 { assert(matching(masks, 0u32, n)[j] == matching(masks, 0u32, n1)[j]); }
        }
    }
}

/// A filter over the entity table: an entity matches when it owns every
/// component type the query was built from.
pub struct Query {
    /// The union of the mask bits of the requested types.
    map: u32,
    /// The requested component type keys, in the order they were added.
    type_ids: Vec<u64>,
}

impl Query {
    pub closed spec fn map_spec(&self) -> u32 {
        self.map
    }

    pub closed spec fn type_ids_spec(&self) -> Seq<u64> {
        self.type_ids@
    }

    /// Every requested key is registered in `entities` and the mask is the
    /// union of their bits.
    pub open spec fn wf_for<V: Copy>(&self, entities: &Entities<V>) -> bool {
        &&& forall|k: int| 0 <= k < self.type_ids_spec().len() ==> entities.is_registered(#[trigger] self.type_ids_spec()[k])
        &&& self.map_spec() == query_mask(entities, self.type_ids_spec())
    }

    /// A query that requests no component type, and so matches every entity.
    pub fn new() -> (r: Self)
        ensures
            r.map_spec() == 0,
            r.type_ids_spec() == Seq::<u64>::empty(),
    {
        Query { map: 0, type_ids: Vec::new() }
    }

    /// The query's mask.
    pub fn map(&self) -> (r: u32)
        ensures
            r == self.map_spec(),
    {
        self.map
    }

    /// The requested component type keys, in the order they were added.
    pub fn type_ids(&self) -> (r: &Vec<u64>)
        ensures
            r@ == self.type_ids_spec(),
    {
        &self.type_ids
    }

    /// Adds component type `type_id` to the query: its bit joins the mask and
    /// the key is appended to the requested keys.
    pub fn with_component_by_type_id<V: Copy>(&mut self, entities: &Entities<V>, type_id: u64) -> (r: Result<(), CustomErrors>)
        requires
            entities.wf(),
        ensures
            entities.is_registered(type_id) ==> r is Ok
                && final(self).map_spec() == old(self).map_spec() | entities.bit_of(type_id)
                && final(self).type_ids_spec() == old(self).type_ids_spec().push(type_id),
            !entities.is_registered(type_id) ==> r == Err::<(), CustomErrors>(CustomErrors::ComponentNotRegistered)
                && *final(self) == *old(self),
            old(self).wf_for(entities) ==> final(self).wf_for(entities),
    {
        match entities.get_bitmask(type_id) {
            Some(bit_mask) => {
                self.map = self.map | bit_mask;
                self.type_ids.push(type_id);
                proof {
                    let ids = self.type_ids@;
                    assert(ids.drop_last() == old(self).type_ids@);
                    if old(self).wf_for(entities) {
                        assert forall|k: int| 0 <= k < ids.len() implies entities.is_registered(#[trigger] ids[k]) by {
                            if k < ids.len() - 1 { assert(ids[k] == old(self).type_ids@[k]); }
                        }
                    }
                }
                Ok(())
            },
            None => Err(CustomErrors::ComponentNotRegistered),
        }
    }

    /// Adds component type `type_id` to the query; the same as
    /// [`Query::with_component_by_type_id`].
    pub fn with_component<V: Copy>(&mut self, entities: &Entities<V>, type_id: u64) -> (r: Result<(), CustomErrors>)
        requires
            entities.wf(),
        ensures
            entities.is_registered(type_id) ==> r is Ok
                && final(self).map_spec() == old(self).map_spec() | entities.bit_of(type_id)
                && final(self).type_ids_spec() == old(self).type_ids_spec().push(type_id),
            !entities.is_registered(type_id) ==> r == Err::<(), CustomErrors>(CustomErrors::ComponentNotRegistered)
                && *final(self) == *old(self),
            old(self).wf_for(entities) ==> final(self).wf_for(entities),
    {
        self.with_component_by_type_id(entities, type_id)
    }

    /// The indexes of the matching entities, ascending.
    fn matching_indexes<V: Copy>(&self, entities: &Entities<V>) -> (r: Vec<usize>)
        requires
            entities.wf(),
        ensures
            r@ == matching(entities.masks(), self.map_spec(), entities.num_entities() as nat),
    {
        let n = entities.len();
        let mut indexes: Vec<usize> = Vec::new();
        let mut e: usize = 0;
        while e < n
            invariant
                entities.wf(),
                n == entities.num_entities(),
                0 <= e <= n,
                indexes@ == matching(entities.masks(), self.map, e as nat),
            decreases n - e,
        {
            let entity_map = entities.mask(e);
            if entity_map & self.map == self.map {
                indexes.push(e);
            }
            e += 1;
        }
        indexes
    }

    /// Runs the query. Returns the indexes of the entities that own every
    /// requested type, ascending, and for each requested type, in the order
    /// it was added, the values of that type at those indexes. Fails with
    /// `BorrowConflict` when one of those values is exclusively borrowed.
    pub fn run<V: Copy>(&self, entities: &Entities<V>) -> (r: Result<(Vec<usize>, Vec<Vec<V>>), CustomErrors>)
        requires
            entities.wf(),
            self.wf_for(entities),
        ensures
            r is Err <==> run_conflicts(entities, self.type_ids_spec(),
                matching(entities.masks(), self.map_spec(), entities.num_entities() as nat)),
            r is Err ==> r == Err::<(Vec<usize>, Vec<Vec<V>>), CustomErrors>(CustomErrors::BorrowConflict),
            r is Ok ==> ({
                let (indexes, columns) = r->Ok_0;
                &&& indexes@ == matching(entities.masks(), self.map_spec(), entities.num_entities() as nat)
                &&& columns@.len() == self.type_ids_spec().len()
                &&& forall|k: int| 0 <= k < columns@.len() ==> (#[trigger] columns@[k])@.len() == indexes@.len()
                &&& forall|k: int, j: int| 0 <= k < columns@.len() && 0 <= j < indexes@.len() ==>
                        Some(#[trigger] columns@[k]@[j]) == entities.cell(entities.column_of(self.type_ids_spec()[k]), indexes@[j] as int)
            }),
    {
        let indexes = self.matching_indexes(entities);
        proof {
            entities.lemma_wf();
            lemma_matching(entities.masks(), self.map, entities.num_entities() as nat);
        }
        let mut result: Vec<Vec<V>> = Vec::new();
        let mut k: usize = 0;
        while k < self.type_ids.len()
            invariant
                entities.wf(),
                self.wf_for(entities),
                indexes@ == matching(entities.masks(), self.map, entities.num_entities() as nat),
                0 <= k <= self.type_ids@.len(),
                result@.len() == k,
                forall|i: int| 0 <= i < k ==> (#[trigger] result@[i])@.len() == indexes@.len(),
                forall|i: int, j: int| 0 <= i < k && 0 <= j < indexes@.len() ==>
                    Some(#[trigger] result@[i]@[j]) == entities.cell(entities.column_of(self.type_ids@[i]), indexes@[j] as int),
                forall|i: int, j: int| 0 <= i < k && 0 <= j < indexes@.len() ==>
                    !#[trigger] entities.is_borrowed(entities.column_of(self.type_ids@[i]), indexes@[j] as int),
            decreases self.type_ids@.len() - k,
        {
            let type_id = self.type_ids[k];
            assert(entities.is_registered(self.type_ids@[k as int]));
            let c = match entities.find_column(type_id) {
                Some(c) => c,
                None => { return Ok((indexes, result)); },
            };
            let mut components_to_keep: Vec<V> = Vec::new();
            let mut j: usize = 0;
            while j < indexes.len()
                invariant
                    entities.wf(),
                    self.wf_for(entities),
                    indexes@ == matching(entities.masks(), self.map, entities.num_entities() as nat),
                    0 <= k < self.type_ids@.len(),
                    type_id == self.type_ids@[k as int],
                    c == entities.column_of(type_id),
                    c < entities.keys().len(),
                    0 <= j <= indexes@.len(),
                    components_to_keep@.len() == j,
                    forall|i: int| 0 <= i < j ==>
                        Some(#[trigger] components_to_keep@[i]) == entities.cell(c as int, indexes@[i] as int),
                    forall|i: int| 0 <= i < j ==> !#[trigger] entities.is_borrowed(c as int, indexes@[i] as int),
                decreases indexes@.len() - j,
            {
                let index = indexes[j];
                proof {
                    entities.lemma_wf();
                    lemma_matching(entities.masks(), self.map, entities.num_entities() as nat);
                    lemma_covers_query_mask(entities, self.type_ids@, entities.masks()[index as int]);
                    assert(has_bit(entities.masks()[index as int], entities.column_of(self.type_ids@[k as int])));
                }
                if entities.cell_borrowed(c, index) {
                    assert(entities.is_borrowed(entities.column_of(self.type_ids@[k as int]), indexes@[j as int] as int));
                    return Err(CustomErrors::BorrowConflict);
                }
                match entities.cell_value(c, index) {
                    Some(v) => { components_to_keep.push(v); },
                    None => { return Ok((indexes, result)); },
                }
                j += 1;
            }
            result.push(components_to_keep);
            k += 1;
        }
        Ok((indexes, result))
    }

    /// Runs the query and returns one handle per matching entity, by ascending index.
    pub fn run_entity<V: Copy>(&self, entities: &Entities<V>) -> (r: Vec<QueryEntity>)
        requires
            entities.wf(),
        ensures
            r@.len() == matching(entities.masks(), self.map_spec(), entities.num_entities() as nat).len(),
            forall|j: int| 0 <= j < r@.len() ==>
                (#[trigger] r@[j]).id == matching(entities.masks(), self.map_spec(), entities.num_entities() as nat)[j],
    {
        let indexes = self.matching_indexes(entities);
        let mut handles: Vec<QueryEntity> = Vec::new();
        let mut j: usize = 0;
        while j < indexes.len()
            invariant
                0 <= j <= indexes@.len(),
                handles@.len() == j,
                forall|i: int| 0 <= i < j ==> (#[trigger] handles@[i]).id == indexes@[i],
            decreases indexes@.len() - j,
        {
            handles.push(QueryEntity::new(indexes[j]));
            j += 1;
        }
        handles
    }
}

/// A handle to one entity that a query matched.
pub struct QueryEntity {
    /// The entity's index in the table.
    pub id: usize,
}

impl QueryEntity {
    /// A handle to entity `id`.
    pub fn new(id: usize) -> (r: Self)
        ensures
            r.id == id,
    {
        QueryEntity { id }
    }

    /// A copy of this entity's component of type `key`.
    pub fn get_component<V: Copy>(&self, entities: &Entities<V>, key: u64) -> (r: Result<V, CustomErrors>)
        requires
            entities.wf(),
        ensures
            match entities.access_error(key, self.id) {
                Some(err) => r == Err::<V, CustomErrors>(err),
                None => r == Ok::<V, CustomErrors>(entities.cell(entities.column_of(key), self.id as int)->0),
            },
    {
        entities.get_component(key, self.id)
    }

    /// Borrows this entity's component of type `key` exclusively.
    pub fn get_component_mut<V: Copy>(&self, entities: &mut Entities<V>, key: u64) -> (r: Result<ComponentMut, CustomErrors>)
        requires
            old(entities).wf(),
        ensures
            final(entities).wf(),
            final(entities).same_shape(old(entities)),
            match old(entities).access_error(key, self.id) {
                Some(err) => r == Err::<ComponentMut, CustomErrors>(err) && *final(entities) == *old(entities),
                None => r is Ok && r->Ok_0.key_spec() == key && r->Ok_0.index_spec() == self.id
                    && final(entities).is_borrowed(old(entities).column_of(key), self.id as int)
                    && final(entities).cell(old(entities).column_of(key), self.id as int)
                        == old(entities).cell(old(entities).column_of(key), self.id as int)
                    && final(entities).same_except(old(entities), old(entities).column_of(key), self.id as int),
            },
    {
        entities.get_component_mut(key, self.id)
    }
}

} // verus!
