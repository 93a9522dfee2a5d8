use vstd::prelude::*;
use crate::entities::Entities;
use crate::resource::Resource;
use crate::systems::Systems;

verus! {

/// The single owner of an entity table with components of type `V`, a
/// resource store with values of type `R`, and a system registry.
pub struct World<V, R> {
    entities: Entities<V>,
    resources: Resource<R>,
    systems: Systems,
}

impl<V: Copy, R> World<V, R> {
    pub closed spec fn wf(&self) -> bool {
        &&& self.entities.wf()
        &&& self.resources.wf()
        &&& self.systems.wf()
    }

    /// The entity table.
    pub closed spec fn entities_spec(&self) -> Entities<V> {
        self.entities
    }

    /// The stored resources by type key.
    pub closed spec fn resources_spec(&self) -> Map<u64, R> {
        self.resources@
    }

    /// The system registry.
    pub closed spec fn systems_spec(&self) -> Systems {
        self.systems
    }

    pub proof fn lemma_wf(&self)
        requires
            self.wf(),
        ensures
            self.entities_spec().wf(),
            self.systems_spec().wf(),
    {
    }

    /// A world with no component types, entities, resources or systems.
    pub fn new() -> (r: Self)
        ensures
            r.wf(),
            r.entities_spec().keys() == Seq::<u64>::empty(),
            r.entities_spec().masks() == Seq::<u32>::empty(),
            r.entities_spec().builder() is None,
            r.resources_spec() == Map::<u64, R>::empty(),
            r.systems_spec()@ == Map::<u64, crate::systems::SystemDecl>::empty(),
    {
        World { entities: Entities::new(), resources: Resource::new(), systems: Systems::new() }
    }

    /// Stores `resource_data` as the resource of type `key`, replacing any earlier one.
    pub fn add_resource(&mut self, key: u64, resource_data: R)
        requires
            old(self).wf(),
        ensures
            final(self).wf(),
            final(self).resources_spec() == old(self).resources_spec().insert(key, resource_data),
            final(self).entities_spec() == old(self).entities_spec(),
            final(self).systems_spec() == old(self).systems_spec(),
    {
        self.resources.add(key, resource_data);
    }

    /// The resource of type `key`, if one is stored.
    pub fn get_resource(&self, key: u64) -> (r: Option<&R>)
        requires
            self.wf(),
        ensures
            match r {
                Some(v) => self.resources_spec().dom().contains(key) && *v == self.resources_spec()[key],
                None => !self.resources_spec().dom().contains(key),
            },
    {
        self.resources.get_ref(key)
    }

    /// A mutable reference to the resource of type `key`, if one is stored.
    pub fn get_resource_mut(&mut self, key: u64) -> (r: Option<&mut R>)
        requires
            old(self).wf(),
        ensures
            final(self).wf(),
            final(self).entities_spec() == old(self).entities_spec(),
            final(self).systems_spec() == old(self).systems_spec(),
            match r {
                Some(v) => old(self).resources_spec().dom().contains(key) && *v == old(self).resources_spec()[key]
                    && final(self).resources_spec() == old(self).resources_spec().insert(key, *final(v)),
                None => !old(self).resources_spec().dom().contains(key)
                    && final(self).resources_spec() == old(self).resources_spec(),
            },
    {
        self.resources.get_mut(key)
    }

    /// Removes the resource of type `key`; nothing happens if there is none.
    pub fn delete_resource(&mut self, key: u64)
        requires
            old(self).wf(),
        ensures
            final(self).wf(),
            final(self).resources_spec() == old(self).resources_spec().remove(key),
            final(self).entities_spec() == old(self).entities_spec(),
            final(self).systems_spec() == old(self).systems_spec(),
    {
        self.resources.remove(key);
    }

    /// The entity table.
    pub fn entities(&self) -> (r: &Entities<V>)
        ensures
            *r == self.entities_spec(),
    {
        &self.entities
    }

    /// The entity table, for changes; its well-formedness must be kept.
    pub fn entities_mut(&mut self) -> (r: &mut Entities<V>)
        requires
            old(self).wf(),
        ensures
            *r == old(self).entities_spec(),
            final(self).entities_spec() == *final(r),
            final(self).resources_spec() == old(self).resources_spec(),
            final(self).systems_spec() == old(self).systems_spec(),
            final(r).wf() ==> final(self).wf(),
    {
        &mut self.entities
    }

    /// The system registry.
    pub fn systems(&self) -> (r: &Systems)
        ensures
            *r == self.systems_spec(),
    {
        &self.systems
    }

    /// The system registry, for changes; its well-formedness must be kept.
    pub fn systems_mut(&mut self) -> (r: &mut Systems)
        requires
            old(self).wf(),
        ensures
            *r == old(self).systems_spec(),
            final(self).systems_spec() == *final(r),
            final(self).resources_spec() == old(self).resources_spec(),
            final(self).entities_spec() == old(self).entities_spec(),
            final(r).wf() ==> final(self).wf(),
    {
        &mut self.systems
    }
}

impl<V: Copy, R> Default for World<V, R> {
    /// An empty world.
    fn default() -> (r: Self)
        ensures
            r.wf(),
            r.entities_spec().keys() == Seq::<u64>::empty(),
            r.entities_spec().masks() == Seq::<u32>::empty(),
            r.entities_spec().builder() is None,
            r.resources_spec() == Map::<u64, R>::empty(),
            r.systems_spec()@ == Map::<u64, crate::systems::SystemDecl>::empty(),
    {
        Self::new()
    }
}

} // verus!
