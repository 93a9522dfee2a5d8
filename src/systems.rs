use vstd::prelude::*;
use crate::custom_errors::CustomErrors;
use crate::resource::Resource;

verus! {

/// What one system declares it uses: component type keys and resource type keys.
pub struct SystemDecl {
    components: Vec<u64>,
    resources: Vec<u64>,
}

fn contains_key(keys: &Vec<u64>, key: u64) -> (r: bool)
    ensures
        r == keys@.contains(key),
{
    let mut i: usize = 0;
    while i < keys.len()
        invariant
            0 <= i <= keys@.len(),
            forall|j: int| 0 <= j < i ==> keys@[j] != key,
        decreases keys@.len() - i,
    {
        if keys[i] == key {
            return true;
        }
        i += 1;
    }
    false
}

impl SystemDecl {
    /// The declared component type keys, in the order first declared.
    pub closed spec fn components(&self) -> Seq<u64> {
        self.components@
    }

    /// The declared resource type keys, in the order first declared.
    pub closed spec fn resources(&self) -> Seq<u64> {
        self.resources@
    }

    /// A declaration of nothing.
    pub fn new() -> (r: Self)
        ensures
            r.components() == Seq::<u64>::empty(),
            r.resources() == Seq::<u64>::empty(),
    {
        SystemDecl { components: Vec::new(), resources: Vec::new() }
    }

    /// Declares component type `key`; declaring it again changes nothing.
    pub fn declare_component(&mut self, key: u64)
        ensures
            final(self).resources() == old(self).resources(),
            old(self).components().contains(key) ==> final(self).components() == old(self).components(),
            !old(self).components().contains(key) ==> final(self).components() == old(self).components().push(key),
    {
        if !contains_key(&self.components, key) {
            self.components.push(key);
        }
    }

    /// Declares resource type `key`; declaring it again changes nothing.
    pub fn declare_resource(&mut self, key: u64)
        ensures
            final(self).components() == old(self).components(),
            old(self).resources().contains(key) ==> final(self).resources() == old(self).resources(),
            !old(self).resources().contains(key) ==> final(self).resources() == old(self).resources().push(key),
    {
        if !contains_key(&self.resources, key) {
            self.resources.push(key);
        }
    }

    /// Whether component type `key` is declared.
    pub fn declares_component(&self, key: u64) -> (r: bool)
        ensures
            r == self.components().contains(key),
    {
        contains_key(&self.components, key)
    }

    /// Whether resource type `key` is declared.
    pub fn declares_resource(&self, key: u64) -> (r: bool)
        ensures
            r == self.resources().contains(key),
    {
        contains_key(&self.resources, key)
    }
}

/// The system registry: for each system name, what it declares it uses.
pub struct Systems {
    store: Resource<SystemDecl>,
}

impl Systems {
    pub closed spec fn wf(&self) -> bool {
        self.store.wf()
    }

    /// The declarations by system name.
    pub closed spec fn view(&self) -> Map<u64, SystemDecl> {
        self.store@
    }

    /// A registry with no systems.
    pub fn new() -> (r: Self)
        ensures
            r.wf(),
            r@ == Map::<u64, SystemDecl>::empty(),
    {
        Systems { store: Resource::new() }
    }

    /// Registers system `name` with an empty declaration. Creating a system
    /// that already exists resets its declaration to empty.
    pub fn create_system(&mut self, name: u64)
        requires
            old(self).wf(),
        ensures
            final(self).wf(),
            final(self)@.dom() == old(self)@.dom().insert(name),
            final(self)@[name].components() == Seq::<u64>::empty(),
            final(self)@[name].resources() == Seq::<u64>::empty(),
            forall|n: u64| n != name && old(self)@.dom().contains(n) ==> #[trigger] final(self)@[n] == old(self)@[n],
    {
        self.store.add(name, SystemDecl::new());
    }

    /// Declares that system `name` uses component type `key`.
    pub fn with_component_in_system(&mut self, name: u64, key: u64) -> (r: Result<(), CustomErrors>)
        requires
            old(self).wf(),
        ensures
            final(self).wf(),
            !old(self)@.dom().contains(name) ==> r == Err::<(), CustomErrors>(CustomErrors::CreateSystemNeverCalled)
                && final(self)@ == old(self)@,
            old(self)@.dom().contains(name) ==> r is Ok
                && final(self)@.dom() == old(self)@.dom()
                && (old(self)@[name].components().contains(key) ==>
                    final(self)@[name].components() == old(self)@[name].components())
                && (!old(self)@[name].components().contains(key) ==>
                    final(self)@[name].components() == old(self)@[name].components().push(key))
                && final(self)@[name].resources() == old(self)@[name].resources()
                && forall|n: u64| n != name && old(self)@.dom().contains(n) ==> #[trigger] final(self)@[n] == old(self)@[n],
    {
        match self.store.get_mut(name) {
            Some(decl) => {
                decl.declare_component(key);
                proof {
                    assert(self@.dom() =~= old(self)@.dom());
                }
                Ok(())
            },
            None => Err(CustomErrors::CreateSystemNeverCalled),
        }
    }

    /// Declares that system `name` uses resource type `key`.
    pub fn with_resource_in_system(&mut self, name: u64, key: u64) -> (r: Result<(), CustomErrors>)
        requires
            old(self).wf(),
        ensures
            final(self).wf(),
            !old(self)@.dom().contains(name) ==> r == Err::<(), CustomErrors>(CustomErrors::CreateSystemNeverCalled)
                && final(self)@ == old(self)@,
            old(self)@.dom().contains(name) ==> r is Ok
                && final(self)@.dom() == old(self)@.dom()
                && (old(self)@[name].resources().contains(key) ==>
                    final(self)@[name].resources() == old(self)@[name].resources())
                && (!old(self)@[name].resources().contains(key) ==>
                    final(self)@[name].resources() == old(self)@[name].resources().push(key))
                && final(self)@[name].components() == old(self)@[name].components()
                && forall|n: u64| n != name && old(self)@.dom().contains(n) ==> #[trigger] final(self)@[n] == old(self)@[n],
    {
        match self.store.get_mut(name) {
            Some(decl) => {
                decl.declare_resource(key);
                proof {
                    assert(self@.dom() =~= old(self)@.dom());
                }
                Ok(())
            },
            None => Err(CustomErrors::CreateSystemNeverCalled),
        }
    }

    /// Checks that system `name` declares component type `key`.
    pub fn get_component_in_system(&self, name: u64, key: u64) -> (r: Result<(), CustomErrors>)
        requires
            self.wf(),
        ensures
            !self@.dom().contains(name) ==> r == Err::<(), CustomErrors>(CustomErrors::SystemDoesNotExist),
            self@.dom().contains(name) && !self@[name].components().contains(key) ==>
                r == Err::<(), CustomErrors>(CustomErrors::ComponentInSystemDoesNotExist),
            r is Ok <==> self@.dom().contains(name) && self@[name].components().contains(key),
    {
        match self.store.get_ref(name) {
            Some(decl) => {
                if decl.declares_component(key) { Ok(()) } else { Err(CustomErrors::ComponentInSystemDoesNotExist) }
            },
            None => Err(CustomErrors::SystemDoesNotExist),
        }
    }

    /// Checks that system `name` declares resource type `key`.
    pub fn get_resource_in_system(&self, name: u64, key: u64) -> (r: Result<(), CustomErrors>)
        requires
            self.wf(),
        ensures
            !self@.dom().contains(name) ==> r == Err::<(), CustomErrors>(CustomErrors::SystemDoesNotExist),
            self@.dom().contains(name) && !self@[name].resources().contains(key) ==>
                r == Err::<(), CustomErrors>(CustomErrors::ResourceInSystemDoesNotExist),
            r is Ok <==> self@.dom().contains(name) && self@[name].resources().contains(key),
    {
        match self.store.get_ref(name) {
            Some(decl) => {
                if decl.declares_resource(key) { Ok(()) } else { Err(CustomErrors::ResourceInSystemDoesNotExist) }
            },
            None => Err(CustomErrors::SystemDoesNotExist),
        }
    }
}

} // verus!
