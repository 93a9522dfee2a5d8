use vstd::prelude::*;

verus! {

/// Errors that the storage, query and system operations report.
#[derive(Debug, Clone, Copy, PartialEq, Eq, Structural)]
pub enum CustomErrors {
    /// A component was added through the builder before any entity was created.
    CreateEntityNeverCalled,
    /// A component type key was used that was never registered.
    ComponentNotRegistered,
    /// An entity index lies outside the entity table.
    EntityDoesNotExist,
    /// The cell of an entity for a component type holds no value.
    ComponentDataDoesNotExist,
    /// A stored value does not have the type that was asked for.
    DowncastToWrongType,
    /// A dependency was added to a system that was never created.
    CreateSystemNeverCalled,
    /// A system name is unknown.
    SystemDoesNotExist,
    /// A system does not declare the component type that was looked up.
    ComponentInSystemDoesNotExist,
    /// A system does not declare the resource type that was looked up.
    ResourceInSystemDoesNotExist,
    /// Every bit of the membership mask is already assigned to a component type.
    RegistryFull,
    /// A component cell is already exclusively borrowed.
    BorrowConflict,
}

impl CustomErrors {
    /// The description of each error kind.
    pub open spec fn message_spec(&self) -> &'static str {
        match self {
            CustomErrors::CreateEntityNeverCalled => "Attempting to add component to an entity without calling create entity first",
            CustomErrors::ComponentNotRegistered => "Attempting to reference a component that wasn't registered",
            CustomErrors::EntityDoesNotExist => "Attempting to reference an entity that doesn't exist",
            CustomErrors::ComponentDataDoesNotExist => "Attempting to get component's data that doesn't exist",
            CustomErrors::DowncastToWrongType => "Attempting to downcast to the wrong type",
            CustomErrors::CreateSystemNeverCalled => "Attempting to add a component to a system without calling the system creation function first",
            CustomErrors::SystemDoesNotExist => "Attempting to reference a system that doesn't exist",
            CustomErrors::ComponentInSystemDoesNotExist => "Attempting to reference a component inside a system that doesn't exist",
            CustomErrors::ResourceInSystemDoesNotExist => "Attempting to reference a resource inside a system that doesn't exist",
            CustomErrors::RegistryFull => "Attempting to register more component types than the mask has bits",
            CustomErrors::BorrowConflict => "Attempting to borrow a component that is already mutably borrowed",
        }
    }

    /// A human-readable description of the error.
    pub fn message(&self) -> (r: &'static str)
        ensures
            r == self.message_spec(),
    {
        match self {
            CustomErrors::CreateEntityNeverCalled => "Attempting to add component to an entity without calling create entity first",
            CustomErrors::ComponentNotRegistered => "Attempting to reference a component that wasn't registered",
            CustomErrors::EntityDoesNotExist => "Attempting to reference an entity that doesn't exist",
            CustomErrors::ComponentDataDoesNotExist => "Attempting to get component's data that doesn't exist",
            CustomErrors::DowncastToWrongType => "Attempting to downcast to the wrong type",
            CustomErrors::CreateSystemNeverCalled => "Attempting to add a component to a system without calling the system creation function first",
            CustomErrors::SystemDoesNotExist => "Attempting to reference a system that doesn't exist",
            CustomErrors::ComponentInSystemDoesNotExist => "Attempting to reference a component inside a system that doesn't exist",
            CustomErrors::ResourceInSystemDoesNotExist => "Attempting to reference a resource inside a system that doesn't exist",
            CustomErrors::RegistryFull => "Attempting to register more component types than the mask has bits",
            CustomErrors::BorrowConflict => "Attempting to borrow a component that is already mutably borrowed",
        }
    }
}

} // verus!
