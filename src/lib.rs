//! Entity-component storage and query core: a component registry with
//! bitmask-indexed entities, per-type columns with exclusive-borrow tracking,
//! conjunctive queries, a type-keyed resource store and a system registry.
//!
//! Component, resource and system types are identified by numeric keys that
//! the caller assigns, one per distinct type. Each registered component key
//! owns one bit of a 32-bit membership mask, so at most 32 component types
//! can be registered in one table.

pub mod bits;
pub mod custom_errors;
pub mod entities;
pub mod input;
pub mod query;
pub mod resource;
pub mod systems;
pub mod world;

pub use custom_errors::CustomErrors;
pub use resource::{Resource, ResourceEntry};
pub use entities::{ComponentMut, Entities};
pub use input::{ButtonState, Input, InputEvent};
pub use query::{Query, QueryEntity};
pub use systems::{SystemDecl, Systems};
pub use world::World;
