use vstd::prelude::*;

// An event store organised as per-entity trails: a constructor that takes
// events in any order, and a finalized, read-only store scanned by cursors.

pub mod cons;
pub mod db;
pub mod dict;
pub mod error;
pub mod laws;
pub mod model;
pub mod order;

pub use cons::Constructor;
pub use db::{Cursor, Db, DbIter, Event, Trail};
pub use error::Error;

verus! {

/// A caller-supplied 16-byte entity identifier.
pub type Uuid = [u8; 16];

/// The time of an event.
pub type Timestamp = u64;

/// The version of a store's format.
pub type Version = u64;

/// A store-assigned dense trail identifier.
pub type TrailId = u64;

/// A field's value code combined with the field's index.
pub type Item = u64;

/// A per-field value code.
pub type Value = u64;

/// A field index; the time field is field zero.
pub type Field = u32;

} // verus!
