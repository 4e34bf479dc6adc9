//! The clocks at the heart of a replicated editor: every operation that a peer
//! makes is stamped by them, and they decide which operations a peer has seen
//! and in what order operations apply.

pub mod error;
pub mod replica;
pub mod serialization;
pub mod time;

pub use crate::error::Error;
pub use crate::replica::ReplicaId;

use vstd::prelude::*;

verus! {

/// The name of an object in the base commit.
pub type Oid = [u8; 20];

/// The id of a selection set: the stamp of the operation that made it.
pub type SelectionSetId = time::Lamport;

/// The id that a replica gives to a selection set of its own.
pub type LocalSelectionSetId = usize;

} // verus!
