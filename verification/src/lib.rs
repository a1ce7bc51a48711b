//! Consistency core for a shared, passphrase-protected DJ media library.
//!
//! The store itself (an encrypted SQLite file reached over a connection
//! pool) is an external collaborator; this crate holds the rules that the
//! mutations must obey: collision-free identifier allocation, atomic
//! change-sequence allocation, idempotent tag assignment and removal, and
//! ordered playlist membership.  The `Library` type models the slice of
//! the store that those rules read and write, and every operation on it
//! carries a proved contract.

use vstd::prelude::*;

pub mod allocator;
pub mod ext;
pub mod laws;
pub mod library;
pub mod model;
pub mod strings;

pub use library::Content;
pub use library::Library;
pub use library::Tag;

verus! {

/// The failures that the consistency core itself can produce.  Failures of
/// the storage engine (connection, authentication, I/O) belong to the store
/// adapter, not to this crate.
#[derive(Debug, Clone, Copy, PartialEq, Eq, Structural)]
pub enum Error {
    /// A lookup matched zero rows.
    NotFound,
    /// The identifier allocator exceeded its retry bound.
    AllocationExhausted,
}

} // verus!
