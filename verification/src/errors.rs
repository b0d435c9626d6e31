//! The error taxonomy of the service core.

use vstd::prelude::*;
use crate::ids::Uuid;

verus! {

/// A failure surfaced to the caller; the core never retries on its own.
#[derive(Debug)]
pub enum Error {
    /// An aggregate or reference lookup missed.
    NotFound,
    /// An id field was missing or was not a valid UUID string.
    MalformedInput,
    /// Ids that a mutation referenced but no reference store holds; the list
    /// is complete, so a caller can report every offending id at once.
    MissingReferences(Vec<Uuid>),
    /// An event topic that no handler is registered for.
    UnknownTopic,
    /// The underlying store failed transiently; state is unchanged.
    StoreUnavailable,
}

} // verus!
