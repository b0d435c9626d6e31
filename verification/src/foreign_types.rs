//! Stubs of entities owned by other services, replicated locally as
//! existence-only records via domain events.

use vstd::prelude::*;
use crate::ids::Uuid;

verus! {

/// Foreign type of a user.
#[derive(Debug, Clone, Copy, PartialEq, Eq, Structural, Hash)]
pub struct User {
    /// UUID of the user.
    pub _id: Uuid,
}

/// Foreign type of a product variant.
#[derive(Debug, Clone, Copy, PartialEq, Eq, Structural, Hash)]
pub struct ProductVariant {
    /// UUID of the product variant.
    pub _id: Uuid,
}

} // verus!
