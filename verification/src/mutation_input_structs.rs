//! The inputs of the wishlist mutations.

use vstd::prelude::*;
use crate::ids::Uuid;

verus! {

/// Input of the mutation that adds a wishlist.
#[derive(Debug)]
pub struct AddWishlistInput {
    /// UUID of the user owning the wishlist.
    pub user_id: Uuid,
    /// UUIDs of the product variants in the wishlist; repeats are dropped.
    pub product_variant_ids: Vec<Uuid>,
    /// Wishlist name.
    pub name: String,
}

/// Input of the mutation that partially updates a wishlist; an absent field
/// means "leave unchanged", not "clear".
#[derive(Debug)]
pub struct UpdateWishlistInput {
    /// UUID of the wishlist to update.
    pub id: Uuid,
    /// Product variant UUIDs of the wishlist to update.
    pub product_variant_ids: Option<Vec<Uuid>>,
    /// Wishlist name to update.
    pub name: Option<String>,
}

} // verus!
