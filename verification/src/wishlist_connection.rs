//! A page of wishlists together with windowing facts.

use vstd::prelude::*;
use crate::wishlist::Wishlist;

verus! {

/// Object that carries the total count of items in a query, regardless of
/// pagination.
#[derive(Debug)]
pub struct AdditionalFields {
    /// How many records match the filter, ignoring the window.
    pub total_count: u64,
}

/// A connection of wishlists.
#[derive(Debug)]
pub struct WishlistConnection {
    /// The resulting entities, in sort order.
    pub nodes: Vec<Wishlist>,
    /// Whether this connection has a previous page.
    pub has_previous_page: bool,
    /// Whether this connection has a next page.
    pub has_next_page: bool,
    /// The total amount of items in this connection.
    pub additional_fields: AdditionalFields,
}

} // verus!
