//! A page of product variants together with windowing facts.

use vstd::prelude::*;
use crate::foreign_types::ProductVariant;

verus! {

/// A connection of product variants.
#[derive(Debug)]
pub struct ProductVariantConnection {
    /// The resulting entities.
    pub nodes: Vec<ProductVariant>,
    /// Whether this connection has a next page.
    pub has_next_page: bool,
    /// The total amount of items in this connection.
    pub total_count: u64,
}

} // verus!
