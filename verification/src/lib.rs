//! Core of a wishlist service: foreign-entity reference stubs materialized
//! from domain events, wishlist aggregates validated against those stubs,
//! and windowed pagination with consistent totals.

pub mod authentication;
pub mod books;
pub mod errors;
pub mod foreign_types;
pub mod http_event_service;
pub mod ids;
pub mod mutation;
pub mod mutation_input_structs;
pub mod order_datatypes;
pub mod pagination;
pub mod query;
pub mod product_variant_connection;
pub mod reference_store;
pub mod user;
pub mod validator;
pub mod wishlist;
pub mod wishlist_connection;
pub mod wishlist_store;

use vstd::prelude::*;

verus! {

} // verus!
