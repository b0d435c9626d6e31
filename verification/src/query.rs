//! The wishlist queries.

use vstd::prelude::*;
use crate::errors::Error;
use crate::foreign_types::User;
use crate::ids::Uuid;
use crate::order_datatypes::{
    wishlist_direction_of, wishlist_field_of, WishlistOrderInput,
};
use crate::pagination::{paginate, skip64_of, sorted_page, window_high, window_low};
use crate::reference_store::{EntityKind, ReferenceStore};
use crate::wishlist::{views_of, Wishlist};
use crate::wishlist_store::{find_index, has_wishlist, WishlistStore};

verus! {

/// Describes wishlist queries.
pub struct Query;

impl Query {
    /// Retrieves the user stub of an id; `NotFound` until its event arrived.
    pub fn user(&self, refs: &ReferenceStore, id: Uuid) -> (r: Result<User, Error>)
        ensures
            match r {
                Ok(u) => refs.has(EntityKind::User, id) && u._id == id,
                Err(Error::NotFound) => !refs.has(EntityKind::User, id),
                Err(_) => false,
            },
    {
        query_user(refs, id)
    }

    /// Retrieves the wishlist of an id.
    pub fn wishlist(&self, store: &WishlistStore, id: Uuid) -> (r: Result<Wishlist, Error>)
        ensures
            match r {
                Ok(w) => has_wishlist(store@, id) && w@ == store@[find_index(store@, id)],
                Err(Error::NotFound) => !has_wishlist(store@, id),
                Err(_) => false,
            },
    {
        query_wishlist(store, id)
    }

    /// Entity resolver for the wishlist of a key.
    pub fn wishlist_entity_resolver(&self, store: &WishlistStore, id: Uuid) -> (r: Result<
        Wishlist,
        Error,
    >)
        ensures
            match r {
                Ok(w) => has_wishlist(store@, id) && w@ == store@[find_index(store@, id)],
                Err(Error::NotFound) => !has_wishlist(store@, id),
                Err(_) => false,
            },
    {
        query_wishlist(store, id)
    }

    /// Retrieves all wishlists, sorted, after `skip`, at most `first` of them.
    pub fn wishlists(
        &self,
        store: &WishlistStore,
        first: Option<u32>,
        skip: Option<u64>,
        order_by: Option<WishlistOrderInput>,
    ) -> (r: Vec<Wishlist>)
        ensures
            ({
                let base = sorted_page(
                    store@,
                    None,
                    wishlist_field_of(order_by),
                    wishlist_direction_of(order_by),
                );
                views_of(r@) == base.subrange(
                    window_low(skip64_of(skip), base.len() as int),
                    window_high(skip64_of(skip), first, base.len() as int),
                )
            }),
    {
        let field = match &order_by {
            None => crate::order_datatypes::WishlistOrderField::Id,
            Some(o) => match o.field {
                None => crate::order_datatypes::WishlistOrderField::Id,
                Some(f) => f,
            },
        };
        let dir = match &order_by {
            None => crate::order_datatypes::OrderDirection::Asc,
            Some(o) => match o.direction {
                None => crate::order_datatypes::OrderDirection::Asc,
                Some(d) => d,
            },
        };
        let skip_count: u64 = match skip {
            None => 0,
            Some(s) => s,
        };
        let connection = paginate(store, None, field, dir, skip_count, first);
        connection.nodes
    }
}

/// Shared lookup of a wishlist in the aggregate store.
pub fn query_wishlist(store: &WishlistStore, id: Uuid) -> (r: Result<Wishlist, Error>)
    ensures
        match r {
            Ok(w) => has_wishlist(store@, id) && w@ == store@[find_index(store@, id)],
            Err(Error::NotFound) => !has_wishlist(store@, id),
            Err(_) => false,
        },
{
    store.get(id)
}

/// Shared lookup of a user stub in the reference store.
pub fn query_user(refs: &ReferenceStore, id: Uuid) -> (r: Result<User, Error>)
    ensures
        match r {
            Ok(u) => refs.has(EntityKind::User, id) && u._id == id,
            Err(Error::NotFound) => !refs.has(EntityKind::User, id),
            Err(_) => false,
        },
{
    if refs.exists_stub(EntityKind::User, id) {
        Ok(User { _id: id })
    } else {
        Err(Error::NotFound)
    }
}

} // verus!
