//! The wishlists a user owns, read out as a paginated connection.

use vstd::prelude::*;
use crate::foreign_types::User;
use crate::order_datatypes::{common_direction_of, CommonOrderInput, WishlistOrderField};
use crate::pagination::{
    filtered_views, paginate, skip64_of, sorted_page, window_high, window_low,
};
use crate::wishlist::views_of;
use crate::wishlist_connection::WishlistConnection;
use crate::wishlist_store::WishlistStore;

verus! {

impl User {
    /// Retrieves this user's wishlists: sorted by id, windowed by
    /// `skip`/`first`, with the total over everything the user owns.
    pub fn wishlists(
        &self,
        store: &WishlistStore,
        first: Option<u32>,
        skip: Option<u64>,
        order_by: Option<CommonOrderInput>,
    ) -> (r: WishlistConnection)
        ensures
            ({
                let base = sorted_page(
                    store@,
                    Some(self._id),
                    WishlistOrderField::Id,
                    common_direction_of(order_by),
                );
                let lo = window_low(skip64_of(skip), base.len() as int);
                let hi = window_high(skip64_of(skip), first, base.len() as int);
                &&& views_of(r.nodes@) == base.subrange(lo, hi)
                &&& r.additional_fields.total_count == filtered_views(
                    store@,
                    Some(self._id),
                ).len()
                &&& r.has_next_page == (base.len() > skip64_of(skip) + r.nodes@.len())
                &&& r.has_previous_page == (skip64_of(skip) > 0)
            }),
    {
        let dir = match &order_by {
            None => crate::order_datatypes::OrderDirection::Asc,
            Some(o) => match o.direction {
                None => crate::order_datatypes::OrderDirection::Asc,
                Some(d) => d,
            },
        };
        let skip_count: u64 = match skip {
            None => 0,
            Some(s) => s,
        };
        paginate(store, Some(self._id), WishlistOrderField::Id, dir, skip_count, first)
    }
}

} // verus!
