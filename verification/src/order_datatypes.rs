//! Sort specifications for queries: which field, and in which direction.

use vstd::prelude::*;

verus! {

/// Order direction of a query.
#[derive(Debug, Clone, Copy, PartialEq, Eq, Structural)]
pub enum OrderDirection {
    /// Ascending order direction.
    Asc,
    /// Descending order direction.
    Desc,
}

impl Default for OrderDirection {
    /// Ascending unless a caller says otherwise, so pagination is
    /// deterministic and repeatable with no explicit sort.
    fn default() -> (r: Self)
        ensures
            r == OrderDirection::Asc,
    {
        OrderDirection::Asc
    }
}

impl OrderDirection {
    /// The integer form document stores use for sort directions.
    pub fn as_i32(&self) -> (r: i32)
        ensures
            r == match self {
                OrderDirection::Asc => 1i32,
                OrderDirection::Desc => -1i32,
            },
    {
        match self {
            OrderDirection::Asc => 1,
            OrderDirection::Desc => -1,
        }
    }
}

/// Describes the fields that a wishlist can be ordered by.
#[derive(Debug, Clone, Copy, PartialEq, Eq, Structural)]
pub enum WishlistOrderField {
    /// Orders by "id".
    Id,
    /// Orders by "user_id".
    UserId,
    /// Orders by "name".
    Name,
    /// Orders by "created_at".
    CreatedAt,
    /// Orders by "last_updated_at".
    LastUpdatedAt,
}

impl WishlistOrderField {
    /// The storage-side field path of this sort field.
    pub fn as_str(&self) -> (r: &'static str)
        ensures
            r@ == match self {
                WishlistOrderField::Id => "_id"@,
                WishlistOrderField::UserId => "user._id"@,
                WishlistOrderField::Name => "name"@,
                WishlistOrderField::CreatedAt => "created_at"@,
                WishlistOrderField::LastUpdatedAt => "last_updated_at"@,
            },
    {
        match self {
            WishlistOrderField::Id => "_id",
            WishlistOrderField::UserId => "user._id",
            WishlistOrderField::Name => "name",
            WishlistOrderField::CreatedAt => "created_at",
            WishlistOrderField::LastUpdatedAt => "last_updated_at",
        }
    }
}

impl Default for WishlistOrderField {
    /// Primary identity is the default sort field.
    fn default() -> (r: Self)
        ensures
            r == WishlistOrderField::Id,
    {
        WishlistOrderField::Id
    }
}

/// Specifies the order of wishlists.
#[derive(Debug, Clone, Copy, PartialEq, Eq, Structural)]
pub struct WishlistOrderInput {
    /// Order direction of wishlists.
    pub direction: Option<OrderDirection>,
    /// Field that wishlists should be ordered by.
    pub field: Option<WishlistOrderField>,
}

impl Default for WishlistOrderInput {
    fn default() -> (r: Self)
        ensures
            r.direction == Some(OrderDirection::Asc),
            r.field == Some(WishlistOrderField::Id),
    {
        WishlistOrderInput {
            direction: Some(OrderDirection::Asc),
            field: Some(WishlistOrderField::Id),
        }
    }
}

/// Describes the fields that foreign types can be ordered by.
///
/// Only the id is valid at the moment.
#[derive(Debug, Clone, Copy, PartialEq, Eq, Structural)]
pub enum CommonOrderField {
    /// Orders by "id".
    Id,
}

impl CommonOrderField {
    /// The storage-side field path of this sort field.
    pub fn as_str(&self) -> (r: &'static str)
        ensures
            r@ == "_id"@,
    {
        match self {
            CommonOrderField::Id => "_id",
        }
    }
}

impl Default for CommonOrderField {
    fn default() -> (r: Self)
        ensures
            r == CommonOrderField::Id,
    {
        CommonOrderField::Id
    }
}

/// Specifies the order of foreign types.
#[derive(Debug, Clone, Copy, PartialEq, Eq, Structural)]
pub struct CommonOrderInput {
    /// Order direction.
    pub direction: Option<OrderDirection>,
    /// Field that entities should be ordered by.
    pub field: Option<CommonOrderField>,
}

impl Default for CommonOrderInput {
    fn default() -> (r: Self)
        ensures
            r.direction == Some(OrderDirection::Asc),
            r.field == Some(CommonOrderField::Id),
    {
        CommonOrderInput { direction: Some(OrderDirection::Asc), field: Some(CommonOrderField::Id) }
    }
}

/// The field a `WishlistOrderInput` resolves to, the id by default.
pub open spec fn wishlist_field_of(order_by: Option<WishlistOrderInput>) -> WishlistOrderField {
    match order_by {
        None => WishlistOrderField::Id,
        Some(o) => match o.field {
            None => WishlistOrderField::Id,
            Some(f) => f,
        },
    }
}

/// The direction a `WishlistOrderInput` resolves to, ascending by default.
pub open spec fn wishlist_direction_of(order_by: Option<WishlistOrderInput>) -> OrderDirection {
    match order_by {
        None => OrderDirection::Asc,
        Some(o) => match o.direction {
            None => OrderDirection::Asc,
            Some(d) => d,
        },
    }
}

/// The direction a `CommonOrderInput` resolves to, ascending by default.
pub open spec fn common_direction_of(order_by: Option<CommonOrderInput>) -> OrderDirection {
    match order_by {
        None => OrderDirection::Asc,
        Some(o) => match o.direction {
            None => OrderDirection::Asc,
            Some(d) => d,
        },
    }
}

} // verus!
