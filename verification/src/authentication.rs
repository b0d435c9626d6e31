//! The boundary contract for authorization checks.
//!
//! The surrounding API layer extracts the authorized-user header; the rule
//! itself — who may operate on whose data — is decided here.

use vstd::prelude::*;
use crate::ids::Uuid;

verus! {

/// Role of a user.
#[derive(Debug, Clone, Copy, PartialEq, Eq, Structural)]
pub enum Role {
    /// A customer; may only operate on their own data.
    Buyer,
    /// An administrator; may operate on anyone's data.
    Admin,
    /// An employee; may operate on anyone's data.
    Employee,
}

impl Role {
    /// Defines if a user of this role may operate regardless of ownership.
    pub fn is_permissive(self) -> (r: bool)
        ensures
            r == (self != Role::Buyer),
    {
        match self {
            Role::Buyer => false,
            Role::Admin => true,
            Role::Employee => true,
        }
    }
}

/// Authorized-User header contents.
#[derive(Debug)]
pub struct AuthorizedUserHeader {
    /// UUID of the calling user.
    pub id: Uuid,
    /// Roles of the calling user.
    pub roles: Vec<Role>,
}

/// Whether some role in the list is permissive.
pub open spec fn any_permissive(roles: Seq<Role>) -> bool {
    exists|i: int| 0 <= i < roles.len() && roles[i] != Role::Buyer
}

/// Whether the calling user may operate on the data of the user of `id`:
/// either some role of the caller is permissive, or the caller is that very
/// user.
pub fn check_permissions(authorized_user_header: &AuthorizedUserHeader, id: Uuid) -> (r: bool)
    ensures
        r == (any_permissive(authorized_user_header.roles@) || authorized_user_header.id == id),
{
    let mut i: usize = 0;
    while i < authorized_user_header.roles.len()
        invariant
            i <= authorized_user_header.roles@.len(),
            forall|j: int| 0 <= j < i ==> authorized_user_header.roles@[j] == Role::Buyer,
        decreases authorized_user_header.roles@.len() - i,
    {
        if authorized_user_header.roles[i].is_permissive() {
            return true;
        }
        i = i + 1;
    }
    authorized_user_header.id == id
}

} // verus!
