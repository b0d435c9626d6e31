//! The wishlist mutations: add, update, delete.
//!
//! Each one validates whatever reference set it is about to write before
//! writing, and a failed mutation leaves the store exactly as it was.

use vstd::prelude::*;
use crate::errors::Error;
use crate::ids::{dedup_ids, Uuid};
use crate::mutation_input_structs::{AddWishlistInput, UpdateWishlistInput};
use crate::reference_store::ReferenceStore;
use crate::validator::{missing_product_variants, missing_references};
use crate::wishlist::Wishlist;
use crate::wishlist_store::{
    created_view, find_index, has_wishlist, updated_view, WishlistStore,
};

verus! {

/// Describes wishlist mutations.
pub struct Mutation;

impl Mutation {
    /// Adds a wishlist with a user id, a list of product variant ids and a
    /// name, under a freshly drawn id.
    ///
    /// Owner and references are validated first; on a miss nothing is written
    /// and the complete missing list comes back. The returned wishlist is the
    /// stored record read back, with both timestamps set to `now`. Should the
    /// drawn id collide with a stored one, nothing is written and
    /// `StoreUnavailable` asks the caller to retry.
    pub fn add_wishlist(
        &self,
        refs: &ReferenceStore,
        store: &mut WishlistStore,
        input: AddWishlistInput,
        now: u64,
    ) -> (r: Result<Wishlist, Error>)
        requires
            old(store).wf(),
        ensures
            final(store).wf(),
            ({
                let missing = missing_references(
                    *refs,
                    input.user_id,
                    dedup_ids(input.product_variant_ids@),
                );
                match r {
                    Ok(w) => missing.len() == 0 && !has_wishlist(old(store)@, w@._id) && w@
                        == created_view(
                        w@._id,
                        input.user_id,
                        input.name@,
                        dedup_ids(input.product_variant_ids@),
                        now,
                    ) && final(store)@ == old(store)@.push(w@),
                    Err(Error::MissingReferences(m)) => missing.len() > 0 && m@ == missing
                        && final(store)@ == old(store)@,
                    Err(Error::StoreUnavailable) => missing.len() == 0 && final(store)@ == old(
                        store,
                    )@,
                    Err(_) => false,
                }
            }),
    {
        let id = Uuid::new_v4();
        store.create(refs, id, input.user_id, &input.product_variant_ids, input.name, now)
    }

    /// Updates name and/or product variant ids of the wishlist of an id.
    ///
    /// A present reference set is validated first — on a miss nothing is
    /// written. An absent wishlist is `NotFound`. The returned wishlist is
    /// the stored record after the write.
    pub fn update_wishlist(
        &self,
        refs: &ReferenceStore,
        store: &mut WishlistStore,
        input: UpdateWishlistInput,
        now: u64,
    ) -> (r: Result<Wishlist, Error>)
        requires
            old(store).wf(),
        ensures
            final(store).wf(),
            ({
                let missing = match input.product_variant_ids {
                    Some(pv) => missing_product_variants(*refs, dedup_ids(pv@)),
                    None => Seq::empty(),
                };
                match r {
                    Err(Error::MissingReferences(m)) => missing.len() > 0 && m@ == missing
                        && final(store)@ == old(store)@,
                    Err(Error::NotFound) => missing.len() == 0 && !has_wishlist(
                        old(store)@,
                        input.id,
                    ) && final(store)@ == old(store)@,
                    Ok(w) => missing.len() == 0 && has_wishlist(old(store)@, input.id) && ({
                        let i = find_index(old(store)@, input.id);
                        let updated = updated_view(
                            old(store)@[i],
                            match input.product_variant_ids {
                                Some(pv) => Some(dedup_ids(pv@)),
                                None => None,
                            },
                            match input.name {
                                Some(n) => Some(n@),
                                None => None,
                            },
                            now,
                        );
                        w@ == updated && final(store)@ == old(store)@.update(i, updated)
                    }),
                    Err(_) => false,
                }
            }),
    {
        store.update(refs, input.id, input.product_variant_ids, input.name, now)
    }

    /// Deletes the wishlist of an id; `NotFound` when no such id is stored.
    pub fn delete_wishlist(&self, store: &mut WishlistStore, id: Uuid) -> (r: Result<bool, Error>)
        requires
            old(store).wf(),
        ensures
            final(store).wf(),
            match r {
                Ok(b) => b && has_wishlist(old(store)@, id) && final(store)@ == old(
                    store,
                )@.remove(find_index(old(store)@, id)),
                Err(Error::NotFound) => !has_wishlist(old(store)@, id) && final(store)@ == old(
                    store,
                )@,
                Err(_) => false,
            },
    {
        store.delete(id)
    }
}

} // verus!
