//! The store of wishlist aggregates.
//!
//! Every mutation validates whatever reference set it is about to write
//! against the reference stores before writing, and each write is a single
//! atomic replacement of one record, so a failed mutation leaves the store
//! unchanged.

use vstd::prelude::*;
use vstd::pervasive::VecAdditionalExecFns;
use crate::errors::Error;
use crate::foreign_types::{ProductVariant, User};
use crate::ids::{dedup_ids, dedup_ids_exec, lemma_dedup_ids_props, Uuid};
use crate::reference_store::ReferenceStore;
use crate::validator::{
    missing_product_variants, missing_references, validate_product_variant_ids,
    validate_references,
};
use crate::wishlist::{
    lemma_views_of_push, lemma_views_of_remove, lemma_views_of_update, pv_ids_of, views_of,
    Wishlist, WishlistView,
};

verus! {

/// The index of the wishlist with this id, `-1` when there is none.
pub open spec fn find_index(s: Seq<WishlistView>, id: Uuid) -> int
    decreases s.len(),
{
    if s.len() == 0 {
        -1
    } else if s.first()._id == id {
        0
    } else {
        let r = find_index(s.drop_first(), id);
        if r < 0 {
            -1
        } else {
            r + 1
        }
    }
}

/// Whether some wishlist in `s` carries this id.
pub open spec fn has_wishlist(s: Seq<WishlistView>, id: Uuid) -> bool {
    find_index(s, id) >= 0
}

/// The ids of the stored wishlists, in storage order.
pub open spec fn wishlist_ids(s: Seq<WishlistView>) -> Seq<Uuid> {
    s.map_values(|w: WishlistView| w._id)
}

/// What `find_index` finds: the first position carrying the id, if any.
pub proof fn lemma_find_index_props(s: Seq<WishlistView>, id: Uuid)
    ensures
        find_index(s, id) == -1 ==> (forall|i: int|
            0 <= i < s.len() ==> (#[trigger] s[i])._id != id),
        find_index(s, id) >= 0 ==> 0 <= find_index(s, id) < s.len() && s[find_index(s, id)]._id
            == id && (forall|j: int| 0 <= j < find_index(s, id) ==> (#[trigger] s[j])._id != id),
    decreases s.len(),
{
    if s.len() > 0 && s.first()._id != id {
        lemma_find_index_props(s.drop_first(), id);
        let r = find_index(s.drop_first(), id);
        if r < 0 {
            assert forall|i: int| 0 <= i < s.len() implies (#[trigger] s[i])._id != id by {
                if i > 0 {
                    assert(s.drop_first()[i - 1] == s[i]);
                }
            }
        } else {
            assert(s[r + 1] == s.drop_first()[r]);
            assert forall|j: int| 0 <= j < r + 1 implies (#[trigger] s[j])._id != id by {
                if j > 0 {
                    assert(s.drop_first()[j - 1] == s[j]);
                }
            }
        }
    }
}

/// A scan that saw no match up to `i` pins `find_index` down.
pub proof fn lemma_find_index_scan(s: Seq<WishlistView>, id: Uuid, i: int)
    requires
        0 <= i <= s.len(),
        forall|j: int| 0 <= j < i ==> (#[trigger] s[j])._id != id,
    ensures
        i < s.len() && s[i]._id == id ==> find_index(s, id) == i,
        i == s.len() ==> find_index(s, id) == -1,
    decreases i,
{
    if i == 0 {
        if s.len() > 0 && s.first()._id != id {
            lemma_find_index_props(s, id);
        }
    } else {
        assert(s[0]._id != id);
        assert forall|j: int| 0 <= j < i - 1 implies (#[trigger] s.drop_first()[j])._id != id by {
            assert(s.drop_first()[j] == s[j + 1]);
        }
        lemma_find_index_scan(s.drop_first(), id, i - 1);
        if i < s.len() {
            assert(s.drop_first()[i - 1] == s[i]);
        }
    }
}

/// Appending a fresh id puts it at the end, where lookup finds it.
pub proof fn lemma_find_index_push(s: Seq<WishlistView>, w: WishlistView)
    requires
        !has_wishlist(s, w._id),
    ensures
        find_index(s.push(w), w._id) == s.len(),
        has_wishlist(s.push(w), w._id),
        s.push(w)[find_index(s.push(w), w._id)] == w,
{
    lemma_find_index_props(s, w._id);
    assert forall|j: int| 0 <= j < s.len() implies (#[trigger] s.push(w)[j])._id != w._id by {
        assert(s.push(w)[j] == s[j]);
    }
    lemma_find_index_scan(s.push(w), w._id, s.len() as int);
    assert(s.push(w)[s.len() as int] == w);
}

/// Appending a wishlist appends its id.
pub proof fn lemma_wishlist_ids_push(s: Seq<WishlistView>, w: WishlistView)
    ensures
        wishlist_ids(s.push(w)) == wishlist_ids(s).push(w._id),
{
    assert forall|j: int| 0 <= j < s.len() + 1 implies wishlist_ids(s.push(w))[j] == wishlist_ids(
        s,
    ).push(w._id)[j] by {
        if j < s.len() {
            assert(s.push(w)[j] == s[j]);
            assert(wishlist_ids(s)[j] == s[j]._id);
        } else {
            assert(s.push(w)[j] == w);
        }
    }
    assert(wishlist_ids(s.push(w)) =~= wishlist_ids(s).push(w._id));
}

/// Replacing a wishlist by one carrying the same id leaves the ids unchanged.
pub proof fn lemma_wishlist_ids_update_same(s: Seq<WishlistView>, i: int, w: WishlistView)
    requires
        0 <= i < s.len(),
        w._id == s[i]._id,
    ensures
        wishlist_ids(s.update(i, w)) == wishlist_ids(s),
{
    assert forall|j: int| 0 <= j < s.len() implies wishlist_ids(s.update(i, w))[j] == wishlist_ids(
        s,
    )[j] by {
        if j != i {
            assert(s.update(i, w)[j] == s[j]);
        } else {
            assert(s.update(i, w)[j] == w);
        }
    }
    assert(wishlist_ids(s.update(i, w)) =~= wishlist_ids(s));
}

/// Removing a wishlist removes its id, and uniqueness survives.
pub proof fn lemma_wishlist_ids_remove(s: Seq<WishlistView>, i: int)
    requires
        0 <= i < s.len(),
        wishlist_ids(s).no_duplicates(),
    ensures
        wishlist_ids(s.remove(i)) == wishlist_ids(s).remove(i),
        wishlist_ids(s.remove(i)).no_duplicates(),
{
    assert forall|j: int| 0 <= j < s.len() - 1 implies wishlist_ids(s.remove(i))[j]
        == wishlist_ids(s).remove(i)[j] by {
        if j < i {
            assert(s.remove(i)[j] == s[j]);
            assert(wishlist_ids(s)[j] == s[j]._id);
        } else {
            assert(s.remove(i)[j] == s[j + 1]);
            assert(wishlist_ids(s)[j + 1] == s[j + 1]._id);
        }
    }
    assert(wishlist_ids(s.remove(i)) =~= wishlist_ids(s).remove(i));
    let shorter = wishlist_ids(s).remove(i);
    let longer = wishlist_ids(s);
    assert forall|a: int, b: int| 0 <= a < b < shorter.len() implies shorter[a] != shorter[b] by {
        let a2: int = if a < i {
            a
        } else {
            a + 1
        };
        let b2: int = if b < i {
            b
        } else {
            b + 1
        };
        assert(shorter[a] == longer[a2] && shorter[b] == longer[b2]);
    }
}

/// The freshly created value of a wishlist: both timestamps equal `now`.
pub open spec fn created_view(
    id: Uuid,
    user_id: Uuid,
    name: Seq<char>,
    product_variant_ids: Seq<Uuid>,
    now: u64,
) -> WishlistView {
    WishlistView {
        _id: id,
        user_id: user_id,
        name: name,
        created_at: now,
        last_updated_at: now,
        product_variant_ids: product_variant_ids,
    }
}

/// The value of a wishlist after a partial update: each present field is set
/// independently, and `last_updated_at` is refreshed once when any field was,
/// never moving backwards.
pub open spec fn updated_view(
    prev: WishlistView,
    new_product_variant_ids: Option<Seq<Uuid>>,
    new_name: Option<Seq<char>>,
    now: u64,
) -> WishlistView {
    WishlistView {
        _id: prev._id,
        user_id: prev.user_id,
        name: match new_name {
            Some(n) => n,
            None => prev.name,
        },
        created_at: prev.created_at,
        last_updated_at: if new_product_variant_ids is Some || new_name is Some {
            if now > prev.last_updated_at {
                now
            } else {
                prev.last_updated_at
            }
        } else {
            prev.last_updated_at
        },
        product_variant_ids: match new_product_variant_ids {
            Some(p) => p,
            None => prev.product_variant_ids,
        },
    }
}

/// Creating into a store without the id, then looking the id up, finds
/// exactly the created value, whose two timestamps are equal.
pub proof fn lemma_create_then_get(
    s: Seq<WishlistView>,
    id: Uuid,
    user_id: Uuid,
    name: Seq<char>,
    product_variant_ids: Seq<Uuid>,
    now: u64,
)
    requires
        !has_wishlist(s, id),
    ensures
        ({
            let w = created_view(id, user_id, name, product_variant_ids, now);
            let s2 = s.push(w);
            has_wishlist(s2, id) && s2[find_index(s2, id)] == w && w.created_at
                == w.last_updated_at
        }),
{
    let w = created_view(id, user_id, name, product_variant_ids, now);
    lemma_find_index_push(s, w);
}

/// A name-only update leaves the reference set unchanged, keeps `created_at`,
/// and never moves `last_updated_at` backwards.
pub proof fn lemma_name_only_update(prev: WishlistView, n: Seq<char>, now: u64)
    ensures
        updated_view(prev, None, Some(n), now).product_variant_ids == prev.product_variant_ids,
        updated_view(prev, None, Some(n), now).created_at == prev.created_at,
        updated_view(prev, None, Some(n), now).last_updated_at >= prev.last_updated_at,
        updated_view(prev, None, Some(n), now).name == n,
{
}

/// Builds existence stubs for a list of ids, in order.
fn product_variants_of_ids(d: &Vec<Uuid>) -> (r: Vec<ProductVariant>)
    ensures
        pv_ids_of(r@) == d@,
{
    let mut r: Vec<ProductVariant> = Vec::new();
    let mut i: usize = 0;
    proof {
        assert(pv_ids_of(r@) =~= d@.subrange(0, 0));
    }
    while i < d.len()
        invariant
            i <= d@.len(),
            pv_ids_of(r@) == d@.subrange(0, i as int),
        decreases d@.len() - i,
    {
        let ghost prev = r@;
        r.push(ProductVariant { _id: d[i] });
        proof {
            assert(pv_ids_of(prev).len() == prev.len());
            assert(r@ == prev.push(ProductVariant { _id: d@[i as int] }));
            assert forall|j: int| 0 <= j < i + 1 implies pv_ids_of(r@)[j] == d@.subrange(
                0,
                i + 1,
            )[j] by {
                assert(pv_ids_of(r@)[j] == r@[j]._id);
                if j < i as int {
                    assert(r@[j] == prev[j]);
                    assert(pv_ids_of(prev)[j] == prev[j]._id);
                    assert(pv_ids_of(prev)[j] == d@.subrange(0, i as int)[j]);
                }
            }
            assert(pv_ids_of(r@) =~= d@.subrange(0, i + 1));
        }
        i = i + 1;
    }
    proof {
        assert(d@.subrange(0, d@.len() as int) =~= d@);
    }
    r
}

/// The persistent store of wishlist aggregates.
pub struct WishlistStore {
    items: Vec<Wishlist>,
}

impl View for WishlistStore {
    type V = Seq<WishlistView>;

    closed spec fn view(&self) -> Seq<WishlistView> {
        views_of(self.items@)
    }
}

impl WishlistStore {
    /// Every stored wishlist is well formed, and ids are unique.
    pub open spec fn wf(self) -> bool {
        (forall|i: int| 0 <= i < self@.len() ==> (#[trigger] self@[i]).wf()) && wishlist_ids(
            self@,
        ).no_duplicates()
    }

    /// An empty store.
    pub fn new() -> (r: Self)
        ensures
            r.wf(),
            r@ == Seq::<WishlistView>::empty(),
    {
        let r = WishlistStore { items: Vec::new() };
        proof {
            assert(r@ =~= Seq::<WishlistView>::empty());
        }
        r
    }

    /// How many wishlists are stored.
    pub fn len(&self) -> (r: usize)
        ensures
            r == self@.len(),
    {
        proof {
            assert(self@.len() == self.items@.len());
        }
        self.items.len()
    }

    /// The position of the wishlist with this id, if one is stored.
    fn find(&self, id: Uuid) -> (r: Option<usize>)
        ensures
            match r {
                Some(i) => has_wishlist(self@, id) && i == find_index(self@, id) && i
                    < self@.len(),
                None => !has_wishlist(self@, id),
            },
    {
        proof {
            assert(self@.len() == self.items@.len());
        }
        let mut i: usize = 0;
        while i < self.items.len()
            invariant
                i <= self@.len(),
                self@.len() == self.items@.len(),
                forall|j: int| 0 <= j < i ==> (#[trigger] self@[j])._id != id,
            decreases self@.len() - i,
        {
            if self.items[i]._id == id {
                proof {
                    assert(self@[i as int] == self.items@[i as int]@);
                    lemma_find_index_scan(self@, id, i as int);
                }
                return Some(i);
            }
            proof {
                assert(self@[i as int] == self.items@[i as int]@);
            }
            i = i + 1;
        }
        proof {
            lemma_find_index_scan(self@, id, self@.len() as int);
        }
        None
    }

    /// The stored wishlist of this id; `NotFound` when no such id is stored.
    pub fn get(&self, id: Uuid) -> (r: Result<Wishlist, Error>)
        ensures
            match r {
                Ok(w) => has_wishlist(self@, id) && w@ == self@[find_index(self@, id)],
                Err(Error::NotFound) => !has_wishlist(self@, id),
                Err(_) => false,
            },
    {
        proof {
            lemma_find_index_props(self@, id);
            assert(self@.len() == self.items@.len());
        }
        match self.find(id) {
            Some(i) => {
                proof {
                    assert(self@[i as int] == self.items@[i as int]@);
                }
                Ok(self.items[i].duplicate())
            },
            None => Err(Error::NotFound),
        }
    }

    /// Creates a wishlist under a caller-supplied fresh id.
    ///
    /// The referenced ids are deduplicated, then owner and references are
    /// validated; on any miss nothing is written and the complete missing
    /// list comes back. A collision on `id` is surfaced as `StoreUnavailable`
    /// with nothing written, as a retry with a fresh id is the caller's move.
    /// On success the stored record is read back and returned.
    pub fn create(
        &mut self,
        refs: &ReferenceStore,
        id: Uuid,
        user_id: Uuid,
        product_variant_ids: &Vec<Uuid>,
        name: String,
        now: u64,
    ) -> (r: Result<Wishlist, Error>)
        requires
            old(self).wf(),
        ensures
            final(self).wf(),
            ({
                let missing = missing_references(*refs, user_id, dedup_ids(product_variant_ids@));
                match r {
                    Ok(w) => missing.len() == 0 && !has_wishlist(old(self)@, id) && w@
                        == created_view(id, user_id, name@, dedup_ids(product_variant_ids@), now)
                        && final(self)@ == old(self)@.push(w@),
                    Err(Error::MissingReferences(m)) => missing.len() > 0 && m@ == missing
                        && final(self)@ == old(self)@,
                    Err(Error::StoreUnavailable) => missing.len() == 0 && has_wishlist(
                        old(self)@,
                        id,
                    ) && final(self)@ == old(self)@,
                    Err(_) => false,
                }
            }),
    {
        let deduped = dedup_ids_exec(product_variant_ids);
        if let Err(e) = validate_references(refs, user_id, &deduped) {
            return Err(e);
        }
        if let Some(_) = self.find(id) {
            return Err(Error::StoreUnavailable);
        }
        let internal_product_variants = product_variants_of_ids(&deduped);
        let wishlist = Wishlist {
            _id: id,
            user: User { _id: user_id },
            name,
            created_at: now,
            last_updated_at: now,
            internal_product_variants,
        };
        let ghost prior = self@;
        let ghost prior_items = self.items@;
        let ghost wv = wishlist@;
        self.items.push(wishlist);
        proof {
            lemma_views_of_push(prior_items, self.items@.last());
            assert(self.items@.drop_last() =~= prior_items);
            assert(self@ == prior.push(wv));
            lemma_dedup_ids_props(product_variant_ids@);
            lemma_find_index_props(prior, id);
            assert(wv.wf());
            lemma_wishlist_ids_push(prior, wv);
            let longer = wishlist_ids(prior).push(id);
            assert forall|a: int, b: int|
                0 <= a < b < longer.len() implies longer[a] != longer[b] by {
                if b < wishlist_ids(prior).len() {
                    assert(longer[a] == wishlist_ids(prior)[a] && longer[b] == wishlist_ids(
                        prior,
                    )[b]);
                } else {
                    assert(longer[b] == id);
                    assert(longer[a] == wishlist_ids(prior)[a]);
                    assert(wishlist_ids(prior)[a] == prior[a]._id);
                }
            }
            assert forall|i: int| 0 <= i < self@.len() implies (#[trigger] self@[i]).wf() by {
                if i < prior.len() {
                    assert(self@[i] == prior[i]);
                }
            }
        }
        proof {
            assert(self@.len() == self.items@.len());
            assert(self@[self@.len() - 1] == self.items@[self@.len() - 1]@);
        }
        let stored = self.items[self.items.len() - 1].duplicate();
        Ok(stored)
    }

    /// Partially updates the wishlist of this id.
    ///
    /// A present reference set is deduplicated and validated first — on a
    /// miss nothing is written. An absent field means "leave unchanged", not
    /// "clear". `last_updated_at` is refreshed once when any field was set.
    pub fn update(
        &mut self,
        refs: &ReferenceStore,
        id: Uuid,
        product_variant_ids: Option<Vec<Uuid>>,
        name: Option<String>,
        now: u64,
    ) -> (r: Result<Wishlist, Error>)
        requires
            old(self).wf(),
        ensures
            final(self).wf(),
            ({
                let missing = match product_variant_ids {
                    Some(pv) => missing_product_variants(*refs, dedup_ids(pv@)),
                    None => Seq::empty(),
                };
                match r {
                    Err(Error::MissingReferences(m)) => missing.len() > 0 && m@ == missing
                        && final(self)@ == old(self)@,
                    Err(Error::NotFound) => missing.len() == 0 && !has_wishlist(old(self)@, id)
                        && final(self)@ == old(self)@,
                    Ok(w) => missing.len() == 0 && has_wishlist(old(self)@, id) && ({
                        let i = find_index(old(self)@, id);
                        let updated = updated_view(
                            old(self)@[i],
                            match product_variant_ids {
                                Some(pv) => Some(dedup_ids(pv@)),
                                None => None,
                            },
                            match name {
                                Some(n) => Some(n@),
                                None => None,
                            },
                            now,
                        );
                        w@ == updated && final(self)@ == old(self)@.update(i, updated)
                    }),
                    Err(_) => false,
                }
            }),
    {
        let ghost prior = self@;
        let ghost prior_items = self.items@;
        let deduped: Option<Vec<Uuid>> = match product_variant_ids {
            Some(pv) => {
                let d = dedup_ids_exec(&pv);
                match validate_product_variant_ids(refs, &d) {
                    Ok(_) => Some(d),
                    Err(e) => {
                        return Err(e);
                    },
                }
            },
            None => None,
        };
        let i: usize = match self.find(id) {
            Some(i) => i,
            None => {
                return Err(Error::NotFound);
            },
        };
        proof {
            lemma_find_index_props(prior, id);
            assert(self@.len() == self.items@.len());
            assert(self@[i as int] == self.items@[i as int]@);
            if product_variant_ids is Some {
                lemma_dedup_ids_props(product_variant_ids.unwrap()@);
            }
        }
        let prev = &self.items[i];
        let any_field = deduped.is_some() || name.is_some();
        let new_last_updated_at: u64 = if any_field {
            if now > prev.last_updated_at {
                now
            } else {
                prev.last_updated_at
            }
        } else {
            prev.last_updated_at
        };
        let new_name: String = match name {
            Some(n) => n,
            None => prev.name.clone(),
        };
        let new_pvs: Vec<ProductVariant> = match deduped {
            Some(d) => product_variants_of_ids(&d),
            None => crate::wishlist::copy_product_variants(&prev.internal_product_variants),
        };
        let updated = Wishlist {
            _id: prev._id,
            user: prev.user,
            name: new_name,
            created_at: prev.created_at,
            last_updated_at: new_last_updated_at,
            internal_product_variants: new_pvs,
        };
        let ghost uv = updated@;
        let result = updated.duplicate();
        self.items.set(i, updated);
        proof {
            lemma_views_of_update(prior_items, i as int, self.items@[i as int]);
            assert(self.items@.update(i as int, self.items@[i as int]) =~= self.items@);
            assert(prior_items.update(i as int, self.items@[i as int]) =~= self.items@);
            assert(self@ == prior.update(i as int, uv));
            assert(uv._id == prior[i as int]._id);
            lemma_wishlist_ids_update_same(prior, i as int, uv);
            assert(uv.wf());
            assert forall|j: int| 0 <= j < self@.len() implies (#[trigger] self@[j]).wf() by {
                if j != i as int {
                    assert(self@[j] == prior[j]);
                }
            }
        }
        Ok(result)
    }

    /// Removes the wishlist of this id; `NotFound` when no such id is stored.
    /// No tombstone is kept.
    pub fn delete(&mut self, id: Uuid) -> (r: Result<bool, Error>)
        requires
            old(self).wf(),
        ensures
            final(self).wf(),
            match r {
                Ok(b) => b && has_wishlist(old(self)@, id) && final(self)@ == old(self)@.remove(
                    find_index(old(self)@, id),
                ),
                Err(Error::NotFound) => !has_wishlist(old(self)@, id) && final(self)@ == old(
                    self,
                )@,
                Err(_) => false,
            },
    {
        let ghost prior = self@;
        let ghost prior_items = self.items@;
        let i: usize = match self.find(id) {
            Some(i) => i,
            None => {
                return Err(Error::NotFound);
            },
        };
        proof {
            lemma_find_index_props(prior, id);
            assert(self@.len() == self.items@.len());
        }
        self.items.remove(i);
        proof {
            lemma_views_of_remove(prior_items, i as int);
            assert(self@ == prior.remove(i as int));
            lemma_wishlist_ids_remove(prior, i as int);
            assert forall|j: int| 0 <= j < self@.len() implies (#[trigger] self@[j]).wf() by {
                if j < i as int {
                    assert(self@[j] == prior[j]);
                } else {
                    assert(self@[j] == prior[j + 1]);
                }
            }
        }
        Ok(true)
    }

    /// The stored wishlists, read out in storage order.
    pub fn all(&self) -> (r: Vec<Wishlist>)
        ensures
            views_of(r@) == self@,
    {
        proof {
            assert(self@.len() == self.items@.len());
        }
        let mut r: Vec<Wishlist> = Vec::new();
        let mut i: usize = 0;
        proof {
            assert(views_of(r@) =~= self@.subrange(0, 0));
        }
        while i < self.items.len()
            invariant
                i <= self.items@.len(),
                self@.len() == self.items@.len(),
                views_of(r@) == self@.subrange(0, i as int),
            decreases self.items@.len() - i,
        {
            let ghost prev = r@;
            let w = self.items[i].duplicate();
            let ghost wv = w@;
            r.push(w);
            proof {
                lemma_views_of_push(prev, r@.last());
                assert(r@.drop_last() =~= prev);
                assert(views_of(prev).len() == prev.len());
                assert(wv == self.items@[i as int]@);
                assert(self@[i as int] == self.items@[i as int]@);
                assert forall|j: int| 0 <= j < i + 1 implies views_of(r@)[j] == self@.subrange(
                    0,
                    i + 1,
                )[j] by {
                    if j < i as int {
                        assert(views_of(prev)[j] == self@.subrange(0, i as int)[j]);
                        assert(views_of(r@)[j] == views_of(prev).push(wv)[j]);
                    } else {
                        assert(views_of(r@)[j] == views_of(prev).push(wv)[j]);
                    }
                }
                assert(views_of(r@) =~= self@.subrange(0, i + 1));
            }
            i = i + 1;
        }
        proof {
            assert(self@.subrange(0, self@.len() as int) =~= self@);
        }
        r
    }
}

} // verus!
