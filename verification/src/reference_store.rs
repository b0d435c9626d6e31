//! Keyed stores of foreign-entity stubs, one per entity kind.
//!
//! Stubs are created on first observation of an event for their id and never
//! updated or deleted afterwards; only existence matters. The id is the
//! natural unique key, so re-processing a delivery can neither error nor
//! create a duplicate.

use vstd::prelude::*;
use crate::ids::{contains_id, Uuid};

verus! {

/// The foreign entity kinds this service replicates.
#[derive(Debug, Clone, Copy, PartialEq, Eq, Structural)]
pub enum EntityKind {
    /// A product variant owned by the catalog service.
    ProductVariant,
    /// A user owned by the user service.
    User,
}

/// What an upsert found; a redelivered id is a success, not an error.
#[derive(Debug, Clone, Copy, PartialEq, Eq, Structural)]
pub enum UpsertOutcome {
    /// The stub was absent and has been stored.
    Created,
    /// A stub with this id was already stored; nothing changed.
    AlreadyExists,
}

/// One store of existence-only stubs per foreign entity kind.
pub struct ReferenceStore {
    product_variant_ids: Vec<Uuid>,
    user_ids: Vec<Uuid>,
}

/// How often `id` occurs in `s`.
pub open spec fn occurrence_count(s: Seq<Uuid>, id: Uuid) -> nat
    decreases s.len(),
{
    if s.len() == 0 {
        0
    } else {
        occurrence_count(s.drop_last(), id) + if s.last() == id {
            1nat
        } else {
            0nat
        }
    }
}

/// An id absent from a sequence occurs zero times in it.
pub proof fn lemma_absent_occurs_zero(s: Seq<Uuid>, id: Uuid)
    requires
        !s.contains(id),
    ensures
        occurrence_count(s, id) == 0,
    decreases s.len(),
{
    if s.len() > 0 {
        assert(forall|i: int| 0 <= i < s.len() - 1 ==> s.drop_last()[i] == s[i]);
        lemma_absent_occurs_zero(s.drop_last(), id);
    }
}

impl ReferenceStore {
    /// The stored ids of one kind, in insertion order.
    pub closed spec fn ids_of(self, kind: EntityKind) -> Seq<Uuid> {
        match kind {
            EntityKind::ProductVariant => self.product_variant_ids@,
            EntityKind::User => self.user_ids@,
        }
    }

    /// Whether a stub of this kind and id is stored.
    pub open spec fn has(self, kind: EntityKind, id: Uuid) -> bool {
        self.ids_of(kind).contains(id)
    }

    /// Each store keys by id: no id is stored twice.
    pub open spec fn wf(self) -> bool {
        self.ids_of(EntityKind::ProductVariant).no_duplicates() && self.ids_of(
            EntityKind::User,
        ).no_duplicates()
    }

    /// An empty store of every kind.
    pub fn new() -> (r: Self)
        ensures
            r.wf(),
            forall|k: EntityKind| #[trigger] r.ids_of(k) == Seq::<Uuid>::empty(),
    {
        let r = ReferenceStore { product_variant_ids: Vec::new(), user_ids: Vec::new() };
        proof {
            assert forall|k: EntityKind| #[trigger] r.ids_of(k) == Seq::<Uuid>::empty() by {
                assert(r.ids_of(k) =~= Seq::<Uuid>::empty());
            }
        }
        r
    }

    /// Stores the stub unless its id is already present; idempotent under
    /// redelivery.
    pub fn upsert_if_absent(&mut self, kind: EntityKind, id: Uuid) -> (r: UpsertOutcome)
        requires
            old(self).wf(),
        ensures
            final(self).wf(),
            r == UpsertOutcome::Created <==> !old(self).has(kind, id),
            final(self).ids_of(kind) == if old(self).has(kind, id) {
                old(self).ids_of(kind)
            } else {
                old(self).ids_of(kind).push(id)
            },
            forall|k: EntityKind| k != kind ==> #[trigger] final(self).ids_of(k) == old(
                self,
            ).ids_of(k),
    {
        match kind {
            EntityKind::ProductVariant => {
                if contains_id(&self.product_variant_ids, id) {
                    UpsertOutcome::AlreadyExists
                } else {
                    self.product_variant_ids.push(id);
                    UpsertOutcome::Created
                }
            },
            EntityKind::User => {
                if contains_id(&self.user_ids, id) {
                    UpsertOutcome::AlreadyExists
                } else {
                    self.user_ids.push(id);
                    UpsertOutcome::Created
                }
            },
        }
    }

    /// Whether a stub of this kind and id is stored.
    pub fn exists_stub(&self, kind: EntityKind, id: Uuid) -> (r: bool)
        ensures
            r == self.has(kind, id),
    {
        match kind {
            EntityKind::ProductVariant => contains_id(&self.product_variant_ids, id),
            EntityKind::User => contains_id(&self.user_ids, id),
        }
    }

    /// Whether every id in the batch is stored under this kind.
    pub fn exists_all(&self, kind: EntityKind, ids: &Vec<Uuid>) -> (r: bool)
        ensures
            r == (forall|i: int| 0 <= i < ids@.len() ==> self.has(kind, #[trigger] ids@[i])),
    {
        let mut i: usize = 0;
        while i < ids.len()
            invariant
                i <= ids@.len(),
                forall|j: int| 0 <= j < i ==> self.has(kind, #[trigger] ids@[j]),
            decreases ids@.len() - i,
        {
            if !self.exists_stub(kind, ids[i]) {
                return false;
            }
            i = i + 1;
        }
        true
    }
}

/// Idempotence under redelivery: once an absent id has been stored, it is
/// present exactly once, so storing it again finds it and changes nothing.
pub proof fn lemma_upsert_stores_single_stub(ids: Seq<Uuid>, id: Uuid)
    requires
        ids.no_duplicates(),
        !ids.contains(id),
    ensures
        ids.push(id).no_duplicates(),
        ids.push(id).contains(id),
        occurrence_count(ids.push(id), id) == 1,
{
    lemma_absent_occurs_zero(ids, id);
    assert(ids.push(id).drop_last() =~= ids);
    assert(ids.push(id)[ids.len() as int] == id);
}

} // verus!
