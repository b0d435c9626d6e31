//! Write-time validation of foreign references.
//!
//! A mutation may only reference foreign ids whose stubs have been ingested.
//! On any miss the complete list of offending ids is collected — owner first,
//! then every missing referenced id in input order — rather than failing on
//! the first, so callers can report actionable errors. The check is advisory
//! at write time only; nothing is re-validated on read.

use vstd::prelude::*;
use crate::errors::Error;
use crate::ids::Uuid;
use crate::reference_store::{EntityKind, ReferenceStore};

verus! {

/// The ids of `ids` without a stored product-variant stub, in input order.
pub open spec fn missing_product_variants(refs: ReferenceStore, ids: Seq<Uuid>) -> Seq<Uuid>
    decreases ids.len(),
{
    if ids.len() == 0 {
        Seq::empty()
    } else {
        missing_product_variants(refs, ids.drop_last()) + (if !refs.has(
            EntityKind::ProductVariant,
            ids.last(),
        ) {
            seq![ids.last()]
        } else {
            Seq::empty()
        })
    }
}

/// The ids a mutation references that `refs` does not hold: the owner if its
/// user stub is absent, then the referenced ids without product-variant
/// stubs, in input order.
pub open spec fn missing_references(
    refs: ReferenceStore,
    owner_id: Uuid,
    referenced_ids: Seq<Uuid>,
) -> Seq<Uuid> {
    (if !refs.has(EntityKind::User, owner_id) {
        seq![owner_id]
    } else {
        Seq::empty()
    }) + missing_product_variants(refs, referenced_ids)
}

/// No referenced id is missing exactly when every one has its stub.
pub proof fn lemma_no_missing_product_variants(refs: ReferenceStore, ids: Seq<Uuid>)
    ensures
        missing_product_variants(refs, ids).len() == 0 <==> (forall|i: int|
            0 <= i < ids.len() ==> refs.has(EntityKind::ProductVariant, #[trigger] ids[i])),
    decreases ids.len(),
{
    if ids.len() > 0 {
        lemma_no_missing_product_variants(refs, ids.drop_last());
        assert(forall|i: int| 0 <= i < ids.len() - 1 ==> ids.drop_last()[i] == ids[i]);
        assert(ids.last() == ids[ids.len() - 1]);
    }
}

/// Validation succeeds exactly when owner and every referenced id are held.
pub proof fn lemma_validation_exact(refs: ReferenceStore, owner_id: Uuid, referenced_ids: Seq<Uuid>)
    ensures
        missing_references(refs, owner_id, referenced_ids).len() == 0 <==> (refs.has(
            EntityKind::User,
            owner_id,
        ) && (forall|i: int|
            0 <= i < referenced_ids.len() ==> refs.has(
                EntityKind::ProductVariant,
                #[trigger] referenced_ids[i],
            ))),
{
    lemma_no_missing_product_variants(refs, referenced_ids);
}

/// A mutation referencing exactly one id that was never ingested, by an owner
/// whose stub is held, is missing exactly that id — no more, no less.
pub proof fn lemma_missing_single(refs: ReferenceStore, owner_id: Uuid, b: Uuid)
    requires
        refs.has(EntityKind::User, owner_id),
        !refs.has(EntityKind::ProductVariant, b),
    ensures
        missing_references(refs, owner_id, seq![b]) == seq![b],
{
    assert(seq![b].drop_last() =~= Seq::<Uuid>::empty());
    assert(seq![b].last() == b);
    assert(seq![b].len() == 1);
    assert(missing_product_variants(refs, Seq::<Uuid>::empty()) == Seq::<Uuid>::empty());
    assert(missing_product_variants(refs, seq![b]) == missing_product_variants(
        refs,
        Seq::<Uuid>::empty(),
    ) + seq![b]);
    assert(missing_product_variants(refs, seq![b]) =~= seq![b]);
    assert(missing_references(refs, owner_id, seq![b]) =~= seq![b]);
}

/// Checks referenced product-variant ids alone, as partial updates do; `Ok`
/// exactly when every one of them is present.
pub fn validate_product_variant_ids(refs: &ReferenceStore, referenced_ids: &Vec<Uuid>) -> (r:
    Result<(), Error>)
    ensures
        ({
            let missing = missing_product_variants(*refs, referenced_ids@);
            match r {
                Ok(_) => missing.len() == 0,
                Err(Error::MissingReferences(m)) => missing.len() > 0 && m@ == missing,
                Err(_) => false,
            }
        }),
{
    let mut missing: Vec<Uuid> = Vec::new();
    let mut i: usize = 0;
    proof {
        assert(referenced_ids@.subrange(0, 0) =~= Seq::<Uuid>::empty());
    }
    while i < referenced_ids.len()
        invariant
            i <= referenced_ids@.len(),
            missing@ == missing_product_variants(*refs, referenced_ids@.subrange(0, i as int)),
        decreases referenced_ids@.len() - i,
    {
        let id = referenced_ids[i];
        proof {
            assert(referenced_ids@.subrange(0, i + 1).drop_last() =~= referenced_ids@.subrange(
                0,
                i as int,
            ));
            assert(referenced_ids@.subrange(0, i + 1).last() == referenced_ids@[i as int]);
        }
        if !refs.exists_stub(EntityKind::ProductVariant, id) {
            missing.push(id);
            proof {
                assert(missing@ =~= missing_product_variants(
                    *refs,
                    referenced_ids@.subrange(0, i + 1),
                ));
            }
        } else {
            proof {
                assert(missing_product_variants(*refs, referenced_ids@.subrange(0, i + 1))
                    =~= missing_product_variants(*refs, referenced_ids@.subrange(0, i as int)));
            }
        }
        i = i + 1;
    }
    proof {
        assert(referenced_ids@.subrange(0, referenced_ids@.len() as int) =~= referenced_ids@);
    }
    if missing.len() == 0 {
        Ok(())
    } else {
        Err(Error::MissingReferences(missing))
    }
}

/// Checks owner and referenced ids against the reference stores; `Ok` exactly
/// when every one of them is present.
pub fn validate_references(
    refs: &ReferenceStore,
    owner_id: Uuid,
    referenced_ids: &Vec<Uuid>,
) -> (r: Result<(), Error>)
    ensures
        ({
            let missing = missing_references(*refs, owner_id, referenced_ids@);
            match r {
                Ok(_) => missing.len() == 0,
                Err(Error::MissingReferences(m)) => missing.len() > 0 && m@ == missing,
                Err(_) => false,
            }
        }),
{
    let mut missing: Vec<Uuid> = Vec::new();
    if !refs.exists_stub(EntityKind::User, owner_id) {
        missing.push(owner_id);
    }
    let ghost head = missing@;
    let mut i: usize = 0;
    proof {
        assert(referenced_ids@.subrange(0, 0) =~= Seq::<Uuid>::empty());
    }
    while i < referenced_ids.len()
        invariant
            i <= referenced_ids@.len(),
            missing@ == head + missing_product_variants(*refs, referenced_ids@.subrange(
                0,
                i as int,
            )),
        decreases referenced_ids@.len() - i,
    {
        let id = referenced_ids[i];
        proof {
            assert(referenced_ids@.subrange(0, i + 1).drop_last() =~= referenced_ids@.subrange(
                0,
                i as int,
            ));
            assert(referenced_ids@.subrange(0, i + 1).last() == referenced_ids@[i as int]);
        }
        if !refs.exists_stub(EntityKind::ProductVariant, id) {
            missing.push(id);
            proof {
                assert(missing@ =~= head + missing_product_variants(
                    *refs,
                    referenced_ids@.subrange(0, i + 1),
                ));
            }
        } else {
            proof {
                assert(missing_product_variants(*refs, referenced_ids@.subrange(0, i + 1))
                    =~= missing_product_variants(*refs, referenced_ids@.subrange(0, i as int)));
            }
        }
        i = i + 1;
    }
    proof {
        assert(referenced_ids@.subrange(0, referenced_ids@.len() as int) =~= referenced_ids@);
    }
    if missing.len() == 0 {
        Ok(())
    } else {
        Err(Error::MissingReferences(missing))
    }
}

} // verus!
