use wishlist::errors::Error;
use wishlist::ids::Uuid;
use wishlist::mutation::Mutation;
use wishlist::mutation_input_structs::{AddWishlistInput, UpdateWishlistInput};
use wishlist::query::{query_user, Query};
use wishlist::reference_store::{EntityKind, ReferenceStore};
use wishlist::validator::validate_references;
use wishlist::wishlist_store::WishlistStore;

fn uuid(value: u128) -> Uuid {
    Uuid { value }
}

fn refs_with(user_ids: &[u128], pv_ids: &[u128]) -> ReferenceStore {
    let mut refs = ReferenceStore::new();
    for u in user_ids {
        refs.upsert_if_absent(EntityKind::User, uuid(*u));
    }
    for p in pv_ids {
        refs.upsert_if_absent(EntityKind::ProductVariant, uuid(*p));
    }
    refs
}

#[test]
fn create_then_get_has_equal_timestamps() {
    let refs = refs_with(&[1], &[10, 11]);
    let mut store = WishlistStore::new();
    let created = store
        .create(&refs, uuid(100), uuid(1), &vec![uuid(10), uuid(11)], String::from("mine"), 500)
        .unwrap();
    assert_eq!(created.created_at, created.last_updated_at);
    let got = store.get(uuid(100)).unwrap();
    assert_eq!(got._id, uuid(100));
    assert_eq!(got.user._id, uuid(1));
    assert_eq!(got.name, "mine");
    assert_eq!(got.created_at, 500);
    assert_eq!(got.last_updated_at, 500);
    assert_eq!(got.created_at, got.last_updated_at);
}

#[test]
fn create_deduplicates_references() {
    let refs = refs_with(&[1], &[10]);
    let mut store = WishlistStore::new();
    let created = store
        .create(&refs, uuid(100), uuid(1), &vec![uuid(10), uuid(10), uuid(10)], String::from("w"), 1)
        .unwrap();
    assert_eq!(created.internal_product_variants.len(), 1);
    assert_eq!(created.internal_product_variants[0]._id, uuid(10));
}

#[test]
fn create_with_unknown_reference_fails_closed() {
    let refs = refs_with(&[1], &[10]);
    let mut store = WishlistStore::new();
    let r = store.create(&refs, uuid(100), uuid(1), &vec![uuid(10), uuid(99)], String::from("w"), 1);
    match r {
        Err(Error::MissingReferences(m)) => assert_eq!(m, vec![uuid(99)]),
        other => panic!("expected MissingReferences, got {:?}", other),
    }
    assert_eq!(store.len(), 0);
    assert!(matches!(store.get(uuid(100)), Err(Error::NotFound)));
}

#[test]
fn create_with_unknown_owner_reports_owner_first() {
    let refs = refs_with(&[], &[10]);
    let mut store = WishlistStore::new();
    let r = store.create(&refs, uuid(100), uuid(1), &vec![uuid(10), uuid(99)], String::from("w"), 1);
    match r {
        Err(Error::MissingReferences(m)) => assert_eq!(m, vec![uuid(1), uuid(99)]),
        other => panic!("expected MissingReferences, got {:?}", other),
    }
    assert_eq!(store.len(), 0);
}

#[test]
fn create_with_colliding_id_writes_nothing() {
    let refs = refs_with(&[1], &[]);
    let mut store = WishlistStore::new();
    store.create(&refs, uuid(100), uuid(1), &vec![], String::from("a"), 1).unwrap();
    let r = store.create(&refs, uuid(100), uuid(1), &vec![], String::from("b"), 2);
    assert!(matches!(r, Err(Error::StoreUnavailable)));
    assert_eq!(store.len(), 1);
    assert_eq!(store.get(uuid(100)).unwrap().name, "a");
}

#[test]
fn update_name_only_keeps_references() {
    let refs = refs_with(&[1], &[10, 11]);
    let mut store = WishlistStore::new();
    store
        .create(&refs, uuid(100), uuid(1), &vec![uuid(10), uuid(11)], String::from("old"), 500)
        .unwrap();
    let updated = store.update(&refs, uuid(100), None, Some(String::from("new")), 600).unwrap();
    assert_eq!(updated.name, "new");
    assert_eq!(updated.created_at, 500);
    assert_eq!(updated.last_updated_at, 600);
    assert!(updated.last_updated_at >= 500);
    assert_eq!(updated.internal_product_variants.len(), 2);
    assert_eq!(updated.internal_product_variants[0]._id, uuid(10));
    assert_eq!(updated.internal_product_variants[1]._id, uuid(11));
}

#[test]
fn update_never_moves_last_updated_backwards() {
    let refs = refs_with(&[1], &[]);
    let mut store = WishlistStore::new();
    store.create(&refs, uuid(100), uuid(1), &vec![], String::from("a"), 500).unwrap();
    let updated = store.update(&refs, uuid(100), None, Some(String::from("b")), 400).unwrap();
    assert_eq!(updated.last_updated_at, 500);
    assert!(updated.last_updated_at >= 500);
}

#[test]
fn update_references_only_keeps_name() {
    let refs = refs_with(&[1], &[10, 11, 12]);
    let mut store = WishlistStore::new();
    store.create(&refs, uuid(100), uuid(1), &vec![uuid(10)], String::from("keep"), 500).unwrap();
    let updated = store
        .update(&refs, uuid(100), Some(vec![uuid(11), uuid(12), uuid(11)]), None, 600)
        .unwrap();
    assert_eq!(updated.name, "keep");
    assert_eq!(updated.last_updated_at, 600);
    assert_eq!(updated.internal_product_variants.len(), 2);
    assert_eq!(updated.internal_product_variants[0]._id, uuid(11));
    assert_eq!(updated.internal_product_variants[1]._id, uuid(12));
}

#[test]
fn update_with_no_fields_changes_nothing() {
    let refs = refs_with(&[1], &[]);
    let mut store = WishlistStore::new();
    store.create(&refs, uuid(100), uuid(1), &vec![], String::from("a"), 500).unwrap();
    let updated = store.update(&refs, uuid(100), None, None, 900).unwrap();
    assert_eq!(updated.name, "a");
    assert_eq!(updated.created_at, 500);
    assert_eq!(updated.last_updated_at, 500);
}

#[test]
fn update_of_missing_id_is_not_found() {
    let refs = refs_with(&[1], &[]);
    let mut store = WishlistStore::new();
    let r = store.update(&refs, uuid(100), None, Some(String::from("x")), 1);
    assert!(matches!(r, Err(Error::NotFound)));
}

#[test]
fn update_with_unknown_reference_writes_nothing() {
    let refs = refs_with(&[1], &[10]);
    let mut store = WishlistStore::new();
    store.create(&refs, uuid(100), uuid(1), &vec![uuid(10)], String::from("a"), 500).unwrap();
    let r = store.update(&refs, uuid(100), Some(vec![uuid(99)]), Some(String::from("b")), 600);
    match r {
        Err(Error::MissingReferences(m)) => assert_eq!(m, vec![uuid(99)]),
        other => panic!("expected MissingReferences, got {:?}", other),
    }
    let got = store.get(uuid(100)).unwrap();
    assert_eq!(got.name, "a");
    assert_eq!(got.last_updated_at, 500);
    assert_eq!(got.internal_product_variants.len(), 1);
}

#[test]
fn delete_removes_and_reports_absence_after() {
    let refs = refs_with(&[1], &[]);
    let mut store = WishlistStore::new();
    store.create(&refs, uuid(100), uuid(1), &vec![], String::from("a"), 1).unwrap();
    assert!(matches!(store.delete(uuid(100)), Ok(true)));
    assert!(matches!(store.get(uuid(100)), Err(Error::NotFound)));
    assert!(matches!(store.delete(uuid(100)), Err(Error::NotFound)));
    assert_eq!(store.len(), 0);
}

#[test]
fn validator_collects_all_missing_ids() {
    let refs = refs_with(&[], &[10]);
    let r = validate_references(&refs, uuid(1), &vec![uuid(10), uuid(98), uuid(99)]);
    match r {
        Err(Error::MissingReferences(m)) => assert_eq!(m, vec![uuid(1), uuid(98), uuid(99)]),
        other => panic!("expected MissingReferences, got {:?}", other),
    }
}

#[test]
fn validator_accepts_complete_references() {
    let refs = refs_with(&[1], &[10, 11]);
    assert!(validate_references(&refs, uuid(1), &vec![uuid(10), uuid(11)]).is_ok());
    assert!(validate_references(&refs, uuid(1), &vec![]).is_ok());
}

#[test]
fn mutation_scenario_ingest_create_get_reject() {
    // Ingest the foreign product variant A and the owner U.
    let a = uuid(0xa);
    let b = uuid(0xb);
    let u = uuid(0x1);
    let mut refs = ReferenceStore::new();
    refs.upsert_if_absent(EntityKind::ProductVariant, a);
    assert!(refs.exists_stub(EntityKind::ProductVariant, a));
    refs.upsert_if_absent(EntityKind::User, u);

    // A wishlist referencing A is accepted, and reads back with exactly {A}.
    let mut store = WishlistStore::new();
    let mutation = Mutation;
    let created = mutation
        .add_wishlist(
            &refs,
            &mut store,
            AddWishlistInput { user_id: u, product_variant_ids: vec![a], name: String::from("x") },
            700,
        )
        .unwrap();
    let query = Query;
    let got = query.wishlist(&store, created._id).unwrap();
    assert_eq!(got.internal_product_variants.len(), 1);
    assert_eq!(got.internal_product_variants[0]._id, a);
    assert_eq!(got.created_at, got.last_updated_at);

    // A wishlist referencing the never-ingested B is rejected with exactly B.
    let r = mutation.add_wishlist(
        &refs,
        &mut store,
        AddWishlistInput { user_id: u, product_variant_ids: vec![b], name: String::from("y") },
        701,
    );
    match r {
        Err(Error::MissingReferences(m)) => assert_eq!(m, vec![b]),
        other => panic!("expected MissingReferences, got {:?}", other),
    }
    assert_eq!(store.len(), 1);
}

#[test]
fn mutation_update_and_delete_round_trip() {
    let refs = refs_with(&[1], &[10]);
    let mut store = WishlistStore::new();
    let mutation = Mutation;
    let created = mutation
        .add_wishlist(
            &refs,
            &mut store,
            AddWishlistInput {
                user_id: uuid(1),
                product_variant_ids: vec![uuid(10)],
                name: String::from("first"),
            },
            100,
        )
        .unwrap();
    let updated = mutation
        .update_wishlist(
            &refs,
            &mut store,
            UpdateWishlistInput {
                id: created._id,
                product_variant_ids: None,
                name: Some(String::from("second")),
            },
            200,
        )
        .unwrap();
    assert_eq!(updated.name, "second");
    assert_eq!(updated.created_at, 100);
    assert_eq!(updated.last_updated_at, 200);
    assert!(matches!(mutation.delete_wishlist(&mut store, created._id), Ok(true)));
    assert!(matches!(
        mutation.delete_wishlist(&mut store, created._id),
        Err(Error::NotFound)
    ));
}

#[test]
fn entity_resolver_finds_the_same_wishlist() {
    let refs = refs_with(&[1], &[]);
    let mut store = WishlistStore::new();
    store.create(&refs, uuid(100), uuid(1), &vec![], String::from("a"), 1).unwrap();
    let query = Query;
    let resolved = query.wishlist_entity_resolver(&store, uuid(100)).unwrap();
    assert_eq!(resolved._id, uuid(100));
    assert_eq!(resolved.name, "a");
    assert!(matches!(
        query.wishlist_entity_resolver(&store, uuid(101)),
        Err(Error::NotFound)
    ));
}

#[test]
fn query_user_reports_only_ingested_stubs() {
    let refs = refs_with(&[5], &[]);
    let got = query_user(&refs, uuid(5)).unwrap();
    assert_eq!(got._id, uuid(5));
    assert!(matches!(query_user(&refs, uuid(6)), Err(Error::NotFound)));
    let query = Query;
    assert!(query.user(&refs, uuid(5)).is_ok());
}
