use wishlist::ids::Uuid;
use wishlist::order_datatypes::{
    CommonOrderField, CommonOrderInput, OrderDirection, WishlistOrderField, WishlistOrderInput,
};
use wishlist::pagination::paginate;
use wishlist::query::Query;
use wishlist::reference_store::{EntityKind, ReferenceStore};
use wishlist::wishlist_store::WishlistStore;

fn uuid(value: u128) -> Uuid {
    Uuid { value }
}

/// A store of `n` wishlists with ids `1..=n`, owned by user 1, named by their
/// position, created at moments running backwards.
fn store_of(n: u128) -> (ReferenceStore, WishlistStore) {
    let mut refs = ReferenceStore::new();
    refs.upsert_if_absent(EntityKind::User, uuid(1));
    let mut store = WishlistStore::new();
    let names = ["alpha", "bravo", "charlie", "delta", "echo", "foxtrot"];
    let mut i: u128 = 1;
    while i <= n {
        store
            .create(
                &refs,
                uuid(i),
                uuid(1),
                &vec![],
                String::from(names[(i - 1) as usize % names.len()]),
                (1000 - i) as u64,
            )
            .unwrap();
        i += 1;
    }
    (refs, store)
}

#[test]
fn first_page_short_of_total_has_next() {
    let (_, store) = store_of(3);
    let page = paginate(&store, Some(uuid(1)), WishlistOrderField::Id, OrderDirection::Asc, 0, Some(2));
    assert_eq!(page.additional_fields.total_count, 3);
    assert_eq!(page.nodes.len(), 2);
    assert!(page.has_next_page);
    assert!(!page.has_previous_page);
    assert_eq!(page.nodes[0]._id, uuid(1));
    assert_eq!(page.nodes[1]._id, uuid(2));
}

#[test]
fn page_covering_total_has_no_next() {
    let (_, store) = store_of(3);
    let page = paginate(&store, Some(uuid(1)), WishlistOrderField::Id, OrderDirection::Asc, 0, Some(5));
    assert_eq!(page.additional_fields.total_count, 3);
    assert_eq!(page.nodes.len(), 3);
    assert!(!page.has_next_page);
}

#[test]
fn skip_past_total_gives_empty_page() {
    let (_, store) = store_of(3);
    let page = paginate(&store, None, WishlistOrderField::Id, OrderDirection::Asc, 10, Some(2));
    assert_eq!(page.additional_fields.total_count, 3);
    assert_eq!(page.nodes.len(), 0);
    assert!(!page.has_next_page);
    assert!(page.has_previous_page);
}

#[test]
fn consecutive_pages_reconstruct_everything() {
    let (_, store) = store_of(5);
    let mut seen: Vec<u128> = Vec::new();
    let mut skip: u64 = 0;
    loop {
        let page = paginate(&store, None, WishlistOrderField::Id, OrderDirection::Asc, skip, Some(2));
        for w in &page.nodes {
            seen.push(w._id.value);
        }
        if !page.has_next_page {
            break;
        }
        skip += 2;
    }
    assert_eq!(seen, vec![1, 2, 3, 4, 5]);
}

#[test]
fn total_count_follows_the_filter() {
    let mut refs = ReferenceStore::new();
    refs.upsert_if_absent(EntityKind::User, uuid(1));
    refs.upsert_if_absent(EntityKind::User, uuid(2));
    let mut store = WishlistStore::new();
    store.create(&refs, uuid(10), uuid(1), &vec![], String::from("a"), 1).unwrap();
    store.create(&refs, uuid(11), uuid(2), &vec![], String::from("b"), 2).unwrap();
    store.create(&refs, uuid(12), uuid(1), &vec![], String::from("c"), 3).unwrap();
    let page = paginate(&store, Some(uuid(1)), WishlistOrderField::Id, OrderDirection::Asc, 0, None);
    assert_eq!(page.additional_fields.total_count, 2);
    assert_eq!(page.nodes.len(), 2);
    assert_eq!(page.nodes[0]._id, uuid(10));
    assert_eq!(page.nodes[1]._id, uuid(12));
    let all = paginate(&store, None, WishlistOrderField::Id, OrderDirection::Asc, 0, None);
    assert_eq!(all.additional_fields.total_count, 3);
}

#[test]
fn sorting_by_name_is_lexicographic() {
    let (_, store) = store_of(3);
    // Names run alpha, bravo, charlie for ids 1, 2, 3.
    let page = paginate(&store, None, WishlistOrderField::Name, OrderDirection::Desc, 0, None);
    let ids: Vec<u128> = page.nodes.iter().map(|w| w._id.value).collect();
    assert_eq!(ids, vec![3, 2, 1]);
}

#[test]
fn sorting_by_created_at_orders_oldest_first() {
    let (_, store) = store_of(3);
    // Creation timestamps run backwards: id 1 is newest.
    let page = paginate(&store, None, WishlistOrderField::CreatedAt, OrderDirection::Asc, 0, None);
    let ids: Vec<u128> = page.nodes.iter().map(|w| w._id.value).collect();
    assert_eq!(ids, vec![3, 2, 1]);
}

#[test]
fn ties_break_by_ascending_id() {
    let mut refs = ReferenceStore::new();
    refs.upsert_if_absent(EntityKind::User, uuid(1));
    let mut store = WishlistStore::new();
    store.create(&refs, uuid(12), uuid(1), &vec![], String::from("same"), 7).unwrap();
    store.create(&refs, uuid(10), uuid(1), &vec![], String::from("same"), 7).unwrap();
    store.create(&refs, uuid(11), uuid(1), &vec![], String::from("same"), 7).unwrap();
    let page = paginate(&store, None, WishlistOrderField::Name, OrderDirection::Asc, 0, None);
    let ids: Vec<u128> = page.nodes.iter().map(|w| w._id.value).collect();
    assert_eq!(ids, vec![10, 11, 12]);
    let again = paginate(&store, None, WishlistOrderField::Name, OrderDirection::Asc, 0, None);
    let ids_again: Vec<u128> = again.nodes.iter().map(|w| w._id.value).collect();
    assert_eq!(ids, ids_again);
}

#[test]
fn query_wishlists_uses_defaults() {
    let (_, store) = store_of(3);
    let query = Query;
    let all = query.wishlists(&store, None, None, None);
    let ids: Vec<u128> = all.iter().map(|w| w._id.value).collect();
    assert_eq!(ids, vec![1, 2, 3]);
    let window = query.wishlists(
        &store,
        Some(1),
        Some(1),
        Some(WishlistOrderInput {
            direction: Some(OrderDirection::Desc),
            field: Some(WishlistOrderField::Id),
        }),
    );
    let ids: Vec<u128> = window.iter().map(|w| w._id.value).collect();
    assert_eq!(ids, vec![2]);
}

#[test]
fn user_wishlists_are_filtered_to_the_owner() {
    let mut refs = ReferenceStore::new();
    refs.upsert_if_absent(EntityKind::User, uuid(1));
    refs.upsert_if_absent(EntityKind::User, uuid(2));
    let mut store = WishlistStore::new();
    store.create(&refs, uuid(10), uuid(1), &vec![], String::from("a"), 1).unwrap();
    store.create(&refs, uuid(11), uuid(2), &vec![], String::from("b"), 2).unwrap();
    store.create(&refs, uuid(12), uuid(1), &vec![], String::from("c"), 3).unwrap();
    let owner = wishlist::foreign_types::User { _id: uuid(1) };
    let conn = owner.wishlists(&store, Some(1), Some(0), None);
    assert_eq!(conn.additional_fields.total_count, 2);
    assert_eq!(conn.nodes.len(), 1);
    assert_eq!(conn.nodes[0]._id, uuid(10));
    assert!(conn.has_next_page);
    assert!(!conn.has_previous_page);
}

#[test]
fn wishlist_product_variants_sort_and_window() {
    let mut refs = ReferenceStore::new();
    refs.upsert_if_absent(EntityKind::User, uuid(1));
    for p in [30u128, 10, 20] {
        refs.upsert_if_absent(EntityKind::ProductVariant, uuid(p));
    }
    let mut store = WishlistStore::new();
    let created = store
        .create(&refs, uuid(100), uuid(1), &vec![uuid(30), uuid(10), uuid(20)], String::from("w"), 1)
        .unwrap();
    let conn = created.product_variants(None, None, None);
    let ids: Vec<u128> = conn.nodes.iter().map(|pv| pv._id.value).collect();
    assert_eq!(ids, vec![10, 20, 30]);
    assert_eq!(conn.total_count, 3);
    assert!(!conn.has_next_page);

    let desc = created.product_variants(
        Some(2),
        None,
        Some(CommonOrderInput {
            direction: Some(OrderDirection::Desc),
            field: Some(CommonOrderField::Id),
        }),
    );
    let ids: Vec<u128> = desc.nodes.iter().map(|pv| pv._id.value).collect();
    assert_eq!(ids, vec![30, 20]);
    assert!(desc.has_next_page);

    let windowed = created.product_variants(Some(1), Some(1), None);
    let ids: Vec<u128> = windowed.nodes.iter().map(|pv| pv._id.value).collect();
    assert_eq!(ids, vec![20]);
    assert_eq!(windowed.total_count, 3);
    assert!(windowed.has_next_page);
}
