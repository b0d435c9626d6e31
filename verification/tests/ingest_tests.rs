use wishlist::errors::Error;
use wishlist::http_event_service::{list_topic_subscriptions, on_topic_event, parse_id, TopicEventResponse};
use wishlist::ids::Uuid;
use wishlist::reference_store::{EntityKind, ReferenceStore, UpsertOutcome};

fn uuid(value: u128) -> Uuid {
    Uuid { value }
}

#[test]
fn upsert_twice_is_idempotent() {
    let mut refs = ReferenceStore::new();
    let id = uuid(7);
    let first = refs.upsert_if_absent(EntityKind::ProductVariant, id);
    let second = refs.upsert_if_absent(EntityKind::ProductVariant, id);
    assert_eq!(first, UpsertOutcome::Created);
    assert_eq!(second, UpsertOutcome::AlreadyExists);
    assert!(refs.exists_stub(EntityKind::ProductVariant, id));
}

#[test]
fn kinds_are_separate_stores() {
    let mut refs = ReferenceStore::new();
    let id = uuid(7);
    refs.upsert_if_absent(EntityKind::ProductVariant, id);
    assert!(refs.exists_stub(EntityKind::ProductVariant, id));
    assert!(!refs.exists_stub(EntityKind::User, id));
}

#[test]
fn exists_all_is_a_batched_check() {
    let mut refs = ReferenceStore::new();
    refs.upsert_if_absent(EntityKind::ProductVariant, uuid(1));
    refs.upsert_if_absent(EntityKind::ProductVariant, uuid(2));
    assert!(refs.exists_all(EntityKind::ProductVariant, &vec![uuid(1), uuid(2)]));
    assert!(!refs.exists_all(EntityKind::ProductVariant, &vec![uuid(1), uuid(3)]));
    assert!(refs.exists_all(EntityKind::ProductVariant, &vec![]));
}

#[test]
fn parse_id_accepts_valid() {
    let r = parse_id(Some("00000000-0000-0000-0000-00000000002a"));
    assert!(matches!(r, Ok(u) if u.value == 42));
}

#[test]
fn parse_id_rejects_missing_or_malformed() {
    assert!(matches!(parse_id(None), Err(Error::MalformedInput)));
    assert!(matches!(parse_id(Some("not-a-uuid")), Err(Error::MalformedInput)));
}

#[test]
fn event_for_product_variant_is_acknowledged() {
    let mut refs = ReferenceStore::new();
    let r = on_topic_event(
        &mut refs,
        "catalog/product-variant/created",
        Some("00000000-0000-0000-0000-000000000005"),
    );
    assert!(matches!(r, Ok(TopicEventResponse { status: 0 })));
    assert!(refs.exists_stub(EntityKind::ProductVariant, uuid(5)));
    assert!(!refs.exists_stub(EntityKind::User, uuid(5)));
}

#[test]
fn event_for_user_is_acknowledged() {
    let mut refs = ReferenceStore::new();
    let r = on_topic_event(&mut refs, "user/user/created", Some("00000000-0000-0000-0000-000000000006"));
    assert!(matches!(r, Ok(TopicEventResponse { status: 0 })));
    assert!(refs.exists_stub(EntityKind::User, uuid(6)));
}

#[test]
fn redelivered_event_is_acknowledged_too() {
    let mut refs = ReferenceStore::new();
    let id_str = Some("00000000-0000-0000-0000-000000000005");
    let first = on_topic_event(&mut refs, "catalog/product-variant/created", id_str);
    let second = on_topic_event(&mut refs, "catalog/product-variant/created", id_str);
    assert!(first.is_ok());
    assert!(second.is_ok());
    assert!(refs.exists_stub(EntityKind::ProductVariant, uuid(5)));
}

#[test]
fn unknown_topic_is_rejected_without_effect() {
    let mut refs = ReferenceStore::new();
    let r = on_topic_event(
        &mut refs,
        "inventory/item/created",
        Some("00000000-0000-0000-0000-000000000005"),
    );
    assert!(matches!(r, Err(Error::UnknownTopic)));
    assert!(!refs.exists_stub(EntityKind::ProductVariant, uuid(5)));
    assert!(!refs.exists_stub(EntityKind::User, uuid(5)));
}

#[test]
fn malformed_id_is_rejected_before_dispatch() {
    let mut refs = ReferenceStore::new();
    let r = on_topic_event(&mut refs, "catalog/product-variant/created", Some("bogus"));
    assert!(matches!(r, Err(Error::MalformedInput)));
    let r = on_topic_event(&mut refs, "inventory/item/created", None);
    assert!(matches!(r, Err(Error::MalformedInput)));
}

#[test]
fn subscription_list_names_both_topics() {
    let subs = list_topic_subscriptions();
    assert_eq!(subs.len(), 2);
    assert_eq!(subs[0].pubsubname, "pubsub");
    assert_eq!(subs[0].topic, "user/user/created");
    assert_eq!(subs[0].route, "/on-topic-event");
    assert_eq!(subs[1].pubsubname, "pubsub");
    assert_eq!(subs[1].topic, "catalog/product-variant/created");
    assert_eq!(subs[1].route, "/on-topic-event");
}

#[test]
fn default_response_acknowledges() {
    let r = TopicEventResponse::default();
    assert_eq!(r.status, 0);
}
