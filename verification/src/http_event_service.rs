//! Ingestion of domain events into the reference stores.
//!
//! Events arrive at least once and in no particular order. Handling one is:
//! decode the id, dispatch on the topic, upsert the stub. A redelivered id is
//! acknowledged like a first delivery; an undecodable id or an unknown topic
//! is rejected, never a crash, and leaves every store unchanged.

use vstd::prelude::*;
use vstd::string::StringExecFns;
use crate::errors::Error;
use crate::ids::{is_uuid_string, uuid_of_string, Uuid};
use crate::reference_store::{EntityKind, ReferenceStore};

verus! {

/// Data describing one pub/sub subscription of this service.
#[derive(Debug)]
pub struct Pubsub {
    /// Name of the pub/sub component.
    pub pubsubname: String,
    /// Topic to subscribe to.
    pub topic: String,
    /// Route events of the topic should be sent to.
    pub route: String,
}

/// Response data acknowledging an event.
#[derive(Debug)]
pub struct TopicEventResponse {
    /// Zero acknowledges the event.
    pub status: i32,
}

impl Default for TopicEventResponse {
    /// Default status is `0`, an acknowledgment.
    fn default() -> (r: Self)
        ensures
            r.status == 0,
    {
        TopicEventResponse { status: 0 }
    }
}

/// The entity kind a topic's events are stored under, if any.
pub open spec fn topic_kind(topic: Seq<char>) -> Option<EntityKind> {
    if topic == "catalog/product-variant/created"@ {
        Some(EntityKind::ProductVariant)
    } else if topic == "user/user/created"@ {
        Some(EntityKind::User)
    } else {
        None
    }
}

/// Reads an event's id field: present and a well-formed UUID string, or
/// `MalformedInput`.
pub fn parse_id(id_str: Option<&str>) -> (r: Result<Uuid, Error>)
    ensures
        match r {
            Ok(u) => id_str is Some && is_uuid_string(id_str.unwrap()@) && u == uuid_of_string(
                id_str.unwrap()@,
            ),
            Err(Error::MalformedInput) => id_str is None || !is_uuid_string(id_str.unwrap()@),
            Err(_) => false,
        },
{
    match id_str {
        Some(s) => match Uuid::parse_str(s) {
            Some(u) => Ok(u),
            None => Err(Error::MalformedInput),
        },
        None => Err(Error::MalformedInput),
    }
}

/// The topics this service subscribes to, each routed to the event endpoint.
pub fn list_topic_subscriptions() -> (r: Vec<Pubsub>)
    ensures
        r@.len() == 2,
        r@[0].pubsubname@ == "pubsub"@ && r@[0].topic@ == "user/user/created"@ && r@[0].route@
            == "/on-topic-event"@,
        r@[1].pubsubname@ == "pubsub"@ && r@[1].topic@ == "catalog/product-variant/created"@
            && r@[1].route@ == "/on-topic-event"@,
{
    let pubsub_user = Pubsub {
        pubsubname: String::from_str("pubsub"),
        topic: String::from_str("user/user/created"),
        route: String::from_str("/on-topic-event"),
    };
    let pubsub_product_variant = Pubsub {
        pubsubname: String::from_str("pubsub"),
        topic: String::from_str("catalog/product-variant/created"),
        route: String::from_str("/on-topic-event"),
    };
    let mut r: Vec<Pubsub> = Vec::new();
    r.push(pubsub_user);
    r.push(pubsub_product_variant);
    r
}

/// Handles one event: decode the id, dispatch on the topic, upsert the stub.
///
/// `Ok` acknowledges the event, also when the stub already existed. A missing
/// or malformed id and an unhandled topic are rejections; a rejection leaves
/// the stores unchanged, and redelivery is the transport's decision.
pub fn on_topic_event(refs: &mut ReferenceStore, topic: &str, id_str: Option<&str>) -> (r: Result<
    TopicEventResponse,
    Error,
>)
    requires
        old(refs).wf(),
    ensures
        final(refs).wf(),
        match r {
            Err(Error::MalformedInput) => (id_str is None || !is_uuid_string(id_str.unwrap()@))
                && *final(refs) == *old(refs),
            Err(Error::UnknownTopic) => id_str is Some && is_uuid_string(id_str.unwrap()@)
                && topic_kind(topic@) is None && *final(refs) == *old(refs),
            Ok(resp) => id_str is Some && is_uuid_string(id_str.unwrap()@) && topic_kind(topic@)
                is Some && resp.status == 0 && ({
                let k = topic_kind(topic@).unwrap();
                let id = uuid_of_string(id_str.unwrap()@);
                &&& final(refs).ids_of(k) == (if old(refs).has(k, id) {
                    old(refs).ids_of(k)
                } else {
                    old(refs).ids_of(k).push(id)
                })
                &&& (forall|k2: EntityKind| k2 != k ==> #[trigger] final(refs).ids_of(k2) == old(
                    refs,
                ).ids_of(k2))
            }),
            Err(_) => false,
        },
{
    let id = match parse_id(id_str) {
        Ok(u) => u,
        Err(e) => {
            return Err(e);
        },
    };
    let owned_topic: String = topic.to_owned();
    if owned_topic == String::from_str("catalog/product-variant/created") {
        self_upsert(refs, EntityKind::ProductVariant, id);
        Ok(TopicEventResponse { status: 0 })
    } else if owned_topic == String::from_str("user/user/created") {
        self_upsert(refs, EntityKind::User, id);
        Ok(TopicEventResponse { status: 0 })
    } else {
        Err(Error::UnknownTopic)
    }
}

/// Stores the stub, dropping the outcome: redelivery acknowledges alike.
fn self_upsert(refs: &mut ReferenceStore, kind: EntityKind, id: Uuid)
    requires
        old(refs).wf(),
    ensures
        final(refs).wf(),
        final(refs).ids_of(kind) == (if old(refs).has(kind, id) {
            old(refs).ids_of(kind)
        } else {
            old(refs).ids_of(kind).push(id)
        }),
        forall|k2: EntityKind| k2 != kind ==> #[trigger] final(refs).ids_of(k2) == old(
            refs,
        ).ids_of(k2),
{
    let _ = refs.upsert_if_absent(kind, id);
}

} // verus!
