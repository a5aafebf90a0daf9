//! Sort keys across sources.

use io_replica::change::ReplicaWriteOp;
use io_replica::collection::ReplicaCollectionId;
use io_replica::hub::{ReplicaHub, ReplicaSourceId};
use io_replica::placement::{
    ReplicaFlags, ReplicaHandle, ReplicaLevel, ReplicaLinkId, ReplicaPlacement, ReplicaSortKey,
    ReplicaStatus,
};

fn upsert(source: &str, key: &str) -> ReplicaWriteOp {
    let _ = source;
    ReplicaWriteOp::UpsertPlacement(ReplicaPlacement {
        collection: ReplicaCollectionId::from("inbox"),
        handle: ReplicaHandle::from("1"),
        link_id: Some(ReplicaLinkId::from("mid:a@host")),
        object: None,
        level: ReplicaLevel::Meta,
        meta: None,
        sort_key: ReplicaSortKey::from(key),
        flags: ReplicaFlags::default(),
        status: ReplicaStatus::Clean,
        conflict_revision: None,
        conflict_object: None,
        base: None,
        origin: None,
        ambiguous_handles: Vec::new(),
    })
}

#[test]
fn a_sort_key_round_trips_through_the_hub() {
    // a key absorbed from one source has to come back out when that
    // source is projected, or the storage below reads it as unknown
    // on every load
    let mut hub = ReplicaHub::default();
    let left = ReplicaSourceId::from("left");

    hub.absorb(&left, &[upsert("left", "2026-08-01T10:00:00Z")]);

    let projected = hub.project(&ReplicaCollectionId::from("inbox"), &left);
    assert_eq!(projected.len(), 1);
    assert_eq!(projected[0].sort_key.0, "2026-08-01T10:00:00Z");
}

#[test]
fn an_unknown_key_does_not_erase_a_known_one() {
    // a second source that has only probed the item carries no key,
    // and adopting it would un-sort an item the first source had
    // already placed
    let mut hub = ReplicaHub::default();
    let left = ReplicaSourceId::from("left");
    let right = ReplicaSourceId::from("right");

    hub.absorb(&left, &[upsert("left", "2026-08-01T10:00:00Z")]);
    hub.absorb(&right, &[upsert("right", "")]);

    let projected = hub.project(&ReplicaCollectionId::from("inbox"), &left);
    assert_eq!(projected[0].sort_key.0, "2026-08-01T10:00:00Z");
}

#[test]
fn a_later_derivation_replaces_an_earlier_one() {
    // a `Full` fetch knows more than an envelope did, so a real key
    // corrects a real key; only unknown is inert
    let mut hub = ReplicaHub::default();
    let left = ReplicaSourceId::from("left");

    hub.absorb(&left, &[upsert("left", "2026-08-01T10:00:00Z")]);
    hub.absorb(&left, &[upsert("left", "2026-08-02T09:00:00Z")]);

    let projected = hub.project(&ReplicaCollectionId::from("inbox"), &left);
    assert_eq!(projected[0].sort_key.0, "2026-08-02T09:00:00Z");
}
