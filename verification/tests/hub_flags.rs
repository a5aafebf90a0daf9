//! Unknown flag sets across sources.

use io_replica::change::ReplicaWriteOp;
use io_replica::collection::ReplicaCollectionId;
use io_replica::hub::{ReplicaHub, ReplicaSourceId};
use io_replica::placement::{
    ReplicaFlags, ReplicaHandle, ReplicaLevel, ReplicaLinkId, ReplicaPlacement, ReplicaSortKey,
    ReplicaStatus,
};

fn upsert(flags: ReplicaFlags) -> ReplicaWriteOp {
    ReplicaWriteOp::UpsertPlacement(ReplicaPlacement {
        collection: ReplicaCollectionId::from("inbox"),
        handle: ReplicaHandle::from("1"),
        link_id: Some(ReplicaLinkId::from("mid:a@host")),
        object: None,
        level: ReplicaLevel::Meta,
        meta: None,
        sort_key: ReplicaSortKey::default(),
        flags,
        status: ReplicaStatus::Clean,
        conflict_revision: None,
        conflict_object: None,
        base: None,
        origin: None,
        ambiguous_handles: Vec::new(),
    })
}

#[test]
fn an_unknown_set_does_not_erase_a_known_one() {
    // a second source that has only probed the item must not clear
    // the markers the first one read
    let mut hub = ReplicaHub::default();
    let left = ReplicaSourceId::from("left");
    let right = ReplicaSourceId::from("right");

    hub.absorb(&left, &[upsert(ReplicaFlags::from_names(&["seen"]))]);
    hub.absorb(&right, &[upsert(ReplicaFlags::Unknown)]);

    let projected = hub.project(&ReplicaCollectionId::from("inbox"), &left);
    assert!(projected[0].flags.contains("seen"));
}

#[test]
fn a_known_set_replaces_an_unknown_one() {
    // only unknown is inert: a deliberate clearing is a real set and
    // corrects another
    let mut hub = ReplicaHub::default();
    let left = ReplicaSourceId::from("left");

    hub.absorb(&left, &[upsert(ReplicaFlags::Unknown)]);
    hub.absorb(&left, &[upsert(ReplicaFlags::from_names(&["seen"]))]);
    let projected = hub.project(&ReplicaCollectionId::from("inbox"), &left);
    assert!(projected[0].flags.contains("seen"));

    hub.absorb(&left, &[upsert(ReplicaFlags::default())]);
    let projected = hub.project(&ReplicaCollectionId::from("inbox"), &left);
    assert_eq!(projected[0].flags, ReplicaFlags::default());
}
