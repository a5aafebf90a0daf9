//! The level a shared item can honestly claim.

use io_replica::change::ReplicaWriteOp;
use io_replica::collection::ReplicaCollectionId;
use io_replica::hub::{ReplicaHub, ReplicaSourceId};
use io_replica::object::ReplicaHash;
use io_replica::placement::{
    ReplicaBase, ReplicaFlags, ReplicaHandle, ReplicaLevel, ReplicaLinkId, ReplicaMeta,
    ReplicaPlacement, ReplicaSortKey, ReplicaStatus,
};

/// One source's placement of the same item, at the stated level and body.
fn upsert(level: ReplicaLevel, object: Option<&str>, base: Option<&str>) -> ReplicaWriteOp {
    ReplicaWriteOp::UpsertPlacement(ReplicaPlacement {
        collection: ReplicaCollectionId::from("contacts"),
        handle: ReplicaHandle::from("card-1.vcf"),
        link_id: Some(ReplicaLinkId::from("uid:card-1")),
        object: object.map(ReplicaHash::from),
        level,
        meta: Some(ReplicaMeta(String::from("{\"v\":1}"))),
        sort_key: ReplicaSortKey::default(),
        flags: ReplicaFlags::default(),
        status: ReplicaStatus::Clean,
        conflict_revision: None,
        conflict_object: None,
        base: Some(ReplicaBase {
            flags: ReplicaFlags::default(),
            revision: None,
            object: base.map(ReplicaHash::from),
        }),
        origin: None,
        ambiguous_handles: Vec::new(),
    })
}

#[test]
fn a_refreshed_item_stops_claiming_the_body_it_lost() {
    // the merge dropped the stale body, so the item is summarised
    // but no longer stored
    let mut hub = ReplicaHub::default();
    let left = ReplicaSourceId::from("left");

    hub.absorb(
        &left,
        &[upsert(ReplicaLevel::Full, Some("body1"), Some("body1"))],
    );
    hub.absorb(&left, &[upsert(ReplicaLevel::Probed, None, None)]);

    let item = &hub.items.get(&ReplicaLinkId::from("uid:card-1")).unwrap();
    assert_eq!(item.object, None, "the stale body is gone");
    assert_eq!(
        item.level,
        ReplicaLevel::Meta,
        "so the level cannot be Full"
    );

    let projected = hub.project(&ReplicaCollectionId::from("contacts"), &left);
    assert_eq!(projected[0].level, ReplicaLevel::Meta);
}

#[test]
fn a_body_less_item_stored_as_full_projects_below_it() {
    // an upgrade reads the projection, so this is what heals a store
    // written before the rule
    let mut hub = ReplicaHub::default();
    let left = ReplicaSourceId::from("left");

    hub.absorb(&left, &[upsert(ReplicaLevel::Full, Some("body1"), None)]);
    let item = hub
        .items
        .get_mut(&ReplicaLinkId::from("uid:card-1"))
        .expect("the absorbed item");
    item.object = None;
    item.level = ReplicaLevel::Full;

    let projected = hub.project(&ReplicaCollectionId::from("contacts"), &left);
    assert_eq!(projected[0].level, ReplicaLevel::Meta);
}

#[test]
fn a_stored_body_keeps_the_level_it_reached() {
    // the rule is the body's absence and nothing else
    let mut hub = ReplicaHub::default();
    let left = ReplicaSourceId::from("left");

    hub.absorb(&left, &[upsert(ReplicaLevel::Full, Some("body1"), None)]);

    let item = &hub.items.get(&ReplicaLinkId::from("uid:card-1")).unwrap();
    assert_eq!(item.level, ReplicaLevel::Full);
    assert_eq!(item.stored_level(), ReplicaLevel::Full);
}
