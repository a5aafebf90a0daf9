//! Sharing items across sources.

use io_replica::change::{ReplicaDropReason, ReplicaWriteOp};
use io_replica::hub::{
    ReplicaHub, ReplicaHubConflict, ReplicaHubItem, ReplicaSourceBinding, ReplicaSourceId,
};
use io_replica::object::ReplicaHash;
use io_replica::placement::{
    ReplicaBase, ReplicaFlags, ReplicaHandle, ReplicaLevel, ReplicaLinkId, ReplicaPlacement,
    ReplicaStatus,
};
use io_replica::sorted::ReplicaMap;

fn items_of(link: &str, item: ReplicaHubItem) -> ReplicaMap<ReplicaLinkId, ReplicaHubItem> {
    let mut items = ReplicaMap::new();
    items.insert(ReplicaLinkId::from(link), item);
    items
}

fn base(flags: &[&str]) -> ReplicaBase {
    ReplicaBase {
        flags: ReplicaFlags::from_names(flags),
        revision: None,
        object: None,
    }
}

/// A hub with one item on `left`, in sync at `Meta` with no body.
fn hub_with_left(flags: &[&str]) -> ReplicaHub {
    let mut sources = ReplicaMap::new();
    sources.insert(
        ReplicaSourceId::from("left"),
        ReplicaSourceBinding {
            handle: ReplicaHandle::from("l1"),
            base: Some(base(flags)),
            conflicted: false,
            conflict_revision: None,
            conflict_object: None,
            shared_object: None,
        },
    );
    let item = ReplicaHubItem {
        sort_key: Default::default(),
        flags: ReplicaFlags::from_names(flags),
        object: None,
        meta: None,
        level: ReplicaLevel::Meta,
        deleted: false,
        conflicted: false,
        conflict_object: None,
        sources,
    };
    ReplicaHub {
        items: items_of("m1", item),
        ..Default::default()
    }
}

fn placements(hub: &ReplicaHub, source: &str) -> Vec<ReplicaPlacement> {
    hub.project(&"inbox".into(), &ReplicaSourceId::from(source))
}

/// Binds `right` to the single item at the given base flags.
fn bind_right(hub: &mut ReplicaHub, flags: &[&str]) {
    hub.items
        .get_mut(&ReplicaLinkId::from("m1"))
        .unwrap()
        .sources
        .insert(
            ReplicaSourceId::from("right"),
            ReplicaSourceBinding {
                handle: ReplicaHandle::from("r1"),
                base: Some(base(flags)),
                conflicted: false,
                conflict_revision: None,
                conflict_object: None,
                shared_object: None,
            },
        );
}

/// Gives `link` a body on left's base as well as on the item, so it
/// projects `Full` and reads clean against that source.
fn hydrate_left(hub: &mut ReplicaHub, link: &str) {
    let item = hub.items.get_mut(&ReplicaLinkId::from(link)).unwrap();
    item.object = Some(ReplicaHash::from("body"));
    item.level = ReplicaLevel::Full;
    for i in 0..item.sources.len() {
        let binding = item.sources.value_mut(i);
        if let Some(base) = &mut binding.base {
            base.object = Some(ReplicaHash::from("body"));
        }
        binding.shared_object = Some(ReplicaHash::from("body"));
    }
}

/// The key the upgrade mints for left's second copy of `m1`.
fn minted_link() -> ReplicaLinkId {
    ReplicaLinkId::from("dup:m1#l2")
}

/// Adds left's second copy of `m1` as the separate item the upgrade
/// mints for it: its own key, its own handle, its own body.
fn mint_on_left(hub: &mut ReplicaHub) {
    let mut copy = hub.items.get(&ReplicaLinkId::from("m1")).unwrap().clone();
    copy.sources = ReplicaMap::new();
    copy.sources.insert(
        ReplicaSourceId::from("left"),
        ReplicaSourceBinding {
            handle: ReplicaHandle::from("l2"),
            base: Some(base(&["seen"])),
            conflicted: false,
            conflict_revision: None,
            conflict_object: None,
            shared_object: None,
        },
    );
    hub.items.insert(minted_link(), copy);
    hydrate_left(hub, minted_link().as_str());
}

#[test]
fn in_agreement_items_project_clean_without_a_body() {
    // the zero-bodies guardrail: an item both sides agree on
    // projects Clean, at its current level, with no object
    let mut hub = hub_with_left(&["seen"]);
    hub.items
        .get_mut(&ReplicaLinkId::from("m1"))
        .unwrap()
        .sources
        .insert(
            ReplicaSourceId::from("right"),
            ReplicaSourceBinding {
                handle: ReplicaHandle::from("r1"),
                base: Some(base(&["seen"])),
                conflicted: false,
                conflict_revision: None,
                conflict_object: None,
                shared_object: None,
            },
        );

    for source in ["left", "right"] {
        let projected = placements(&hub, source);
        assert_eq!(projected.len(), 1);
        assert_eq!(projected[0].status, ReplicaStatus::Clean);
        assert_ne!(projected[0].level, ReplicaLevel::Full);
        assert_eq!(projected[0].object, None, "no body demanded");
    }
}

#[test]
fn a_flag_change_absorbed_from_one_source_projects_dirty_on_the_other() {
    // left's server adds "seen", so absorbing left's write makes the
    // hub dirty against right's base and right's projection pushes it
    let mut hub = hub_with_left(&[]);
    hub.items
        .get_mut(&ReplicaLinkId::from("m1"))
        .unwrap()
        .sources
        .insert(
            ReplicaSourceId::from("right"),
            ReplicaSourceBinding {
                handle: ReplicaHandle::from("r1"),
                base: Some(base(&[])),
                conflicted: false,
                conflict_revision: None,
                conflict_object: None,
                shared_object: None,
            },
        );

    // left pulled "seen" from its server
    let mut pulled = placements(&hub, "left").pop().unwrap();
    pulled.flags = ReplicaFlags::from_names(&["seen"]);
    pulled.status = ReplicaStatus::Clean;
    pulled.base = Some(base(&["seen"]));
    hub.absorb(
        &ReplicaSourceId::from("left"),
        &[ReplicaWriteOp::UpsertPlacement(pulled)],
    );

    let right = placements(&hub, "right").pop().unwrap();
    assert!(right.flags.contains("seen"), "hub adopted left's change");
    assert_eq!(right.status, ReplicaStatus::Dirty, "right must push it");
    assert_eq!(
        right.base.unwrap().flags,
        ReplicaFlags::from_names(&[]),
        "right's base is untouched, so the merge pushes to right",
    );
}

#[test]
fn an_item_missing_on_a_source_projects_a_created_append_once_hydrated() {
    let mut hub = hub_with_left(&["seen"]);
    // hydrate the body, still only on left
    hub.items
        .get_mut(&ReplicaLinkId::from("m1"))
        .unwrap()
        .object = Some(ReplicaHash::from("h1"));
    hub.items.get_mut(&ReplicaLinkId::from("m1")).unwrap().level = ReplicaLevel::Full;

    let right = placements(&hub, "right");
    assert_eq!(right.len(), 1);
    assert_eq!(right[0].status, ReplicaStatus::Created);
    assert_eq!(right[0].object, Some(ReplicaHash::from("h1")));
    assert!(right[0].base.is_none());
}

#[test]
fn a_missing_item_without_a_body_is_not_projected_no_fetch() {
    // no body yet, so the append is not staged and nothing forces a
    // fetch
    let hub = hub_with_left(&["seen"]);
    assert!(placements(&hub, "right").is_empty());
}

#[test]
fn absorbing_a_drop_removes_only_that_sources_binding() {
    let mut hub = hub_with_left(&["seen"]);
    hub.items
        .get_mut(&ReplicaLinkId::from("m1"))
        .unwrap()
        .sources
        .insert(
            ReplicaSourceId::from("right"),
            ReplicaSourceBinding {
                handle: ReplicaHandle::from("r1"),
                base: Some(base(&["seen"])),
                conflicted: false,
                conflict_revision: None,
                conflict_object: None,
                shared_object: None,
            },
        );

    hub.absorb(
        &ReplicaSourceId::from("left"),
        &[ReplicaWriteOp::DropPlacement {
            collection: "inbox".into(),
            handle: ReplicaHandle::from("l1"),
            reason: ReplicaDropReason::Deleted,
        }],
    );

    let item = hub.items.get(&ReplicaLinkId::from("m1")).expect("kept");
    assert!(!item.sources.contains_key(&ReplicaSourceId::from("left")));
    assert!(item.sources.contains_key(&ReplicaSourceId::from("right")));
}

#[test]
fn a_minted_copy_is_offered_to_a_source_that_holds_neither() {
    // the hub reads no shape into a key, so the second copy of an
    // identity is a member like the first and travels like one
    let mut hub = hub_with_left(&["seen"]);
    hydrate_left(&mut hub, "m1");
    mint_on_left(&mut hub);

    let phone = placements(&hub, "phone");
    assert_eq!(phone.len(), 2, "both copies are offered: {phone:?}");
    for placement in &phone {
        assert_eq!(placement.status, ReplicaStatus::Created);
        assert_eq!(placement.object, Some(ReplicaHash::from("body")));
    }
    assert_eq!(
        placements(&hub, "left").len(),
        2,
        "and the source holding both projects both",
    );
}

#[test]
fn a_drop_of_a_minted_copy_deletes_only_that_copy() {
    // the two copies are two items, so removing one says nothing
    // about the other: the delete propagates for the copy that went
    // and for no other
    let mut hub = hub_with_left(&["seen"]);
    hydrate_left(&mut hub, "m1");
    mint_on_left(&mut hub);
    // right holds both copies too, so left's drop is a removal to
    // propagate rather than the last binding going
    bind_right(&mut hub, &["seen"]);
    hub.items.get_mut(&minted_link()).unwrap().sources.insert(
        ReplicaSourceId::from("right"),
        ReplicaSourceBinding {
            handle: ReplicaHandle::from("r2"),
            base: Some(base(&["seen"])),
            conflicted: false,
            conflict_revision: None,
            conflict_object: None,
            shared_object: None,
        },
    );

    hub.absorb(
        &ReplicaSourceId::from("left"),
        &[ReplicaWriteOp::DropPlacement {
            collection: "inbox".into(),
            handle: ReplicaHandle::from("l2"),
            reason: ReplicaDropReason::Deleted,
        }],
    );

    let minted = hub.items.get(&minted_link()).expect("kept");
    assert!(minted.deleted, "the copy that vanished is gone everywhere");
    let bare = hub.items.get(&ReplicaLinkId::from("m1")).expect("kept");
    assert!(!bare.deleted, "the copy nobody touched is untouched");

    let right = placements(&hub, "right");
    let status = |handle: &str| {
        right
            .iter()
            .find(|p| p.handle.as_str() == handle)
            .expect("right projects both copies")
            .status
    };
    assert_eq!(
        status("r2"),
        ReplicaStatus::Tombstone,
        "right removes the copy that went",
    );
    assert_ne!(
        status("r1"),
        ReplicaStatus::Tombstone,
        "and keeps the one that did not",
    );
}

#[test]
fn a_superseded_row_does_not_delete_the_shared_item() {
    // a placeholder reconciled to its assigned handle, or a spine
    // rebuilt onto a new handle space, drops a row without the item
    // going anywhere
    let mut hub = hub_with_left(&["seen"]);
    bind_right(&mut hub, &["seen"]);

    hub.absorb(
        &ReplicaSourceId::from("left"),
        &[ReplicaWriteOp::DropPlacement {
            collection: "inbox".into(),
            handle: ReplicaHandle::from("l1"),
            reason: ReplicaDropReason::Superseded,
        }],
    );

    let item = hub.items.get(&ReplicaLinkId::from("m1")).expect("kept");
    assert!(!item.deleted, "no delete propagates");
    let right = placements(&hub, "right");
    assert_eq!(right[0].status, ReplicaStatus::Clean, "right is untouched");
}

#[test]
fn a_delete_on_one_source_projects_a_tombstone_on_the_other() {
    let mut hub = hub_with_left(&["seen"]);
    bind_right(&mut hub, &["seen"]);

    // left's server expunged the item, so the engine drops it there
    hub.absorb(
        &ReplicaSourceId::from("left"),
        &[ReplicaWriteOp::DropPlacement {
            collection: "inbox".into(),
            handle: ReplicaHandle::from("l1"),
            reason: ReplicaDropReason::Deleted,
        }],
    );

    let item = hub.items.get(&ReplicaLinkId::from("m1")).expect("kept");
    assert!(item.deleted, "the delete is recorded");
    assert!(!item.sources.contains_key(&ReplicaSourceId::from("left")));

    // right still holds it, so it projects a Tombstone
    let right = placements(&hub, "right");
    assert_eq!(right.len(), 1);
    assert_eq!(right[0].status, ReplicaStatus::Tombstone);
    assert_eq!(right[0].handle.as_str(), "r1");
    assert!(
        right[0].base.is_some(),
        "based, so the engine pushes a remove"
    );
    // left no longer holds it, so it projects nothing rather than a
    // re-copy
    assert!(placements(&hub, "left").is_empty());
}

#[test]
fn a_client_staged_tombstone_upsert_marks_deleted_and_keeps_the_binding() {
    // a Remove, or a Move's source side, stages a Tombstone upsert
    // rather than a drop: absorbing it marks the item deleted while
    // keeping the binding, so the projection pushes the remove
    let mut hub = hub_with_left(&["seen"]);

    let mut tombstone = placements(&hub, "left").pop().unwrap();
    tombstone.status = ReplicaStatus::Tombstone;
    hub.absorb(
        &ReplicaSourceId::from("left"),
        &[ReplicaWriteOp::UpsertPlacement(tombstone)],
    );

    let item = hub.items.get(&ReplicaLinkId::from("m1")).expect("kept");
    assert!(item.deleted, "the staged delete is recorded");
    assert!(
        item.sources.contains_key(&ReplicaSourceId::from("left")),
        "the binding is kept so the projection knows the remote handle",
    );

    let left = placements(&hub, "left");
    assert_eq!(left.len(), 1);
    assert_eq!(left[0].status, ReplicaStatus::Tombstone);
    assert_eq!(left[0].handle.as_str(), "l1");
    assert!(
        left[0].base.is_some(),
        "based, so the engine pushes a remove"
    );
}

#[test]
fn a_deleted_item_is_pruned_once_every_source_propagates() {
    let mut hub = hub_with_left(&["seen"]);
    bind_right(&mut hub, &["seen"]);

    for (source, handle) in [("left", "l1"), ("right", "r1")] {
        hub.absorb(
            &ReplicaSourceId::from(source),
            &[ReplicaWriteOp::DropPlacement {
                collection: "inbox".into(),
                handle: ReplicaHandle::from(handle),
                reason: ReplicaDropReason::Deleted,
            }],
        );
    }

    assert!(hub.items.is_empty(), "no source holds it, so it is pruned");
}

#[test]
fn a_live_upsert_resurrects_a_delete_in_flight() {
    let mut hub = hub_with_left(&["seen"]);
    bind_right(&mut hub, &["seen"]);

    // right deletes it
    hub.absorb(
        &ReplicaSourceId::from("right"),
        &[ReplicaWriteOp::DropPlacement {
            collection: "inbox".into(),
            handle: ReplicaHandle::from("r1"),
            reason: ReplicaDropReason::Deleted,
        }],
    );
    assert!(hub.items.get(&ReplicaLinkId::from("m1")).unwrap().deleted);

    // left's server had edited it, so edit-beats-delete resurrects it
    // as a live upsert rather than pushing the delete
    let mut pulled = ReplicaPlacement {
        sort_key: Default::default(),
        collection: "inbox".into(),
        handle: ReplicaHandle::from("l1"),
        link_id: Some(ReplicaLinkId::from("m1")),
        object: None,
        level: ReplicaLevel::Meta,
        meta: None,
        flags: ReplicaFlags::from_names(&["seen", "flagged"]),
        status: ReplicaStatus::Clean,
        conflict_revision: None,
        conflict_object: None,
        base: Some(base(&["seen", "flagged"])),
        origin: None,
        ambiguous_handles: Vec::new(),
    };
    hub.absorb(
        &ReplicaSourceId::from("left"),
        &[ReplicaWriteOp::UpsertPlacement(pulled.clone())],
    );

    let item = hub
        .items
        .get(&ReplicaLinkId::from("m1"))
        .expect("resurrected");
    assert!(!item.deleted, "a live upsert clears the delete");
    assert!(item.flags.contains("flagged"));
    // right lacks it now, so it projects a Created copy
    pulled.object = Some(ReplicaHash::from("h1"));
    hub.items
        .get_mut(&ReplicaLinkId::from("m1"))
        .unwrap()
        .object = Some(ReplicaHash::from("h1"));
    assert_eq!(
        placements(&hub, "right")[0].status,
        ReplicaStatus::Created,
        "the resurrected item copies back to right",
    );
}

/// A hub with one mutable item, body `o0`, held by left and right
/// and last-synced against it.
fn content_hub(policy: ReplicaHubConflict) -> ReplicaHub {
    let based = |handle: &str| ReplicaSourceBinding {
        handle: ReplicaHandle::from(handle),
        base: Some(ReplicaBase {
            flags: ReplicaFlags::default(),
            revision: Some("r0".into()),
            object: Some(ReplicaHash::from("o0")),
        }),
        conflicted: false,
        conflict_revision: None,
        conflict_object: None,
        shared_object: Some(ReplicaHash::from("o0")),
    };
    let mut sources = ReplicaMap::new();
    sources.insert(ReplicaSourceId::from("left"), based("l1"));
    sources.insert(ReplicaSourceId::from("right"), based("r1"));
    let item = ReplicaHubItem {
        sort_key: Default::default(),
        flags: ReplicaFlags::default(),
        object: Some(ReplicaHash::from("o0")),
        meta: None,
        level: ReplicaLevel::Full,
        deleted: false,
        conflicted: false,
        conflict_object: None,
        sources,
    };
    ReplicaHub {
        items: items_of("m1", item),
        conflict: policy,
    }
}

/// An upsert write for the shared item from `handle`, carrying `object`.
fn content_upsert(handle: &str, object: &str) -> ReplicaWriteOp {
    ReplicaWriteOp::UpsertPlacement(ReplicaPlacement {
        sort_key: Default::default(),
        collection: "inbox".into(),
        handle: ReplicaHandle::from(handle),
        link_id: Some(ReplicaLinkId::from("m1")),
        object: Some(ReplicaHash::from(object)),
        level: ReplicaLevel::Full,
        meta: None,
        flags: ReplicaFlags::default(),
        status: ReplicaStatus::Clean,
        conflict_revision: None,
        conflict_object: None,
        base: Some(ReplicaBase {
            flags: ReplicaFlags::default(),
            revision: Some("r1".into()),
            object: Some(ReplicaHash::from(object)),
        }),
        origin: None,
        ambiguous_handles: Vec::new(),
    })
}

/// An offline edit of the shared item from `handle`, which is the
/// shape a local mutation leaves: the new body against the base last
/// synced with the source's own remote, which an edit never moves.
fn edited_upsert(handle: &str, object: &str) -> ReplicaWriteOp {
    let ReplicaWriteOp::UpsertPlacement(mut placement) = content_upsert(handle, object) else {
        unreachable!()
    };

    placement.status = ReplicaStatus::Dirty;
    placement.base = Some(ReplicaBase {
        flags: ReplicaFlags::default(),
        revision: Some("r0".into()),
        object: Some(ReplicaHash::from("o0")),
    });
    ReplicaWriteOp::UpsertPlacement(placement)
}

fn item_object(hub: &ReplicaHub) -> Option<ReplicaHash> {
    hub.items
        .get(&ReplicaLinkId::from("m1"))
        .unwrap()
        .object
        .clone()
}

#[test]
fn a_clean_fast_forward_adopts_the_new_body() {
    // only left edited since both agreed on o0, so the body is
    // adopted with no conflict
    let mut hub = content_hub(ReplicaHubConflict::Manual);
    hub.absorb(
        &ReplicaSourceId::from("left"),
        &[content_upsert("l1", "oa")],
    );
    assert_eq!(item_object(&hub), Some(ReplicaHash::from("oa")));
    assert!(
        !hub.items
            .get(&ReplicaLinkId::from("m1"))
            .unwrap()
            .conflicted
    );
}

#[test]
fn a_second_offline_edit_is_not_a_divergence() {
    // one source bound and no second source anywhere: the first edit
    // moves the shared body ahead of the sync base, which is the gap
    // another source folding in leaves, and the second edit arriving
    // over it must not read as the two disagreeing
    let mut hub = content_hub(ReplicaHubConflict::Manual);
    let left = ReplicaSourceId::from("left");
    hub.items
        .get_mut(&ReplicaLinkId::from("m1"))
        .unwrap()
        .sources
        .remove(&ReplicaSourceId::from("right"));

    hub.absorb(&left, &[edited_upsert("l1", "o1")]);
    hub.absorb(&left, &[edited_upsert("l1", "o2")]);

    let item = hub.items.get(&ReplicaLinkId::from("m1")).unwrap();
    assert_eq!(
        item.object,
        Some(ReplicaHash::from("o2")),
        "the second edit is the shared body"
    );
    assert!(!item.conflicted, "a source cannot disagree with itself");
    assert_eq!(item.conflict_object, None, "so nothing diverges from it");
}

#[test]
fn a_divergence_between_unpushed_edits_still_conflicts() {
    // the two edits leave the same gap between base and shared body
    // that a source's own second edit does, and telling one from the
    // other is the whole point: this one is two sources disagreeing
    let mut hub = content_hub(ReplicaHubConflict::Manual);
    hub.absorb(&ReplicaSourceId::from("left"), &[edited_upsert("l1", "oa")]);
    hub.absorb(
        &ReplicaSourceId::from("right"),
        &[edited_upsert("r1", "ob")],
    );

    let item = hub.items.get(&ReplicaLinkId::from("m1")).unwrap();
    assert!(item.conflicted, "the divergence is detected");
    assert_eq!(
        item.object,
        Some(ReplicaHash::from("oa")),
        "the shared body is kept"
    );
    assert_eq!(
        item.conflict_object,
        Some(ReplicaHash::from("ob")),
        "and the diverging one preserved"
    );
}

#[test]
fn divergent_content_conflicts_and_preserves_both_manual() {
    // left edited to oa, then right to ob against the old o0 base:
    // both moved, so Manual flags it and records ob, keeping oa
    let mut hub = content_hub(ReplicaHubConflict::Manual);
    hub.absorb(
        &ReplicaSourceId::from("left"),
        &[content_upsert("l1", "oa")],
    );
    hub.absorb(
        &ReplicaSourceId::from("right"),
        &[content_upsert("r1", "ob")],
    );

    let item = hub.items.get(&ReplicaLinkId::from("m1")).unwrap();
    assert!(item.conflicted, "the divergence is detected");
    assert_eq!(
        item.object,
        Some(ReplicaHash::from("oa")),
        "the shared body is kept"
    );
    assert_eq!(
        item.conflict_object,
        Some(ReplicaHash::from("ob")),
        "the diverging body is preserved for resolution",
    );
}

#[test]
fn prefer_incoming_takes_the_last_writer() {
    let mut hub = content_hub(ReplicaHubConflict::PreferIncoming);
    hub.absorb(
        &ReplicaSourceId::from("left"),
        &[content_upsert("l1", "oa")],
    );
    hub.absorb(
        &ReplicaSourceId::from("right"),
        &[content_upsert("r1", "ob")],
    );

    let item = hub.items.get(&ReplicaLinkId::from("m1")).unwrap();
    assert!(!item.conflicted);
    assert_eq!(
        item.object,
        Some(ReplicaHash::from("ob")),
        "last writer wins"
    );
}

#[test]
fn prefer_existing_keeps_the_shared_body() {
    let mut hub = content_hub(ReplicaHubConflict::PreferExisting);
    hub.absorb(
        &ReplicaSourceId::from("left"),
        &[content_upsert("l1", "oa")],
    );
    hub.absorb(
        &ReplicaSourceId::from("right"),
        &[content_upsert("r1", "ob")],
    );

    let item = hub.items.get(&ReplicaLinkId::from("m1")).unwrap();
    assert!(!item.conflicted);
    assert_eq!(
        item.object,
        Some(ReplicaHash::from("oa")),
        "the shared body is kept"
    );
}

/// A conflicted upsert for the shared item from `handle`, carrying
/// the local body, the remote revision the merge observed and the
/// diverging body an upgrade supplied for it.
fn conflicted_upsert(handle: &str, object: &str, revision: &str) -> ReplicaWriteOp {
    ReplicaWriteOp::UpsertPlacement(ReplicaPlacement {
        sort_key: Default::default(),
        collection: "inbox".into(),
        handle: ReplicaHandle::from(handle),
        link_id: Some(ReplicaLinkId::from("m1")),
        object: Some(ReplicaHash::from(object)),
        level: ReplicaLevel::Full,
        meta: None,
        flags: ReplicaFlags::default(),
        status: ReplicaStatus::Conflict,
        conflict_revision: Some(revision.into()),
        conflict_object: Some(ReplicaHash::from("o-remote")),
        base: Some(ReplicaBase {
            flags: ReplicaFlags::default(),
            revision: Some("r0".into()),
            object: Some(ReplicaHash::from("o0")),
        }),
        origin: None,
        ambiguous_handles: Vec::new(),
    })
}

#[test]
fn a_conflicted_placement_round_trips_with_its_diverging_body() {
    // the merge marks a placement Conflict and records the remote
    // revision it saw and the body at it, and all three must come
    // back out: read back as Dirty, the engine would re-derive the
    // rejected push and re-conflict on every run without converging,
    // and a lost body would send the resolver to the network
    let mut hub = content_hub(ReplicaHubConflict::Manual);
    hub.absorb(
        &ReplicaSourceId::from("left"),
        &[conflicted_upsert("l1", "o-local", "r-remote")],
    );

    let projected = placements(&hub, "left");
    assert_eq!(projected.len(), 1);
    assert_eq!(projected[0].status, ReplicaStatus::Conflict);
    assert_eq!(
        projected[0].object,
        Some(ReplicaHash::from("o-local")),
        "the local side of the divergence is the shared body"
    );
    assert_eq!(
        projected[0].conflict_revision.as_deref(),
        Some("r-remote"),
        "the observed remote revision is what a resolver merges against"
    );
    assert_eq!(
        projected[0].conflict_object,
        Some(ReplicaHash::from("o-remote")),
        "the diverging body comes back with the revision it describes"
    );
}

#[test]
fn a_conflict_outranks_the_base_comparison() {
    // a matching base would otherwise project Clean, silently losing
    // the conflict, and a diverging one Dirty, re-deriving the
    // rejected push
    let mut hub = content_hub(ReplicaHubConflict::Manual);
    hub.absorb(
        &ReplicaSourceId::from("left"),
        &[conflicted_upsert("l1", "o0", "r-remote")],
    );

    let binding =
        hub.items.get(&ReplicaLinkId::from("m1")).unwrap().sources.get(&ReplicaSourceId::from("left")).unwrap().clone();
    assert!(binding.conflicted);
    // the base equals the shared content, so the Clean branch would
    // win without the conflict check
    assert_eq!(
        binding.base.as_ref().and_then(|b| b.object.clone()),
        hub.items.get(&ReplicaLinkId::from("m1")).unwrap().object
    );
    assert_eq!(placements(&hub, "left")[0].status, ReplicaStatus::Conflict);
}

#[test]
fn resolving_the_conflict_with_an_edit_clears_it() {
    // the consumer's edit arrives as an ordinary upsert, and any
    // status but Conflict clears the binding
    let mut hub = content_hub(ReplicaHubConflict::Manual);
    let left = ReplicaSourceId::from("left");
    hub.absorb(&left, &[conflicted_upsert("l1", "o-local", "r-remote")]);
    assert_eq!(placements(&hub, "left")[0].status, ReplicaStatus::Conflict);

    hub.absorb(&left, &[edited_upsert("l1", "o-merged")]);

    let item = hub.items.get(&ReplicaLinkId::from("m1")).unwrap().clone();
    assert_eq!(
        item.object,
        Some(ReplicaHash::from("o-merged")),
        "the merged body is the shared body, or the next run pushes the unmerged one"
    );

    let binding = item.sources.get(&left).unwrap().clone();
    assert!(!binding.conflicted);
    assert_eq!(
        binding.conflict_revision, None,
        "a resolved binding must not carry a stale revision forward"
    );
    assert_eq!(
        binding.conflict_object, None,
        "nor the body that revision named"
    );
    assert_ne!(placements(&hub, "left")[0].status, ReplicaStatus::Conflict);
}

#[test]
fn the_two_conflict_axes_stay_independent() {
    // a source-vs-its-own-remote conflict and a cross-source one are
    // different facts, and neither may leak into the other's flag
    let mut hub = content_hub(ReplicaHubConflict::Manual);
    let link = ReplicaLinkId::from("m1");

    // left conflicts with its own server: the binding is marked, the
    // item's cross-source flag is not
    hub.absorb(
        &ReplicaSourceId::from("left"),
        &[conflicted_upsert("l1", "o-local", "r-remote")],
    );
    assert!(hub.items.get(&link).unwrap().sources.get(&ReplicaSourceId::from("left")).unwrap().conflicted);
    assert!(
        !hub.items.get(&link).unwrap().conflicted,
        "a per-source conflict is not a cross-source one"
    );

    // right's binding is untouched by left's conflict
    assert!(!hub.items.get(&link).unwrap().sources.get(&ReplicaSourceId::from("right")).unwrap().conflicted);
    assert_eq!(placements(&hub, "right")[0].status, ReplicaStatus::Dirty);

    // a genuine cross-source divergence: the item is flagged, and
    // right's own binding is not
    let mut hub = content_hub(ReplicaHubConflict::Manual);
    hub.absorb(
        &ReplicaSourceId::from("left"),
        &[content_upsert("l1", "o-l")],
    );
    hub.absorb(
        &ReplicaSourceId::from("right"),
        &[content_upsert("r1", "o-r")],
    );
    assert!(hub.items.get(&link).unwrap().conflicted);
    assert_eq!(
        hub.items.get(&link).unwrap().conflict_object,
        Some(ReplicaHash::from("o-r"))
    );
    assert!(
        !hub.items.get(&link).unwrap().sources.get(&ReplicaSourceId::from("right")).unwrap().conflicted,
        "a cross-source conflict is not a per-source one"
    );
}

#[test]
fn a_tombstone_is_never_conflicted() {
    // the tombstone path takes the same binding constructor, and a
    // staged delete must not inherit a stale conflict
    let mut hub = content_hub(ReplicaHubConflict::Manual);
    let left = ReplicaSourceId::from("left");
    hub.absorb(&left, &[conflicted_upsert("l1", "o-local", "r-remote")]);

    let mut tombstone = match content_upsert("l1", "o0") {
        ReplicaWriteOp::UpsertPlacement(p) => p,
        _ => unreachable!(),
    };
    tombstone.status = ReplicaStatus::Tombstone;
    hub.absorb(&left, &[ReplicaWriteOp::UpsertPlacement(tombstone)]);

    let item = hub.items.get(&ReplicaLinkId::from("m1")).unwrap().clone();
    assert_eq!(
        item.object,
        Some(ReplicaHash::from("o-local")),
        "a staged delete adopts no content"
    );

    let binding = item.sources.get(&left).unwrap().clone();
    assert!(!binding.conflicted);
    assert_eq!(binding.conflict_revision, None);
    assert_eq!(binding.conflict_object, None);
}

#[test]
fn a_tombstone_does_not_move_the_agreement_point() {
    // a staged delete adopts no body, so it says nothing about what
    // its source agreed with: reading it as agreement would have
    // right's later edit fast-forward over left's body
    let mut hub = content_hub(ReplicaHubConflict::Manual);
    let right = ReplicaSourceId::from("right");
    hub.absorb(&ReplicaSourceId::from("left"), &[edited_upsert("l1", "oa")]);

    let ReplicaWriteOp::UpsertPlacement(mut tombstone) = edited_upsert("r1", "o0") else {
        unreachable!()
    };
    tombstone.status = ReplicaStatus::Tombstone;
    hub.absorb(&right, &[ReplicaWriteOp::UpsertPlacement(tombstone)]);
    hub.absorb(&right, &[edited_upsert("r1", "ob")]);

    let item = hub.items.get(&ReplicaLinkId::from("m1")).unwrap();
    assert!(item.conflicted, "right never saw left's body");
    assert_eq!(item.object, Some(ReplicaHash::from("oa")));
    assert_eq!(item.conflict_object, Some(ReplicaHash::from("ob")));
}
