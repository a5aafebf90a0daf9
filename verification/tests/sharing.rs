//! A change one source made, on its way to another.

use io_replica::change::{ReplicaChangeKind, ReplicaDropReason, ReplicaWriteOp};
use io_replica::collection::ReplicaCheckpoint;
use io_replica::coroutine::{ReplicaArg, ReplicaCoroutine, ReplicaCoroutineState, ReplicaYield};
use io_replica::hub::{ReplicaHub, ReplicaHubConflict, ReplicaSourceId};
use io_replica::object::ReplicaHash;
use io_replica::placement::{
    ReplicaBase, ReplicaFlags, ReplicaHandle, ReplicaLevel, ReplicaLinkId, ReplicaPlacement,
    ReplicaStatus,
};
use io_replica::remote::{ReplicaRemoteItem, ReplicaRemoteSnapshot};
use io_replica::storage::ReplicaLoaded;
use io_replica::sync::{ReplicaSync, ReplicaSyncOptions};

/// The item "m1" as a source's sync left it, clean at `body`.
fn clean(handle: &str, flags: &[&str], body: Option<&str>) -> ReplicaPlacement {
    ReplicaPlacement {
        collection: "inbox".into(),
        handle: ReplicaHandle::from(handle),
        link_id: Some(ReplicaLinkId::from("m1")),
        object: body.map(ReplicaHash::from),
        level: if body.is_some() {
            ReplicaLevel::Full
        } else {
            ReplicaLevel::Meta
        },
        meta: None,
        sort_key: Default::default(),
        flags: ReplicaFlags::from_names(flags),
        status: ReplicaStatus::Clean,
        conflict_revision: None,
        conflict_object: None,
        base: Some(ReplicaBase {
            flags: ReplicaFlags::from_names(flags),
            revision: Some("r1".into()),
            object: body.map(ReplicaHash::from),
        }),
        origin: None,
        ambiguous_handles: Vec::new(),
    }
}

fn absorb(hub: &mut ReplicaHub, source: &str, op: ReplicaWriteOp) {
    hub.absorb(&ReplicaSourceId::from(source), &[op]);
}

/// Both sources hold "m1" in agreement.
fn agreed(body: Option<&str>) -> ReplicaHub {
    let mut hub = ReplicaHub::default();
    let upsert = |handle| ReplicaWriteOp::UpsertPlacement(clean(handle, &["seen"], body));
    absorb(&mut hub, "left", upsert("l1"));
    absorb(&mut hub, "right", upsert("r1"));
    hub
}

fn projection(hub: &ReplicaHub, source: &str) -> Vec<ReplicaPlacement> {
    hub.project(&"inbox".into(), &ReplicaSourceId::from(source))
}

/// What the sync of a source asks for, its remote listing `items`.
fn synced(local: Vec<ReplicaPlacement>, items: Vec<ReplicaRemoteItem>) -> ReplicaYield {
    let mut sync = ReplicaSync::new("inbox", ReplicaSyncOptions::default());
    let _ = sync.resume(None);
    let _ = sync.resume(Some(ReplicaArg::Load(ReplicaLoaded {
        placements: local,
        checkpoint: None,
    })));
    let snapshot = ReplicaRemoteSnapshot {
        items,
        vanished: Vec::new(),
        complete: true,
        checkpoint: ReplicaCheckpoint(b"c".to_vec()),
    };
    match sync.resume(Some(ReplicaArg::Enumerate(snapshot))) {
        ReplicaCoroutineState::Yielded(wanted) => wanted,
        state => panic!("expected a yield, got {state:?}"),
    }
}

fn only_change(wanted: ReplicaYield) -> ReplicaChangeKind {
    match wanted {
        ReplicaYield::WantsPush { mut changes, .. } => {
            assert_eq!(changes.len(), 1);
            changes.remove(0).kind
        }
        wanted => panic!("expected WantsPush, got {wanted:?}"),
    }
}

/// The remote of a source, where nothing moved since it agreed.
fn unmoved(handle: &str) -> Vec<ReplicaRemoteItem> {
    vec![ReplicaRemoteItem {
        handle: ReplicaHandle::from(handle),
        flags: ReplicaFlags::from_names(&["seen"]),
        revision: Some("r1".into()),
    }]
}

#[test]
fn agreeing_sources_sync_without_a_push_or_a_fetch() {
    let hub = agreed(Some("h1"));
    for (source, handle) in [("left", "l1"), ("right", "r1")] {
        let local = projection(&hub, source);
        assert_eq!(local[0].status, ReplicaStatus::Clean);
        match synced(local, unmoved(handle)) {
            ReplicaYield::WantsWrite(ops) => assert_eq!(ops.len(), 1, "the checkpoint alone"),
            wanted => panic!("expected WantsWrite, got {wanted:?}"),
        }
    }
}

#[test]
fn a_flag_change_is_pushed_to_the_other_source() {
    let mut hub = agreed(Some("h1"));
    let change = clean("l1", &["seen", "flagged"], Some("h1"));
    absorb(&mut hub, "left", ReplicaWriteOp::UpsertPlacement(change));

    let wanted = synced(projection(&hub, "right"), unmoved("r1"));
    assert_eq!(
        only_change(wanted),
        ReplicaChangeKind::SetFlags {
            handle: ReplicaHandle::from("r1"),
            flags: ReplicaFlags::from_names(&["flagged", "seen"]),
        }
    );
}

#[test]
fn a_content_change_is_pushed_to_the_other_source() {
    let mut hub = agreed(Some("h1"));
    let change = clean("l1", &["seen"], Some("h2"));
    absorb(&mut hub, "left", ReplicaWriteOp::UpsertPlacement(change));

    let wanted = synced(projection(&hub, "right"), unmoved("r1"));
    assert_eq!(
        only_change(wanted),
        ReplicaChangeKind::Update {
            handle: ReplicaHandle::from("r1"),
            object: ReplicaHash::from("h2"),
            if_match: Some("r1".into()),
        }
    );
}

#[test]
fn a_delete_is_pushed_to_the_other_source_and_offered_to_no_third() {
    let mut hub = agreed(Some("h1"));
    absorb(
        &mut hub,
        "left",
        ReplicaWriteOp::DropPlacement {
            collection: "inbox".into(),
            handle: ReplicaHandle::from("l1"),
            reason: ReplicaDropReason::Deleted,
        },
    );

    assert!(projection(&hub, "left").is_empty());
    assert!(projection(&hub, "phone").is_empty());
    let wanted = synced(projection(&hub, "right"), unmoved("r1"));
    assert_eq!(
        only_change(wanted),
        ReplicaChangeKind::Remove {
            handle: ReplicaHandle::from("r1"),
            to: None,
            link_id: Some(ReplicaLinkId::from("m1")),
            if_match: Some("r1".into()),
        }
    );
}

#[test]
fn an_item_is_pushed_to_a_source_that_lacks_it_once_its_body_is_there() {
    let hub = agreed(None);
    assert!(projection(&hub, "phone").is_empty());

    let hub = agreed(Some("h1"));
    let wanted = synced(projection(&hub, "phone"), Vec::new());
    assert_eq!(
        only_change(wanted),
        ReplicaChangeKind::Add {
            handle: ReplicaHandle::from("m1\u{1}hub"),
            link_id: Some(ReplicaLinkId::from("m1")),
            flags: ReplicaFlags::from_names(&["seen"]),
            origin: None,
            object: Some(ReplicaHash::from("h1")),
        }
    );
}

#[test]
fn absorbing_what_was_projected_changes_no_shared_content() {
    let mut hub = agreed(Some("h1"));
    let before = hub.items.value_at(0).clone();
    let p = projection(&hub, "right").remove(0);
    absorb(&mut hub, "right", ReplicaWriteOp::UpsertPlacement(p));

    let after = hub.items.value_at(0);
    assert_eq!(after.flags, before.flags);
    assert_eq!(after.object, before.object);
    assert_eq!(after.level, before.level);
    assert!(!after.conflicted);
    assert_eq!(
        after.sources.get(&ReplicaSourceId::from("left")),
        before.sources.get(&ReplicaSourceId::from("left"))
    );
}

#[test]
fn a_source_editing_twice_never_conflicts_with_itself() {
    let mut hub = agreed(Some("h1"));
    assert_eq!(hub.conflict, ReplicaHubConflict::Manual);
    for body in ["h2", "h3", "h4"] {
        // edited offline: the base still holds what was last synced
        let mut edit = clean("l1", &["seen"], Some("h1"));
        edit.object = Some(ReplicaHash::from(body));
        edit.status = ReplicaStatus::Dirty;
        absorb(&mut hub, "left", ReplicaWriteOp::UpsertPlacement(edit));
        let item = hub.items.value_at(0);
        assert!(!item.conflicted);
        assert_eq!(item.object, Some(ReplicaHash::from(body)));
    }
}

#[test]
fn an_unlinked_placement_is_not_shared() {
    let mut hub = ReplicaHub::default();
    let mut probed = clean("l1", &[], None);
    probed.link_id = None;
    absorb(&mut hub, "left", ReplicaWriteOp::UpsertPlacement(probed));
    assert!(hub.items.is_empty());
}
