//! Rebuilding onto a new handle space.

use io_replica::change::ReplicaWriteOp;
use io_replica::collection::ReplicaCheckpoint;
use io_replica::coroutine::{ReplicaArg, ReplicaCoroutine, ReplicaCoroutineState, ReplicaYield};
use io_replica::object::ReplicaHash;
use io_replica::placement::{
    ReplicaBase, ReplicaFlags, ReplicaHandle, ReplicaLevel, ReplicaLinkId, ReplicaMeta,
    ReplicaOrigin, ReplicaPlacement, ReplicaStatus,
};
use io_replica::rekey::{ReplicaRekey, ReplicaRekeyError, ReplicaRekeyReport};
use io_replica::remote::{ReplicaFetchedItem, ReplicaRemoteItem, ReplicaRemoteSnapshot, ReplicaTier};
use io_replica::storage::ReplicaLoaded;

/// An old-spine placement, synced clean at base `flags`.
fn synced(handle: &str, link: &str, flags: &[&str]) -> ReplicaPlacement {
    ReplicaPlacement {
        sort_key: Default::default(),
        collection: "inbox".into(),
        handle: ReplicaHandle::from(handle),
        link_id: Some(ReplicaLinkId::from(link)),
        object: None,
        level: ReplicaLevel::Meta,
        meta: Some(ReplicaMeta("row".into())),
        flags: ReplicaFlags::from_names(flags),
        status: ReplicaStatus::Clean,
        conflict_revision: None,
        base: Some(ReplicaBase {
            flags: ReplicaFlags::from_names(flags),
            revision: None,
            object: None,
        }),
        origin: None,
        ambiguous_handles: Vec::new(),
        conflict_object: None,
    }
}

fn item(handle: &str, flags: &[&str]) -> ReplicaRemoteItem {
    ReplicaRemoteItem {
        handle: ReplicaHandle::from(handle),
        flags: ReplicaFlags::from_names(flags),
        revision: None,
    }
}

fn fetched(handle: &str, link: &str) -> ReplicaFetchedItem {
    ReplicaFetchedItem {
        sort_key: Default::default(),
        handle: ReplicaHandle::from(handle),
        link_id: ReplicaLinkId::from(link),
        meta: ReplicaMeta("fresh row".into()),
        body: None,
        revision: None,
    }
}

/// Runs a rekey to completion over the given old spine, new spine and
/// meta replies, returning the writes and the report.
fn run(
    old: Vec<ReplicaPlacement>,
    items: Vec<ReplicaRemoteItem>,
    metas: Vec<ReplicaFetchedItem>,
) -> (Vec<ReplicaWriteOp>, ReplicaRekeyReport) {
    let mut rekey = ReplicaRekey::new("inbox");
    let _ = rekey.resume(None);
    let _ = rekey.resume(Some(ReplicaArg::Load(ReplicaLoaded {
        placements: old,
        checkpoint: None,
    })));

    let snapshot = ReplicaRemoteSnapshot {
        items,
        vanished: Vec::new(),
        complete: true,
        checkpoint: ReplicaCheckpoint(b"v2".to_vec()),
    };
    let writes = match rekey.resume(Some(ReplicaArg::Enumerate(snapshot))) {
        ReplicaCoroutineState::Yielded(ReplicaYield::WantsFetch { tier, .. }) => {
            assert_eq!(tier, ReplicaTier::Meta);
            match rekey.resume(Some(ReplicaArg::Fetch(metas))) {
                ReplicaCoroutineState::Yielded(ReplicaYield::WantsWrite(w)) => w,
                state => panic!("expected WantsWrite, got {state:?}"),
            }
        }
        ReplicaCoroutineState::Yielded(ReplicaYield::WantsWrite(w)) => w,
        state => panic!("expected fetch or write, got {state:?}"),
    };

    let report = match rekey.resume(Some(ReplicaArg::Write)) {
        ReplicaCoroutineState::Complete(Ok(report)) => report,
        state => panic!("expected Complete(Ok), got {state:?}"),
    };
    (writes, report)
}

fn upserted<'a>(writes: &'a [ReplicaWriteOp], handle: &str) -> Option<&'a ReplicaPlacement> {
    writes.iter().find_map(|w| match w {
        ReplicaWriteOp::UpsertPlacement(p) if p.handle.as_str() == handle => Some(p),
        _ => None,
    })
}

#[test]
fn a_pending_flag_delta_survives_the_bump() {
    // The old placement had staged "flagged" on top of a "seen" base;
    // the new handle re-derives that delta against the new base.
    let mut old = synced("1", "msg-a", &["seen"]);
    old.flags = ReplicaFlags::from_names(&["seen", "flagged"]);
    old.status = ReplicaStatus::Dirty;

    let (writes, report) = run(
        vec![old],
        vec![item("101", &["seen"])],
        vec![fetched("101", "msg-a")],
    );

    assert_eq!(report.rekeyed, 1);
    assert_eq!(report.dropped, 0);
    assert!(
        writes.iter().any(
            |w| matches!(w, ReplicaWriteOp::DropPlacement { handle, .. } if handle.as_str() == "1")
        ),
        "the old handle is dropped: {writes:?}",
    );
    let carried = upserted(&writes, "101").expect("a carried placement");
    assert_eq!(
        carried.status,
        ReplicaStatus::Dirty,
        "the delta stays pending"
    );
    assert!(carried.flags.contains("flagged"));
    let base = carried.base.as_ref().expect("a base");
    assert!(base.flags.contains("seen") && !base.flags.contains("flagged"));
}

#[test]
fn a_tombstone_survives_with_its_destination() {
    let mut old = synced("1", "msg-a", &["seen"]);
    old.status = ReplicaStatus::Tombstone;
    old.origin = Some(ReplicaOrigin {
        collection: "archive".into(),
        handle: ReplicaHandle::from("1"),
    });

    let (writes, report) = run(
        vec![old],
        vec![item("101", &["seen"])],
        vec![fetched("101", "msg-a")],
    );

    assert_eq!(report.rekeyed, 1);
    let carried = upserted(&writes, "101").expect("a carried placement");
    assert_eq!(carried.status, ReplicaStatus::Tombstone);
    assert_eq!(
        carried.origin.as_ref().expect("a move target").collection,
        "archive".into(),
    );
}

#[test]
fn a_staged_edit_survives_with_its_body() {
    let mut old = synced("1", "msg-a", &[]);
    old.object = Some(ReplicaHash::from("h2"));
    old.level = ReplicaLevel::Full;
    old.status = ReplicaStatus::Dirty;

    let (writes, report) = run(
        vec![old],
        vec![item("101", &[])],
        vec![fetched("101", "msg-a")],
    );

    assert_eq!(report.rekeyed, 1);
    let carried = upserted(&writes, "101").expect("a carried placement");
    assert_eq!(carried.status, ReplicaStatus::Dirty);
    assert_eq!(
        carried.object,
        Some(ReplicaHash::from("h2")),
        "the body survives"
    );
    assert_eq!(carried.level, ReplicaLevel::Full, "the cache survives");
}

#[test]
fn a_clean_cache_carries_over_without_pending_state() {
    let mut old = synced("1", "msg-a", &["seen"]);
    old.object = Some(ReplicaHash::from("h1"));
    old.base.as_mut().expect("a base").object = Some(ReplicaHash::from("h1"));
    old.level = ReplicaLevel::Full;

    let (writes, report) = run(
        vec![old],
        vec![item("101", &["seen"])],
        vec![fetched("101", "msg-a")],
    );

    assert_eq!(report.rekeyed, 1);
    let carried = upserted(&writes, "101").expect("a carried placement");
    assert_eq!(carried.status, ReplicaStatus::Clean);
    assert_eq!(carried.object, Some(ReplicaHash::from("h1")));
    assert_eq!(carried.level, ReplicaLevel::Full);
    let base = carried.base.as_ref().expect("a base");
    assert_eq!(base.object, Some(ReplicaHash::from("h1")));
}

#[test]
fn an_unmatched_staged_edit_resurrects_as_a_pending_create() {
    // The edited item is gone from the new spine (deleted during the
    // outage that came with the bump): the edit survives as a pending
    // create, the same edit-beats-delete rule the sync applies.
    let mut old = synced("1", "msg-a", &[]);
    old.object = Some(ReplicaHash::from("h2"));
    old.level = ReplicaLevel::Full;
    old.status = ReplicaStatus::Dirty;

    let (writes, report) = run(vec![old], vec![], vec![]);

    assert_eq!(report.rekeyed, 1, "carried as a pending create");
    assert_eq!(report.dropped, 0);
    let resurrected = upserted(&writes, "1").expect("a resurrected placement");
    assert_eq!(resurrected.status, ReplicaStatus::Created);
    assert!(resurrected.base.is_none());
    assert_eq!(resurrected.object, Some(ReplicaHash::from("h2")));
}

#[test]
fn unmatched_pending_state_is_dropped_and_counted() {
    // A probed-only placement (no link id resolved) cannot be matched:
    // its pending flag edit is lost with the old handle space.
    let mut old = synced("1", "msg-a", &[]);
    old.link_id = None;
    old.flags = ReplicaFlags::from_names(&["flagged"]);
    old.status = ReplicaStatus::Dirty;

    let (writes, report) = run(vec![old], vec![item("101", &[])], vec![]);

    assert_eq!(report.rekeyed, 0);
    assert_eq!(report.pulled, 1);
    assert_eq!(report.dropped, 1, "the pending edit is lost, and said so");
    let fresh = upserted(&writes, "101").expect("a fresh placement");
    assert_eq!(fresh.status, ReplicaStatus::Clean);
}

#[test]
fn no_link_ids_skips_the_meta_fetch() {
    let mut old = synced("1", "msg-a", &[]);
    old.link_id = None;

    let mut rekey = ReplicaRekey::new("inbox");
    let _ = rekey.resume(None);
    let _ = rekey.resume(Some(ReplicaArg::Load(ReplicaLoaded {
        placements: vec![old],
        checkpoint: None,
    })));

    let snapshot = ReplicaRemoteSnapshot {
        items: vec![item("101", &[])],
        vanished: Vec::new(),
        complete: true,
        checkpoint: ReplicaCheckpoint(b"v2".to_vec()),
    };
    match rekey.resume(Some(ReplicaArg::Enumerate(snapshot))) {
        ReplicaCoroutineState::Yielded(ReplicaYield::WantsWrite(_)) => {}
        state => panic!("expected WantsWrite without a fetch, got {state:?}"),
    }
}

#[test]
fn pending_creates_are_left_untouched() {
    let mut placeholder = synced("tmp-1", "msg-b", &[]);
    placeholder.status = ReplicaStatus::Created;
    placeholder.base = None;

    let (writes, report) = run(vec![placeholder], vec![], vec![]);

    assert_eq!(report.rekeyed + report.pulled + report.dropped, 0);
    assert!(
        !writes.iter().any(|w| matches!(
            w,
            ReplicaWriteOp::DropPlacement { handle, .. } if handle.as_str() == "tmp-1"
        )),
        "the placeholder is not spine, it stays: {writes:?}",
    );
}

#[test]
fn rekey_missing_arg_errors() {
    let mut rekey = ReplicaRekey::new("inbox");
    let _ = rekey.resume(None);
    match rekey.resume(None) {
        ReplicaCoroutineState::Complete(Err(ReplicaRekeyError::MissingArg)) => {}
        state => panic!("expected MissingArg, got {state:?}"),
    }
}

#[test]
fn rekey_unexpected_arg_errors() {
    let mut rekey = ReplicaRekey::new("inbox");
    let _ = rekey.resume(None);
    match rekey.resume(Some(ReplicaArg::Write)) {
        ReplicaCoroutineState::Complete(Err(ReplicaRekeyError::UnexpectedArg)) => {}
        state => panic!("expected UnexpectedArg, got {state:?}"),
    }
}

#[test]
fn an_ambiguous_identity_survives_a_handle_space_change() {
    // Renumbering the copies does not merge them: the source still holds
    // the identity twice, so the freeze carries over rather than the item
    // becoming deletable again on the other side of a UIDVALIDITY bump.
    let mut old = synced("7", "m1", &[]);
    old.status = ReplicaStatus::Ambiguous;
    old.ambiguous_handles = vec![ReplicaHandle::from("8")];

    let (writes, report) = run(
        vec![old],
        vec![item("v2-0", &[])],
        vec![fetched("v2-0", "m1")],
    );

    assert_eq!(report.rekeyed, 1);
    let carried = writes
        .iter()
        .find_map(|op| match op {
            ReplicaWriteOp::UpsertPlacement(p) if p.handle.as_str() == "v2-0" => Some(p),
            _ => None,
        })
        .expect("the carried placement");
    assert_eq!(carried.status, ReplicaStatus::Ambiguous);
    assert_eq!(carried.ambiguous_handles, vec![ReplicaHandle::from("8")]);
}
