//! Reconciling a collection with its remote.

use io_replica::change::{ReplicaChange, ReplicaChangeKind, ReplicaWriteOp};
use io_replica::collection::ReplicaCheckpoint;
use io_replica::coroutine::{
    ReplicaArg, ReplicaArgError, ReplicaCoroutine, ReplicaCoroutineState, ReplicaYield,
};
use io_replica::object::ReplicaHash;
use io_replica::placement::{
    ReplicaBase, ReplicaFlags, ReplicaHandle, ReplicaLevel, ReplicaLinkId, ReplicaOrigin,
    ReplicaPlacement, ReplicaStatus,
};
use io_replica::remote::{
    ReplicaPushOutcome, ReplicaPushResult, ReplicaRemoteItem, ReplicaRemoteSnapshot,
};
use io_replica::storage::ReplicaLoaded;
use io_replica::sync::{
    ReplicaConflictPolicy, ReplicaDeletePolicy, ReplicaEvent, ReplicaPushRights, ReplicaSync,
    ReplicaSyncOptions, ReplicaSyncReport,
};

/// A pending create staged in "inbox", its body sourced from "sent".
fn created(handle: &str) -> ReplicaPlacement {
    ReplicaPlacement {
        sort_key: Default::default(),
        collection: "inbox".into(),
        handle: ReplicaHandle::from(handle),
        link_id: None,
        object: None,
        level: ReplicaLevel::Probed,
        meta: None,
        flags: ReplicaFlags::default(),
        status: ReplicaStatus::Created,
        conflict_revision: None,
        conflict_object: None,
        base: None,
        origin: Some(ReplicaOrigin {
            collection: "sent".into(),
            handle: ReplicaHandle::from("9"),
        }),
        ambiguous_handles: Vec::new(),
    }
}

fn synced(handle: &str, flags: &[&str]) -> ReplicaPlacement {
    ReplicaPlacement {
        sort_key: Default::default(),
        collection: "inbox".into(),
        handle: ReplicaHandle::from(handle),
        link_id: Some(ReplicaLinkId::from(handle)),
        object: None,
        level: ReplicaLevel::Probed,
        meta: None,
        flags: ReplicaFlags::from_names(flags),
        status: ReplicaStatus::Clean,
        conflict_revision: None,
        conflict_object: None,
        base: Some(ReplicaBase {
            flags: ReplicaFlags::from_names(flags),
            revision: None,
            object: None,
        }),
        origin: None,
        ambiguous_handles: Vec::new(),
    }
}

fn remote(handle: &str, flags: &[&str]) -> ReplicaRemoteItem {
    ReplicaRemoteItem {
        handle: ReplicaHandle::from(handle),
        flags: ReplicaFlags::from_names(flags),
        revision: None,
    }
}

fn full(items: Vec<ReplicaRemoteItem>) -> ReplicaRemoteSnapshot {
    ReplicaRemoteSnapshot {
        items,
        vanished: Vec::new(),
        complete: true,
        checkpoint: ReplicaCheckpoint(b"c1".to_vec()),
    }
}

fn delta(items: Vec<ReplicaRemoteItem>, vanished: Vec<ReplicaHandle>) -> ReplicaRemoteSnapshot {
    ReplicaRemoteSnapshot {
        items,
        vanished,
        complete: false,
        checkpoint: ReplicaCheckpoint(b"c1".to_vec()),
    }
}

fn run(
    sync: &mut ReplicaSync,
    local: Vec<ReplicaPlacement>,
    items: Vec<ReplicaRemoteItem>,
) -> (
    Option<Vec<ReplicaChange>>,
    Vec<ReplicaWriteOp>,
    ReplicaSyncReport,
) {
    run_snapshot(sync, local, full(items))
}

fn run_snapshot(
    sync: &mut ReplicaSync,
    local: Vec<ReplicaPlacement>,
    snapshot: ReplicaRemoteSnapshot,
) -> (
    Option<Vec<ReplicaChange>>,
    Vec<ReplicaWriteOp>,
    ReplicaSyncReport,
) {
    let _ = sync.resume(None);
    let _ = sync.resume(Some(ReplicaArg::Load(ReplicaLoaded {
        placements: local,
        checkpoint: None,
    })));

    let mut pushes = None;
    let writes = match sync.resume(Some(ReplicaArg::Enumerate(snapshot))) {
        ReplicaCoroutineState::Yielded(ReplicaYield::WantsPush { changes, .. }) => {
            let results = changes
                .iter()
                .map(|change| ReplicaPushResult {
                    handle: change.handle().clone(),
                    outcome: ReplicaPushOutcome::Accepted,
                    assigned: None,
                    revision: None,
                })
                .collect();
            pushes = Some(changes);
            match sync.resume(Some(ReplicaArg::Push(results))) {
                ReplicaCoroutineState::Yielded(ReplicaYield::WantsWrite(w)) => w,
                state => panic!("expected WantsWrite, got {state:?}"),
            }
        }
        ReplicaCoroutineState::Yielded(ReplicaYield::WantsWrite(w)) => w,
        state => panic!("expected push or write, got {state:?}"),
    };

    let report = match sync.resume(Some(ReplicaArg::Write)) {
        ReplicaCoroutineState::Complete(Ok(report)) => report,
        state => panic!("expected Complete(Ok), got {state:?}"),
    };

    (pushes, writes, report)
}

#[test]
fn remote_add_pulls_probed() {
    let mut sync = ReplicaSync::new("inbox", ReplicaSyncOptions::default());
    let (pushes, writes, report) = run(&mut sync, vec![], vec![remote("1", &["seen"])]);

    assert!(pushes.is_none());
    assert_eq!(report.pulled, 1);
    let ReplicaWriteOp::UpsertPlacement(p) = &writes[0] else {
        panic!("expected UpsertPlacement, got {:?}", writes[0]);
    };
    assert_eq!(p.level, ReplicaLevel::Probed);
    assert!(p.flags.contains("seen"));
}

#[test]
fn an_unknown_local_set_adopts_the_remote_one_and_pushes_nothing() {
    // NOTE: unknown markers hold no opinion, so the sync pulls what
    // the source reports rather than pushing an absence over it
    // (flags never reported are unknown, not empty).
    let mut local = synced("1", &[]);
    local.flags = ReplicaFlags::Unknown;

    let mut sync = ReplicaSync::new("inbox", ReplicaSyncOptions::default());
    let (pushes, writes, report) = run(&mut sync, vec![local], vec![remote("1", &["seen"])]);

    assert!(pushes.is_none(), "nothing to push from an unknown set");
    assert_eq!(report.pulled, 1);
    let ReplicaWriteOp::UpsertPlacement(p) = &writes[0] else {
        panic!("expected UpsertPlacement, got {:?}", writes[0]);
    };
    assert!(p.flags.contains("seen"));
}

#[test]
fn local_flag_change_pushes() {
    let mut local = synced("1", &[]);
    local.flags = ReplicaFlags::from_names(&["seen"]);
    local.status = ReplicaStatus::Dirty;

    let mut sync = ReplicaSync::new("inbox", ReplicaSyncOptions::default());
    let (pushes, _writes, report) = run(&mut sync, vec![local], vec![remote("1", &[])]);

    let pushes = pushes.expect("a push");
    assert!(matches!(pushes[0].kind, ReplicaChangeKind::SetFlags { .. }));
    assert_eq!(report.pushed, 1);
}

/// Drives a sync through its push with the given results, and
/// returns the writes the engine then stages plus the report.
fn drive_push(
    sync: &mut ReplicaSync,
    local: Vec<ReplicaPlacement>,
    items: Vec<ReplicaRemoteItem>,
    results: Vec<ReplicaPushResult>,
) -> (Vec<ReplicaWriteOp>, ReplicaSyncReport) {
    let _ = sync.resume(None);
    let _ = sync.resume(Some(ReplicaArg::Load(ReplicaLoaded {
        placements: local,
        checkpoint: None,
    })));
    match sync.resume(Some(ReplicaArg::Enumerate(full(items)))) {
        ReplicaCoroutineState::Yielded(ReplicaYield::WantsPush { .. }) => {}
        state => panic!("expected WantsPush, got {state:?}"),
    }
    let writes = match sync.resume(Some(ReplicaArg::Push(results))) {
        ReplicaCoroutineState::Yielded(ReplicaYield::WantsWrite(writes)) => writes,
        state => panic!("expected WantsWrite, got {state:?}"),
    };
    let report = match sync.resume(Some(ReplicaArg::Write)) {
        ReplicaCoroutineState::Complete(Ok(report)) => report,
        state => panic!("expected Complete(Ok), got {state:?}"),
    };
    (writes, report)
}

/// What a run asked for, in the order it asked.
struct Run {
    /// Each push chunk, in order.
    chunks: Vec<Vec<ReplicaChange>>,
    /// Each write batch, in order.
    batches: Vec<Vec<ReplicaWriteOp>>,
    /// The yields as they came, so a test can pin the interleaving.
    order: Vec<&'static str>,
    report: ReplicaSyncReport,
}

impl Run {
    /// Every write of the run, batch boundaries flattened away.
    fn writes(&self) -> Vec<ReplicaWriteOp> {
        self.batches.iter().flatten().cloned().collect()
    }

    /// The index of the batch holding a write, if any.
    fn batch_of(&self, mut held: impl FnMut(&ReplicaWriteOp) -> bool) -> Option<usize> {
        self.batches
            .iter()
            .position(|batch| batch.iter().any(&mut held))
    }
}

/// Drives a sync to completion against a remote accepting every
/// push, collecting every yield.
///
/// Unlike [`run`] it assumes nothing about how many pushes and
/// writes a run takes, which is what the chunked paths are about.
fn run_batches(
    sync: &mut ReplicaSync,
    local: Vec<ReplicaPlacement>,
    snapshot: ReplicaRemoteSnapshot,
) -> Run {
    let _ = sync.resume(None);
    let _ = sync.resume(Some(ReplicaArg::Load(ReplicaLoaded {
        placements: local,
        checkpoint: None,
    })));

    let mut run = Run {
        chunks: Vec::new(),
        batches: Vec::new(),
        order: Vec::new(),
        report: ReplicaSyncReport::default(),
    };
    let mut arg = Some(ReplicaArg::Enumerate(snapshot));

    loop {
        match sync.resume(arg.take()) {
            ReplicaCoroutineState::Yielded(ReplicaYield::WantsPush { changes, .. }) => {
                run.order.push("push");
                let results = changes
                    .iter()
                    .map(|change| ReplicaPushResult {
                        handle: change.handle().clone(),
                        outcome: ReplicaPushOutcome::Accepted,
                        assigned: None,
                        revision: None,
                    })
                    .collect();
                run.chunks.push(changes);
                arg = Some(ReplicaArg::Push(results));
            }
            ReplicaCoroutineState::Yielded(ReplicaYield::WantsWrite(writes)) => {
                run.order.push("write");
                run.batches.push(writes);
                arg = Some(ReplicaArg::Write);
            }
            ReplicaCoroutineState::Complete(Ok(report)) => {
                run.report = report;
                return run;
            }
            state => panic!("expected push or write, got {state:?}"),
        }
    }
}

/// Finds the placement an UpsertPlacement op writes for `handle`, if any.
fn upserted<'a>(writes: &'a [ReplicaWriteOp], handle: &str) -> Option<&'a ReplicaPlacement> {
    writes.iter().find_map(|w| match w {
        ReplicaWriteOp::UpsertPlacement(p) if p.handle.as_str() == handle => Some(p),
        _ => None,
    })
}

#[test]
fn rejected_flag_push_keeps_dirty() {
    let mut local = synced("1", &[]);
    local.flags = ReplicaFlags::from_names(&["flagged"]);
    local.status = ReplicaStatus::Dirty;

    let mut sync = ReplicaSync::new("inbox", ReplicaSyncOptions::default());
    let results = vec![ReplicaPushResult {
        handle: ReplicaHandle::from("1"),
        outcome: ReplicaPushOutcome::Rejected,
        assigned: None,
        revision: None,
    }];
    let (writes, report) = drive_push(&mut sync, vec![local], vec![remote("1", &[])], results);

    assert!(
        upserted(&writes, "1").is_none(),
        "a rejected flag push must not rebase the placement: {writes:?}",
    );
    assert_eq!(report.rejected, 1);
}

#[test]
fn accepted_flag_push_rebases_clean() {
    let mut local = synced("1", &[]);
    local.flags = ReplicaFlags::from_names(&["flagged"]);
    local.status = ReplicaStatus::Dirty;

    let mut sync = ReplicaSync::new("inbox", ReplicaSyncOptions::default());
    let results = vec![ReplicaPushResult {
        handle: ReplicaHandle::from("1"),
        outcome: ReplicaPushOutcome::Accepted,
        assigned: None,
        revision: None,
    }];
    let (writes, _report) = drive_push(&mut sync, vec![local], vec![remote("1", &[])], results);

    let rebased = upserted(&writes, "1").expect("an accepted flag push rebases the placement");
    assert_eq!(rebased.status, ReplicaStatus::Clean);
    assert!(
        rebased
            .base
            .as_ref()
            .expect("a base")
            .flags
            .contains("flagged")
    );
}

/// A dirty flag placement, ready to derive one push.
fn pending(handle: &str) -> ReplicaPlacement {
    let mut placement = synced(handle, &[]);
    placement.flags = ReplicaFlags::from_names(&["flagged"]);
    placement.status = ReplicaStatus::Dirty;
    placement
}

fn accepted(handle: &str) -> ReplicaPushResult {
    ReplicaPushResult {
        handle: ReplicaHandle::from(handle),
        outcome: ReplicaPushOutcome::Accepted,
        assigned: None,
        revision: None,
    }
}

/// A consumer reporting on fewer changes than it was handed leaves
/// the rest as they were: a handle nobody reported is retried, never
/// assumed.
#[test]
fn an_unreported_push_stays_pending() {
    let mut sync = ReplicaSync::new("inbox", ReplicaSyncOptions::default());
    let (writes, report) = drive_push(
        &mut sync,
        vec![pending("1"), pending("2")],
        vec![remote("1", &[]), remote("2", &[])],
        vec![accepted("1")],
    );

    assert_eq!(
        upserted(&writes, "1")
            .expect("the reported push rebases")
            .status,
        ReplicaStatus::Clean,
    );
    assert!(
        upserted(&writes, "2").is_none(),
        "an unreported push must stay dirty for the next run: {writes:?}",
    );
    assert_eq!(report.pushed, 1);
    assert_eq!(report.rejected, 0, "silence is not a rejection");
}

/// Results are matched by handle, so their order does not matter, a
/// handle nobody pushed changes nothing, and one reported twice
/// counts once.
#[test]
fn a_result_set_is_matched_by_handle_not_by_shape() {
    let mut sync = ReplicaSync::new("inbox", ReplicaSyncOptions::default());
    let results = vec![
        accepted("2"),
        accepted("nobody-pushed-this"),
        accepted("1"),
        accepted("2"),
    ];
    let (writes, report) = drive_push(
        &mut sync,
        vec![pending("1"), pending("2")],
        vec![remote("1", &[]), remote("2", &[])],
        results,
    );

    for handle in ["1", "2"] {
        let rebased = upserted(&writes, handle);
        assert!(rebased.is_some_and(|p| p.status == ReplicaStatus::Clean));
    }
    assert!(upserted(&writes, "nobody-pushed-this").is_none());
    assert_eq!(
        report.pushed, 2,
        "a duplicate result and an unknown handle cannot inflate the count",
    );
    assert_eq!(
        report.events.len(),
        2,
        "nor emit an event twice: {:?}",
        report.events,
    );
}

#[test]
fn partial_push_accepts_one_rejects_other() {
    let mut one = synced("1", &[]);
    one.flags = ReplicaFlags::from_names(&["flagged"]);
    one.status = ReplicaStatus::Dirty;
    let mut two = synced("2", &[]);
    two.flags = ReplicaFlags::from_names(&["flagged"]);
    two.status = ReplicaStatus::Dirty;

    let mut sync = ReplicaSync::new("inbox", ReplicaSyncOptions::default());
    let results = vec![
        ReplicaPushResult {
            handle: ReplicaHandle::from("1"),
            outcome: ReplicaPushOutcome::Accepted,
            assigned: None,
            revision: None,
        },
        ReplicaPushResult {
            handle: ReplicaHandle::from("2"),
            outcome: ReplicaPushOutcome::Rejected,
            assigned: None,
            revision: None,
        },
    ];
    let (writes, report) = drive_push(
        &mut sync,
        vec![one, two],
        vec![remote("1", &[]), remote("2", &[])],
        results,
    );

    // the rejected handle is left dirty, with no write, so the next
    // sync retries it
    assert_eq!(
        upserted(&writes, "1").expect("accepted rebases").status,
        ReplicaStatus::Clean,
    );
    assert!(
        upserted(&writes, "2").is_none(),
        "rejected handle must stay dirty: {writes:?}",
    );
    assert_eq!(report.pushed, 1, "only the accepted change counts");
    assert_eq!(report.rejected, 1);
}

#[test]
fn rejected_push_retries_on_next_sync() {
    let mut local = synced("1", &[]);
    local.flags = ReplicaFlags::from_names(&["flagged"]);
    local.status = ReplicaStatus::Dirty;

    // first sync: the push is rejected, so the placement stays dirty
    let mut first = ReplicaSync::new("inbox", ReplicaSyncOptions::default());
    let results = vec![ReplicaPushResult {
        handle: ReplicaHandle::from("1"),
        outcome: ReplicaPushOutcome::Rejected,
        assigned: None,
        revision: None,
    }];
    let (writes, _report) = drive_push(
        &mut first,
        vec![local.clone()],
        vec![remote("1", &[])],
        results,
    );
    assert!(upserted(&writes, "1").is_none(), "rejected push left dirty");

    // second sync: the remote never took it, so its flags are
    // unchanged upstream and the push is attempted again
    let mut second = ReplicaSync::new("inbox", ReplicaSyncOptions::default());
    let (pushes, _writes, report) = run(&mut second, vec![local], vec![remote("1", &[])]);
    let pushes = pushes.expect("the dirty change is pushed again");
    assert!(matches!(pushes[0].kind, ReplicaChangeKind::SetFlags { .. }));
    assert_eq!(report.pushed, 1);
}

/// The crash window is one chunk: each chunk is recorded before the
/// next is pushed, so an interrupted run replays only the chunk
/// whose write never landed.
#[test]
fn a_chunk_is_recorded_before_the_next_one_is_pushed() {
    let extra = 3;
    let count = ReplicaSync::PUSH_CHUNK + extra;

    // every member carries a local flag edit, so every one derives a
    // push; the handles are padded so the merge orders them as
    // numbered
    let mut local = Vec::new();
    let mut items = Vec::new();
    for index in 0..count {
        let handle = format!("{index:03}");
        let mut placement = synced(&handle, &[]);
        placement.flags = ReplicaFlags::from_names(&["seen"]);
        placement.status = ReplicaStatus::Dirty;
        local.push(placement);
        items.push(remote(&handle, &[]));
    }

    let mut sync = ReplicaSync::new("inbox", ReplicaSyncOptions::default());
    let run = run_batches(&mut sync, local, full(items));

    assert_eq!(run.order, ["push", "write", "push", "write"]);
    assert_eq!(run.chunks[0].len(), ReplicaSync::PUSH_CHUNK);
    assert_eq!(run.chunks[1].len(), extra);

    // each chunk is rebased by the write that follows it and by no
    // other
    for change in &run.chunks[0] {
        let rebased = upserted(&run.batches[0], change.handle().as_str());
        assert!(rebased.is_some_and(|p| p.status == ReplicaStatus::Clean));
    }
    for change in &run.chunks[1] {
        let handle = change.handle().as_str();
        assert!(upserted(&run.batches[0], handle).is_none());
        let rebased = upserted(&run.batches[1], handle);
        assert!(rebased.is_some_and(|p| p.status == ReplicaStatus::Clean));
    }

    // the checkpoint lands in the last write, and only there
    assert!(
        run.batch_of(|op| matches!(op, ReplicaWriteOp::SetCheckpoint { .. })) == Some(1),
        "the checkpoint must land in the closing batch",
    );

    assert_eq!(run.report.pushed, count);
}

/// The join walks both sides in handle order, so an unordered
/// enumeration must derive exactly what the same snapshot sorted
/// derives.
#[test]
fn an_unordered_enumeration_merges_like_an_ordered_one() {
    // every combination the join walks: changed on both, unchanged
    // on both, local only, remote only, and locally dirty
    let local = || {
        let mut dirty = synced("5", &[]);
        dirty.flags = ReplicaFlags::from_names(&["flagged"]);
        dirty.status = ReplicaStatus::Dirty;
        vec![synced("1", &[]), synced("2", &[]), synced("3", &[]), dirty]
    };
    let items = || {
        vec![
            remote("1", &["seen"]),
            remote("3", &[]),
            remote("4", &[]),
            remote("5", &[]),
        ]
    };

    let mut ordered = ReplicaSync::new("inbox", ReplicaSyncOptions::default());
    let ordered = run_batches(&mut ordered, local(), full(items()));

    let mut shuffled = items();
    shuffled.reverse();
    let mut unordered = ReplicaSync::new("inbox", ReplicaSyncOptions::default());
    let unordered = run_batches(&mut unordered, local(), full(shuffled));

    assert_eq!(unordered.chunks, ordered.chunks, "different pushes");
    assert_eq!(unordered.writes(), ordered.writes(), "different writes");
    assert_eq!(unordered.report, ordered.report, "different report");
    assert_eq!(
        ordered.report.pulled, 3,
        "one pull each of add, flags, drop"
    );
    assert_eq!(ordered.report.pushed, 1);
}

/// A handle the enumeration lists twice pairs with the one placement
/// holding it, rather than merging again against nothing and pulling
/// a phantom member.
#[test]
fn a_handle_listed_twice_is_merged_once() {
    let snapshot = full(vec![remote("1", &["seen"]), remote("1", &["seen"])]);
    let mut sync = ReplicaSync::new("inbox", ReplicaSyncOptions::default());
    let run = run_batches(&mut sync, vec![synced("1", &[])], snapshot);

    assert_eq!(run.report.events, [ReplicaEvent::FlagsChanged("1".into())]);
    assert_eq!(
        run.writes().len(),
        2,
        "one upsert and the checkpoint: {:?}",
        run.writes(),
    );
}

/// The merge hands a full write batch over rather than holding one
/// write per member until the last is resolved.
#[test]
fn a_full_write_batch_is_handed_over_mid_merge() {
    let extra = 76;
    let count = ReplicaSync::WRITE_CHUNK + extra;
    let items = (0..count)
        .map(|index| remote(&format!("{index:05}"), &[]))
        .collect();

    let mut sync = ReplicaSync::new("inbox", ReplicaSyncOptions::default());
    let run = run_batches(&mut sync, vec![], full(items));

    assert_eq!(run.order, ["write", "write"], "one batch, or three");
    assert_eq!(run.batches[0].len(), ReplicaSync::WRITE_CHUNK);
    assert_eq!(
        run.batches[1].len(),
        extra + 1,
        "the rest, plus the checkpoint",
    );
    assert!(
        run.batch_of(|op| matches!(op, ReplicaWriteOp::SetCheckpoint { .. })) == Some(1),
        "a mid-merge batch must not checkpoint what it has not merged",
    );
    assert_eq!(run.report.pulled, count);
}

/// A batch boundary falls between candidates and never inside one: a
/// keep-both resolution writes the pulled placement and the local
/// body staged beside it, and losing either would lose a version.
#[test]
fn a_batch_never_cuts_through_one_candidate() {
    // fillers enough to leave the boundary exactly on the resolution
    let fillers = ReplicaSync::WRITE_CHUNK - 1;
    let items = (0..fillers)
        .map(|index| remote(&format!("{index:05}"), &[]))
        .chain([remote_rev("zz", "r2")])
        .collect();

    let mut sync = ReplicaSync::new("inbox", with_conflict(ReplicaConflictPolicy::KeepBoth));
    let run = run_batches(&mut sync, vec![edited("zz")], full(items));

    let staged = run
        .batch_of(|op| matches!(op, ReplicaWriteOp::UpsertPlacement(p) if p.status == ReplicaStatus::Created))
        .expect("a keep-both duplicate");
    let pulled = run
        .batch_of(
            |op| matches!(op, ReplicaWriteOp::UpsertPlacement(p) if p.handle.as_str() == "zz"),
        )
        .expect("the pulled placement");

    assert!(
        run.batches[0].len() > ReplicaSync::WRITE_CHUNK,
        "the boundary must fall on the resolution, not before it",
    );
    assert_eq!(
        staged, pulled,
        "both versions of one candidate must land together: {:?}",
        run.order,
    );
}

#[test]
fn remote_flag_change_pulls() {
    let local = synced("1", &[]);
    let mut sync = ReplicaSync::new("inbox", ReplicaSyncOptions::default());
    let (pushes, writes, report) = run(&mut sync, vec![local], vec![remote("1", &["seen"])]);

    assert!(pushes.is_none());
    assert_eq!(report.pulled, 1);
    let ReplicaWriteOp::UpsertPlacement(p) = &writes[0] else {
        panic!("expected UpsertPlacement, got {:?}", writes[0]);
    };
    assert!(p.flags.contains("seen"));
    assert_eq!(p.status, ReplicaStatus::Clean);
}

#[test]
fn divergent_flags_merge_element_wise() {
    // each side wins its own flag: the union is pushed and the
    // remote-won flag folded in locally, with no conflict
    let mut local = synced("1", &[]);
    local.flags = ReplicaFlags::from_names(&["flagged"]);
    local.status = ReplicaStatus::Dirty;

    let mut sync = ReplicaSync::new("inbox", ReplicaSyncOptions::default());
    let (pushes, writes, report) = run(&mut sync, vec![local], vec![remote("1", &["seen"])]);

    match &pushes.expect("a push")[0].kind {
        ReplicaChangeKind::SetFlags { flags, .. } => {
            assert!(flags.contains("flagged") && flags.contains("seen"));
        }
        other => panic!("expected a SetFlags push, got {other:?}"),
    }
    assert_eq!(report.conflicts, 0);
    assert_eq!(report.pulled, 1, "the remote-won flag is folded in");

    // the accepted push rebased the merge clean
    let rebased = writes
        .iter()
        .rev()
        .find_map(|w| match w {
            ReplicaWriteOp::UpsertPlacement(p) if p.handle.as_str() == "1" => Some(p),
            _ => None,
        })
        .expect("a rebased placement");
    assert_eq!(rebased.status, ReplicaStatus::Clean);
    assert!(rebased.flags.contains("flagged") && rebased.flags.contains("seen"));
    let base = rebased.base.as_ref().expect("a base");
    assert!(base.flags.contains("flagged") && base.flags.contains("seen"));
}

#[test]
fn flag_removal_merges_against_concurrent_addition() {
    // the local removal and the remote addition both win
    let mut local = synced("1", &["seen"]);
    local.flags = ReplicaFlags::default();
    local.status = ReplicaStatus::Dirty;

    let mut sync = ReplicaSync::new("inbox", ReplicaSyncOptions::default());
    let (pushes, _writes, report) = run(
        &mut sync,
        vec![local],
        vec![remote("1", &["seen", "important"])],
    );

    match &pushes.expect("a push")[0].kind {
        ReplicaChangeKind::SetFlags { flags, .. } => {
            assert!(flags.contains("important"), "the remote addition wins");
            assert!(!flags.contains("seen"), "the local removal wins");
        }
        other => panic!("expected a SetFlags push, got {other:?}"),
    }
    assert_eq!(report.conflicts, 0);
}

#[test]
fn read_only_keeps_local_dirty() {
    let mut local = synced("1", &[]);
    local.flags = ReplicaFlags::from_names(&["seen"]);
    local.status = ReplicaStatus::Dirty;

    let opts = ReplicaSyncOptions {
        push: false,
        rights: ReplicaPushRights::all(),
        delete: ReplicaDeletePolicy::Revert,
        conflict: ReplicaConflictPolicy::Manual,
        full: false,
    };
    let mut sync = ReplicaSync::new("inbox", opts);
    let (pushes, _writes, report) = run(&mut sync, vec![local], vec![remote("1", &[])]);

    assert!(pushes.is_none(), "read-only source must not push");
    assert_eq!(report.pushed, 0);
}

#[test]
fn delta_vanished_drops() {
    let local = synced("1", &["seen"]);
    let mut sync = ReplicaSync::new("inbox", ReplicaSyncOptions::default());
    let snapshot = delta(vec![], vec![ReplicaHandle::from("1")]);
    let (pushes, writes, report) = run_snapshot(&mut sync, vec![local], snapshot);

    assert!(pushes.is_none());
    assert_eq!(report.pulled, 1);
    assert!(
        matches!(&writes[0], ReplicaWriteOp::DropPlacement { handle, .. } if handle.as_str() == "1"),
        "vanished placement dropped, got {:?}",
        writes[0],
    );
}

#[test]
fn delta_pull_add() {
    let mut sync = ReplicaSync::new("inbox", ReplicaSyncOptions::default());
    let snapshot = delta(vec![remote("9", &["seen"])], vec![]);
    let (pushes, writes, report) = run_snapshot(&mut sync, vec![], snapshot);

    assert!(pushes.is_none());
    assert_eq!(report.pulled, 1);
    let ReplicaWriteOp::UpsertPlacement(p) = &writes[0] else {
        panic!("expected UpsertPlacement, got {:?}", writes[0]);
    };
    assert_eq!(p.handle.as_str(), "9");
    assert_eq!(p.level, ReplicaLevel::Probed);
}

#[test]
fn delta_leaves_unlisted_untouched() {
    let one = synced("1", &[]);
    let two = synced("2", &[]);
    let mut sync = ReplicaSync::new("inbox", ReplicaSyncOptions::default());
    // only "2" changed upstream, "1" is unlisted
    let snapshot = delta(vec![remote("2", &["seen"])], vec![]);
    let (pushes, writes, report) = run_snapshot(&mut sync, vec![one, two], snapshot);

    assert!(pushes.is_none());
    assert_eq!(report.pulled, 1);
    assert_eq!(writes.len(), 2, "only the changed placement and checkpoint");
    let ReplicaWriteOp::UpsertPlacement(p) = &writes[0] else {
        panic!("expected UpsertPlacement, got {:?}", writes[0]);
    };
    assert_eq!(p.handle.as_str(), "2");
    assert!(p.flags.contains("seen"));
}

#[test]
fn delta_pushes_unlisted_local_dirty() {
    let mut local = synced("1", &[]);
    local.flags = ReplicaFlags::from_names(&["seen"]);
    local.status = ReplicaStatus::Dirty;

    let mut sync = ReplicaSync::new("inbox", ReplicaSyncOptions::default());
    // the dirty handle is not in the delta, so its pending push
    // derives against its own base
    let snapshot = delta(vec![], vec![]);
    let (pushes, _writes, report) = run_snapshot(&mut sync, vec![local], snapshot);

    let pushes = pushes.expect("a push");
    assert!(matches!(pushes[0].kind, ReplicaChangeKind::SetFlags { .. }));
    assert_eq!(report.pushed, 1);
}

#[test]
fn unchanged_flags_is_noop() {
    let local = synced("1", &["seen"]);
    let mut sync = ReplicaSync::new("inbox", ReplicaSyncOptions::default());
    let (pushes, writes, report) = run(&mut sync, vec![local], vec![remote("1", &["seen"])]);

    assert!(pushes.is_none());
    assert_eq!(report, ReplicaSyncReport::default(), "a no-op sync");
    assert!(
        upserted(&writes, "1").is_none(),
        "an unchanged placement is not rewritten: {writes:?}",
    );
}

#[test]
fn concurrent_same_flags_rebases_without_push() {
    let mut local = synced("1", &[]);
    local.flags = ReplicaFlags::from_names(&["flagged"]);
    local.status = ReplicaStatus::Dirty;

    let mut sync = ReplicaSync::new("inbox", ReplicaSyncOptions::default());
    let (pushes, writes, report) = run(&mut sync, vec![local], vec![remote("1", &["flagged"])]);

    assert!(pushes.is_none(), "no push when both reached the same flags");
    assert_eq!(report.conflicts, 0);
    let rebased = upserted(&writes, "1").expect("a converging rebase");
    assert_eq!(rebased.status, ReplicaStatus::Clean);
    assert!(
        rebased
            .base
            .as_ref()
            .expect("a base")
            .flags
            .contains("flagged")
    );
}

#[test]
fn no_base_present_converges_on_remote() {
    // with no base to diff against, the remote wins
    let mut local = synced("1", &["flagged"]);
    local.base = None;

    let mut sync = ReplicaSync::new("inbox", ReplicaSyncOptions::default());
    let (pushes, writes, report) = run(&mut sync, vec![local], vec![remote("1", &["seen"])]);

    assert!(pushes.is_none());
    assert_eq!(report.pulled, 1);
    let pulled = upserted(&writes, "1").expect("a converged placement");
    assert_eq!(pulled.status, ReplicaStatus::Clean);
    assert!(pulled.flags.contains("seen"));
    assert!(!pulled.flags.contains("flagged"), "remote flags win");
}

#[test]
fn flag_pull_on_a_conflicted_placement_keeps_the_conflict() {
    // the flags are pulled without laundering the conflict away, so
    // a later sync cannot mistake the placement for clean and drop
    // the staged edit
    let mut placement = edited("1");
    placement.status = ReplicaStatus::Conflict;
    placement.conflict_revision = Some("r2".into());

    let mut sync = ReplicaSync::new("inbox", ReplicaSyncOptions::default());
    let mut item = remote_rev("1", "r2");
    item.flags = ReplicaFlags::from_names(&["seen"]);
    let (pushes, writes, report) = run(&mut sync, vec![placement], vec![item]);

    assert!(pushes.is_none());
    assert_eq!(report.pulled, 1);
    let pulled = upserted(&writes, "1").expect("a flag pull");
    assert_eq!(
        pulled.status,
        ReplicaStatus::Conflict,
        "the conflict survives"
    );
    assert!(pulled.flags.contains("seen"));
    assert_eq!(
        pulled.object,
        Some(ReplicaHash::from("h2")),
        "the edit survives"
    );
}

#[test]
fn read_only_still_pulls_remote_changes() {
    let local = synced("1", &[]);
    let opts = ReplicaSyncOptions {
        push: false,
        rights: ReplicaPushRights::all(),
        delete: ReplicaDeletePolicy::Revert,
        conflict: ReplicaConflictPolicy::Manual,
        full: false,
    };
    let mut sync = ReplicaSync::new("inbox", opts);
    let (pushes, writes, report) = run(&mut sync, vec![local], vec![remote("1", &["seen"])]);

    assert!(pushes.is_none());
    assert_eq!(report.pulled, 1);
    assert!(
        upserted(&writes, "1")
            .expect("a pull")
            .flags
            .contains("seen")
    );
}

#[test]
fn accepted_delete_drops_tombstone() {
    let mut local = synced("1", &["seen"]);
    local.status = ReplicaStatus::Tombstone;

    let mut sync = ReplicaSync::new("inbox", ReplicaSyncOptions::default());
    let results = vec![ReplicaPushResult {
        handle: ReplicaHandle::from("1"),
        outcome: ReplicaPushOutcome::Accepted,
        assigned: None,
        revision: None,
    }];
    let (writes, report) = drive_push(
        &mut sync,
        vec![local],
        vec![remote("1", &["seen"])],
        results,
    );

    assert_eq!(report.pushed, 1);
    assert!(
        writes.iter().any(
            |w| matches!(w, ReplicaWriteOp::DropPlacement { handle, .. } if handle.as_str() == "1")
        ),
        "an accepted delete drops the tombstone: {writes:?}",
    );
}

#[test]
fn rejected_delete_keeps_tombstone() {
    // a refused delete keeps the tombstone rather than dropping a
    // member the server still has
    let mut local = synced("1", &["seen"]);
    local.status = ReplicaStatus::Tombstone;

    let mut sync = ReplicaSync::new("inbox", ReplicaSyncOptions::default());
    let results = vec![ReplicaPushResult {
        handle: ReplicaHandle::from("1"),
        outcome: ReplicaPushOutcome::Rejected,
        assigned: None,
        revision: None,
    }];
    let (writes, report) = drive_push(
        &mut sync,
        vec![local],
        vec![remote("1", &["seen"])],
        results,
    );

    assert_eq!(report.rejected, 1);
    assert!(
        !writes.iter().any(
            |w| matches!(w, ReplicaWriteOp::DropPlacement { handle, .. } if handle.as_str() == "1")
        ),
        "a rejected delete must not drop the tombstone: {writes:?}",
    );
}

#[test]
fn local_delete_gone_remote_just_drops() {
    let mut local = synced("1", &["seen"]);
    local.status = ReplicaStatus::Tombstone;

    let mut sync = ReplicaSync::new("inbox", ReplicaSyncOptions::default());
    let (pushes, writes, report) = run(&mut sync, vec![local], vec![]);

    assert!(pushes.is_none());
    assert_eq!(report.pushed, 0);
    assert!(
        writes.iter().any(
            |w| matches!(w, ReplicaWriteOp::DropPlacement { handle, .. } if handle.as_str() == "1")
        ),
        "the tombstone is dropped without a push: {writes:?}",
    );
}

#[test]
fn remote_delete_in_full_drops() {
    let local = synced("1", &["seen"]);
    let mut sync = ReplicaSync::new("inbox", ReplicaSyncOptions::default());
    let (pushes, writes, report) = run(&mut sync, vec![local], vec![]);

    assert!(pushes.is_none());
    assert_eq!(report.pulled, 1);
    assert!(
        writes.iter().any(
            |w| matches!(w, ReplicaWriteOp::DropPlacement { handle, .. } if handle.as_str() == "1")
        ),
        "the vanished placement is dropped: {writes:?}",
    );
}

#[test]
fn offline_created_item_left_for_create_path() {
    // present locally, never based, not upstream: its upload belongs
    // to the create path
    let mut local = synced("1", &["flagged"]);
    local.base = None;
    local.status = ReplicaStatus::Dirty;

    let mut sync = ReplicaSync::new("inbox", ReplicaSyncOptions::default());
    let (pushes, writes, report) = run(&mut sync, vec![local], vec![]);

    assert!(pushes.is_none());
    assert_eq!(report, ReplicaSyncReport::default());
    assert!(
        upserted(&writes, "1").is_none()
            && !writes.iter().any(
                |w| matches!(w, ReplicaWriteOp::DropPlacement { handle, .. } if handle.as_str() == "1")
            ),
        "an offline-created item is neither rewritten nor dropped: {writes:?}",
    );
}

#[test]
fn created_placement_pushes_add() {
    // the Add carries the origin, so the remote can copy rather than
    // re-upload, and the flag set, so an append creates the member
    // with the right flags
    let mut local = created("tmp-1");
    local.flags = ReplicaFlags::from_names(&["seen"]);
    let mut sync = ReplicaSync::new("inbox", ReplicaSyncOptions::default());
    let (pushes, _writes, report) = run(&mut sync, vec![local], vec![]);

    match &pushes.expect("a push")[0].kind {
        ReplicaChangeKind::Add { origin, flags, .. } => {
            assert!(origin.is_some());
            assert!(flags.contains("seen"), "the flag set rides the add");
        }
        other => panic!("expected an Add push, got {other:?}"),
    }
    assert_eq!(report.pushed, 1);
}

#[test]
fn accepted_create_rekeys_to_assigned() {
    // the placeholder is dropped and the placement rekeyed clean and
    // based under the assigned handle, its base pinning the pushed
    // body and revision
    let mut local = created("tmp-1");
    local.object = Some(ReplicaHash::from("h-1"));
    let mut sync = ReplicaSync::new("inbox", ReplicaSyncOptions::default());
    let results = vec![ReplicaPushResult {
        handle: ReplicaHandle::from("tmp-1"),
        outcome: ReplicaPushOutcome::Accepted,
        assigned: Some(ReplicaHandle::from("42")),
        revision: Some("r1".into()),
    }];
    let (writes, _report) = drive_push(&mut sync, vec![local], vec![], results);

    assert!(
        writes.iter().any(
            |w| matches!(w, ReplicaWriteOp::DropPlacement { handle, .. } if handle.as_str() == "tmp-1")
        ),
        "the placeholder is dropped: {writes:?}",
    );
    let real =
        upserted(&writes, "42").expect("the placement is rekeyed to the assigned handle");
    assert_eq!(real.status, ReplicaStatus::Clean);
    assert!(real.origin.is_none());
    let base = real.base.as_ref().expect("a base");
    assert_eq!(base.revision.as_deref(), Some("r1"));
    assert_eq!(base.object, Some(ReplicaHash::from("h-1")));
}

#[test]
fn rejected_create_keeps_placeholder() {
    let local = created("tmp-1");
    let mut sync = ReplicaSync::new("inbox", ReplicaSyncOptions::default());
    let results = vec![ReplicaPushResult {
        handle: ReplicaHandle::from("tmp-1"),
        outcome: ReplicaPushOutcome::Rejected,
        assigned: None,
        revision: None,
    }];
    let (writes, report) = drive_push(&mut sync, vec![local], vec![], results);

    assert_eq!(report.rejected, 1);
    assert!(
        !writes
            .iter()
            .any(|w| matches!(w, ReplicaWriteOp::DropPlacement { .. })),
        "a rejected create must not drop the placeholder: {writes:?}",
    );
    assert!(upserted(&writes, "tmp-1").is_none());
}

#[test]
fn move_pushes_remove_with_target() {
    // a tombstone carrying an origin is a move: the Remove names the
    // destination, so the consumer issues a UID MOVE
    let mut local = synced("1", &["seen"]);
    local.status = ReplicaStatus::Tombstone;
    local.origin = Some(ReplicaOrigin {
        collection: "archive".into(),
        handle: ReplicaHandle::from("1"),
    });

    let mut sync = ReplicaSync::new("inbox", ReplicaSyncOptions::default());
    let (pushes, _writes, report) = run(&mut sync, vec![local], vec![remote("1", &["seen"])]);

    match &pushes.expect("a push")[0].kind {
        ReplicaChangeKind::Remove { to: Some(to), .. } => assert_eq!(to.as_str(), "archive"),
        other => panic!("expected a move Remove, got {other:?}"),
    }
    assert_eq!(report.pushed, 1);
}

#[test]
fn accepted_create_without_assigned_drops_placeholder() {
    // with no assigned handle (no UIDPLUS) the placeholder is
    // dropped, and the next enumerate re-adds the real one
    let local = created("tmp-1");
    let mut sync = ReplicaSync::new("inbox", ReplicaSyncOptions::default());
    let results = vec![ReplicaPushResult {
        handle: ReplicaHandle::from("tmp-1"),
        outcome: ReplicaPushOutcome::Accepted,
        assigned: None,
        revision: None,
    }];
    let (writes, _report) = drive_push(&mut sync, vec![local], vec![], results);

    assert!(
        writes.iter().any(
            |w| matches!(w, ReplicaWriteOp::DropPlacement { handle, .. } if handle.as_str() == "tmp-1")
        ),
        "the placeholder is dropped once the copy lands: {writes:?}",
    );
    assert!(upserted(&writes, "tmp-1").is_none());
}

#[test]
fn full_sync_ignores_checkpoint() {
    // the stored checkpoint is dropped, so the enumerate is asked
    // for the whole remote rather than a delta
    let mut sync = ReplicaSync::new(
        "inbox",
        ReplicaSyncOptions {
            push: true,
            rights: ReplicaPushRights::all(),
            delete: ReplicaDeletePolicy::Revert,
            conflict: ReplicaConflictPolicy::Manual,
            full: true,
        },
    );
    let _ = sync.resume(None);
    let loaded = ReplicaLoaded {
        placements: Vec::new(),
        checkpoint: Some(ReplicaCheckpoint(b"cp".to_vec())),
    };
    match sync.resume(Some(ReplicaArg::Load(loaded))) {
        ReplicaCoroutineState::Yielded(ReplicaYield::WantsEnumerate { cursor, .. }) => {
            assert!(cursor.is_none(), "a full sync must ignore the checkpoint");
        }
        state => panic!("expected WantsEnumerate, got {state:?}"),
    }
}

/// A synced placement carrying a staged content edit: the body
/// points at "h2" while the base pins "h1" at revision "r1".
fn edited(handle: &str) -> ReplicaPlacement {
    let mut placement = synced(handle, &[]);
    placement.status = ReplicaStatus::Dirty;
    placement.object = Some(ReplicaHash::from("h2"));
    placement.level = ReplicaLevel::Full;
    let base = placement.base.as_mut().expect("a base");
    base.revision = Some("r1".into());
    base.object = Some(ReplicaHash::from("h1"));
    placement
}

/// A remote item at the given content revision.
fn remote_rev(handle: &str, revision: &str) -> ReplicaRemoteItem {
    let mut item = remote(handle, &[]);
    item.revision = Some(revision.into());
    item
}

#[test]
fn a_content_push_still_pulls_a_remote_flag_change() {
    // the two axes are independent, and a delta lists the item
    // exactly once: a flag change dropped here stays invisible until
    // some later run happens to list the item again
    let mut local = edited("1");
    let mut item = remote_rev("1", "r1");
    item.flags = ReplicaFlags::from_names(&["seen"]);
    local.base.as_mut().expect("a base").revision = Some("r1".into());

    let mut sync = ReplicaSync::new("inbox", ReplicaSyncOptions::default());
    let (pushes, writes, _report) = run(&mut sync, vec![local], vec![item]);

    match &pushes.expect("a push")[0].kind {
        ReplicaChangeKind::Update { .. } => {}
        other => panic!("expected an Update push, got {other:?}"),
    }
    let pulled = upserted(&writes, "1").expect("the flag pull");
    assert!(
        pulled.flags.contains("seen"),
        "the remote flag lands with the content push, not a run later",
    );
}

#[test]
fn local_content_edit_pushes_update_and_rebases() {
    // the Update is gated on the base revision; once accepted, the
    // base pins the pushed body and the reported revision
    let mut sync = ReplicaSync::new("inbox", ReplicaSyncOptions::default());
    let _ = sync.resume(None);
    let _ = sync.resume(Some(ReplicaArg::Load(ReplicaLoaded {
        placements: vec![edited("1")],
        checkpoint: None,
    })));

    let pushes = match sync.resume(Some(ReplicaArg::Enumerate(full(vec![remote_rev(
        "1", "r1",
    )])))) {
        ReplicaCoroutineState::Yielded(ReplicaYield::WantsPush { changes, .. }) => changes,
        state => panic!("expected WantsPush, got {state:?}"),
    };
    match &pushes[0].kind {
        ReplicaChangeKind::Update {
            handle,
            object,
            if_match,
        } => {
            assert_eq!(handle.as_str(), "1");
            assert_eq!(object, &ReplicaHash::from("h2"));
            assert_eq!(if_match.as_deref(), Some("r1"));
        }
        other => panic!("expected an Update push, got {other:?}"),
    }

    let results = vec![ReplicaPushResult {
        handle: ReplicaHandle::from("1"),
        outcome: ReplicaPushOutcome::Accepted,
        assigned: None,
        revision: Some("r2".into()),
    }];
    let writes = match sync.resume(Some(ReplicaArg::Push(results))) {
        ReplicaCoroutineState::Yielded(ReplicaYield::WantsWrite(writes)) => writes,
        state => panic!("expected WantsWrite, got {state:?}"),
    };

    let rebased = upserted(&writes, "1").expect("a rebased placement");
    assert_eq!(rebased.status, ReplicaStatus::Clean);
    let base = rebased.base.as_ref().expect("a base");
    assert_eq!(base.revision.as_deref(), Some("r2"));
    assert_eq!(base.object, Some(ReplicaHash::from("h2")));
}

#[test]
fn content_rebase_defers_a_riding_flag_edit() {
    // the content wins the push, and the rebase keeps the base flags
    // as they were, so the flag push derives on the next sync
    // instead of being silently marked synced
    let mut placement = edited("1");
    placement.flags = ReplicaFlags::from_names(&["seen"]);

    let mut sync = ReplicaSync::new("inbox", ReplicaSyncOptions::default());
    let results = vec![ReplicaPushResult {
        handle: ReplicaHandle::from("1"),
        outcome: ReplicaPushOutcome::Accepted,
        assigned: None,
        revision: Some("r2".into()),
    }];
    let (writes, _report) = drive_push(
        &mut sync,
        vec![placement],
        vec![remote_rev("1", "r1")],
        results,
    );

    let rebased = upserted(&writes, "1").expect("a rebased placement");
    assert_eq!(
        rebased.status,
        ReplicaStatus::Dirty,
        "the flag edit stays pending"
    );
    let base = rebased.base.as_ref().expect("a base");
    assert!(!base.flags.contains("seen"), "base flags stay as synced");
    assert_eq!(base.object, Some(ReplicaHash::from("h2")));
}

#[test]
fn remote_content_change_refreshes_the_stale_body() {
    // the stale body is dropped and the revision rebased; the next
    // upgrade refetches on demand
    let mut placement = synced("1", &[]);
    placement.object = Some(ReplicaHash::from("h1"));
    placement.level = ReplicaLevel::Full;
    let base = placement.base.as_mut().expect("a base");
    base.revision = Some("r1".into());
    base.object = Some(ReplicaHash::from("h1"));

    let mut sync = ReplicaSync::new("inbox", ReplicaSyncOptions::default());
    let (pushes, writes, report) = run(&mut sync, vec![placement], vec![remote_rev("1", "r2")]);

    assert!(pushes.is_none(), "a refresh pushes nothing");
    assert_eq!(report.refreshed, 1);
    let refreshed = upserted(&writes, "1").expect("a refreshed placement");
    assert_eq!(refreshed.object, None, "the stale body is dropped");
    assert_eq!(
        refreshed.level,
        ReplicaLevel::Probed,
        "the summary is stale too"
    );
    let base = refreshed.base.as_ref().expect("a base");
    assert_eq!(base.revision.as_deref(), Some("r2"));
    assert_eq!(base.object, None);
}

#[test]
fn divergent_content_edits_conflict() {
    // the conflict mark carries the observed remote revision, the
    // local body survives, and nothing is pushed or refreshed. The
    // diverging body is marked wanted rather than taken: the engine
    // fetches nothing, so the upgrade pass is what supplies it
    let mut sync = ReplicaSync::new("inbox", ReplicaSyncOptions::default());
    let (pushes, writes, report) =
        run(&mut sync, vec![edited("1")], vec![remote_rev("1", "r2")]);

    assert!(pushes.is_none());
    assert_eq!(report.conflicts, 1);
    assert_eq!(report.refreshed, 0);
    let conflicted = upserted(&writes, "1").expect("a conflicted placement");
    assert_eq!(conflicted.status, ReplicaStatus::Conflict);
    assert_eq!(conflicted.conflict_revision.as_deref(), Some("r2"));
    assert_eq!(
        conflicted.conflict_object, None,
        "the diverging body is wanted, not taken"
    );
    assert_eq!(
        conflicted.object,
        Some(ReplicaHash::from("h2")),
        "the edit survives"
    );
}

#[test]
fn base_less_body_present_on_both_conflicts() {
    // a create-collision, or a spoke whose content base was
    // orphaned: with no shared ancestor there is nothing to merge,
    // so it surfaces as a conflict instead of converging on flags
    // alone, which would strand the two bodies apart and loop every
    // sync. The consumer's resolution re-establishes a base.
    let mut placement = synced("1", &[]);
    placement.base = None;
    placement.object = Some(ReplicaHash::from("h1"));
    placement.level = ReplicaLevel::Full;

    let mut sync = ReplicaSync::new("inbox", ReplicaSyncOptions::default());
    let (pushes, writes, report) = run(&mut sync, vec![placement], vec![remote_rev("1", "r9")]);

    assert!(pushes.is_none(), "an unresolved conflict pushes nothing");
    assert_eq!(report.conflicts, 1);
    let conflicted = upserted(&writes, "1").expect("a conflicted placement");
    assert_eq!(conflicted.status, ReplicaStatus::Conflict);
    assert_eq!(conflicted.conflict_revision.as_deref(), Some("r9"));
    assert_eq!(
        conflicted.object,
        Some(ReplicaHash::from("h1")),
        "the body survives for the resolution"
    );
}

#[test]
fn base_less_body_less_present_on_both_stays_flag_only() {
    // no body means no content signal, so the create-collision rule
    // does not fire and the flag merge still converges
    let mut placement = synced("1", &["seen"]);
    placement.base = None;

    let mut sync = ReplicaSync::new("inbox", ReplicaSyncOptions::default());
    let (pushes, writes, report) =
        run(&mut sync, vec![placement], vec![remote("1", &["seen"])]);

    assert!(pushes.is_none());
    assert_eq!(report.conflicts, 0);
    let converged = upserted(&writes, "1").expect("a converged placement");
    assert_eq!(converged.status, ReplicaStatus::Clean);
    assert!(converged.base.is_some(), "it becomes based on the remote");
}

#[test]
fn an_unresolved_conflict_tracks_the_latest_remote_revision() {
    // the observed remote revision follows the remote, so the
    // consumer resolves against the latest content
    let mut placement = edited("1");
    placement.status = ReplicaStatus::Conflict;
    placement.conflict_revision = Some("r2".into());

    let mut sync = ReplicaSync::new("inbox", ReplicaSyncOptions::default());
    let (pushes, writes, report) = run(&mut sync, vec![placement], vec![remote_rev("1", "r3")]);

    assert!(pushes.is_none());
    assert_eq!(report.conflicts, 0, "no recount");
    let current = upserted(&writes, "1").expect("an updated placement");
    assert_eq!(current.status, ReplicaStatus::Conflict);
    assert_eq!(current.conflict_revision.as_deref(), Some("r3"));
    assert_eq!(
        current.object,
        Some(ReplicaHash::from("h2")),
        "the edit survives"
    );
}

#[test]
fn a_conflict_whose_remote_moved_drops_its_stored_body() {
    // the stored body describes the revision recorded beside it, so
    // it goes in the write the newer revision lands in: a resolver
    // merging against it would show a version the remote dropped
    let mut placement = edited("1");
    placement.status = ReplicaStatus::Conflict;
    placement.conflict_revision = Some("r2".into());
    placement.conflict_object = Some(ReplicaHash::from("h-r2"));

    let mut sync = ReplicaSync::new("inbox", ReplicaSyncOptions::default());
    let (_pushes, writes, _report) =
        run(&mut sync, vec![placement], vec![remote_rev("1", "r3")]);

    let current = upserted(&writes, "1").expect("an updated placement");
    assert_eq!(current.conflict_revision.as_deref(), Some("r3"));
    assert_eq!(
        current.conflict_object, None,
        "the body of the revision that moved is asked for anew"
    );
}

#[test]
fn a_resolution_keeping_the_ancestor_pushes_it() {
    // the resolution rebased the base onto the remote state it
    // settled, so the ancestor it kept differs from it and pushes,
    // gated on the revision the decision was taken against
    let mut placement = edited("1");
    placement.object = Some(ReplicaHash::from("h-base"));
    let base = placement.base.as_mut().expect("a base");
    base.revision = Some("r2".into());
    base.object = Some(ReplicaHash::from("h-remote"));

    let mut sync = ReplicaSync::new("inbox", ReplicaSyncOptions::default());
    let (pushes, _writes, report) =
        run(&mut sync, vec![placement], vec![remote_rev("1", "r2")]);

    assert_eq!(report.conflicts, 0);
    match &pushes.expect("a push")[0].kind {
        ReplicaChangeKind::Update {
            object, if_match, ..
        } => {
            assert_eq!(object, &ReplicaHash::from("h-base"));
            assert_eq!(if_match.as_deref(), Some("r2"));
        }
        other => panic!("expected an Update push, got {other:?}"),
    }
}

#[test]
fn a_resolution_taking_the_remote_body_settles_clean() {
    // adopting the remote wholesale leaves nothing either side owes
    // the other, so the run derives no push and the placement lands
    // clean rather than dirty for good
    let mut placement = edited("1");
    placement.object = Some(ReplicaHash::from("h-remote"));
    let base = placement.base.as_mut().expect("a base");
    base.revision = Some("r2".into());
    base.object = Some(ReplicaHash::from("h-remote"));

    let mut sync = ReplicaSync::new("inbox", ReplicaSyncOptions::default());
    let (pushes, writes, report) = run(&mut sync, vec![placement], vec![remote_rev("1", "r2")]);

    assert!(pushes.is_none(), "the remote holds the decision already");
    assert_eq!(report.conflicts, 0);
    let settled = upserted(&writes, "1").expect("a settled placement");
    assert_eq!(settled.status, ReplicaStatus::Clean);
    assert_eq!(settled.object, Some(ReplicaHash::from("h-remote")));
}

#[test]
fn an_immutable_backend_records_no_conflict_at_all() {
    // no revision means no content signal on either side, so the
    // conflict axis never fires and neither half of the pair is ever
    // written
    let mut placement = edited("1");
    let base = placement.base.as_mut().expect("a base");
    base.revision = None;

    let mut sync = ReplicaSync::new("inbox", ReplicaSyncOptions::default());
    let (_pushes, writes, report) = run(&mut sync, vec![placement], vec![remote("1", &[])]);

    assert_eq!(report.conflicts, 0);
    for write in &writes {
        let ReplicaWriteOp::UpsertPlacement(placement) = write else {
            continue;
        };
        assert_ne!(placement.status, ReplicaStatus::Conflict);
        assert_eq!(placement.conflict_revision, None);
        assert_eq!(placement.conflict_object, None);
    }
}

#[test]
fn a_content_conflict_still_pulls_the_remote_flag_change() {
    // the conflict mark must not eat the flag change: a delta lists
    // it exactly once, so skipping the flag merge would diverge the
    // replica for good
    let mut sync = ReplicaSync::new("inbox", ReplicaSyncOptions::default());
    let mut item = remote_rev("1", "r2");
    item.flags = ReplicaFlags::from_names(&["seen"]);
    let (pushes, writes, report) = run(&mut sync, vec![edited("1")], vec![item]);

    assert!(pushes.is_none());
    assert_eq!(report.conflicts, 1);
    let conflicted = writes
        .iter()
        .rev()
        .find_map(|w| match w {
            ReplicaWriteOp::UpsertPlacement(p) if p.handle.as_str() == "1" => Some(p),
            _ => None,
        })
        .expect("a conflict write");
    assert_eq!(conflicted.status, ReplicaStatus::Conflict);
    assert_eq!(conflicted.conflict_revision.as_deref(), Some("r2"));
    assert!(conflicted.flags.contains("seen"), "the flag change lands");
    assert_eq!(
        conflicted.object,
        Some(ReplicaHash::from("h2")),
        "the edit survives"
    );
}

#[test]
fn unlisted_conflict_keeps_its_observed_remote_revision() {
    // unlisted means unchanged upstream since the cursor, so the
    // synthesized remote state carries the observed conflict
    // revision rather than the stale base one, which would regress
    // the tracking and push against the wrong precondition
    let mut placement = edited("1");
    placement.status = ReplicaStatus::Conflict;
    placement.conflict_revision = Some("r2".into());

    let mut sync = ReplicaSync::new("inbox", ReplicaSyncOptions::default());
    let snapshot = delta(vec![], vec![]);
    let (pushes, writes, report) = run_snapshot(&mut sync, vec![placement], snapshot);

    assert!(pushes.is_none());
    assert_eq!(report.conflicts, 0, "no recount");
    assert!(
        upserted(&writes, "1").is_none(),
        "the conflict tracking must not regress to the base revision: {writes:?}",
    );
}

#[test]
fn remote_content_change_beats_a_local_delete() {
    // the update wins, so no Remove is pushed and the placement is
    // re-pulled fresh on the new revision
    let mut placement = edited("1");
    placement.status = ReplicaStatus::Tombstone;

    let mut sync = ReplicaSync::new("inbox", ReplicaSyncOptions::default());
    let (pushes, writes, report) = run(&mut sync, vec![placement], vec![remote_rev("1", "r2")]);

    assert!(pushes.is_none(), "the delete is not pushed");
    assert_eq!(report.pulled, 1);
    let resurrected = upserted(&writes, "1").expect("a resurrected placement");
    assert_eq!(resurrected.status, ReplicaStatus::Clean);
    let base = resurrected.base.as_ref().expect("a base");
    assert_eq!(base.revision.as_deref(), Some("r2"));
}

#[test]
fn a_tombstone_carrying_a_staged_edit_still_removes() {
    // the edit rides into the target's create, which `Move` stages
    // origin-less so the staged body is uploaded; pushing an Update
    // against a member about to be deleted would only race it
    let mut placement = edited("1");
    placement.status = ReplicaStatus::Tombstone;

    let mut sync = ReplicaSync::new("inbox", ReplicaSyncOptions::default());
    let (pushes, _writes, _report) =
        run(&mut sync, vec![placement], vec![remote_rev("1", "r1")]);

    match &pushes.expect("a push")[0].kind {
        ReplicaChangeKind::Remove { to, if_match, .. } => {
            assert_eq!(*to, None, "a plain remove, not a server-side move");
            assert_eq!(if_match.as_deref(), Some("r1"));
        }
        other => panic!("expected a Remove, got {other:?}"),
    }
}

#[test]
fn a_tombstone_origin_derives_a_move_remove() {
    // no mutation stages a tombstone origin today, but a storage
    // that plumbs one through (an atomic server-side move) still
    // derives the destination
    let mut placement = synced("1", &[]);
    placement.status = ReplicaStatus::Tombstone;
    placement.origin = Some(ReplicaOrigin {
        collection: "archive".into(),
        handle: ReplicaHandle::from("1"),
    });

    let mut sync = ReplicaSync::new("inbox", ReplicaSyncOptions::default());
    let (pushes, _writes, _report) = run(&mut sync, vec![placement], vec![remote("1", &[])]);

    match &pushes.expect("a push")[0].kind {
        ReplicaChangeKind::Remove { to: Some(to), .. } => assert_eq!(to.as_str(), "archive"),
        other => panic!("expected a move Remove, got {other:?}"),
    }
}

#[test]
fn remove_carries_the_base_revision_as_precondition() {
    // the delete is gated on the last-synced revision, so a remote
    // edit racing it is rejected server-side
    let mut placement = edited("1");
    placement.status = ReplicaStatus::Tombstone;

    let mut sync = ReplicaSync::new("inbox", ReplicaSyncOptions::default());
    let (pushes, _writes, _report) =
        run(&mut sync, vec![placement], vec![remote_rev("1", "r1")]);

    match &pushes.expect("a push")[0].kind {
        ReplicaChangeKind::Remove { if_match, .. } => {
            assert_eq!(if_match.as_deref(), Some("r1"))
        }
        other => panic!("expected a Remove push, got {other:?}"),
    }
}

#[test]
fn remote_delete_with_staged_edit_resurrects_as_create() {
    // the mirror of remote-update-beats-local-delete: the placement
    // converts to a pending create that re-uploads the edited body
    // instead of being silently dropped
    let mut sync = ReplicaSync::new("inbox", ReplicaSyncOptions::default());
    let (pushes, writes, _report) = run(&mut sync, vec![edited("1")], vec![]);

    match &pushes.expect("a push")[0].kind {
        ReplicaChangeKind::Add { object, origin, .. } => {
            assert_eq!(object, &Some(ReplicaHash::from("h2")), "the edited body");
            assert!(origin.is_none(), "an append, not a copy");
        }
        other => panic!("expected an Add push, got {other:?}"),
    }
    let resurrected = upserted(&writes, "1").expect("a resurrected placement");
    assert_eq!(resurrected.status, ReplicaStatus::Created);
    assert!(resurrected.base.is_none());
    assert_eq!(resurrected.object, Some(ReplicaHash::from("h2")));
}

#[test]
fn remote_delete_of_a_conflicted_placement_resurrects_the_edit() {
    // the remote side is gone, so the conflict is moot and the
    // surviving local edit wins by resurrecting as a pending create
    let mut placement = edited("1");
    placement.status = ReplicaStatus::Conflict;
    placement.conflict_revision = Some("r2".into());

    let mut sync = ReplicaSync::new("inbox", ReplicaSyncOptions::default());
    let (pushes, writes, _report) = run(&mut sync, vec![placement], vec![]);

    assert!(matches!(
        &pushes.expect("a push")[0].kind,
        ReplicaChangeKind::Add { origin: None, .. }
    ));
    let resurrected = upserted(&writes, "1").expect("a resurrected placement");
    assert_eq!(resurrected.status, ReplicaStatus::Created);
    assert_eq!(resurrected.conflict_revision, None, "the conflict is moot");
    assert_eq!(
        resurrected.object,
        Some(ReplicaHash::from("h2")),
        "the edit survives"
    );
}

#[test]
fn read_only_remote_delete_with_staged_edit_keeps_the_edit() {
    // same rescue on a read-only source: no push, but the pending
    // create keeps the edit alive for a later writable sync
    let opts = ReplicaSyncOptions {
        push: false,
        rights: ReplicaPushRights::all(),
        delete: ReplicaDeletePolicy::Revert,
        conflict: ReplicaConflictPolicy::Manual,
        full: false,
    };
    let mut sync = ReplicaSync::new("inbox", opts);
    let (pushes, writes, _report) = run(&mut sync, vec![edited("1")], vec![]);

    assert!(pushes.is_none());
    let resurrected = upserted(&writes, "1").expect("a resurrected placement");
    assert_eq!(resurrected.status, ReplicaStatus::Created);
    assert_eq!(resurrected.object, Some(ReplicaHash::from("h2")));
}

#[test]
fn read_only_keeps_a_content_edit_dirty() {
    // the staged edit stays dirty for a later writable sync
    let mut sync = ReplicaSync::new(
        "inbox",
        ReplicaSyncOptions {
            push: false,
            rights: ReplicaPushRights::all(),
            delete: ReplicaDeletePolicy::Revert,
            conflict: ReplicaConflictPolicy::Manual,
            full: false,
        },
    );
    let (pushes, writes, _report) =
        run(&mut sync, vec![edited("1")], vec![remote_rev("1", "r1")]);

    assert!(pushes.is_none());
    assert!(
        upserted(&writes, "1").is_none(),
        "the placement is left as is"
    );
}

#[test]
fn read_only_delete_is_reverted_rather_than_applied() {
    // the delete can never propagate and the replica mirrors the
    // source, so the member stays with its cached body rather than
    // being dropped and refetched by a later full enumerate
    let mut local = synced("1", &["seen"]);
    local.status = ReplicaStatus::Tombstone;

    let opts = ReplicaSyncOptions {
        push: false,
        rights: ReplicaPushRights::all(),
        delete: ReplicaDeletePolicy::Revert,
        conflict: ReplicaConflictPolicy::Manual,
        full: false,
    };
    let mut sync = ReplicaSync::new("inbox", opts);
    let (pushes, writes, report) = run(&mut sync, vec![local], vec![remote("1", &["seen"])]);

    assert!(pushes.is_none(), "read-only source must not push");
    assert_eq!(report.pushed, 0);
    assert!(
        !writes
            .iter()
            .any(|w| matches!(w, ReplicaWriteOp::DropPlacement { .. })),
        "the member is not dropped: {writes:?}",
    );
    let reverted = upserted(&writes, "1").expect("the reverted placement");
    assert_eq!(reverted.status, ReplicaStatus::Clean);
}

#[test]
fn a_read_only_delete_survives_a_delta_enumerate() {
    // the revert cannot wait for a re-add: an incremental enumerate
    // never lists an untouched member again, so a dropped row would
    // leave the replica permanently short of one item
    let mut local = synced("1", &["seen"]);
    local.status = ReplicaStatus::Tombstone;

    let opts = ReplicaSyncOptions {
        push: false,
        ..Default::default()
    };
    let mut sync = ReplicaSync::new("inbox", opts);
    // the handle is unchanged upstream, so the delta lists nothing
    let (_pushes, writes, _report) =
        run_snapshot(&mut sync, vec![local], delta(vec![], vec![]));

    let reverted = upserted(&writes, "1").expect("the reverted placement");
    assert_eq!(reverted.status, ReplicaStatus::Clean);
}

#[test]
fn unknown_vanished_handle_is_ignored() {
    // a delta may report a handle the replica never knew, removed
    // before it was ever enumerated locally
    let mut sync = ReplicaSync::new("inbox", ReplicaSyncOptions::default());
    let snapshot = delta(vec![], vec![ReplicaHandle::from("ghost")]);
    let (pushes, writes, report) = run_snapshot(&mut sync, vec![], snapshot);

    assert!(pushes.is_none());
    assert_eq!(report, ReplicaSyncReport::default());
    assert_eq!(writes.len(), 1, "only the checkpoint write");
    assert!(matches!(&writes[0], ReplicaWriteOp::SetCheckpoint { .. }));
}

#[test]
fn noop_flag_edit_rebases_clean() {
    // nothing to push, but the placement must come out clean rather
    // than stay dirty forever
    let mut local = synced("1", &["seen"]);
    local.status = ReplicaStatus::Dirty;

    let mut sync = ReplicaSync::new("inbox", ReplicaSyncOptions::default());
    let (pushes, writes, report) = run(&mut sync, vec![local], vec![remote("1", &["seen"])]);

    assert!(pushes.is_none(), "nothing to push");
    assert_eq!(report, ReplicaSyncReport::default());
    let cleaned = upserted(&writes, "1").expect("a cleaning rebase");
    assert_eq!(cleaned.status, ReplicaStatus::Clean);
}

#[test]
fn sync_missing_arg_errors() {
    let mut sync = ReplicaSync::new("inbox", ReplicaSyncOptions::default());
    let _ = sync.resume(None);
    match sync.resume(None) {
        ReplicaCoroutineState::Complete(Err(ReplicaArgError::MissingArg)) => {}
        state => panic!("expected MissingArg, got {state:?}"),
    }
}

#[test]
fn a_completed_sync_does_not_resume() {
    // an empty report is indistinguishable from a run that did
    // nothing, so a driver resuming a finished sync must be told
    let mut sync = ReplicaSync::new("inbox", ReplicaSyncOptions::default());
    let _ = run(&mut sync, vec![], vec![]);
    match sync.resume(Some(ReplicaArg::Write)) {
        ReplicaCoroutineState::Complete(Err(ReplicaArgError::UnexpectedArg)) => {}
        state => panic!("expected UnexpectedArg, got {state:?}"),
    }
}

#[test]
fn sync_unexpected_arg_errors() {
    let mut sync = ReplicaSync::new("inbox", ReplicaSyncOptions::default());
    let _ = sync.resume(None);
    match sync.resume(Some(ReplicaArg::Write)) {
        ReplicaCoroutineState::Complete(Err(ReplicaArgError::UnexpectedArg)) => {}
        state => panic!("expected UnexpectedArg, got {state:?}"),
    }
}

/// A writable sync (`push = true`) with the given per-kind rights.
fn with_rights(flags: bool, content: bool, add: bool, remove: bool) -> ReplicaSyncOptions {
    ReplicaSyncOptions {
        rights: ReplicaPushRights {
            flags,
            content,
            add,
            remove,
        },
        ..Default::default()
    }
}

#[test]
fn forbidding_flags_keeps_dirty_without_push() {
    let mut local = synced("1", &[]);
    local.flags = ReplicaFlags::from_names(&["seen"]);
    local.status = ReplicaStatus::Dirty;

    let mut sync = ReplicaSync::new("inbox", with_rights(false, true, true, true));
    let (pushes, _writes, report) = run(&mut sync, vec![local], vec![remote("1", &[])]);

    assert!(pushes.is_none(), "a forbidden flag push must not fire");
    assert_eq!(report.pushed, 0);
}

#[test]
fn forbidding_remove_reverts_the_tombstone_by_default() {
    let mut local = synced("1", &["seen"]);
    local.status = ReplicaStatus::Tombstone;

    let mut sync = ReplicaSync::new("inbox", with_rights(true, true, true, false));
    let (pushes, writes, report) = run(&mut sync, vec![local], vec![remote("1", &["seen"])]);

    assert!(pushes.is_none(), "a forbidden remove must not push");
    assert!(
        !writes.iter().any(|w| matches!(
            w,
            ReplicaWriteOp::DropPlacement { handle, .. } if handle.as_str() == "1"
        )),
        "a delete the source refuses is never applied to the replica: {writes:?}",
    );
    assert_eq!(
        upserted(&writes, "1")
            .expect("the tombstone is reverted")
            .status,
        ReplicaStatus::Clean,
        "the default policy mirrors the source, as it does for a read-only one",
    );
    assert_eq!(report.pushed, 0);
}

/// Both ways a source can refuse a delete answer to one policy, so
/// `ReplicaPushRights::none()` and `push = false` agree on it.
#[test]
fn keeping_a_refused_delete_holds_the_tombstone_either_way() {
    let mut local = synced("1", &["seen"]);
    local.status = ReplicaStatus::Tombstone;

    let forbidden = ReplicaSyncOptions {
        rights: ReplicaPushRights {
            remove: false,
            ..ReplicaPushRights::all()
        },
        delete: ReplicaDeletePolicy::Keep,
        ..Default::default()
    };
    let read_only = ReplicaSyncOptions {
        push: false,
        delete: ReplicaDeletePolicy::Keep,
        ..Default::default()
    };

    for opts in [forbidden, read_only] {
        let mut sync = ReplicaSync::new("inbox", opts);
        let (pushes, writes, _report) =
            run(&mut sync, vec![local.clone()], vec![remote("1", &["seen"])]);

        assert!(pushes.is_none(), "a refused delete must not push");
        assert!(
            upserted(&writes, "1").is_none(),
            "the tombstone is held as it is, for a later run: {writes:?}",
        );
    }
}

#[test]
fn flags_allowed_remove_forbidden_pushes_only_flags() {
    let mut dirty = synced("1", &[]);
    dirty.flags = ReplicaFlags::from_names(&["seen"]);
    dirty.status = ReplicaStatus::Dirty;
    let mut tomb = synced("2", &[]);
    tomb.status = ReplicaStatus::Tombstone;

    let mut sync = ReplicaSync::new("inbox", with_rights(true, true, true, false));
    let (pushes, _writes, _report) = run(
        &mut sync,
        vec![dirty, tomb],
        vec![remote("1", &[]), remote("2", &[])],
    );

    let pushes = pushes.expect("the permitted flag push still fires");
    assert!(
        pushes
            .iter()
            .all(|c| matches!(c.kind, ReplicaChangeKind::SetFlags { .. })),
        "only the flag change may be pushed, not the delete: {pushes:?}",
    );
}

#[test]
fn forbidding_add_keeps_created_pending() {
    let mut sync = ReplicaSync::new("inbox", with_rights(true, true, false, true));
    let (pushes, _writes, report) = run(&mut sync, vec![created("tmp")], vec![]);

    assert!(pushes.is_none(), "a forbidden add must not push the create");
    assert_eq!(report.pushed, 0);
}

#[test]
fn event_added_on_remote_add() {
    let mut sync = ReplicaSync::new("inbox", ReplicaSyncOptions::default());
    let (_p, _w, report) = run(&mut sync, vec![], vec![remote("1", &["seen"])]);
    assert_eq!(
        report.events,
        vec![ReplicaEvent::Added(ReplicaHandle::from("1"))]
    );
}

#[test]
fn event_flags_changed_on_remote_flag_pull() {
    let local = synced("1", &[]);
    let mut sync = ReplicaSync::new("inbox", ReplicaSyncOptions::default());
    let (_p, _w, report) = run(&mut sync, vec![local], vec![remote("1", &["seen"])]);
    assert_eq!(
        report.events,
        vec![ReplicaEvent::FlagsChanged(ReplicaHandle::from("1"))]
    );
}

#[test]
fn event_vanished_on_delta_vanish() {
    let local = synced("1", &["seen"]);
    let mut sync = ReplicaSync::new("inbox", ReplicaSyncOptions::default());
    let snapshot = delta(vec![], vec![ReplicaHandle::from("1")]);
    let (_p, _w, report) = run_snapshot(&mut sync, vec![local], snapshot);
    assert_eq!(
        report.events,
        vec![ReplicaEvent::Vanished(ReplicaHandle::from("1"))]
    );
}

#[test]
fn event_flags_changed_on_accepted_push() {
    let mut local = synced("1", &[]);
    local.flags = ReplicaFlags::from_names(&["seen"]);
    local.status = ReplicaStatus::Dirty;
    let mut sync = ReplicaSync::new("inbox", ReplicaSyncOptions::default());
    let (_p, _w, report) = run(&mut sync, vec![local], vec![remote("1", &[])]);
    assert_eq!(
        report.events,
        vec![ReplicaEvent::FlagsChanged(ReplicaHandle::from("1"))]
    );
    assert_eq!(report.pushed, 1);
}

#[test]
fn event_created_on_accepted_create() {
    let mut sync = ReplicaSync::new("inbox", ReplicaSyncOptions::default());
    let results = vec![ReplicaPushResult {
        handle: ReplicaHandle::from("tmp"),
        outcome: ReplicaPushOutcome::Accepted,
        assigned: Some(ReplicaHandle::from("99")),
        revision: None,
    }];
    let (_w, report) = drive_push(&mut sync, vec![created("tmp")], vec![], results);
    // the create is reported under the server-assigned handle
    assert_eq!(
        report.events,
        vec![ReplicaEvent::Created(ReplicaHandle::from("99"))]
    );
}

// headless conflict policy

/// Sync options with a conflict policy, everything else default.
fn with_conflict(policy: ReplicaConflictPolicy) -> ReplicaSyncOptions {
    ReplicaSyncOptions {
        conflict: policy,
        ..Default::default()
    }
}

#[test]
fn prefer_remote_drops_the_local_edit() {
    let mut sync =
        ReplicaSync::new("inbox", with_conflict(ReplicaConflictPolicy::PreferRemote));
    let (pushes, writes, report) =
        run(&mut sync, vec![edited("1")], vec![remote_rev("1", "r2")]);

    assert!(pushes.is_none(), "prefer-remote pulls, never pushes");
    assert_eq!(report.conflicts, 0);
    assert_eq!(report.refreshed, 1, "the remote content is pulled");
    let pulled = upserted(&writes, "1").expect("a pulled placement");
    assert_eq!(pulled.object, None, "the local edit is dropped");
    assert_eq!(pulled.level, ReplicaLevel::Probed);
}

#[test]
fn prefer_local_overwrites_the_remote() {
    let mut sync = ReplicaSync::new("inbox", with_conflict(ReplicaConflictPolicy::PreferLocal));
    let (pushes, _writes, report) =
        run(&mut sync, vec![edited("1")], vec![remote_rev("1", "r2")]);

    let pushes = pushes.expect("prefer-local pushes the edit");
    match &pushes[0].kind {
        ReplicaChangeKind::Update {
            object, if_match, ..
        } => {
            assert_eq!(object, &ReplicaHash::from("h2"));
            assert_eq!(
                if_match.as_deref(),
                Some("r2"),
                "overwrites the current remote revision, not the stale base",
            );
        }
        other => panic!("expected an Update push, got {other:?}"),
    }
    assert_eq!(report.conflicts, 0);
}

#[test]
fn prefer_local_falls_back_to_conflict_when_it_cannot_push() {
    let opts = ReplicaSyncOptions {
        conflict: ReplicaConflictPolicy::PreferLocal,
        rights: ReplicaPushRights {
            content: false,
            ..ReplicaPushRights::all()
        },
        ..Default::default()
    };
    let mut sync = ReplicaSync::new("inbox", opts);
    let (pushes, _writes, report) =
        run(&mut sync, vec![edited("1")], vec![remote_rev("1", "r2")]);

    assert!(pushes.is_none());
    assert_eq!(report.conflicts, 1, "no push right, so it stays a conflict");
}

#[test]
fn keep_both_pulls_the_remote_and_stages_the_local_body() {
    let mut sync = ReplicaSync::new("inbox", with_conflict(ReplicaConflictPolicy::KeepBoth));
    let (pushes, writes, report) =
        run(&mut sync, vec![edited("1")], vec![remote_rev("1", "r2")]);

    assert!(
        pushes.is_none(),
        "the duplicate is staged, pushed next sync"
    );
    assert_eq!(report.conflicts, 0);
    assert_eq!(
        report.refreshed, 1,
        "the remote is pulled into the placement"
    );
    let dup = writes
        .iter()
        .find_map(|w| match w {
            ReplicaWriteOp::UpsertPlacement(p) if p.status == ReplicaStatus::Created => Some(p),
            _ => None,
        })
        .expect("a keep-both duplicate");
    assert_eq!(
        dup.object,
        Some(ReplicaHash::from("h2")),
        "the duplicate carries the local body",
    );
    assert!(
        dup.handle.as_str().contains("h2"),
        "the handle is per forked body, so two resolutions never collide",
    );
    assert!(
        dup.link_id.is_some(),
        "the duplicate needs an identity: a link id is what makes a \
         retried add idempotent and what a shared-item storage keys on",
    );
}

#[test]
fn two_keep_both_duplicates_of_one_handle_do_not_collide() {
    // both are staged before either is pushed, so a handle derived
    // from the placement alone would have the second overwrite the
    // first
    let mut first = edited("1");
    first.object = Some(ReplicaHash::from("h2"));
    let mut second = edited("1");
    second.object = Some(ReplicaHash::from("h3"));

    let dup_of = |local: ReplicaPlacement| {
        let mut sync =
            ReplicaSync::new("inbox", with_conflict(ReplicaConflictPolicy::KeepBoth));
        let (_pushes, writes, _report) =
            run(&mut sync, vec![local], vec![remote_rev("1", "r2")]);
        writes
            .iter()
            .find_map(|w| match w {
                ReplicaWriteOp::UpsertPlacement(p) if p.status == ReplicaStatus::Created => {
                    Some(p.clone())
                }
                _ => None,
            })
            .expect("a keep-both duplicate")
    };

    let first = dup_of(first);
    let second = dup_of(second);
    assert_ne!(first.handle, second.handle);
    assert_ne!(first.link_id, second.link_id);
}
