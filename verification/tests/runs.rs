//! Whole runs over rows kept in memory: what each leaves, and what the next
//! one makes of it.

use io_replica::change::{ReplicaChange, ReplicaChangeKind, ReplicaWriteOp};
use io_replica::collection::ReplicaCheckpoint;
use io_replica::coroutine::{ReplicaArg, ReplicaCoroutine, ReplicaCoroutineState, ReplicaYield};
use io_replica::hub::{ReplicaHub, ReplicaSourceId};
use io_replica::object::ReplicaHash;
use io_replica::placement::{
    ReplicaBase, ReplicaFlags, ReplicaHandle, ReplicaLevel, ReplicaLinkId, ReplicaMeta,
    ReplicaOrigin, ReplicaPlacement, ReplicaStatus,
};
use io_replica::remote::{
    ReplicaFetchedBody, ReplicaFetchedItem, ReplicaPushOutcome, ReplicaPushResult,
    ReplicaRemoteItem, ReplicaRemoteSnapshot, ReplicaTier,
};
use io_replica::storage::ReplicaLoaded;
use io_replica::sync::{
    ReplicaConflictPolicy, ReplicaEvent, ReplicaPushRights, ReplicaSync, ReplicaSyncOptions,
    ReplicaSyncReport,
};
use io_replica::upgrade::{ReplicaUpgrade, ReplicaUpgradeReport};

fn flags(names: &[&str]) -> ReplicaFlags {
    ReplicaFlags::from_names(names)
}

/// A member of "inbox" as its last sync left it, at revision "r1".
fn settled(handle: &str) -> ReplicaPlacement {
    ReplicaPlacement {
        collection: "inbox".into(),
        handle: ReplicaHandle::from(handle),
        link_id: Some(ReplicaLinkId(format!("link-{handle}"))),
        object: Some(ReplicaHash::from("h1")),
        level: ReplicaLevel::Full,
        meta: None,
        sort_key: Default::default(),
        flags: flags(&["seen"]),
        status: ReplicaStatus::Clean,
        conflict_revision: None,
        conflict_object: None,
        base: Some(ReplicaBase {
            flags: flags(&["seen"]),
            revision: Some("r1".into()),
            object: Some(ReplicaHash::from("h1")),
        }),
        origin: None,
        ambiguous_handles: Vec::new(),
    }
}

/// The same member with the body "h2" staged.
fn edited(handle: &str) -> ReplicaPlacement {
    let mut p = settled(handle);
    p.object = Some(ReplicaHash::from("h2"));
    p.status = ReplicaStatus::Dirty;
    p
}

fn remote(handle: &str, names: &[&str], revision: &str) -> ReplicaRemoteItem {
    ReplicaRemoteItem {
        handle: ReplicaHandle::from(handle),
        flags: flags(names),
        revision: Some(revision.into()),
    }
}

fn snapshot(complete: bool, items: Vec<ReplicaRemoteItem>) -> ReplicaRemoteSnapshot {
    ReplicaRemoteSnapshot {
        items,
        vanished: Vec::new(),
        complete,
        checkpoint: ReplicaCheckpoint(b"c2".to_vec()),
    }
}

fn outcome(handle: &str, outcome: ReplicaPushOutcome, revision: Option<&str>) -> ReplicaPushResult {
    ReplicaPushResult {
        handle: ReplicaHandle::from(handle),
        outcome,
        assigned: None,
        revision: revision.map(Into::into),
    }
}

/// Rows after a batch, applied in order.
fn apply(rows: &mut Vec<ReplicaPlacement>, ops: &[ReplicaWriteOp]) {
    for op in ops {
        match op {
            ReplicaWriteOp::UpsertPlacement(p) => {
                rows.retain(|row| row.handle != p.handle);
                rows.push(p.clone());
            }
            ReplicaWriteOp::DropPlacement { handle, .. } => {
                rows.retain(|row| row.handle != *handle)
            }
            _ => {}
        }
    }
    rows.sort_by(|a, b| a.handle.as_str().cmp(b.handle.as_str()));
}

fn row<'a>(rows: &'a [ReplicaPlacement], handle: &str) -> &'a ReplicaPlacement {
    rows.iter()
        .find(|row| row.handle.as_str() == handle)
        .expect("a row")
}

/// What a whole sync did.
struct Run {
    writes: Vec<ReplicaWriteOp>,
    changes: Vec<ReplicaChange>,
    report: ReplicaSyncReport,
    /// The kind of each thing asked for, in order.
    asked: Vec<&'static str>,
}

/// Runs a sync of "inbox" to its end over `rows`, each chunk answered by
/// `answer`.
fn sync(
    rows: &mut Vec<ReplicaPlacement>,
    opts: ReplicaSyncOptions,
    listed: ReplicaRemoteSnapshot,
    answer: impl Fn(&[ReplicaChange]) -> Vec<ReplicaPushResult>,
) -> Run {
    let mut verb = ReplicaSync::new("inbox", opts);
    let (mut writes, mut all, mut asked) = (Vec::new(), Vec::new(), Vec::new());
    let mut arg = None;
    loop {
        match verb.resume(arg.take()) {
            ReplicaCoroutineState::Complete(Ok(report)) => {
                return Run {
                    writes,
                    changes: all,
                    report,
                    asked,
                }
            }
            ReplicaCoroutineState::Complete(Err(error)) => panic!("refused: {error:?}"),
            ReplicaCoroutineState::Yielded(ReplicaYield::WantsLoad { .. }) => {
                asked.push("load");
                arg = Some(ReplicaArg::Load(ReplicaLoaded {
                    placements: rows.clone(),
                    checkpoint: Some(ReplicaCheckpoint(b"c1".to_vec())),
                }));
            }
            ReplicaCoroutineState::Yielded(ReplicaYield::WantsEnumerate { .. }) => {
                asked.push("enumerate");
                arg = Some(ReplicaArg::Enumerate(listed.clone()));
            }
            ReplicaCoroutineState::Yielded(ReplicaYield::WantsPush { changes, .. }) => {
                asked.push("push");
                assert!(!changes.is_empty() && changes.len() <= ReplicaSync::PUSH_CHUNK);
                arg = Some(ReplicaArg::Push(answer(&changes)));
                all.extend(changes);
            }
            ReplicaCoroutineState::Yielded(ReplicaYield::WantsWrite(ops)) => {
                asked.push("write");
                apply(rows, &ops);
                writes.extend(ops);
                arg = Some(ReplicaArg::Write);
            }
            ReplicaCoroutineState::Yielded(wanted) => panic!("unexpected {wanted:?}"),
        }
    }
}

fn accept_all(changes: &[ReplicaChange]) -> Vec<ReplicaPushResult> {
    changes
        .iter()
        .map(|c| outcome(c.handle().as_str(), ReplicaPushOutcome::Accepted, Some("r2")))
        .collect()
}

fn reject_all(changes: &[ReplicaChange]) -> Vec<ReplicaPushResult> {
    changes
        .iter()
        .map(|c| outcome(c.handle().as_str(), ReplicaPushOutcome::Rejected, None))
        .collect()
}

#[test]
fn a_rejection_counts_once_and_only_where_it_is_awaited() {
    let mut rows = vec![edited("1")];
    let run = sync(
        &mut rows,
        ReplicaSyncOptions::default(),
        snapshot(true, vec![remote("1", &["seen"], "r1")]),
        |_| {
            vec![
                outcome("404", ReplicaPushOutcome::Rejected, None),
                outcome("1", ReplicaPushOutcome::Rejected, None),
                outcome("1", ReplicaPushOutcome::Rejected, None),
            ]
        },
    );
    assert_eq!((run.report.pushed, run.report.rejected), (0, 1));
    assert!(run.report.events.is_empty());
    assert_eq!(run.writes.len(), 1, "the checkpoint alone: {:?}", run.writes);
    assert_eq!(rows, vec![edited("1")]);
}

#[test]
fn an_acceptance_counts_whatever_was_reported_before_it() {
    let accepted = || outcome("1", ReplicaPushOutcome::Accepted, Some("r2"));
    let rejected = || outcome("1", ReplicaPushOutcome::Rejected, None);
    let cases = [
        (vec![rejected(), accepted()], 1),
        (vec![rejected(), rejected(), accepted(), rejected()], 1),
        (vec![accepted(), rejected(), accepted()], 0),
    ];
    for (results, refused) in cases {
        let mut rows = vec![edited("1")];
        let run = sync(
            &mut rows,
            ReplicaSyncOptions::default(),
            snapshot(true, vec![remote("1", &["seen"], "r1")]),
            |_| results.clone(),
        );
        assert_eq!((run.report.pushed, run.report.rejected), (1, refused));
        assert_eq!(
            run.report.events,
            vec![ReplicaEvent::ContentChanged(ReplicaHandle::from("1"))]
        );
        let left = row(&rows, "1");
        assert_eq!(left.status, ReplicaStatus::Clean);
        assert_eq!(
            left.base,
            Some(ReplicaBase {
                flags: flags(&["seen"]),
                revision: Some("r2".into()),
                object: Some(ReplicaHash::from("h2")),
            })
        );
    }
}

#[test]
fn a_remote_that_reports_no_markers_holds_no_opinion() {
    let unknown = |handle: &str| ReplicaRemoteItem {
        handle: ReplicaHandle::from(handle),
        flags: ReplicaFlags::Unknown,
        revision: None,
    };
    let mut unbased = settled("2");
    unbased.status = ReplicaStatus::Created;
    unbased.base = None;
    unbased.object = None;
    let mut flagged = settled("3");
    flagged.flags = flags(&["flagged"]);
    flagged.status = ReplicaStatus::Dirty;
    let listed = || snapshot(true, vec![unknown("1"), unknown("2"), unknown("3")]);

    // what is clean or never based stays; a pending flag edit is pushed
    let mut rows = vec![settled("1"), unbased.clone(), flagged];
    let run = sync(&mut rows, ReplicaSyncOptions::default(), listed(), accept_all);
    assert_eq!(run.changes.len(), 1);
    assert_eq!(
        run.changes[0].kind,
        ReplicaChangeKind::SetFlags {
            handle: ReplicaHandle::from("3"),
            flags: flags(&["flagged"]),
        }
    );
    assert_eq!(run.report.pulled, 0);
    assert_eq!(row(&rows, "1"), &settled("1"));
    assert_eq!(row(&rows, "2"), &unbased);
    assert_eq!(row(&rows, "3").flags, flags(&["flagged"]));

    // and once taken it is not pushed again
    let run = sync(&mut rows, ReplicaSyncOptions::default(), listed(), accept_all);
    assert!(run.changes.is_empty());
    assert_eq!(run.writes.len(), 1, "the checkpoint alone: {:?}", run.writes);
}

#[test]
fn a_vanished_handle_nobody_holds_is_ignored() {
    let mut rows = vec![settled("1")];
    let mut delta = snapshot(false, Vec::new());
    delta.vanished = vec![ReplicaHandle::from("404")];
    let run = sync(&mut rows, ReplicaSyncOptions::default(), delta, accept_all);
    assert_eq!(run.writes.len(), 1, "the checkpoint alone: {:?}", run.writes);
    assert!(run.changes.is_empty());
    assert!(run.report.events.is_empty());
    assert_eq!(rows, vec![settled("1")]);
}

#[test]
fn a_fork_takes_no_row_but_its_own() {
    // both sides edited "1"; the row a fork of "2" would take is left alone
    let taken = settled("2\u{1}h1");
    let mut rows = vec![edited("1"), settled("2"), taken.clone()];
    let opts = ReplicaSyncOptions {
        conflict: ReplicaConflictPolicy::KeepBoth,
        ..Default::default()
    };
    let run = sync(
        &mut rows,
        opts,
        snapshot(false, vec![remote("1", &["seen"], "r9")]),
        accept_all,
    );
    assert_eq!(run.report.refreshed, 1);
    assert_eq!(row(&rows, "1").object, None);
    assert_eq!(row(&rows, "1\u{1}h2").status, ReplicaStatus::Created);
    assert_eq!(row(&rows, "2"), &settled("2"));
    assert_eq!(row(&rows, "2\u{1}h1"), &taken);
}

#[test]
fn a_flag_pulled_beside_an_edit_outlasts_its_push() {
    let mut rows = vec![edited("1")];
    let run = sync(
        &mut rows,
        ReplicaSyncOptions::default(),
        snapshot(true, vec![remote("1", &["seen", "flagged"], "r1")]),
        accept_all,
    );
    assert_eq!(run.changes.len(), 1);
    assert!(matches!(run.changes[0].kind, ReplicaChangeKind::Update { .. }));
    let left = row(&rows, "1").clone();
    assert_eq!(left.flags, flags(&["seen", "flagged"]));
    assert_eq!(left.object, Some(ReplicaHash::from("h2")));
    assert_eq!(left.status, ReplicaStatus::Clean);
    assert_eq!(
        left.base,
        Some(ReplicaBase {
            flags: flags(&["seen", "flagged"]),
            revision: Some("r2".into()),
            object: Some(ReplicaHash::from("h2")),
        })
    );

    // nothing is left to push, and the flag is not taken back
    let run = sync(
        &mut rows,
        ReplicaSyncOptions::default(),
        snapshot(true, vec![remote("1", &["seen", "flagged"], "r2")]),
        accept_all,
    );
    assert!(run.changes.is_empty());
    assert_eq!(run.writes.len(), 1);
    assert_eq!(row(&rows, "1"), &left);
}

#[test]
fn an_edit_on_a_read_only_source_stays_dirty_through_a_flag_pull() {
    let mut rows = vec![edited("1")];
    let opts = ReplicaSyncOptions {
        push: false,
        ..Default::default()
    };
    let listed = snapshot(true, vec![remote("1", &["seen", "flagged"], "r1")]);
    let run = sync(&mut rows, opts, listed.clone(), accept_all);
    assert!(run.changes.is_empty());
    let left = row(&rows, "1");
    assert_eq!(left.flags, flags(&["seen", "flagged"]));
    assert_eq!(left.status, ReplicaStatus::Dirty);

    // once it may be pushed it still is
    let run = sync(&mut rows, ReplicaSyncOptions::default(), listed, accept_all);
    assert_eq!(
        run.changes[0].kind,
        ReplicaChangeKind::Update {
            handle: ReplicaHandle::from("1"),
            object: ReplicaHash::from("h2"),
            if_match: Some("r1".into()),
        }
    );
    assert_eq!(row(&rows, "1").status, ReplicaStatus::Clean);
}

#[test]
fn a_push_that_did_not_land_is_derived_again_under_its_key() {
    let mut flagged = settled("2");
    flagged.flags = flags(&["flagged"]);
    flagged.status = ReplicaStatus::Dirty;
    let mut removed = settled("3");
    removed.status = ReplicaStatus::Tombstone;
    let mut created = settled("4");
    created.status = ReplicaStatus::Created;
    created.base = None;
    let listed = |complete| {
        snapshot(
            complete,
            vec![
                // the edit and the flag change each meet a flag pulled
                remote("1", &["seen", "answered"], "r1"),
                remote("2", &["seen", "answered"], "r1"),
                remote("3", &["seen"], "r1"),
            ],
        )
    };
    let none = |_: &[ReplicaChange]| Vec::new();
    for complete in [true, false] {
        let mut rows = vec![edited("1"), flagged.clone(), removed.clone(), created.clone()];
        let opts = ReplicaSyncOptions::default();
        let first = sync(&mut rows, opts, listed(complete), reject_all);
        assert_eq!(first.changes.len(), 4);
        assert_eq!(first.report.rejected, 4);
        let second = sync(&mut rows, opts, listed(complete), none);
        assert_eq!(second.changes, first.changes);
        assert_eq!(second.report.rejected, 0);
        let third = sync(&mut rows, opts, listed(complete), accept_all);
        assert_eq!(third.changes, first.changes);
        assert_eq!(third.report.pushed, 4);
        let last = sync(
            &mut rows,
            opts,
            snapshot(
                true,
                vec![
                    remote("1", &["seen", "answered"], "r2"),
                    remote("2", &["flagged", "answered"], "r1"),
                ],
            ),
            accept_all,
        );
        assert!(last.changes.is_empty(), "{:?}", last.changes);
    }
}

#[test]
fn texts_split_otherwise_key_otherwise() {
    let key = |collection: &str, handle: &str, object: &str| {
        let kind = ReplicaChangeKind::Update {
            handle: ReplicaHandle::from(handle),
            object: ReplicaHash::from(object),
            if_match: None,
        };
        ReplicaChange::new(&collection.into(), kind).key
    };
    assert_ne!(key("a\0b", "c", "h"), key("a", "b\0c", "h"));
    assert_ne!(key("a", "b\0update\0h", "h"), key("a", "b", "h\0update\0h"));
    let marks = |collection: &str, handle: &str, names: &[&str]| {
        let kind = ReplicaChangeKind::SetFlags {
            handle: ReplicaHandle::from(handle),
            flags: flags(names),
        };
        ReplicaChange::new(&collection.into(), kind).key
    };
    assert_ne!(marks("a\0b", "c", &[]), marks("a", "b\0c", &[]));
    assert_ne!(marks("a", "1", &["x\0y"]), marks("a", "1", &["x", "y"]));
}

#[test]
fn a_refused_move_is_undone_and_a_later_delete_goes_nowhere() {
    let mut moved = edited("1");
    moved.status = ReplicaStatus::Tombstone;
    moved.origin = Some(ReplicaOrigin {
        collection: "archive".into(),
        handle: ReplicaHandle::from("1"),
    });
    let mut rows = vec![moved];
    let opts = ReplicaSyncOptions {
        rights: ReplicaPushRights {
            content: false,
            remove: false,
            ..ReplicaPushRights::all()
        },
        ..Default::default()
    };
    let listed = || snapshot(true, vec![remote("1", &["seen"], "r1")]);
    let run = sync(&mut rows, opts, listed(), accept_all);
    assert!(run.changes.is_empty());
    assert_eq!(row(&rows, "1"), &edited("1"), "the edit is pending again");

    rows[0].status = ReplicaStatus::Tombstone;
    let run = sync(&mut rows, ReplicaSyncOptions::default(), listed(), accept_all);
    assert_eq!(
        run.changes[0].kind,
        ReplicaChangeKind::Remove {
            handle: ReplicaHandle::from("1"),
            to: None,
            link_id: Some(ReplicaLinkId::from("link-1")),
            if_match: Some("r1".into()),
        }
    );
    assert!(rows.is_empty());
}

#[test]
fn a_whole_sync_stores_its_checkpoint_once_and_last() {
    // two chunks of changes, and more pulled than one batch takes
    let n = ReplicaSync::PUSH_CHUNK + 3;
    let mut rows = Vec::new();
    let mut items = Vec::new();
    for i in 0..n {
        let handle = format!("a{i:04}");
        rows.push(edited(&handle));
        items.push(remote(&handle, &["seen"], "r1"));
    }
    for i in 0..ReplicaSync::WRITE_CHUNK + 1 {
        items.push(remote(&format!("b{i:04}"), &[], "r1"));
    }
    let run = sync(
        &mut rows,
        ReplicaSyncOptions::default(),
        snapshot(true, items),
        accept_all,
    );
    assert_eq!(
        run.asked,
        vec!["load", "enumerate", "write", "push", "write", "push", "write"]
    );
    let checkpoints = run
        .writes
        .iter()
        .filter(|op| matches!(op, ReplicaWriteOp::SetCheckpoint { .. }))
        .count();
    assert_eq!(checkpoints, 1);
    assert_eq!(
        run.writes.last(),
        Some(&ReplicaWriteOp::SetCheckpoint {
            collection: "inbox".into(),
            checkpoint: ReplicaCheckpoint(b"c2".to_vec()),
        })
    );
    assert_eq!(run.report.pushed, n);
}

#[test]
fn a_delta_says_nothing_of_a_clean_row_it_does_not_mention() {
    let mut rows = vec![edited("1"), settled("2"), settled("3")];
    let opts = ReplicaSyncOptions {
        conflict: ReplicaConflictPolicy::KeepBoth,
        ..Default::default()
    };
    let run = sync(
        &mut rows,
        opts,
        snapshot(false, vec![remote("3", &[], "r1")]),
        accept_all,
    );
    assert!(run.writes.iter().all(|op| match op {
        ReplicaWriteOp::UpsertPlacement(p) => p.handle.as_str() != "2",
        ReplicaWriteOp::DropPlacement { handle, .. } => handle.as_str() != "2",
        _ => true,
    }));
    assert!(run.changes.iter().all(|c| c.handle().as_str() != "2"));
    assert_eq!(
        run.report.events,
        vec![
            ReplicaEvent::FlagsChanged(ReplicaHandle::from("3")),
            ReplicaEvent::ContentChanged(ReplicaHandle::from("1")),
        ]
    );
    assert_eq!(row(&rows, "2"), &settled("2"));
}

/// Runs an upgrade over `rows`, the fetch answered by `items`.
fn upgrade(
    rows: &[ReplicaPlacement],
    tier: ReplicaTier,
    items: Vec<ReplicaFetchedItem>,
) -> (Vec<ReplicaWriteOp>, ReplicaUpgradeReport) {
    let handles = rows.iter().map(|row| row.handle.clone()).collect();
    let mut verb = ReplicaUpgrade::new("inbox", handles, tier);
    let mut writes = Vec::new();
    let mut arg = None;
    loop {
        match verb.resume(arg.take()) {
            ReplicaCoroutineState::Complete(Ok(report)) => return (writes, report),
            ReplicaCoroutineState::Complete(Err(error)) => panic!("refused: {error:?}"),
            ReplicaCoroutineState::Yielded(ReplicaYield::WantsLoad { .. }) => {
                arg = Some(ReplicaArg::Load(ReplicaLoaded {
                    placements: rows.to_vec(),
                    checkpoint: None,
                }));
            }
            ReplicaCoroutineState::Yielded(ReplicaYield::WantsFetch { .. }) => {
                arg = Some(ReplicaArg::Fetch(items.clone()));
            }
            ReplicaCoroutineState::Yielded(ReplicaYield::WantsWrite(ops)) => {
                writes.extend(ops);
                arg = Some(ReplicaArg::Write);
            }
            ReplicaCoroutineState::Yielded(wanted) => panic!("unexpected {wanted:?}"),
        }
    }
}

fn fetched(handle: &str, body: Option<&str>) -> ReplicaFetchedItem {
    ReplicaFetchedItem {
        handle: ReplicaHandle::from(handle),
        link_id: ReplicaLinkId(format!("link-{handle}")),
        meta: ReplicaMeta(format!("meta-{handle}")),
        sort_key: Default::default(),
        body: body.map(|hash| ReplicaFetchedBody::Inline {
            hash: ReplicaHash::from(hash),
            bytes: hash.as_bytes().to_vec(),
        }),
        revision: Some("r1".into()),
    }
}

/// A member no body was fetched for yet.
fn probed(handle: &str) -> ReplicaPlacement {
    let mut p = settled(handle);
    p.object = None;
    p.level = ReplicaLevel::Probed;
    p.base.as_mut().unwrap().object = None;
    p
}

#[test]
fn a_report_counts_what_was_raised_and_what_was_stored() {
    // no body is stored at the meta tier, whatever the fetch brought
    let (writes, report) = upgrade(
        &[probed("1")],
        ReplicaTier::Meta,
        vec![fetched("1", Some("body"))],
    );
    assert_eq!((report.upgraded, report.fetched, report.deduped), (1, 0, 0));
    assert_eq!(writes.len(), 1);

    // one without a body is not raised to full
    let (writes, report) = upgrade(
        &[probed("1"), probed("2")],
        ReplicaTier::Full,
        vec![fetched("1", None), fetched("2", Some("body"))],
    );
    assert_eq!((report.upgraded, report.fetched, report.deduped), (1, 1, 0));
    let mut rows = Vec::new();
    apply(&mut rows, &writes);
    assert_eq!(row(&rows, "1").level, ReplicaLevel::Meta);
    assert_eq!(row(&rows, "1").object, None);
    assert_eq!(row(&rows, "2").level, ReplicaLevel::Full);
    assert_eq!(row(&rows, "2").object, Some(ReplicaHash::from("body")));
}

#[test]
fn an_upgrade_lowers_no_level() {
    // full, and yet without a summary
    let (writes, report) = upgrade(&[settled("1")], ReplicaTier::Meta, vec![fetched("1", None)]);
    assert_eq!(report.upgraded, 1);
    let mut rows = Vec::new();
    apply(&mut rows, &writes);
    assert_eq!(row(&rows, "1").level, ReplicaLevel::Full);
    assert_eq!(row(&rows, "1").meta, Some(ReplicaMeta("meta-1".into())));
    assert_eq!(row(&rows, "1").object, Some(ReplicaHash::from("h1")));
}

#[test]
fn the_order_of_a_fetch_does_not_matter() {
    let rows = [probed("1"), probed("2"), probed("3")];
    let items = [
        fetched("1", Some("one")),
        fetched("2", None),
        fetched("3", Some("three")),
        fetched("404", Some("nobody asked")),
    ];
    let pick = |order: &[usize]| order.iter().map(|i| items[*i].clone()).collect::<Vec<_>>();
    let (first, report) = upgrade(&rows, ReplicaTier::Full, pick(&[0, 1, 2]));
    assert_eq!((report.upgraded, report.fetched, report.deduped), (2, 2, 0));
    let mut left = Vec::new();
    apply(&mut left, &first);
    for order in [&[2, 1, 0][..], &[1, 3, 2, 0][..], &[3, 0, 2, 1][..]] {
        let (writes, other) = upgrade(&rows, ReplicaTier::Full, pick(order));
        assert_eq!(
            (other.upgraded, other.fetched, other.deduped),
            (report.upgraded, report.fetched, report.deduped)
        );
        assert_eq!(writes.len(), first.len());
        assert!(first.iter().all(|op| writes.contains(op)));
        let mut rows = Vec::new();
        apply(&mut rows, &writes);
        assert_eq!(rows, left);
    }
}

#[test]
fn a_hub_that_takes_back_its_projection_projects_the_same() {
    let mut hub = ReplicaHub::default();
    let left = ReplicaSourceId::from("left");
    let right = ReplicaSourceId::from("right");
    let upsert = |p: &ReplicaPlacement| ReplicaWriteOp::UpsertPlacement(p.clone());

    // in sync, pending, conflicted, and deleted on the other source
    let mut conflicted = edited("3");
    conflicted.status = ReplicaStatus::Conflict;
    conflicted.conflict_revision = Some("r9".into());
    conflicted.conflict_object = Some(ReplicaHash::from("h9"));
    let ops: Vec<_> = [settled("1"), edited("2"), conflicted, settled("4")]
        .iter()
        .map(upsert)
        .collect();
    hub.absorb(&left, &ops);
    let mut deleted = settled("4");
    deleted.status = ReplicaStatus::Tombstone;
    hub.absorb(&right, &[upsert(&settled("4")), upsert(&deleted)]);

    let projection = hub.project(&"inbox".into(), &left);
    let statuses: Vec<_> = projection.iter().map(|p| p.status).collect();
    assert_eq!(
        statuses,
        vec![
            ReplicaStatus::Clean,
            ReplicaStatus::Dirty,
            ReplicaStatus::Conflict,
            ReplicaStatus::Tombstone,
        ]
    );
    let back: Vec<_> = projection.iter().map(upsert).collect();
    hub.absorb(&left, &back);
    assert_eq!(hub.project(&"inbox".into(), &left), projection);

    // a member offered to a source that lacks it is one it holds once absorbed
    let offered = hub.project(&"inbox".into(), &right);
    let first = offered.iter().find(|p| p.status == ReplicaStatus::Created);
    let op = upsert(first.expect("an offer"));
    hub.absorb(&right, &[op]);
    assert_ne!(hub.project(&"inbox".into(), &right), offered);
}
