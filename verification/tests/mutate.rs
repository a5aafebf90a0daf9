//! Local mutations.

use io_replica::change::ReplicaWriteOp;
use io_replica::coroutine::{
    ReplicaArg, ReplicaArgError, ReplicaCoroutine, ReplicaCoroutineState, ReplicaYield,
};
use io_replica::mutate::{ReplicaMutate, ReplicaMutateError, ReplicaMutation};
use io_replica::object::{ReplicaHash, ReplicaObject};
use io_replica::placement::{
    ReplicaBase, ReplicaFlags, ReplicaHandle, ReplicaLevel, ReplicaLinkId, ReplicaMeta,
    ReplicaPlacement, ReplicaStatus,
};
use io_replica::storage::{ReplicaLoadScope, ReplicaLoaded};

fn loaded(handle: &str) -> ReplicaLoaded {
    ReplicaLoaded {
        placements: vec![ReplicaPlacement {
            sort_key: Default::default(),
            collection: "inbox".into(),
            handle: ReplicaHandle::from(handle),
            link_id: Some(ReplicaLinkId::from(handle)),
            object: None,
            level: ReplicaLevel::Meta,
            meta: None,
            flags: ReplicaFlags::default(),
            conflict_revision: None,
            conflict_object: None,
            status: ReplicaStatus::Clean,
            base: Some(ReplicaBase {
                flags: ReplicaFlags::default(),
                revision: None,
                object: None,
            }),
            origin: None,
            ambiguous_handles: Vec::new(),
        }],
        checkpoint: None,
    }
}

#[test]
fn set_flags_marks_dirty() {
    let mutation = ReplicaMutation::SetFlags {
        handle: ReplicaHandle::from("1"),
        flags: ReplicaFlags::from_names(&["seen"]),
    };
    let mut mutate = ReplicaMutate::new("inbox", mutation);
    let _ = mutate.resume(None);

    let ops = match mutate.resume(Some(ReplicaArg::Load(loaded("1")))) {
        ReplicaCoroutineState::Yielded(ReplicaYield::WantsWrite(ops)) => ops,
        state => panic!("expected WantsWrite, got {state:?}"),
    };
    let ReplicaWriteOp::UpsertPlacement(p) = &ops[0] else {
        panic!("expected UpsertPlacement, got {:?}", ops[0]);
    };
    assert_eq!(p.status, ReplicaStatus::Dirty);
    assert!(p.flags.contains("seen"));
    assert!(p.base.is_some(), "base must be preserved for sync");
}

#[test]
fn set_flags_on_a_conflicted_placement_keeps_the_conflict() {
    // the flag edit rides along while the conflict stays unresolved,
    // so the sync never mistakes the placement for a plain dirty one
    let mutation = ReplicaMutation::SetFlags {
        handle: ReplicaHandle::from("1"),
        flags: ReplicaFlags::from_names(&["seen"]),
    };
    let mut mutate = ReplicaMutate::new("inbox", mutation);
    let _ = mutate.resume(None);

    let mut loaded = loaded("1");
    loaded.placements[0].status = ReplicaStatus::Conflict;
    loaded.placements[0].conflict_revision = Some("r2".into());

    let ops = match mutate.resume(Some(ReplicaArg::Load(loaded))) {
        ReplicaCoroutineState::Yielded(ReplicaYield::WantsWrite(ops)) => ops,
        state => panic!("expected WantsWrite, got {state:?}"),
    };
    let ReplicaWriteOp::UpsertPlacement(p) = &ops[0] else {
        panic!("expected UpsertPlacement, got {:?}", ops[0]);
    };
    assert_eq!(p.status, ReplicaStatus::Conflict);
    assert_eq!(p.conflict_revision.as_deref(), Some("r2"));
    assert!(p.flags.contains("seen"));
}

#[test]
fn set_flags_on_a_created_placement_stays_created() {
    // a pending create keeps its status, else the sync would never
    // push the add
    let mutation = ReplicaMutation::SetFlags {
        handle: ReplicaHandle::from("1"),
        flags: ReplicaFlags::from_names(&["seen"]),
    };
    let mut mutate = ReplicaMutate::new("inbox", mutation);
    let _ = mutate.resume(None);

    let mut loaded = loaded("1");
    loaded.placements[0].status = ReplicaStatus::Created;
    loaded.placements[0].base = None;

    let ops = match mutate.resume(Some(ReplicaArg::Load(loaded))) {
        ReplicaCoroutineState::Yielded(ReplicaYield::WantsWrite(ops)) => ops,
        state => panic!("expected WantsWrite, got {state:?}"),
    };
    let ReplicaWriteOp::UpsertPlacement(p) = &ops[0] else {
        panic!("expected UpsertPlacement, got {:?}", ops[0]);
    };
    assert_eq!(p.status, ReplicaStatus::Created);
    assert!(p.flags.contains("seen"));
}

#[test]
fn remove_marks_tombstone() {
    let mutation = ReplicaMutation::Remove(ReplicaHandle::from("1"));
    let mut mutate = ReplicaMutate::new("inbox", mutation);
    let _ = mutate.resume(None);

    let ops = match mutate.resume(Some(ReplicaArg::Load(loaded("1")))) {
        ReplicaCoroutineState::Yielded(ReplicaYield::WantsWrite(ops)) => ops,
        state => panic!("expected WantsWrite, got {state:?}"),
    };
    let ReplicaWriteOp::UpsertPlacement(p) = &ops[0] else {
        panic!("expected UpsertPlacement, got {:?}", ops[0]);
    };
    assert_eq!(p.status, ReplicaStatus::Tombstone);
}

#[test]
fn unknown_handle_errors() {
    let mutation = ReplicaMutation::Remove(ReplicaHandle::from("nope"));
    let mut mutate = ReplicaMutate::new("inbox", mutation);
    let _ = mutate.resume(None);

    match mutate.resume(Some(ReplicaArg::Load(loaded("1")))) {
        ReplicaCoroutineState::Complete(Err(ReplicaMutateError::UnknownHandle(h))) => {
            assert_eq!(h, "nope");
        }
        state => panic!("expected UnknownHandle, got {state:?}"),
    }
}

#[test]
fn add_stages_an_append_create() {
    // no base and no origin, which is the shape the sync pushes as
    // an append rather than a server-side copy
    let mutation = ReplicaMutation::Add {
        sort_key: Default::default(),
        handle: ReplicaHandle::from("draft-1"),
        link_id: ReplicaLinkId("mid:new".into()),
        flags: ReplicaFlags::from_names(&["\\Draft"]),
        object: ReplicaObject {
            hash: ReplicaHash::from("deadbeef"),
            size: 5,
        },
        body: b"hello".to_vec(),
        meta: Some(ReplicaMeta("{\"v\":1}".into())),
    };
    let mut mutate = ReplicaMutate::new("inbox", mutation);
    let _ = mutate.resume(None);

    // Add reads no source but still loads to guard collisions, and
    // the loaded item carries no link id
    let ops = match mutate.resume(Some(ReplicaArg::Load(loaded("other")))) {
        ReplicaCoroutineState::Yielded(ReplicaYield::WantsWrite(ops)) => ops,
        state => panic!("expected WantsWrite, got {state:?}"),
    };

    let ReplicaWriteOp::StoreObject { body, object } = &ops[0] else {
        panic!("expected StoreObject, got {:?}", ops[0]);
    };
    assert_eq!(body.as_deref(), Some(&b"hello"[..]));
    assert_eq!(object.hash, ReplicaHash::from("deadbeef"));

    let ReplicaWriteOp::UpsertPlacement(p) = &ops[1] else {
        panic!("expected UpsertPlacement, got {:?}", ops[1]);
    };
    assert_eq!(p.status, ReplicaStatus::Created);
    assert!(p.base.is_none(), "no prior sync");
    assert!(p.origin.is_none(), "an append, not a server copy");
    assert_eq!(p.link_id, Some(ReplicaLinkId("mid:new".into())));
    assert_eq!(p.level, ReplicaLevel::Full);
    assert!(p.flags.contains("\\Draft"));
}

#[test]
fn add_rejects_a_live_link_id_collision() {
    let mutation = ReplicaMutation::Add {
        sort_key: Default::default(),
        handle: ReplicaHandle::from("draft-1"),
        link_id: ReplicaLinkId("mid:dup".into()),
        flags: ReplicaFlags::default(),
        object: ReplicaObject {
            hash: ReplicaHash::from("deadbeef"),
            size: 1,
        },
        body: b"x".to_vec(),
        meta: None,
    };
    let mut mutate = ReplicaMutate::new("inbox", mutation);
    let _ = mutate.resume(None);

    // a live placement already holds mid:dup
    let mut loaded = loaded("existing");
    loaded.placements[0].link_id = Some(ReplicaLinkId("mid:dup".into()));

    match mutate.resume(Some(ReplicaArg::Load(loaded))) {
        ReplicaCoroutineState::Complete(Err(ReplicaMutateError::LinkExists(l))) => {
            assert_eq!(l, "mid:dup");
        }
        state => panic!("expected LinkExists, got {state:?}"),
    }
}

#[test]
fn add_over_a_tombstone_link_id_is_allowed() {
    // the delete is in flight and the new item supersedes it, so a
    // tombstone does not block a re-create
    let mutation = ReplicaMutation::Add {
        sort_key: Default::default(),
        handle: ReplicaHandle::from("draft-1"),
        link_id: ReplicaLinkId("mid:gone".into()),
        flags: ReplicaFlags::default(),
        object: ReplicaObject {
            hash: ReplicaHash::from("deadbeef"),
            size: 1,
        },
        body: b"x".to_vec(),
        meta: None,
    };
    let mut mutate = ReplicaMutate::new("inbox", mutation);
    let _ = mutate.resume(None);

    let mut loaded = loaded("existing");
    loaded.placements[0].link_id = Some(ReplicaLinkId("mid:gone".into()));
    loaded.placements[0].status = ReplicaStatus::Tombstone;

    match mutate.resume(Some(ReplicaArg::Load(loaded))) {
        ReplicaCoroutineState::Yielded(ReplicaYield::WantsWrite(_)) => {}
        state => panic!("expected WantsWrite, got {state:?}"),
    }
}

#[test]
fn write_completes() {
    let mutation = ReplicaMutation::Remove(ReplicaHandle::from("1"));
    let mut mutate = ReplicaMutate::new("inbox", mutation);
    let _ = mutate.resume(None);
    let _ = mutate.resume(Some(ReplicaArg::Load(loaded("1"))));

    match mutate.resume(Some(ReplicaArg::Write)) {
        ReplicaCoroutineState::Complete(Ok(())) => {}
        state => panic!("expected Complete(Ok), got {state:?}"),
    }
}

#[test]
fn mutate_missing_arg_errors() {
    let mutation = ReplicaMutation::Remove(ReplicaHandle::from("1"));
    let mut mutate = ReplicaMutate::new("inbox", mutation);
    let _ = mutate.resume(None);

    match mutate.resume(None) {
        ReplicaCoroutineState::Complete(Err(ReplicaMutateError::Arg(
            ReplicaArgError::MissingArg,
        ))) => {}
        state => panic!("expected MissingArg, got {state:?}"),
    }
}

/// An empty success is indistinguishable from a run that did
/// nothing, so a driver resuming a finished coroutine must be told.
#[test]
fn a_completed_mutate_does_not_resume() {
    let mutation = ReplicaMutation::Remove(ReplicaHandle::from("1"));
    let mut mutate = ReplicaMutate::new("inbox", mutation);
    let _ = mutate.resume(None);
    let _ = mutate.resume(Some(ReplicaArg::Load(loaded("1"))));
    let _ = mutate.resume(Some(ReplicaArg::Write));

    match mutate.resume(Some(ReplicaArg::Write)) {
        ReplicaCoroutineState::Complete(Err(ReplicaMutateError::Arg(
            ReplicaArgError::UnexpectedArg,
        ))) => {}
        state => panic!("expected UnexpectedArg, got {state:?}"),
    }
}

#[test]
fn mutate_unexpected_arg_errors() {
    let mutation = ReplicaMutation::Remove(ReplicaHandle::from("1"));
    let mut mutate = ReplicaMutate::new("inbox", mutation);
    let _ = mutate.resume(None);

    match mutate.resume(Some(ReplicaArg::Write)) {
        ReplicaCoroutineState::Complete(Err(ReplicaMutateError::Arg(
            ReplicaArgError::UnexpectedArg,
        ))) => {}
        state => panic!("expected UnexpectedArg, got {state:?}"),
    }
}

#[test]
fn edit_stages_a_dirty_body() {
    // the base keeps the synced state, so the next sync derives the
    // push
    let mutation = ReplicaMutation::Edit {
        sort_key: Default::default(),
        handle: ReplicaHandle::from("1"),
        object: ReplicaObject {
            hash: ReplicaHash::from("h2"),
            size: 4,
        },
        body: b"body".to_vec(),
        meta: None,
    };
    let mut mutate = ReplicaMutate::new("inbox", mutation);
    let _ = mutate.resume(None);

    let ops = match mutate.resume(Some(ReplicaArg::Load(loaded("1")))) {
        ReplicaCoroutineState::Yielded(ReplicaYield::WantsWrite(ops)) => ops,
        state => panic!("expected WantsWrite, got {state:?}"),
    };

    assert!(
        matches!(&ops[0], ReplicaWriteOp::StoreObject { object, .. } if object.hash == ReplicaHash::from("h2"))
    );
    let ReplicaWriteOp::UpsertPlacement(p) = &ops[1] else {
        panic!("expected UpsertPlacement, got {:?}", ops[1]);
    };
    assert_eq!(p.status, ReplicaStatus::Dirty);
    assert_eq!(p.object, Some(ReplicaHash::from("h2")));
    assert_eq!(p.level, ReplicaLevel::Full);
    assert!(p.base.is_some(), "base must be preserved for sync");
}

#[test]
fn an_edit_restating_the_synced_body_stages_nothing() {
    // the placement already points at that body, so there is no push
    // to pend: a dirty here would be one `staged_edit` reads as
    // absent, and the status is the only thing left saying otherwise
    let mutation = ReplicaMutation::Edit {
        sort_key: Default::default(),
        handle: ReplicaHandle::from("1"),
        object: ReplicaObject {
            hash: ReplicaHash::from("h1"),
            size: 4,
        },
        body: b"body".to_vec(),
        meta: None,
    };
    let mut mutate = ReplicaMutate::new("inbox", mutation);
    let _ = mutate.resume(None);

    let mut loaded = loaded("1");
    loaded.placements[0].object = Some(ReplicaHash::from("h1"));
    loaded.placements[0].level = ReplicaLevel::Full;
    loaded.placements[0].base.as_mut().expect("a base").object = Some(ReplicaHash::from("h1"));

    let ops = match mutate.resume(Some(ReplicaArg::Load(loaded))) {
        ReplicaCoroutineState::Yielded(ReplicaYield::WantsWrite(ops)) => ops,
        state => panic!("expected WantsWrite, got {state:?}"),
    };
    let ReplicaWriteOp::UpsertPlacement(p) = &ops[1] else {
        panic!("expected UpsertPlacement, got {:?}", ops[1]);
    };
    assert_eq!(p.status, ReplicaStatus::Clean);
    assert_eq!(p.staged_edit(), None, "the status agrees with the reading");
}

#[test]
fn resolving_a_conflict_with_the_base_body_still_pushes() {
    // discarding both diverging bodies for the shared ancestor is a
    // decision the remote has to hear, so the resolution is dirty
    // even though it restates the base
    let mutation = ReplicaMutation::Edit {
        sort_key: Default::default(),
        handle: ReplicaHandle::from("1"),
        object: ReplicaObject {
            hash: ReplicaHash::from("h1"),
            size: 4,
        },
        body: b"body".to_vec(),
        meta: None,
    };
    let mut mutate = ReplicaMutate::new("inbox", mutation);
    let _ = mutate.resume(None);

    let mut loaded = loaded("1");
    loaded.placements[0].status = ReplicaStatus::Conflict;
    loaded.placements[0].object = Some(ReplicaHash::from("h2"));
    loaded.placements[0].level = ReplicaLevel::Full;
    loaded.placements[0].conflict_revision = Some("r2".into());
    loaded.placements[0].conflict_object = Some(ReplicaHash::from("h-remote"));
    loaded.placements[0].base.as_mut().expect("a base").object = Some(ReplicaHash::from("h1"));

    let ops = match mutate.resume(Some(ReplicaArg::Load(loaded))) {
        ReplicaCoroutineState::Yielded(ReplicaYield::WantsWrite(ops)) => ops,
        state => panic!("expected WantsWrite, got {state:?}"),
    };
    let ReplicaWriteOp::UpsertPlacement(p) = &ops[1] else {
        panic!("expected UpsertPlacement, got {:?}", ops[1]);
    };
    assert_eq!(p.status, ReplicaStatus::Dirty);
    assert_eq!(p.conflict_revision, None);
    assert_eq!(p.conflict_object, None);
}

#[test]
fn a_resolution_adopts_the_whole_remote_state_into_the_base() {
    // the base a resolution leaves is the remote state it was merged
    // against: half of it, the revision without the body, claims a
    // revision the base object was never the content of, and the
    // next sync then reads a resolution keeping the ancestor as
    // nothing to push
    let mutation = ReplicaMutation::Edit {
        sort_key: Default::default(),
        handle: ReplicaHandle::from("1"),
        object: ReplicaObject {
            hash: ReplicaHash::from("h-base"),
            size: 4,
        },
        body: b"base".to_vec(),
        meta: None,
    };
    let mut mutate = ReplicaMutate::new("inbox", mutation);
    let _ = mutate.resume(None);

    let mut loaded = loaded("1");
    loaded.placements[0].status = ReplicaStatus::Conflict;
    loaded.placements[0].object = Some(ReplicaHash::from("h-local"));
    loaded.placements[0].level = ReplicaLevel::Full;
    loaded.placements[0].conflict_revision = Some("r2".into());
    loaded.placements[0].conflict_object = Some(ReplicaHash::from("h-remote"));
    let base = loaded.placements[0].base.as_mut().expect("a base");
    base.revision = Some("r1".into());
    base.object = Some(ReplicaHash::from("h-base"));

    let ops = match mutate.resume(Some(ReplicaArg::Load(loaded))) {
        ReplicaCoroutineState::Yielded(ReplicaYield::WantsWrite(ops)) => ops,
        state => panic!("expected WantsWrite, got {state:?}"),
    };
    let ReplicaWriteOp::UpsertPlacement(p) = &ops[1] else {
        panic!("expected UpsertPlacement, got {:?}", ops[1]);
    };
    let base = p.base.as_ref().expect("a base");
    assert_eq!(base.revision.as_deref(), Some("r2"));
    assert_eq!(
        base.object,
        Some(ReplicaHash::from("h-remote")),
        "the base object is the body the adopted revision names",
    );
    assert_eq!(
        p.staged_edit(),
        Some(&ReplicaHash::from("h-base")),
        "so the ancestor the resolution kept is a body to push",
    );
}

#[test]
fn a_resolution_gives_a_base_less_conflict_a_base() {
    // a create-collision conflicts with no ancestor to merge
    // against, and a resolution leaving it base-less is re-marked
    // conflicted by every sync after, its body never pushed
    let mutation = ReplicaMutation::Edit {
        sort_key: Default::default(),
        handle: ReplicaHandle::from("1"),
        object: ReplicaObject {
            hash: ReplicaHash::from("h-merged"),
            size: 6,
        },
        body: b"merged".to_vec(),
        meta: None,
    };
    let mut mutate = ReplicaMutate::new("inbox", mutation);
    let _ = mutate.resume(None);

    let mut loaded = loaded("1");
    loaded.placements[0].status = ReplicaStatus::Conflict;
    loaded.placements[0].object = Some(ReplicaHash::from("h-local"));
    loaded.placements[0].level = ReplicaLevel::Full;
    loaded.placements[0].conflict_revision = Some("r2".into());
    loaded.placements[0].conflict_object = Some(ReplicaHash::from("h-remote"));
    loaded.placements[0].base = None;

    let ops = match mutate.resume(Some(ReplicaArg::Load(loaded))) {
        ReplicaCoroutineState::Yielded(ReplicaYield::WantsWrite(ops)) => ops,
        state => panic!("expected WantsWrite, got {state:?}"),
    };
    let ReplicaWriteOp::UpsertPlacement(p) = &ops[1] else {
        panic!("expected UpsertPlacement, got {:?}", ops[1]);
    };
    let base = p.base.as_ref().expect("the resolution establishes a base");
    assert_eq!(base.revision.as_deref(), Some("r2"));
    assert_eq!(base.object, Some(ReplicaHash::from("h-remote")));
    assert_eq!(base.flags, p.flags, "nothing else is known of it");
}

#[test]
fn edit_refreshes_the_projected_meta() {
    // a consumer projecting a fresh summary from the edited body
    // replaces the cached one
    let mutation = ReplicaMutation::Edit {
        sort_key: Default::default(),
        handle: ReplicaHandle::from("1"),
        object: ReplicaObject {
            hash: ReplicaHash::from("h2"),
            size: 4,
        },
        body: b"body".to_vec(),
        meta: Some(ReplicaMeta("fresh".into())),
    };
    let mut mutate = ReplicaMutate::new("inbox", mutation);
    let _ = mutate.resume(None);

    let ops = match mutate.resume(Some(ReplicaArg::Load(loaded("1")))) {
        ReplicaCoroutineState::Yielded(ReplicaYield::WantsWrite(ops)) => ops,
        state => panic!("expected WantsWrite, got {state:?}"),
    };
    let ReplicaWriteOp::UpsertPlacement(p) = &ops[1] else {
        panic!("expected UpsertPlacement, got {:?}", ops[1]);
    };
    assert_eq!(p.meta, Some(ReplicaMeta("fresh".into())));
}

#[test]
fn edit_resolves_a_conflict() {
    // the base adopts the remote revision observed at conflict time,
    // gating the resolving push on the state it was merged against,
    // and the recorded pair goes with it: the divergence the edit
    // settles has no reader left
    let mutation = ReplicaMutation::Edit {
        sort_key: Default::default(),
        handle: ReplicaHandle::from("1"),
        object: ReplicaObject {
            hash: ReplicaHash::from("h3"),
            size: 6,
        },
        body: b"merged".to_vec(),
        meta: None,
    };
    let mut mutate = ReplicaMutate::new("inbox", mutation);
    let _ = mutate.resume(None);

    let mut loaded = loaded("1");
    loaded.placements[0].status = ReplicaStatus::Conflict;
    loaded.placements[0].conflict_revision = Some("r2".into());
    loaded.placements[0].conflict_object = Some(ReplicaHash::from("h-remote"));

    let ops = match mutate.resume(Some(ReplicaArg::Load(loaded))) {
        ReplicaCoroutineState::Yielded(ReplicaYield::WantsWrite(ops)) => ops,
        state => panic!("expected WantsWrite, got {state:?}"),
    };
    let ReplicaWriteOp::UpsertPlacement(p) = &ops[1] else {
        panic!("expected UpsertPlacement, got {:?}", ops[1]);
    };

    assert_eq!(p.status, ReplicaStatus::Dirty);
    assert_eq!(p.conflict_revision, None);
    assert_eq!(
        p.conflict_object, None,
        "the diverging body is dropped with the revision it named"
    );
    let base = p.base.as_ref().expect("a base");
    assert_eq!(base.revision.as_deref(), Some("r2"));
}

#[test]
fn copy_stages_created_placement_in_target() {
    // the staged create carries the origin, so the push is a
    // server-side copy
    let mutation = ReplicaMutation::Copy {
        handle: ReplicaHandle::from("1"),
        target: "archive".into(),
        placeholder: ReplicaHandle::from("tmp-1"),
    };
    let mut mutate = ReplicaMutate::new("inbox", mutation);
    let _ = mutate.resume(None);

    let ops = match mutate.resume(Some(ReplicaArg::Load(loaded("1")))) {
        ReplicaCoroutineState::Yielded(ReplicaYield::WantsWrite(ops)) => ops,
        state => panic!("expected WantsWrite, got {state:?}"),
    };
    let ReplicaWriteOp::UpsertPlacement(p) = &ops[0] else {
        panic!("expected UpsertPlacement, got {:?}", ops[0]);
    };
    assert_eq!(p.collection.as_str(), "archive");
    assert_eq!(p.handle.as_str(), "tmp-1");
    assert_eq!(p.status, ReplicaStatus::Created);
    assert!(p.base.is_none());
    let origin = p.origin.as_ref().expect("the copy carries its origin");
    assert_eq!(origin.collection.as_str(), "inbox");
    assert_eq!(origin.handle.as_str(), "1");
}

#[test]
fn move_stages_target_create_and_source_tombstone() {
    // the target's half copies and the source's half removes
    let mutation = ReplicaMutation::Move {
        handle: ReplicaHandle::from("1"),
        target: "archive".into(),
        placeholder: ReplicaHandle::from("tmp-1"),
    };
    let mut mutate = ReplicaMutate::new("inbox", mutation);
    let _ = mutate.resume(None);

    let ops = match mutate.resume(Some(ReplicaArg::Load(loaded("1")))) {
        ReplicaCoroutineState::Yielded(ReplicaYield::WantsWrite(ops)) => ops,
        state => panic!("expected WantsWrite, got {state:?}"),
    };

    let ReplicaWriteOp::UpsertPlacement(create) = &ops[0] else {
        panic!("expected UpsertPlacement, got {:?}", ops[0]);
    };
    assert_eq!(create.collection.as_str(), "archive");
    assert_eq!(create.handle.as_str(), "tmp-1");
    assert_eq!(create.status, ReplicaStatus::Created);
    assert!(create.base.is_none());
    assert_eq!(
        create
            .origin
            .as_ref()
            .expect("the move carries its origin")
            .handle
            .as_str(),
        "1",
    );

    let ReplicaWriteOp::UpsertPlacement(source) = &ops[1] else {
        panic!("expected UpsertPlacement, got {:?}", ops[1]);
    };
    assert_eq!(
        source.collection.as_str(),
        "inbox",
        "the source row, tombstoned"
    );
    assert_eq!(source.status, ReplicaStatus::Tombstone);
    assert_eq!(
        source
            .origin
            .as_ref()
            .expect("a move destination, so a source-first sync relocates rather than deletes")
            .collection
            .as_str(),
        "archive",
    );
}

#[test]
fn a_mutation_reads_only_what_it_edits() {
    // the collection is not the unit of a local edit: a mutation
    // touches one row, and an Add only sees the rows that could
    // collide with its link id
    let mut mutate = ReplicaMutate::new("inbox", ReplicaMutation::Remove("7".into()));
    match mutate.resume(None) {
        ReplicaCoroutineState::Yielded(ReplicaYield::WantsLoad { scope, .. }) => {
            assert_eq!(
                scope,
                ReplicaLoadScope::Handles(vec![ReplicaHandle::from("7")])
            );
        }
        state => panic!("expected WantsLoad, got {state:?}"),
    }

    let add = ReplicaMutation::Add {
        handle: ReplicaHandle::from("tmp"),
        link_id: ReplicaLinkId::from("m1"),
        flags: ReplicaFlags::default(),
        object: ReplicaObject {
            hash: ReplicaHash::from("h"),
            size: 1,
        },
        body: vec![],
        meta: None,
        sort_key: Default::default(),
    };
    let mut mutate = ReplicaMutate::new("inbox", add);
    match mutate.resume(None) {
        ReplicaCoroutineState::Yielded(ReplicaYield::WantsLoad { scope, .. }) => {
            assert_eq!(
                scope,
                ReplicaLoadScope::Links(vec![ReplicaLinkId::from("m1")]),
            );
        }
        state => panic!("expected WantsLoad, got {state:?}"),
    }
}

#[test]
fn a_move_of_an_unlinked_item_stages_the_relocation_alone() {
    // with no link id neither half can recognise what the other did,
    // so only the source-side relocation is staged
    let mut source = loaded("1");
    source.placements[0].link_id = None;

    let mutation = ReplicaMutation::Move {
        handle: ReplicaHandle::from("1"),
        target: "archive".into(),
        placeholder: ReplicaHandle::from("tmp-1"),
    };
    let mut mutate = ReplicaMutate::new("inbox", mutation);
    let _ = mutate.resume(None);

    let ops = match mutate.resume(Some(ReplicaArg::Load(source))) {
        ReplicaCoroutineState::Yielded(ReplicaYield::WantsWrite(ops)) => ops,
        state => panic!("expected WantsWrite, got {state:?}"),
    };
    assert_eq!(ops.len(), 1, "the tombstone alone, no target create");
    let ReplicaWriteOp::UpsertPlacement(source) = &ops[0] else {
        panic!("expected UpsertPlacement, got {:?}", ops[0]);
    };
    assert_eq!(source.collection.as_str(), "inbox");
    assert_eq!(source.status, ReplicaStatus::Tombstone);
}
