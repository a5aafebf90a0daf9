//! Opening a collection.

use io_replica::collection::ReplicaCheckpoint;
use io_replica::coroutine::{
    ReplicaArg, ReplicaArgError, ReplicaCoroutine, ReplicaCoroutineState, ReplicaYield,
};
use io_replica::open::ReplicaOpen;
use io_replica::placement::{
    ReplicaFlags, ReplicaHandle, ReplicaLevel, ReplicaPlacement, ReplicaStatus,
};
use io_replica::storage::ReplicaLoaded;

fn placement(handle: &str) -> ReplicaPlacement {
    ReplicaPlacement {
        sort_key: Default::default(),
        collection: "inbox".into(),
        handle: ReplicaHandle::from(handle),
        link_id: None,
        object: None,
        level: ReplicaLevel::Probed,
        meta: None,
        flags: ReplicaFlags::default(),
        status: ReplicaStatus::Clean,
        conflict_revision: None,
        base: None,
        origin: None,
        conflict_object: None,
        ambiguous_handles: Vec::new(),
    }
}

#[test]
fn start_yields_load() {
    let mut open = ReplicaOpen::new("inbox");
    match open.resume(None) {
        ReplicaCoroutineState::Yielded(ReplicaYield::WantsLoad { collection, .. }) => {
            assert_eq!(collection.as_str(), "inbox");
        }
        state => panic!("expected WantsLoad, got {state:?}"),
    }
}

#[test]
fn load_completes_with_placements() {
    let mut open = ReplicaOpen::new("inbox");
    let _ = open.resume(None);

    let loaded = ReplicaLoaded {
        placements: vec![placement("1"), placement("2")],
        checkpoint: Some(ReplicaCheckpoint(b"tok".to_vec())),
    };
    match open.resume(Some(ReplicaArg::Load(loaded))) {
        ReplicaCoroutineState::Complete(Ok(out)) => assert_eq!(out.placements.len(), 2),
        state => panic!("expected Complete(Ok), got {state:?}"),
    }
}

/// An empty success is indistinguishable from a run that did
/// nothing, so a driver resuming a finished coroutine must be told.
#[test]
fn a_completed_open_does_not_resume() {
    let mut open = ReplicaOpen::new("inbox");
    let _ = open.resume(None);
    let _ = open.resume(Some(ReplicaArg::Load(ReplicaLoaded {
        placements: vec![placement("1")],
        checkpoint: None,
    })));

    match open.resume(Some(ReplicaArg::Write)) {
        ReplicaCoroutineState::Complete(Err(ReplicaArgError::UnexpectedArg)) => {}
        state => panic!("expected UnexpectedArg, got {state:?}"),
    }
}

#[test]
fn unexpected_arg_at_start_errors() {
    let mut open = ReplicaOpen::new("inbox");
    match open.resume(Some(ReplicaArg::Write)) {
        ReplicaCoroutineState::Complete(Err(ReplicaArgError::UnexpectedArg)) => {}
        state => panic!("expected UnexpectedArg, got {state:?}"),
    }
}

#[test]
fn missing_arg_at_pending_load_errors() {
    let mut open = ReplicaOpen::new("inbox");
    let _ = open.resume(None);
    match open.resume(None) {
        ReplicaCoroutineState::Complete(Err(ReplicaArgError::MissingArg)) => {}
        state => panic!("expected MissingArg, got {state:?}"),
    }
}

#[test]
fn wrong_arg_kind_at_pending_load_errors() {
    let mut open = ReplicaOpen::new("inbox");
    let _ = open.resume(None);
    match open.resume(Some(ReplicaArg::Write)) {
        ReplicaCoroutineState::Complete(Err(ReplicaArgError::UnexpectedArg)) => {}
        state => panic!("expected UnexpectedArg, got {state:?}"),
    }
}
