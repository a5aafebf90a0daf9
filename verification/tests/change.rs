//! Idempotency keys.

use std::collections::BTreeSet;

use io_replica::change::{ReplicaChange, ReplicaChangeKey, ReplicaChangeKind};
use io_replica::collection::ReplicaCollectionId;
use io_replica::object::ReplicaHash;
use io_replica::placement::{ReplicaFlags, ReplicaHandle, ReplicaLinkId, ReplicaOrigin};

fn key(collection: &ReplicaCollectionId, kind: ReplicaChangeKind) -> ReplicaChangeKey {
    ReplicaChange::new(collection, kind).key
}

fn set_flags(handle: &str, flags: &[&str]) -> ReplicaChangeKind {
    ReplicaChangeKind::SetFlags {
        handle: ReplicaHandle::from(handle),
        flags: ReplicaFlags::from_names(flags),
    }
}

fn update(handle: &str, object: &str, if_match: Option<&str>) -> ReplicaChangeKind {
    ReplicaChangeKind::Update {
        handle: ReplicaHandle::from(handle),
        object: ReplicaHash::from(object),
        if_match: if_match.map(String::from),
    }
}

#[test]
fn the_same_derived_change_keys_the_same() {
    let inbox = ReplicaCollectionId::from("inbox");

    assert_eq!(
        key(&inbox, set_flags("1", &["seen"])),
        key(&inbox, set_flags("1", &["seen"])),
    );
}

#[test]
fn a_key_separates_collection_handle_kind_and_target_state() {
    let inbox = ReplicaCollectionId::from("inbox");
    let archive = ReplicaCollectionId::from("archive");

    let keys: Vec<ReplicaChangeKey> = vec![
        // the collection
        key(&inbox, set_flags("1", &["seen"])),
        key(&archive, set_flags("1", &["seen"])),
        // the handle
        key(&inbox, set_flags("2", &["seen"])),
        // the target state
        key(&inbox, set_flags("1", &["flagged"])),
        key(&inbox, set_flags("1", &["seen", "flagged"])),
        key(&inbox, set_flags("1", &[])),
        // the kind, on one handle and one state
        key(&inbox, update("1", "aaa", None)),
        key(&inbox, update("1", "bbb", None)),
        key(
            &inbox,
            ReplicaChangeKind::Remove {
                handle: ReplicaHandle::from("1"),
                to: None,
                link_id: None,
                if_match: None,
            },
        ),
        key(
            &inbox,
            ReplicaChangeKind::Remove {
                handle: ReplicaHandle::from("1"),
                to: Some(archive.clone()),
                link_id: None,
                if_match: None,
            },
        ),
        key(
            &inbox,
            ReplicaChangeKind::Add {
                handle: ReplicaHandle::from("1"),
                link_id: None,
                flags: ReplicaFlags::default(),
                origin: None,
                object: None,
            },
        ),
        key(
            &inbox,
            ReplicaChangeKind::Add {
                handle: ReplicaHandle::from("1"),
                link_id: Some(ReplicaLinkId::from("mid")),
                flags: ReplicaFlags::default(),
                origin: None,
                object: None,
            },
        ),
        key(
            &inbox,
            ReplicaChangeKind::Add {
                handle: ReplicaHandle::from("1"),
                link_id: None,
                flags: ReplicaFlags::default(),
                origin: Some(ReplicaOrigin {
                    collection: archive.clone(),
                    handle: ReplicaHandle::from("9"),
                }),
                object: None,
            },
        ),
        key(
            &inbox,
            ReplicaChangeKind::Add {
                handle: ReplicaHandle::from("1"),
                link_id: None,
                flags: ReplicaFlags::default(),
                origin: None,
                object: Some(ReplicaHash::from("aaa")),
            },
        ),
    ];

    let distinct: BTreeSet<&ReplicaChangeKey> = keys.iter().collect();
    assert_eq!(distinct.len(), keys.len(), "keys collided: {keys:?}");
}

#[test]
fn a_precondition_is_not_part_of_the_key() {
    let inbox = ReplicaCollectionId::from("inbox");
    let keyed = key(&inbox, update("1", "aaa", None));

    assert_eq!(key(&inbox, update("1", "aaa", Some("r1"))), keyed);
    assert_eq!(key(&inbox, update("1", "aaa", Some("r2"))), keyed);
}

#[test]
fn an_unknown_flag_set_does_not_key_as_an_empty_one() {
    let inbox = ReplicaCollectionId::from("inbox");
    let unknown = ReplicaChangeKind::SetFlags {
        handle: ReplicaHandle::from("1"),
        flags: ReplicaFlags::Unknown,
    };

    assert_ne!(key(&inbox, unknown), key(&inbox, set_flags("1", &[])));
}
