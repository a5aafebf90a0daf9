//! Raising placements to a higher level.

use io_replica::change::ReplicaWriteOp;
use io_replica::coroutine::{
    ReplicaArg, ReplicaArgError, ReplicaCoroutine, ReplicaCoroutineState, ReplicaYield,
};
use io_replica::object::ReplicaHash;
use io_replica::placement::{
    ReplicaBase, ReplicaFlags, ReplicaHandle, ReplicaLevel, ReplicaLinkId, ReplicaMeta,
    ReplicaPlacement, ReplicaStatus,
};
use io_replica::remote::{ReplicaFetchedBody, ReplicaFetchedItem, ReplicaTier};
use io_replica::sorted::ReplicaMap;
use io_replica::storage::{ReplicaLoadScope, ReplicaLoaded};
use io_replica::upgrade::{ReplicaUpgrade, ReplicaUpgradeReport};

fn known_objects(link: ReplicaLinkId, hash: ReplicaHash) -> ReplicaMap<ReplicaLinkId, ReplicaHash> {
    let mut known = ReplicaMap::new();
    known.insert(link, hash);
    known
}

fn probed(handle: &str, link: Option<&str>, level: ReplicaLevel) -> ReplicaPlacement {
    ReplicaPlacement {
        sort_key: Default::default(),
        collection: "inbox".into(),
        handle: ReplicaHandle::from(handle),
        link_id: link.map(ReplicaLinkId::from),
        object: None,
        level,
        meta: None,
        flags: ReplicaFlags::default(),
        status: ReplicaStatus::Clean,
        conflict_revision: None,
        base: None,
        origin: None,
        ambiguous_handles: Vec::new(),
        conflict_object: None,
    }
}

#[test]
fn full_dedup_links_without_fetch() {
    let loaded = ReplicaLoaded {
        placements: vec![probed("2", Some("msg-a"), ReplicaLevel::Meta)],
        checkpoint: None,
    };
    let mut up =
        ReplicaUpgrade::new("inbox", vec![ReplicaHandle::from("2")], ReplicaTier::Full);
    let _ = up.resume(None);

    let links = match up.resume(Some(ReplicaArg::Load(loaded))) {
        ReplicaCoroutineState::Yielded(ReplicaYield::WantsLookupObject(links)) => links,
        state => panic!("expected WantsLookupObject, got {state:?}"),
    };
    assert_eq!(links, vec![ReplicaLinkId::from("msg-a")]);

    let mut known = ReplicaMap::new();
    known.insert(ReplicaLinkId::from("msg-a"), ReplicaHash::from("h-a"));

    let ops = match up.resume(Some(ReplicaArg::LookupObject(known))) {
        ReplicaCoroutineState::Yielded(ReplicaYield::WantsWrite(ops)) => ops,
        state => panic!("expected WantsWrite (no fetch), got {state:?}"),
    };
    let ReplicaWriteOp::UpsertPlacement(p) = &ops[0] else {
        panic!("expected UpsertPlacement, got {:?}", ops[0]);
    };
    assert_eq!(p.level, ReplicaLevel::Full);
    assert_eq!(p.object, Some(ReplicaHash::from("h-a")));

    let report = match up.resume(Some(ReplicaArg::Write)) {
        ReplicaCoroutineState::Complete(Ok(report)) => report,
        state => panic!("expected Complete(Ok), got {state:?}"),
    };
    assert_eq!(report.deduped, 1);
    assert_eq!(report.fetched, 0);
}

#[test]
fn full_miss_fetches_and_stores() {
    let loaded = ReplicaLoaded {
        placements: vec![probed("1", Some("msg-b"), ReplicaLevel::Meta)],
        checkpoint: None,
    };
    let mut up =
        ReplicaUpgrade::new("inbox", vec![ReplicaHandle::from("1")], ReplicaTier::Full);
    let _ = up.resume(None);
    let _ = up.resume(Some(ReplicaArg::Load(loaded)));

    let handles = match up.resume(Some(ReplicaArg::LookupObject(ReplicaMap::new()))) {
        ReplicaCoroutineState::Yielded(ReplicaYield::WantsFetch { handles, tier, .. }) => {
            assert_eq!(tier, ReplicaTier::Full);
            handles
        }
        state => panic!("expected WantsFetch, got {state:?}"),
    };
    assert_eq!(handles, vec![ReplicaHandle::from("1")]);

    let items = vec![ReplicaFetchedItem {
        sort_key: Default::default(),
        handle: ReplicaHandle::from("1"),
        link_id: ReplicaLinkId::from("msg-b"),
        meta: ReplicaMeta("hdr".into()),
        body: Some(ReplicaFetchedBody::Inline {
            hash: ReplicaHash::from("h-b"),
            bytes: b"body".to_vec(),
        }),
        revision: None,
    }];
    let ops = match up.resume(Some(ReplicaArg::Fetch(items))) {
        ReplicaCoroutineState::Yielded(ReplicaYield::WantsWrite(ops)) => ops,
        state => panic!("expected WantsWrite, got {state:?}"),
    };
    assert!(matches!(ops[0], ReplicaWriteOp::StoreObject { .. }));

    let report = match up.resume(Some(ReplicaArg::Write)) {
        ReplicaCoroutineState::Complete(Ok(report)) => report,
        state => panic!("expected Complete(Ok), got {state:?}"),
    };
    assert_eq!(report.fetched, 1);
    assert_eq!(report.deduped, 0);
}

#[test]
fn fetch_results_are_matched_by_handle_not_order() {
    // a pooled or reordered fetch returns results in any order, and
    // each must land on its own handle
    let loaded = ReplicaLoaded {
        placements: vec![
            probed("1", Some("msg-a"), ReplicaLevel::Meta),
            probed("2", Some("msg-b"), ReplicaLevel::Meta),
        ],
        checkpoint: None,
    };
    let mut up = ReplicaUpgrade::new(
        "inbox",
        vec![ReplicaHandle::from("1"), ReplicaHandle::from("2")],
        ReplicaTier::Full,
    );
    let _ = up.resume(None);
    let _ = up.resume(Some(ReplicaArg::Load(loaded)));
    let _ = up.resume(Some(ReplicaArg::LookupObject(ReplicaMap::new())));

    // results returned in the reverse of the requested order
    let items = vec![
        ReplicaFetchedItem {
            sort_key: Default::default(),
            handle: ReplicaHandle::from("2"),
            link_id: ReplicaLinkId::from("msg-b"),
            meta: ReplicaMeta("h".into()),
            body: Some(ReplicaFetchedBody::Inline {
                hash: ReplicaHash::from("h-b"),
                bytes: b"bbb".to_vec(),
            }),
            revision: None,
        },
        ReplicaFetchedItem {
            sort_key: Default::default(),
            handle: ReplicaHandle::from("1"),
            link_id: ReplicaLinkId::from("msg-a"),
            meta: ReplicaMeta("h".into()),
            body: Some(ReplicaFetchedBody::Inline {
                hash: ReplicaHash::from("h-a"),
                bytes: b"aaaaa".to_vec(),
            }),
            revision: None,
        },
    ];
    let ops = match up.resume(Some(ReplicaArg::Fetch(items))) {
        ReplicaCoroutineState::Yielded(ReplicaYield::WantsWrite(ops)) => ops,
        state => panic!("expected WantsWrite, got {state:?}"),
    };

    // each handle's placement pins its own object
    let object_for = |handle: &str| {
        ops.iter().find_map(|op| match op {
            ReplicaWriteOp::UpsertPlacement(p) if p.handle.as_str() == handle => {
                p.object.clone()
            }
            _ => None,
        })
    };
    assert_eq!(object_for("1"), Some(ReplicaHash::from("h-a")));
    assert_eq!(object_for("2"), Some(ReplicaHash::from("h-b")));
}

#[test]
fn a_full_fetch_keeps_an_already_resolved_link_id() {
    // when the body parses to a different link than the Meta tier
    // resolved, the placement keeps its original link and rises to
    // Full rather than being duplicated under the body's link
    let loaded = ReplicaLoaded {
        placements: vec![probed("1", Some("mid:real"), ReplicaLevel::Meta)],
        checkpoint: None,
    };
    let mut up =
        ReplicaUpgrade::new("inbox", vec![ReplicaHandle::from("1")], ReplicaTier::Full);
    let _ = up.resume(None);
    let _ = up.resume(Some(ReplicaArg::Load(loaded)));
    let _ = up.resume(Some(ReplicaArg::LookupObject(ReplicaMap::new())));

    let items = vec![ReplicaFetchedItem {
        sort_key: Default::default(),
        handle: ReplicaHandle::from("1"),
        // a different link than the Meta tier resolved
        link_id: ReplicaLinkId::from("alt:divergent"),
        meta: ReplicaMeta("hdr".into()),
        body: Some(ReplicaFetchedBody::Persisted {
            hash: ReplicaHash::from("h"),
            size: 10,
        }),
        revision: None,
    }];
    let ops = match up.resume(Some(ReplicaArg::Fetch(items))) {
        ReplicaCoroutineState::Yielded(ReplicaYield::WantsWrite(ops)) => ops,
        state => panic!("expected WantsWrite, got {state:?}"),
    };
    let placement = ops
        .iter()
        .find_map(|op| match op {
            ReplicaWriteOp::UpsertPlacement(p) => Some(p),
            _ => None,
        })
        .expect("a placement upsert");
    assert_eq!(
        placement.link_id,
        Some(ReplicaLinkId::from("mid:real")),
        "the Full fetch keeps the Meta-resolved link, not the body's"
    );
    assert_eq!(placement.level, ReplicaLevel::Full);
}

#[test]
fn a_meta_fetch_still_sets_the_link_of_an_unlinked_item() {
    // the complement: a probed item does take the fetched link,
    // which is how the Meta tier establishes identity
    let loaded = ReplicaLoaded {
        placements: vec![probed("1", None, ReplicaLevel::Probed)],
        checkpoint: None,
    };
    let mut up =
        ReplicaUpgrade::new("inbox", vec![ReplicaHandle::from("1")], ReplicaTier::Meta);
    let _ = up.resume(None);
    let _ = up.resume(Some(ReplicaArg::Load(loaded)));
    let _ = up.resume(Some(ReplicaArg::LookupObject(ReplicaMap::new())));

    let items = vec![ReplicaFetchedItem {
        sort_key: Default::default(),
        handle: ReplicaHandle::from("1"),
        link_id: ReplicaLinkId::from("mid:resolved"),
        meta: ReplicaMeta("hdr".into()),
        body: None,
        revision: None,
    }];
    // a fetch establishing a fresh identity checks it against the
    // collection first, and nothing else holds it here
    match up.resume(Some(ReplicaArg::Fetch(items))) {
        ReplicaCoroutineState::Yielded(ReplicaYield::WantsLoad {
            scope: ReplicaLoadScope::Links(links),
            ..
        }) => assert_eq!(links, vec![ReplicaLinkId::from("mid:resolved")]),
        state => panic!("expected WantsLoad, got {state:?}"),
    }
    let ops = match up.resume(Some(ReplicaArg::Load(ReplicaLoaded::default()))) {
        ReplicaCoroutineState::Yielded(ReplicaYield::WantsWrite(ops)) => ops,
        state => panic!("expected WantsWrite, got {state:?}"),
    };
    let placement = ops
        .iter()
        .find_map(|op| match op {
            ReplicaWriteOp::UpsertPlacement(p) => Some(p),
            _ => None,
        })
        .expect("a placement upsert");
    assert_eq!(
        placement.link_id,
        Some(ReplicaLinkId::from("mid:resolved")),
        "a probed item takes the fetched link"
    );
}

#[test]
fn a_persisted_body_stores_the_object_without_bytes() {
    // a consumer that streamed the body into its blob store reports
    // it by (hash, size), and the object is recorded with no bytes
    let loaded = ReplicaLoaded {
        placements: vec![probed("1", Some("msg-b"), ReplicaLevel::Meta)],
        checkpoint: None,
    };
    let mut up =
        ReplicaUpgrade::new("inbox", vec![ReplicaHandle::from("1")], ReplicaTier::Full);
    let _ = up.resume(None);
    let _ = up.resume(Some(ReplicaArg::Load(loaded)));
    let _ = up.resume(Some(ReplicaArg::LookupObject(ReplicaMap::new())));

    let items = vec![ReplicaFetchedItem {
        sort_key: Default::default(),
        handle: ReplicaHandle::from("1"),
        link_id: ReplicaLinkId::from("msg-b"),
        meta: ReplicaMeta("hdr".into()),
        body: Some(ReplicaFetchedBody::Persisted {
            hash: ReplicaHash::from("h-b"),
            size: 4096,
        }),
        revision: None,
    }];
    let ops = match up.resume(Some(ReplicaArg::Fetch(items))) {
        ReplicaCoroutineState::Yielded(ReplicaYield::WantsWrite(ops)) => ops,
        state => panic!("expected WantsWrite, got {state:?}"),
    };
    match &ops[0] {
        ReplicaWriteOp::StoreObject { object, body } => {
            assert_eq!(object.hash, ReplicaHash::from("h-b"));
            assert_eq!(object.size, 4096, "size comes from the report, not bytes");
            assert!(body.is_none(), "no bytes: the fetch already persisted them");
        }
        other => panic!("expected StoreObject, got {other:?}"),
    }
    // the placement still pins the object and rises to Full
    assert!(matches!(
        &ops[1],
        ReplicaWriteOp::UpsertPlacement(p)
            if p.object == Some(ReplicaHash::from("h-b")) && p.level == ReplicaLevel::Full
    ));
}

#[test]
fn full_fetch_stamps_the_base_revision_and_object() {
    // a fetched body is the remote content as of the fetch, so the
    // base records the revision and pins the stored body
    let mut placement = probed("1", Some("msg-b"), ReplicaLevel::Meta);
    placement.base = Some(ReplicaBase {
        flags: ReplicaFlags::default(),
        revision: None,
        object: None,
    });
    let loaded = ReplicaLoaded {
        placements: vec![placement],
        checkpoint: None,
    };

    let mut up =
        ReplicaUpgrade::new("inbox", vec![ReplicaHandle::from("1")], ReplicaTier::Full);
    let _ = up.resume(None);
    let _ = up.resume(Some(ReplicaArg::Load(loaded)));
    let _ = up.resume(Some(ReplicaArg::LookupObject(ReplicaMap::new())));

    let items = vec![ReplicaFetchedItem {
        sort_key: Default::default(),
        handle: ReplicaHandle::from("1"),
        link_id: ReplicaLinkId::from("msg-b"),
        meta: ReplicaMeta("hdr".into()),
        body: Some(ReplicaFetchedBody::Inline {
            hash: ReplicaHash::from("h-b"),
            bytes: b"body".to_vec(),
        }),
        revision: Some("r7".into()),
    }];
    let ops = match up.resume(Some(ReplicaArg::Fetch(items))) {
        ReplicaCoroutineState::Yielded(ReplicaYield::WantsWrite(ops)) => ops,
        state => panic!("expected WantsWrite, got {state:?}"),
    };

    let patched = ops
        .iter()
        .find_map(|op| match op {
            ReplicaWriteOp::UpsertPlacement(p) => Some(p),
            _ => None,
        })
        .expect("an upserted placement");
    let base = patched.base.as_ref().expect("a base");
    assert_eq!(base.revision.as_deref(), Some("r7"));
    assert_eq!(base.object, Some(ReplicaHash::from("h-b")));
    assert_eq!(patched.object, Some(ReplicaHash::from("h-b")));
}

#[test]
fn meta_upgrade_fetches_headers() {
    let loaded = ReplicaLoaded {
        placements: vec![probed("1", None, ReplicaLevel::Probed)],
        checkpoint: None,
    };
    let mut up =
        ReplicaUpgrade::new("inbox", vec![ReplicaHandle::from("1")], ReplicaTier::Meta);
    let _ = up.resume(None);

    match up.resume(Some(ReplicaArg::Load(loaded))) {
        ReplicaCoroutineState::Yielded(ReplicaYield::WantsFetch { tier, .. }) => {
            assert_eq!(tier, ReplicaTier::Meta);
        }
        state => panic!("expected WantsFetch ReplicaMeta, got {state:?}"),
    }
}

#[test]
fn already_full_completes_without_work() {
    let mut placement = probed("1", Some("x"), ReplicaLevel::Full);
    placement.object = Some(ReplicaHash::from("h1"));
    let loaded = ReplicaLoaded {
        placements: vec![placement],
        checkpoint: None,
    };
    let mut up =
        ReplicaUpgrade::new("inbox", vec![ReplicaHandle::from("1")], ReplicaTier::Full);
    let _ = up.resume(None);

    match up.resume(Some(ReplicaArg::Load(loaded))) {
        ReplicaCoroutineState::Complete(Ok(report)) => assert_eq!(report.upgraded, 0),
        state => panic!("expected Complete(Ok), got {state:?}"),
    }
}

#[test]
fn a_full_row_holding_no_body_is_upgraded_again() {
    // the level is a claim, the object the fact: a row recorded at
    // Full with no body would otherwise be skipped forever
    let loaded = ReplicaLoaded {
        placements: vec![probed("1", None, ReplicaLevel::Full)],
        checkpoint: None,
    };
    let mut up =
        ReplicaUpgrade::new("inbox", vec![ReplicaHandle::from("1")], ReplicaTier::Full);
    let _ = up.resume(None);

    match up.resume(Some(ReplicaArg::Load(loaded))) {
        ReplicaCoroutineState::Yielded(ReplicaYield::WantsFetch { handles, .. }) => {
            assert_eq!(handles, vec![ReplicaHandle::from("1")]);
        }
        state => panic!("expected WantsFetch, got {state:?}"),
    }
}

#[test]
fn a_meta_row_holding_no_summary_is_upgraded_again() {
    let loaded = ReplicaLoaded {
        placements: vec![probed("1", None, ReplicaLevel::Meta)],
        checkpoint: None,
    };
    let mut up =
        ReplicaUpgrade::new("inbox", vec![ReplicaHandle::from("1")], ReplicaTier::Meta);
    let _ = up.resume(None);

    match up.resume(Some(ReplicaArg::Load(loaded))) {
        ReplicaCoroutineState::Yielded(ReplicaYield::WantsFetch { handles, .. }) => {
            assert_eq!(handles, vec![ReplicaHandle::from("1")]);
        }
        state => panic!("expected WantsFetch, got {state:?}"),
    }
}

#[test]
fn upgrade_missing_arg_errors() {
    let mut up =
        ReplicaUpgrade::new("inbox", vec![ReplicaHandle::from("1")], ReplicaTier::Meta);
    let _ = up.resume(None);
    match up.resume(None) {
        ReplicaCoroutineState::Complete(Err(ReplicaArgError::MissingArg)) => {}
        state => panic!("expected MissingArg, got {state:?}"),
    }
}

/// An empty report is indistinguishable from a run that did nothing,
/// so a driver resuming a finished coroutine must be told.
#[test]
fn a_completed_upgrade_does_not_resume() {
    let mut placement = probed("1", Some("x"), ReplicaLevel::Full);
    placement.object = Some(ReplicaHash::from("h1"));
    let loaded = ReplicaLoaded {
        placements: vec![placement],
        checkpoint: None,
    };
    let mut up =
        ReplicaUpgrade::new("inbox", vec![ReplicaHandle::from("1")], ReplicaTier::Full);
    let _ = up.resume(None);
    let _ = up.resume(Some(ReplicaArg::Load(loaded)));

    match up.resume(Some(ReplicaArg::Write)) {
        ReplicaCoroutineState::Complete(Err(ReplicaArgError::UnexpectedArg)) => {}
        state => panic!("expected UnexpectedArg, got {state:?}"),
    }
}

#[test]
fn upgrade_unexpected_arg_errors() {
    let mut up =
        ReplicaUpgrade::new("inbox", vec![ReplicaHandle::from("1")], ReplicaTier::Meta);
    let _ = up.resume(None);
    match up.resume(Some(ReplicaArg::Write)) {
        ReplicaCoroutineState::Complete(Err(ReplicaArgError::UnexpectedArg)) => {}
        state => panic!("expected UnexpectedArg, got {state:?}"),
    }
}

#[test]
fn unknown_handle_completes_without_work() {
    // a requested handle with no placement is skipped, not invented
    let loaded = ReplicaLoaded {
        placements: vec![probed("1", None, ReplicaLevel::Probed)],
        checkpoint: None,
    };
    let mut up = ReplicaUpgrade::new(
        "inbox",
        vec![ReplicaHandle::from("nope")],
        ReplicaTier::Meta,
    );
    let _ = up.resume(None);

    match up.resume(Some(ReplicaArg::Load(loaded))) {
        ReplicaCoroutineState::Complete(Ok(report)) => assert_eq!(report.upgraded, 0),
        state => panic!("expected Complete(Ok), got {state:?}"),
    }
}

#[test]
fn full_without_link_ids_fetches_directly() {
    // probed placements carry no link id yet, so there is nothing to
    // look up and the full upgrade fetches directly
    let loaded = ReplicaLoaded {
        placements: vec![probed("1", None, ReplicaLevel::Probed)],
        checkpoint: None,
    };
    let mut up =
        ReplicaUpgrade::new("inbox", vec![ReplicaHandle::from("1")], ReplicaTier::Full);
    let _ = up.resume(None);

    match up.resume(Some(ReplicaArg::Load(loaded))) {
        ReplicaCoroutineState::Yielded(ReplicaYield::WantsFetch { tier, handles, .. }) => {
            assert_eq!(tier, ReplicaTier::Full);
            assert_eq!(handles, vec![ReplicaHandle::from("1")]);
        }
        state => panic!("expected WantsFetch Full, got {state:?}"),
    }
}

#[test]
fn fetched_unknown_handle_is_skipped() {
    // a fetch reply naming a handle with no placement is ignored
    // rather than upserted
    let loaded = ReplicaLoaded {
        placements: vec![probed("1", None, ReplicaLevel::Probed)],
        checkpoint: None,
    };
    let mut up =
        ReplicaUpgrade::new("inbox", vec![ReplicaHandle::from("1")], ReplicaTier::Meta);
    let _ = up.resume(None);
    let _ = up.resume(Some(ReplicaArg::Load(loaded)));

    let items = vec![ReplicaFetchedItem {
        sort_key: Default::default(),
        handle: ReplicaHandle::from("ghost"),
        link_id: ReplicaLinkId::from("msg-x"),
        meta: ReplicaMeta("hdr".into()),
        body: None,
        revision: None,
    }];
    let ops = match up.resume(Some(ReplicaArg::Fetch(items))) {
        ReplicaCoroutineState::Yielded(ReplicaYield::WantsWrite(ops)) => ops,
        state => panic!("expected WantsWrite, got {state:?}"),
    };
    assert!(ops.is_empty(), "nothing to write: {ops:?}");

    match up.resume(Some(ReplicaArg::Write)) {
        ReplicaCoroutineState::Complete(Ok(report)) => assert_eq!(report.upgraded, 0),
        state => panic!("expected Complete(Ok), got {state:?}"),
    }
}

#[test]
fn full_mixes_dedup_hits_and_fetch_misses() {
    // one link id resolves in the object store and is linked without
    // a fetch, the other misses and is fetched
    let loaded = ReplicaLoaded {
        placements: vec![
            probed("1", Some("msg-a"), ReplicaLevel::Meta),
            probed("2", Some("msg-b"), ReplicaLevel::Meta),
        ],
        checkpoint: None,
    };
    let mut up = ReplicaUpgrade::new(
        "inbox",
        vec![ReplicaHandle::from("1"), ReplicaHandle::from("2")],
        ReplicaTier::Full,
    );
    let _ = up.resume(None);
    let _ = up.resume(Some(ReplicaArg::Load(loaded)));

    let mut known = ReplicaMap::new();
    known.insert(ReplicaLinkId::from("msg-a"), ReplicaHash::from("h-a"));

    let handles = match up.resume(Some(ReplicaArg::LookupObject(known))) {
        ReplicaCoroutineState::Yielded(ReplicaYield::WantsFetch { handles, .. }) => handles,
        state => panic!("expected WantsFetch for the miss, got {state:?}"),
    };
    assert_eq!(
        handles,
        vec![ReplicaHandle::from("2")],
        "only the miss fetches"
    );

    let items = vec![ReplicaFetchedItem {
        sort_key: Default::default(),
        handle: ReplicaHandle::from("2"),
        link_id: ReplicaLinkId::from("msg-b"),
        meta: ReplicaMeta("hdr".into()),
        body: Some(ReplicaFetchedBody::Inline {
            hash: ReplicaHash::from("h-b"),
            bytes: b"body".to_vec(),
        }),
        revision: None,
    }];
    let _ = up.resume(Some(ReplicaArg::Fetch(items)));

    let report = match up.resume(Some(ReplicaArg::Write)) {
        ReplicaCoroutineState::Complete(Ok(report)) => report,
        state => panic!("expected Complete(Ok), got {state:?}"),
    };
    assert_eq!(report.upgraded, 2);
    assert_eq!(report.deduped, 1);
    assert_eq!(report.fetched, 1);
}

/// A placement already reconciled once: based, summarised, and
/// carrying the revision its source reports.
fn based(handle: &str, link: &str, revision: Option<&str>) -> ReplicaPlacement {
    let mut placement = probed(handle, Some(link), ReplicaLevel::Meta);
    placement.base = Some(ReplicaBase {
        flags: ReplicaFlags::default(),
        revision: revision.map(String::from),
        object: None,
    });
    placement
}

/// Runs a `Full` upgrade of one placement up to its first yield
/// after the link lookup, answering it with `known`.
fn upgrade_with_lookup(
    placement: ReplicaPlacement,
    known: ReplicaMap<ReplicaLinkId, ReplicaHash>,
) -> ReplicaCoroutineState<ReplicaYield, Result<ReplicaUpgradeReport, ReplicaArgError>> {
    let handle = placement.handle.clone();
    let loaded = ReplicaLoaded {
        placements: vec![placement],
        checkpoint: None,
    };
    let mut up = ReplicaUpgrade::new("inbox", vec![handle], ReplicaTier::Full);
    let _ = up.resume(None);

    match up.resume(Some(ReplicaArg::Load(loaded))) {
        ReplicaCoroutineState::Yielded(ReplicaYield::WantsLookupObject(_)) => {
            up.resume(Some(ReplicaArg::LookupObject(known)))
        }
        state => state,
    }
}

#[test]
fn a_deduped_body_rebases_so_the_placement_reads_clean() {
    // the second placement links the body the first one fetched;
    // leaving its base behind would read as a local edit, which a
    // storage projects dirty and re-derives on every sync
    let known = known_objects(ReplicaLinkId::from("msg-a"), ReplicaHash::from("h-a"));

    let ops = match upgrade_with_lookup(based("2", "msg-a", None), known) {
        ReplicaCoroutineState::Yielded(ReplicaYield::WantsWrite(ops)) => ops,
        state => panic!("expected WantsWrite (no fetch), got {state:?}"),
    };
    let ReplicaWriteOp::UpsertPlacement(placement) = &ops[0] else {
        panic!("expected UpsertPlacement, got {:?}", ops[0]);
    };

    assert_eq!(placement.object, Some(ReplicaHash::from("h-a")));
    assert_eq!(placement.level, ReplicaLevel::Full);
    assert_eq!(
        placement.base.as_ref().and_then(|base| base.object.clone()),
        Some(ReplicaHash::from("h-a")),
        "the base holds the linked body, so nothing reads as edited"
    );
}

#[test]
fn a_mutable_placement_is_fetched_rather_than_linked() {
    // a link id says two copies are the same item, not that they
    // hold the same bytes, so where a revision makes the difference
    // observable the body is fetched
    let known = known_objects(ReplicaLinkId::from("uid:card-1"), ReplicaHash::from("h-a"));

    let state = upgrade_with_lookup(based("card-1.vcf", "uid:card-1", Some("etag-1")), known);

    match state {
        ReplicaCoroutineState::Yielded(ReplicaYield::WantsFetch { handles, tier, .. }) => {
            assert_eq!(tier, ReplicaTier::Full);
            assert_eq!(handles, vec![ReplicaHandle::from("card-1.vcf")]);
        }
        state => panic!("expected WantsFetch, got {state:?}"),
    }
}
