//! Whole lifecycles over the blocking driver, with an in-memory index and a
//! fake server.

use std::collections::BTreeMap;

use io_replica::change::{ReplicaChange, ReplicaChangeKind, ReplicaWriteOp};
use io_replica::client::{ReplicaClient, ReplicaClientError, ReplicaRemote, ReplicaStorage};
use io_replica::collection::{ReplicaCheckpoint, ReplicaCollectionId};
use io_replica::mutate::{ReplicaMutateError, ReplicaMutation};
use io_replica::object::{ReplicaHash, ReplicaObject};
use io_replica::open::ReplicaOpen;
use io_replica::placement::{
    ReplicaFlags, ReplicaHandle, ReplicaLevel, ReplicaLinkId, ReplicaMeta, ReplicaPlacement,
    ReplicaStatus,
};
use io_replica::remote::{
    ReplicaFetchedBody, ReplicaFetchedItem, ReplicaPushOutcome, ReplicaPushResult,
    ReplicaRemoteItem, ReplicaRemoteSnapshot, ReplicaTier,
};
use io_replica::sorted::ReplicaMap;
use io_replica::storage::{ReplicaLoadScope, ReplicaLoaded};
use io_replica::sync::ReplicaSyncOptions;

/// The index and the blob store: two maps and a checkpoint per collection.
#[derive(Default)]
struct MemStorage {
    placements: BTreeMap<(ReplicaCollectionId, ReplicaHandle), ReplicaPlacement>,
    objects: BTreeMap<String, Vec<u8>>,
    checkpoints: BTreeMap<ReplicaCollectionId, ReplicaCheckpoint>,
    read_only: bool,
}

impl MemStorage {
    fn get(&self, collection: &str, handle: &str) -> Option<&ReplicaPlacement> {
        self.placements
            .get(&(collection.into(), ReplicaHandle::from(handle)))
    }
}

impl ReplicaStorage for MemStorage {
    type Error = String;

    fn load(
        &self,
        collection: &ReplicaCollectionId,
        scope: &ReplicaLoadScope,
    ) -> Result<ReplicaLoaded, String> {
        let in_scope = |p: &ReplicaPlacement| match scope {
            ReplicaLoadScope::All => true,
            ReplicaLoadScope::Handles(handles) => handles.contains(&p.handle),
            ReplicaLoadScope::Links(links) => {
                p.link_id.as_ref().is_some_and(|link| links.contains(link))
            }
        };
        Ok(ReplicaLoaded {
            placements: self
                .placements
                .iter()
                .filter(|((c, _), p)| c == collection && in_scope(p))
                .map(|(_, p)| p.clone())
                .collect(),
            checkpoint: self.checkpoints.get(collection).cloned(),
        })
    }

    fn lookup_objects(
        &self,
        links: &[ReplicaLinkId],
    ) -> Result<ReplicaMap<ReplicaLinkId, ReplicaHash>, String> {
        let mut known = ReplicaMap::new();
        for link in links {
            let hit = self
                .placements
                .values()
                .filter(|p| p.link_id.as_ref() == Some(link))
                .find_map(|p| p.object.clone());
            if let Some(hash) = hit {
                known.insert(link.clone(), hash);
            }
        }
        Ok(known)
    }

    fn write(&mut self, ops: Vec<ReplicaWriteOp>) -> Result<(), String> {
        if self.read_only {
            return Err("read-only".into());
        }
        for op in ops {
            match op {
                ReplicaWriteOp::UpsertPlacement(p) => {
                    self.placements
                        .insert((p.collection.clone(), p.handle.clone()), p);
                }
                ReplicaWriteOp::DropPlacement {
                    collection, handle, ..
                } => {
                    self.placements.remove(&(collection, handle));
                }
                ReplicaWriteOp::StoreObject { object, body } => {
                    self.objects
                        .insert(object.hash.as_str().into(), body.unwrap_or_default());
                }
                ReplicaWriteOp::SetCheckpoint {
                    collection,
                    checkpoint,
                } => {
                    self.checkpoints.insert(collection, checkpoint);
                }
            }
        }
        Ok(())
    }
}

/// One message on the server.
struct ServerItem {
    link: ReplicaLinkId,
    flags: ReplicaFlags,
    body: Vec<u8>,
}

/// A server of immutable messages, listing each collection whole.
#[derive(Default)]
struct MemRemote {
    collections: BTreeMap<ReplicaCollectionId, BTreeMap<ReplicaHandle, ServerItem>>,
    body_fetches: usize,
    uploads: usize,
    pushes: usize,
    offline: bool,
    refusing: bool,
}

impl MemRemote {
    fn seed(&mut self, collection: &str, handle: &str, link: &str, subject: &str, body: &str) {
        self.collections
            .entry(collection.into())
            .or_default()
            .insert(
                ReplicaHandle::from(handle),
                ServerItem {
                    link: ReplicaLinkId::from(link),
                    flags: ReplicaFlags::default(),
                    body: format!("Subject: {subject}\r\n\r\n{body}").into_bytes(),
                },
            );
    }

    fn members(&mut self, collection: &str) -> &mut BTreeMap<ReplicaHandle, ServerItem> {
        self.collections.entry(collection.into()).or_default()
    }

    fn flags(&mut self, collection: &str, handle: &str) -> &mut ReplicaFlags {
        &mut self
            .members(collection)
            .get_mut(&ReplicaHandle::from(handle))
            .unwrap()
            .flags
    }
}

impl ReplicaRemote for MemRemote {
    type Error = String;

    fn enumerate(
        &mut self,
        collection: &ReplicaCollectionId,
        _cursor: Option<ReplicaCheckpoint>,
    ) -> Result<ReplicaRemoteSnapshot, String> {
        if self.offline {
            return Err("offline".into());
        }
        Ok(ReplicaRemoteSnapshot {
            items: self
                .collections
                .get(collection)
                .into_iter()
                .flatten()
                .map(|(handle, item)| ReplicaRemoteItem {
                    handle: handle.clone(),
                    flags: item.flags.clone(),
                    revision: None,
                })
                .collect(),
            vanished: Vec::new(),
            complete: true,
            checkpoint: ReplicaCheckpoint(b"cp".to_vec()),
        })
    }

    fn fetch(
        &mut self,
        collection: &ReplicaCollectionId,
        handles: Vec<ReplicaHandle>,
        tier: ReplicaTier,
    ) -> Result<Vec<ReplicaFetchedItem>, String> {
        let members = self.collections.get(collection).unwrap();
        let mut out = Vec::new();
        for handle in handles {
            let item = &members[&handle];
            let subject = String::from_utf8_lossy(&item.body)
                .lines()
                .next()
                .unwrap()
                .to_string();
            let body = match tier {
                ReplicaTier::Meta => None,
                ReplicaTier::Full => {
                    self.body_fetches += 1;
                    Some(ReplicaFetchedBody::Inline {
                        hash: hash(&item.body),
                        bytes: item.body.clone(),
                    })
                }
            };
            out.push(ReplicaFetchedItem {
                sort_key: Default::default(),
                handle,
                link_id: item.link.clone(),
                meta: ReplicaMeta(subject),
                body,
                revision: None,
            });
        }
        Ok(out)
    }

    fn push(
        &mut self,
        collection: &ReplicaCollectionId,
        changes: Vec<ReplicaChange>,
    ) -> Result<Vec<ReplicaPushResult>, String> {
        let mut results = Vec::new();
        for change in changes {
            let handle = change.handle().clone();
            self.pushes += 1;
            if self.refusing {
                results.push(ReplicaPushResult {
                    handle,
                    outcome: ReplicaPushOutcome::Rejected,
                    assigned: None,
                    revision: None,
                });
                continue;
            }
            let mut assigned = None;
            match change.kind {
                ReplicaChangeKind::SetFlags { handle, flags } => {
                    let members = self.collections.get_mut(collection).unwrap();
                    members.get_mut(&handle).unwrap().flags = flags;
                }
                ReplicaChangeKind::Remove {
                    handle,
                    to,
                    link_id,
                    ..
                } => {
                    let gone = self
                        .collections
                        .get_mut(collection)
                        .unwrap()
                        .remove(&handle)
                        .unwrap();
                    if let Some(target) = to {
                        let target = self.collections.entry(target).or_default();
                        if !target.values().any(|item| Some(&item.link) == link_id.as_ref()) {
                            target.insert(ReplicaHandle(format!("moved-{}", handle.0)), gone);
                        }
                    }
                }
                ReplicaChangeKind::Add {
                    link_id,
                    flags,
                    origin,
                    ..
                } => {
                    let link = link_id.unwrap();
                    let held = self
                        .collections
                        .entry(collection.clone())
                        .or_default()
                        .iter()
                        .find(|(_, item)| item.link == link)
                        .map(|(handle, _)| handle.clone());
                    assigned = match held {
                        Some(handle) => Some(handle),
                        None => {
                            let body = match &origin {
                                Some(from) => self.collections[&from.collection][&from.handle]
                                    .body
                                    .clone(),
                                None => {
                                    self.uploads += 1;
                                    b"Subject: uploaded\r\n\r\n".to_vec()
                                }
                            };
                            let members = self.collections.get_mut(collection).unwrap();
                            let new = ReplicaHandle(format!("srv-{}", members.len() + 1));
                            members.insert(new.clone(), ServerItem { link, flags, body });
                            Some(new)
                        }
                    };
                }
                ReplicaChangeKind::Update { .. } => unreachable!("messages are immutable"),
            }
            results.push(ReplicaPushResult {
                handle,
                outcome: ReplicaPushOutcome::Accepted,
                assigned,
                revision: None,
            });
        }
        Ok(results)
    }
}

/// A deterministic content hash: identical bytes collapse to one object.
fn hash(body: &[u8]) -> ReplicaHash {
    let mut acc: u64 = 1469598103934665603;
    for byte in body {
        acc ^= *byte as u64;
        acc = acc.wrapping_mul(1099511628211);
    }
    ReplicaHash::from(format!("{acc:016x}"))
}

/// Two messages in the inbox, the first of them copied into the archive.
fn mailbox() -> ReplicaClient<MemStorage, MemRemote> {
    let mut remote = MemRemote::default();
    remote.seed("inbox", "1", "msg-1", "Lunch tomorrow?", "Nope, Thursday!");
    remote.seed("inbox", "2", "msg-2", "Invoice #42", "Attached.");
    remote.seed("archive", "9", "msg-1", "Lunch tomorrow?", "Nope, Thursday!");
    ReplicaClient::new(MemStorage::default(), remote)
}

fn opts() -> ReplicaSyncOptions {
    ReplicaSyncOptions::default()
}

#[test]
fn a_mailbox_lives_through_probe_hydration_dedup_and_flags() {
    let mut client = mailbox();

    // the first sync probes the spine: every handle and flag set, no body
    let report = client.sync("inbox", opts()).unwrap();
    assert_eq!(report.pulled, 2);
    assert_eq!(client.remote().body_fetches, 0);
    assert_eq!(
        client.storage().get("inbox", "1").unwrap().level,
        ReplicaLevel::Probed
    );

    // opening reads the storage alone
    client.remote_mut().offline = true;
    assert_eq!(client.open("inbox").unwrap().placements.len(), 2);
    client.remote_mut().offline = false;

    // summaries, then one body
    let handles = vec![ReplicaHandle::from("1"), ReplicaHandle::from("2")];
    let report = client.upgrade("inbox", handles, ReplicaTier::Meta).unwrap();
    assert_eq!((report.upgraded, report.fetched, report.deduped), (2, 0, 0));
    let one = vec![ReplicaHandle::from("1")];
    let report = client.upgrade("inbox", one, ReplicaTier::Full).unwrap();
    assert_eq!(report.fetched, 1);
    let p = client.storage().get("inbox", "1").unwrap();
    assert_eq!(p.level, ReplicaLevel::Full);
    assert_eq!(p.meta, Some(ReplicaMeta("Subject: Lunch tomorrow?".into())));

    // the archive copy links the stored body
    client.sync("archive", opts()).unwrap();
    let nine = vec![ReplicaHandle::from("9")];
    client
        .upgrade("archive", nine.clone(), ReplicaTier::Meta)
        .unwrap();
    let report = client.upgrade("archive", nine, ReplicaTier::Full).unwrap();
    assert_eq!((report.deduped, report.fetched), (1, 0));
    assert_eq!(client.storage().objects.len(), 1);
    assert_eq!(client.remote().body_fetches, 1);

    // a flag set offline is pushed by the next sync
    let mutation = ReplicaMutation::SetFlags {
        handle: ReplicaHandle::from("1"),
        flags: ReplicaFlags::from_names(&["seen"]),
    };
    client.mutate("inbox", mutation).unwrap();
    assert_eq!(
        client.storage().get("inbox", "1").unwrap().status,
        ReplicaStatus::Dirty
    );
    let report = client.sync("inbox", opts()).unwrap();
    assert_eq!(report.pushed, 1);
    assert!(client.remote_mut().flags("inbox", "1").contains("seen"));
    assert_eq!(
        client.storage().get("inbox", "1").unwrap().status,
        ReplicaStatus::Clean
    );

    // a flag set elsewhere is pulled
    *client.remote_mut().flags("inbox", "2") = ReplicaFlags::from_names(&["flagged"]);
    let report = client.sync("inbox", opts()).unwrap();
    assert_eq!((report.pulled, report.pushed), (1, 0));
    let p = client.storage().get("inbox", "2").unwrap();
    assert!(p.flags.contains("flagged"));
}

#[test]
fn a_synced_collection_syncs_to_the_checkpoint_alone() {
    let mut client = mailbox();
    client.sync("inbox", opts()).unwrap();
    let before = client.storage().placements.clone();

    let report = client.sync("inbox", opts()).unwrap();

    assert_eq!((report.pulled, report.pushed, report.conflicts), (0, 0, 0));
    assert!(report.events.is_empty());
    assert_eq!(client.remote().pushes, 0);
    assert_eq!(client.storage().placements, before);
    assert_eq!(
        client.storage().checkpoints[&ReplicaCollectionId::from("inbox")],
        ReplicaCheckpoint(b"cp".to_vec())
    );
}

#[test]
fn a_composed_message_is_uploaded_once_and_takes_its_server_handle() {
    let mut client = mailbox();
    client.sync("inbox", opts()).unwrap();
    let body = b"Subject: uploaded\r\n\r\n".to_vec();
    let mutation = ReplicaMutation::Add {
        handle: ReplicaHandle::from("draft"),
        link_id: ReplicaLinkId::from("msg-3"),
        flags: ReplicaFlags::from_names(&["seen"]),
        object: ReplicaObject {
            hash: hash(&body),
            size: body.len(),
        },
        body,
        meta: None,
        sort_key: Default::default(),
    };
    client.mutate("inbox", mutation).unwrap();

    let report = client.sync("inbox", opts()).unwrap();
    assert_eq!(report.pushed, 1);
    assert_eq!(client.remote().uploads, 1);
    assert!(client.storage().get("inbox", "draft").is_none());
    let p = client.storage().get("inbox", "srv-3").unwrap();
    assert_eq!(p.status, ReplicaStatus::Clean);
    assert!(p.flags.contains("seen"));

    // the create is in sync under its new handle
    let report = client.sync("inbox", opts()).unwrap();
    assert_eq!((report.pulled, report.pushed), (0, 0));
    assert_eq!(client.remote().uploads, 1);
}

#[test]
fn a_refused_delete_stays_pending_until_the_server_takes_it() {
    let mut client = mailbox();
    client.sync("inbox", opts()).unwrap();
    client
        .mutate("inbox", ReplicaMutation::Remove(ReplicaHandle::from("1")))
        .unwrap();

    client.remote_mut().refusing = true;
    let report = client.sync("inbox", opts()).unwrap();
    assert_eq!((report.pushed, report.rejected), (0, 1));
    let kept = client.storage().get("inbox", "1").unwrap();
    assert_eq!(kept.status, ReplicaStatus::Tombstone);

    client.remote_mut().refusing = false;
    let report = client.sync("inbox", opts()).unwrap();
    assert_eq!((report.pushed, report.rejected), (1, 0));
    assert!(client.storage().get("inbox", "1").is_none());
    assert_eq!(client.remote_mut().members("inbox").len(), 1);
}

#[test]
fn a_move_delivers_one_copy_whichever_half_runs_first() {
    for archive_first in [true, false] {
        let mut client = mailbox();
        client.sync("inbox", opts()).unwrap();
        let two = vec![ReplicaHandle::from("2")];
        client.upgrade("inbox", two, ReplicaTier::Meta).unwrap();
        let mutation = ReplicaMutation::Move {
            handle: ReplicaHandle::from("2"),
            target: "archive".into(),
            placeholder: ReplicaHandle::from("moving"),
        };
        client.mutate("inbox", mutation).unwrap();

        let order = if archive_first {
            ["archive", "inbox"]
        } else {
            ["inbox", "archive"]
        };
        for collection in order {
            client.sync(collection, opts()).unwrap();
        }
        let delivered = client
            .remote_mut()
            .members("archive")
            .values()
            .filter(|item| item.link == ReplicaLinkId::from("msg-2"))
            .count();
        assert_eq!(delivered, 1);
        assert!(!client
            .remote_mut()
            .members("inbox")
            .contains_key(&ReplicaHandle::from("2")));
    }
}

#[test]
fn a_renumbered_collection_keeps_its_cache_and_pending_flags() {
    let mut client = mailbox();
    client.sync("inbox", opts()).unwrap();
    let one = vec![ReplicaHandle::from("1")];
    client.upgrade("inbox", one, ReplicaTier::Full).unwrap();
    let mutation = ReplicaMutation::SetFlags {
        handle: ReplicaHandle::from("1"),
        flags: ReplicaFlags::from_names(&["seen"]),
    };
    client.mutate("inbox", mutation).unwrap();

    let members = client.remote_mut().members("inbox");
    let (first, second) = (
        members.remove(&ReplicaHandle::from("1")).unwrap(),
        members.remove(&ReplicaHandle::from("2")).unwrap(),
    );
    members.insert(ReplicaHandle::from("101"), first);
    members.insert(ReplicaHandle::from("102"), second);

    let report = client.rekey("inbox").unwrap();
    assert_eq!((report.rekeyed, report.pulled, report.dropped), (1, 1, 0));
    assert!(client.storage().get("inbox", "1").is_none());
    let p = client.storage().get("inbox", "101").unwrap();
    assert_eq!(p.level, ReplicaLevel::Full);
    assert_eq!(p.status, ReplicaStatus::Dirty);

    let report = client.sync("inbox", opts()).unwrap();
    assert_eq!(report.pushed, 1);
    assert!(client.remote_mut().flags("inbox", "101").contains("seen"));
    assert_eq!(client.remote().body_fetches, 1);
}

#[test]
fn a_failing_remote_stops_the_run_and_leaves_the_storage_alone() {
    let mut client = mailbox();
    client.sync("inbox", opts()).unwrap();
    let before = client.storage().placements.clone();

    client.remote_mut().offline = true;
    let error = client.sync("inbox", opts()).unwrap_err();

    let ReplicaClientError::Remote(cause) = error else {
        panic!("expected a remote failure, got {error:?}");
    };
    assert_eq!(cause, "offline");
    assert_eq!(client.storage().placements, before);
}

#[test]
fn a_failing_storage_stops_the_run() {
    let mut client = mailbox();
    client.storage_mut().read_only = true;

    let error = client.sync("inbox", opts()).unwrap_err();

    let ReplicaClientError::Storage(cause) = error else {
        panic!("expected a storage failure, got {error:?}");
    };
    assert_eq!(cause, "read-only");
    assert!(client.storage().placements.is_empty());
}

#[test]
fn a_refused_mutation_is_reported_as_the_verbs_own_failure() {
    let mut client = mailbox();

    let mutation = ReplicaMutation::Remove(ReplicaHandle::from("404"));
    let error = client.mutate("inbox", mutation).unwrap_err();

    let ReplicaClientError::Coroutine(cause) = error else {
        panic!("expected a refusal, got {error:?}");
    };
    assert_eq!(cause, ReplicaMutateError::UnknownHandle("404".into()));
}

#[test]
fn any_coroutine_of_the_standard_shape_can_be_driven() {
    let mut client = mailbox();
    client.sync("inbox", opts()).unwrap();

    let loaded = client.run(ReplicaOpen::new("inbox")).unwrap();

    assert_eq!(loaded.placements.len(), 2);
    assert_eq!(loaded.checkpoint, Some(ReplicaCheckpoint(b"cp".to_vec())));
}
