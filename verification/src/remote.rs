//! Payloads exchanged with the remote seam.
//!
//! The consumer satisfies three capabilities by driving a protocol crate
//! or a protocol client: enumerate, fetch and push. These types are what
//! those capabilities return.

use vstd::prelude::*;

use crate::collection::ReplicaCheckpoint;
use crate::object::ReplicaHash;
use crate::order::Text;
use crate::placement::{
    FlagsView, ReplicaFlags, ReplicaHandle, ReplicaLinkId, ReplicaMeta, ReplicaSortKey,
};
use crate::value::ReplicaValue;

verus! {

/// The detail tier a fetch targets.
#[derive(Clone, Copy, Debug, Eq, PartialEq, Structural)]
pub enum ReplicaTier {
    /// Summary only (a header or property subset); cheap.
    Meta,
    /// The full item body; yields an object.
    Full,
}

/// One row of an enumerate snapshot: handle, flags and content revision,
/// no link id, no body.
///
/// Enough to run the flag, membership and content three-way merge without
/// fetching any body, which is exactly why a partial body cache stays
/// safe. The link id is not here: enumeration only has to yield handles
/// (an IMAP SEARCH returns just UIDs), so the link id is resolved later at
/// the [`ReplicaTier::Meta`] fetch and lands on the placement then.
#[derive(Debug, Eq, PartialEq)]
pub struct ReplicaRemoteItem {
    /// The protocol handle.
    pub handle: ReplicaHandle,
    /// The current remote flag set.
    pub flags: ReplicaFlags,
    /// The current remote content revision, for mutable-content backends
    /// (a WebDAV etag, an MS Graph changeKey). `None` where content is
    /// immutable (IMAP), which the merge reads as unchanged, never as
    /// unknown.
    pub revision: Option<String>,
}

/// What a [`ReplicaRemoteItem`] stands for.
#[verifier::ext_equal]
pub struct RemoteItemView {
    pub handle: Text,
    pub flags: FlagsView,
    pub revision: Option<Text>,
}

impl View for ReplicaRemoteItem {
    type V = RemoteItemView;

    open spec fn view(&self) -> RemoteItemView {
        RemoteItemView {
            handle: self.handle@,
            flags: self.flags@,
            revision: self.revision.deep_view(),
        }
    }
}

impl DeepView for ReplicaRemoteItem {
    type V = RemoteItemView;

    open spec fn deep_view(&self) -> RemoteItemView {
        self.view()
    }
}

impl Clone for ReplicaRemoteItem {
    fn clone(&self) -> (r: Self)
        ensures
            r@ == self@,
    {
        ReplicaRemoteItem {
            handle: self.handle.clone(),
            flags: self.flags.clone(),
            revision: self.revision.copied(),
        }
    }
}

impl ReplicaValue for ReplicaRemoteItem {
    fn copied(&self) -> (r: Self) {
        self.clone()
    }
}

/// The result of enumerating a collection: its full or delta member set
/// plus the new checkpoint.
///
/// `complete` tells the merge how to read the absence of a known local
/// handle. A complete snapshot lists every current member, so a local
/// placement missing from `items` was deleted upstream. A delta snapshot
/// (QRESYNC, a JMAP `/changes` query, a CalDAV sync-token) lists only what
/// changed since `cursor`: unlisted placements are untouched, and removals
/// arrive explicitly in `vanished`.
#[derive(Debug, Eq, PartialEq)]
pub struct ReplicaRemoteSnapshot {
    /// The members observed: every current member when `complete`, else
    /// only those added or changed since the cursor.
    pub items: Vec<ReplicaRemoteItem>,
    /// Handles removed upstream since the cursor. Always empty for a
    /// complete snapshot (absence from `items` already means removed).
    pub vanished: Vec<ReplicaHandle>,
    /// Whether `items` is the whole member set (true) or a delta (false).
    pub complete: bool,
    /// The checkpoint these items are current as of.
    pub checkpoint: ReplicaCheckpoint,
}

/// What a [`ReplicaRemoteSnapshot`] stands for.
#[verifier::ext_equal]
pub struct RemoteSnapshotView {
    pub items: Seq<RemoteItemView>,
    pub vanished: Seq<Text>,
    pub complete: bool,
    pub checkpoint: Seq<u8>,
}

impl View for ReplicaRemoteSnapshot {
    type V = RemoteSnapshotView;

    open spec fn view(&self) -> RemoteSnapshotView {
        RemoteSnapshotView {
            items: self.items.deep_view(),
            vanished: self.vanished.deep_view(),
            complete: self.complete,
            checkpoint: self.checkpoint@,
        }
    }
}

impl DeepView for ReplicaRemoteSnapshot {
    type V = RemoteSnapshotView;

    open spec fn deep_view(&self) -> RemoteSnapshotView {
        self.view()
    }
}

impl Clone for ReplicaRemoteSnapshot {
    fn clone(&self) -> (r: Self)
        ensures
            r@ == self@,
    {
        ReplicaRemoteSnapshot {
            items: self.items.copied(),
            vanished: self.vanished.copied(),
            complete: self.complete,
            checkpoint: self.checkpoint.clone(),
        }
    }
}

impl ReplicaValue for ReplicaRemoteSnapshot {
    fn copied(&self) -> (r: Self) {
        self.clone()
    }
}

/// The body of a fetched item.
#[derive(Debug, Eq, PartialEq)]
pub enum ReplicaFetchedBody {
    /// The bytes came with the fetch.
    Inline {
        /// The content hash naming the bytes.
        hash: ReplicaHash,
        /// The body bytes.
        bytes: Vec<u8>,
    },
    /// The consumer already streamed the bytes into its blob store.
    Persisted {
        /// The content hash naming the bytes.
        hash: ReplicaHash,
        /// The byte size of the content.
        size: usize,
    },
}

/// What a [`ReplicaFetchedBody`] stands for.
#[verifier::ext_equal]
pub enum FetchedBodyView {
    Inline { hash: Text, bytes: Seq<u8> },
    Persisted { hash: Text, size: usize },
}

impl View for ReplicaFetchedBody {
    type V = FetchedBodyView;

    open spec fn view(&self) -> FetchedBodyView {
        match self {
            ReplicaFetchedBody::Inline { hash, bytes } => FetchedBodyView::Inline {
                hash: hash@,
                bytes: bytes.deep_view(),
            },
            ReplicaFetchedBody::Persisted { hash, size } => FetchedBodyView::Persisted {
                hash: hash@,
                size: *size,
            },
        }
    }
}

impl DeepView for ReplicaFetchedBody {
    type V = FetchedBodyView;

    open spec fn deep_view(&self) -> FetchedBodyView {
        self.view()
    }
}

impl Clone for ReplicaFetchedBody {
    fn clone(&self) -> (r: Self)
        ensures
            r@ == self@,
    {
        match self {
            ReplicaFetchedBody::Inline { hash, bytes } => ReplicaFetchedBody::Inline {
                hash: hash.clone(),
                bytes: bytes.copied(),
            },
            ReplicaFetchedBody::Persisted { hash, size } => ReplicaFetchedBody::Persisted {
                hash: hash.clone(),
                size: *size,
            },
        }
    }
}

impl ReplicaValue for ReplicaFetchedBody {
    fn copied(&self) -> (r: Self) {
        self.clone()
    }
}

/// The result of fetching one item at a requested tier.
#[derive(Debug, Eq, PartialEq)]
pub struct ReplicaFetchedItem {
    /// The fetched handle.
    pub handle: ReplicaHandle,
    /// The resolved link id.
    pub link_id: ReplicaLinkId,
    /// The cached summary (always set; projected from the body where the
    /// backend has no cheap summary tier).
    pub meta: ReplicaMeta,
    /// Where the item sorts, as derived at this tier.
    pub sort_key: ReplicaSortKey,
    /// The body and its content hash; `None` at [`ReplicaTier::Meta`].
    pub body: Option<ReplicaFetchedBody>,
    /// The remote content revision the fetched body corresponds to, for
    /// mutable-content backends; `None` where content is immutable.
    pub revision: Option<String>,
}

/// What a [`ReplicaFetchedItem`] stands for.
#[verifier::ext_equal]
pub struct FetchedItemView {
    pub handle: Text,
    pub link_id: Text,
    pub meta: Text,
    pub sort_key: Text,
    pub body: Option<FetchedBodyView>,
    pub revision: Option<Text>,
}

impl View for ReplicaFetchedItem {
    type V = FetchedItemView;

    open spec fn view(&self) -> FetchedItemView {
        FetchedItemView {
            handle: self.handle@,
            link_id: self.link_id@,
            meta: self.meta@,
            sort_key: self.sort_key@,
            body: self.body.deep_view(),
            revision: self.revision.deep_view(),
        }
    }
}

impl DeepView for ReplicaFetchedItem {
    type V = FetchedItemView;

    open spec fn deep_view(&self) -> FetchedItemView {
        self.view()
    }
}

impl Clone for ReplicaFetchedItem {
    fn clone(&self) -> (r: Self)
        ensures
            r@ == self@,
    {
        ReplicaFetchedItem {
            handle: self.handle.clone(),
            link_id: self.link_id.clone(),
            meta: self.meta.clone(),
            sort_key: self.sort_key.clone(),
            body: self.body.copied(),
            revision: self.revision.copied(),
        }
    }
}

impl ReplicaValue for ReplicaFetchedItem {
    fn copied(&self) -> (r: Self) {
        self.clone()
    }
}

/// The outcome of pushing one change.
///
/// Pushes are at-least-once (see [`crate::change::ReplicaChange`]): a remove
/// whose target is already missing means the delete landed, so the
/// consumer reports it [`ReplicaPushOutcome::Accepted`], not rejected; a
/// rejection keeps the tombstone retrying forever.
#[derive(Clone, Copy, Debug, Eq, PartialEq, Structural)]
pub enum ReplicaPushOutcome {
    /// The remote accepted the change.
    Accepted,
    /// Optimistic concurrency rejected it; the base was stale.
    Rejected,
}

/// The result of pushing one change.
#[derive(Debug, Eq, PartialEq)]
pub struct ReplicaPushResult {
    /// The handle the change targeted (the provisional one for an add).
    pub handle: ReplicaHandle,
    /// Whether the remote accepted it.
    pub outcome: ReplicaPushOutcome,
    /// For an accepted add, the server-assigned handle the engine rekeys
    /// the provisional placement to; `None` for flag and remove pushes.
    pub assigned: Option<ReplicaHandle>,
    /// For an accepted push that wrote content (an add or an update), the
    /// content revision the remote now holds; `None` when the remote does
    /// not report one, and for flag and remove pushes.
    pub revision: Option<String>,
}

/// What a [`ReplicaPushResult`] stands for.
#[verifier::ext_equal]
pub struct PushResultView {
    pub handle: Text,
    pub outcome: ReplicaPushOutcome,
    pub assigned: Option<Text>,
    pub revision: Option<Text>,
}

impl View for ReplicaPushResult {
    type V = PushResultView;

    open spec fn view(&self) -> PushResultView {
        PushResultView {
            handle: self.handle@,
            outcome: self.outcome,
            assigned: self.assigned.deep_view(),
            revision: self.revision.deep_view(),
        }
    }
}

impl DeepView for ReplicaPushResult {
    type V = PushResultView;

    open spec fn deep_view(&self) -> PushResultView {
        self.view()
    }
}

impl Clone for ReplicaPushResult {
    fn clone(&self) -> (r: Self)
        ensures
            r@ == self@,
    {
        ReplicaPushResult {
            handle: self.handle.clone(),
            outcome: self.outcome,
            assigned: self.assigned.copied(),
            revision: self.revision.copied(),
        }
    }
}

impl ReplicaValue for ReplicaPushResult {
    fn copied(&self) -> (r: Self) {
        self.clone()
    }
}

} // verus!
