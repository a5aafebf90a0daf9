//! Outbound remote changes and inbound storage writes.
//!
//! [`ReplicaChange`] is what the engine asks the consumer to push to the
//! remote; [`ReplicaWriteOp`] is what it asks the consumer to persist
//! locally. The engine itself performs neither: both travel as coroutine
//! yields.

use vstd::prelude::*;

use crate::collection::{ReplicaCheckpoint, ReplicaCollectionId};
use crate::digest::{flags_field, fnv, hex, option_field, text_field, Digest};
use crate::object::{ObjectView, ReplicaHash, ReplicaObject};
use crate::order::Text;
use crate::placement::{
    FlagsView, OriginView, PlacementView, ReplicaFlags, ReplicaHandle, ReplicaLinkId,
    ReplicaOrigin, ReplicaPlacement,
};
use crate::sorted::ReplicaId;
use crate::value::{ReplicaSame, ReplicaValue};

verus! {

/// What a [`ReplicaChange`] asks the remote to do.
///
/// Membership is add or remove only. An add reuses a server-side copy or
/// move when it carries an [`ReplicaOrigin`], else it uploads the stored
/// body (a genuine append).
///
/// # A move is two halves that must not both deliver
///
/// A move is staged as a create in the target plus a remove of the source
/// (see [`ReplicaMutation::Move`](crate::mutate::ReplicaMutation::Move)),
/// each derived by its own collection's sync, in whichever order the
/// consumer runs them. Both halves can deliver the item on their own: the
/// create by copying from its origin, the remove by relocating the member
/// into `to`. So a [`Remove`](Self::Remove) carries the `link_id` its `to`
/// would receive, and a consumer SHALL relocate only while the
/// destination does not already hold it; otherwise the create already
/// delivered, and the remove is a plain delete of the source.
///
/// Neither half may be dropped in favour of the other. The remove is what
/// keeps a move safe when the target syncs last (the source is relocated
/// rather than deleted out from under a copy that never ran), and the
/// create is what keeps it working through a [hub](crate::hub), whose
/// bindings carry no origin. When the target syncs last its create finds
/// its origin already relocated: the push is rejected and the placeholder
/// stays visibly pending, since an add carries no key that separates a
/// second copy the user asked for from one the remove already served.
#[allow(inconsistent_fields)]
#[derive(Debug, Eq, PartialEq)]
pub enum ReplicaChangeKind {
    /// Add a member. The push reconciles the provisional `handle` to the
    /// server-assigned one (returned as
    /// [`crate::remote::ReplicaPushResult::assigned`]).
    Add {
        /// The provisional handle the member is staged under locally.
        handle: ReplicaHandle,
        /// The logical-item identity, when already resolved; the
        /// idempotency key for a retried add.
        link_id: Option<ReplicaLinkId>,
        /// The flag set to create the member with (an IMAP APPEND flag
        /// list). A server-side copy may ignore it (the copy inherits the
        /// source flags; any skew reconciles on the next sync).
        flags: ReplicaFlags,
        /// Where the body already lives, for a server-side copy or move;
        /// `None` for an append that uploads `object`. When the server
        /// refuses the copy because the origin is gone (expunged), a
        /// consumer holding `object` may fall back to uploading it;
        /// without a body, rejecting keeps the pending create visible.
        origin: Option<ReplicaOrigin>,
        /// The stored body to upload when there is no `origin` (an
        /// append); the consumer resolves the bytes from its object store.
        object: Option<ReplicaHash>,
    },
    /// Remove a member. `to` is the collection to move it into (an offline
    /// move, a server-side UID MOVE); `None` is a plain delete, whose
    /// disposal (expunge, trash) is the consumer's policy.
    Remove {
        /// The member to remove.
        handle: ReplicaHandle,
        /// The move destination, or `None` for a delete.
        to: Option<ReplicaCollectionId>,
        /// The logical-item identity, when already resolved: the delivery
        /// key of a move. A `to` that already holds this link id was
        /// served by the move's other half, so the remove is a plain
        /// delete rather than a second relocation.
        link_id: Option<ReplicaLinkId>,
        /// The last-synced content revision, as an optimistic-concurrency
        /// precondition (a WebDAV If-Match); `None` where content is
        /// immutable or never synced with one.
        if_match: Option<String>,
    },
    /// Replace a member's flag set.
    SetFlags {
        /// The member to update.
        handle: ReplicaHandle,
        /// The new flag set.
        flags: ReplicaFlags,
    },
    /// Replace a member's content in place with a locally edited body.
    Update {
        /// The member to update.
        handle: ReplicaHandle,
        /// The hash of the new body in the object store.
        object: ReplicaHash,
        /// The last-synced content revision, as an optimistic-concurrency
        /// precondition (a WebDAV If-Match); `None` when never based on
        /// one.
        if_match: Option<String>,
    },
}

/// What a [`ReplicaChangeKind`] stands for.
#[allow(inconsistent_fields)]
#[verifier::ext_equal]
pub enum ChangeKindView {
    Add {
        handle: Text,
        link_id: Option<Text>,
        flags: FlagsView,
        origin: Option<OriginView>,
        object: Option<Text>,
    },
    Remove { handle: Text, to: Option<Text>, link_id: Option<Text>, if_match: Option<Text> },
    SetFlags { handle: Text, flags: FlagsView },
    Update { handle: Text, object: Text, if_match: Option<Text> },
}

impl View for ReplicaChangeKind {
    type V = ChangeKindView;

    open spec fn view(&self) -> ChangeKindView {
        match self {
            ReplicaChangeKind::Add { handle, link_id, flags, origin, object } => {
                ChangeKindView::Add {
                    handle: handle@,
                    link_id: link_id.deep_view(),
                    flags: flags@,
                    origin: origin.deep_view(),
                    object: object.deep_view(),
                }
            },
            ReplicaChangeKind::Remove { handle, to, link_id, if_match } => {
                ChangeKindView::Remove {
                    handle: handle@,
                    to: to.deep_view(),
                    link_id: link_id.deep_view(),
                    if_match: if_match.deep_view(),
                }
            },
            ReplicaChangeKind::SetFlags { handle, flags } => {
                ChangeKindView::SetFlags { handle: handle@, flags: flags@ }
            },
            ReplicaChangeKind::Update { handle, object, if_match } => {
                ChangeKindView::Update {
                    handle: handle@,
                    object: object@,
                    if_match: if_match.deep_view(),
                }
            },
        }
    }
}

impl DeepView for ReplicaChangeKind {
    type V = ChangeKindView;

    open spec fn deep_view(&self) -> ChangeKindView {
        self.view()
    }
}

impl Clone for ReplicaChangeKind {
    fn clone(&self) -> (r: Self)
        ensures
            r@ == self@,
    {
        match self {
            ReplicaChangeKind::Add { handle, link_id, flags, origin, object } => {
                ReplicaChangeKind::Add {
                    handle: handle.clone(),
                    link_id: link_id.copied(),
                    flags: flags.clone(),
                    origin: origin.copied(),
                    object: object.copied(),
                }
            },
            ReplicaChangeKind::Remove { handle, to, link_id, if_match } => {
                ReplicaChangeKind::Remove {
                    handle: handle.clone(),
                    to: to.copied(),
                    link_id: link_id.copied(),
                    if_match: if_match.copied(),
                }
            },
            ReplicaChangeKind::SetFlags { handle, flags } => {
                ReplicaChangeKind::SetFlags { handle: handle.clone(), flags: flags.clone() }
            },
            ReplicaChangeKind::Update { handle, object, if_match } => {
                ReplicaChangeKind::Update {
                    handle: handle.clone(),
                    object: object.clone(),
                    if_match: if_match.copied(),
                }
            },
        }
    }
}

/// The member a change acts on.
pub open spec fn target(kind: ChangeKindView) -> Text {
    match kind {
        ChangeKindView::Add { handle, .. } => handle,
        ChangeKindView::Remove { handle, .. } => handle,
        ChangeKindView::SetFlags { handle, .. } => handle,
        ChangeKindView::Update { handle, .. } => handle,
    }
}

/// An origin as digest fields, a present and an absent one differing.
pub open spec fn origin_field(origin: Option<OriginView>) -> Seq<u8> {
    match origin {
        Some(origin) => text_field("1"@) + text_field(origin.collection) + text_field(
            origin.handle,
        ),
        None => text_field("0"@),
    }
}

/// The state a change makes true, as digest fields: the flag set of a
/// `SetFlags`, the body of an `Update`, the destination of a `Remove`, and
/// the identity, markers, origin and body of an `Add`.
pub open spec fn target_state(kind: ChangeKindView) -> Seq<u8> {
    match kind {
        ChangeKindView::Add { link_id, flags, origin, object, .. } => text_field("add"@)
            + option_field(link_id) + flags_field(flags) + origin_field(origin) + option_field(
            object,
        ),
        ChangeKindView::Remove { to, .. } => text_field("remove"@) + option_field(to),
        ChangeKindView::SetFlags { flags, .. } => text_field("set-flags"@) + flags_field(flags),
        ChangeKindView::Update { object, .. } => text_field("update"@) + text_field(object),
    }
}

/// What a change is keyed by: the collection, the handle, the kind and the
/// state it makes true. A precondition is not part of it: `if_match` states
/// what the change was attempted against, and a retry of one operation is
/// one operation.
pub open spec fn keyed_bytes(collection: Text, kind: ChangeKindView) -> Seq<u8> {
    text_field(collection) + text_field(target(kind)) + target_state(kind)
}

/// The idempotency key of a change.
pub open spec fn change_key(collection: Text, kind: ChangeKindView) -> Text {
    hex(fnv(keyed_bytes(collection, kind)) as nat, 16)
}

/// The change a kind makes in a collection.
pub open spec fn keyed(collection: Text, kind: ChangeKindView) -> ChangeView {
    ChangeView { kind, key: change_key(collection, kind) }
}

impl ReplicaChangeKind {
    /// The member the change acts on.
    fn handle(&self) -> (r: &ReplicaHandle)
        ensures
            r@ == target(self@),
    {
        match self {
            ReplicaChangeKind::Add { handle, .. } => handle,
            ReplicaChangeKind::Remove { handle, .. } => handle,
            ReplicaChangeKind::SetFlags { handle, .. } => handle,
            ReplicaChangeKind::Update { handle, .. } => handle,
        }
    }

    /// Derives this kind's idempotency key in `collection`.
    ///
    /// The key covers the collection, the handle, the kind and the target
    /// state the change makes true: the flag set of a
    /// [`SetFlags`](Self::SetFlags), the body of an [`Update`](Self::Update),
    /// the destination of a [`Remove`](Self::Remove), and the identity,
    /// markers, origin and body of an [`Add`](Self::Add). The same derived
    /// change keys the same on every run.
    ///
    /// A precondition is deliberately not part of it: `if_match` states what
    /// the change was attempted against, not what it makes true, and a retry
    /// of one operation is one operation.
    fn key(&self, collection: &ReplicaCollectionId) -> (r: ReplicaChangeKey)
        ensures
            r@ == change_key(collection@, self@),
    {
        let digest = Digest::new().text(collection.as_str()).text(self.handle().as_str());
        let ghost head = digest@;
        assert(head == text_field(collection@) + text_field(target(self@))) by {
            assert(Seq::<u8>::empty() + text_field(collection@) =~= text_field(collection@));
        }
        let digest = match self {
            ReplicaChangeKind::Add { link_id, flags, origin, object, .. } => {
                let ghost (kind, link) = (text_field("add"@), option_field(link_id.deep_view()));
                let ghost (marks, body) = (flags_field(flags@), option_field(object.deep_view()));
                let digest = digest.text("add").option(text_of(link_id)).flags(flags);
                let digest = fold_origin(digest, origin).option(text_of(object));
                proof {
                    let source = origin_field(origin.deep_view());
                    lemma_append(head, kind, link);
                    lemma_append(head, kind + link, marks);
                    lemma_append(head, kind + link + marks, source);
                    lemma_append(head, kind + link + marks + source, body);
                }
                digest
            },
            ReplicaChangeKind::Remove { to, .. } => {
                proof {
                    lemma_append(head, text_field("remove"@), option_field(to.deep_view()));
                }
                digest.text("remove").option(text_of(to))
            },
            ReplicaChangeKind::SetFlags { flags, .. } => {
                proof {
                    lemma_append(head, text_field("set-flags"@), flags_field(flags@));
                }
                digest.text("set-flags").flags(flags)
            },
            ReplicaChangeKind::Update { object, .. } => {
                proof {
                    lemma_append(head, text_field("update"@), text_field(object@));
                }
                digest.text("update").text(object.as_str())
            },
        };
        ReplicaChangeKey(digest.finish())
    }
}

proof fn lemma_append(head: Seq<u8>, a: Seq<u8>, b: Seq<u8>)
    ensures
        head + a + b == head + (a + b),
{
    assert(head + a + b =~= head + (a + b));
}

fn fold_origin(digest: Digest, origin: &Option<ReplicaOrigin>) -> (r: Digest)
    ensures
        r@ == digest@ + origin_field(origin.deep_view()),
{
    match origin {
        Some(origin) => {
            proof {
                let head = digest@;
                let (mark, place) = (text_field("1"@), text_field(origin.collection@));
                lemma_append(head, mark, place);
                lemma_append(head, mark + place, text_field(origin.handle@));
            }
            digest.text("1").text(origin.collection.as_str()).text(origin.handle.as_str())
        },
        None => digest.text("0"),
    }
}

fn text_of<K: ReplicaId + DeepView<V = Seq<char>>>(id: &Option<K>) -> (r: Option<&str>)
    requires
        id matches Some(id) ==> id.deep_view() == id@,
    ensures
        match r {
            Some(text) => id.deep_view() == Some(text@),
            None => id.deep_view() is None,
        },
{
    match id {
        Some(id) => Some(id.text()),
        None => None,
    }
}

/// The idempotency key naming a derived change, as
/// [`ReplicaChange::new`] derives it.
///
/// Sixteen lowercase hexadecimal characters; opaque to the engine, which
/// never reads one back. A consumer records the keys it has applied and
/// recognises a replay by looking one up.
#[derive(Debug, Eq, Hash, Ord, PartialEq, PartialOrd)]
pub struct ReplicaChangeKey(pub String);

impl View for ReplicaChangeKey {
    type V = Text;

    open spec fn view(&self) -> Text {
        self.0@
    }
}

impl DeepView for ReplicaChangeKey {
    type V = Text;

    open spec fn deep_view(&self) -> Text {
        self.0@
    }
}

impl ReplicaChangeKey {
    /// Borrows the key as a string slice.
    pub fn as_str(&self) -> (r: &str)
        ensures
            r@ == self@,
    {
        self.0.as_str()
    }
}

impl Clone for ReplicaChangeKey {
    fn clone(&self) -> (r: Self)
        ensures
            r@ == self@,
    {
        ReplicaChangeKey(self.0.clone())
    }
}

impl From<&str> for ReplicaChangeKey {
    fn from(value: &str) -> (r: Self)
        ensures
            r@ == value@,
    {
        ReplicaChangeKey(value.to_owned())
    }
}

impl vstd::std_specs::convert::FromSpecImpl<&str> for ReplicaChangeKey {
    open spec fn obeys_from_spec() -> bool {
        false
    }

    open spec fn from_spec(value: &str) -> Self {
        arbitrary()
    }
}

impl From<String> for ReplicaChangeKey {
    fn from(value: String) -> (r: Self)
        ensures
            r@ == value@,
    {
        ReplicaChangeKey(value)
    }
}

impl vstd::std_specs::convert::FromSpecImpl<String> for ReplicaChangeKey {
    open spec fn obeys_from_spec() -> bool {
        true
    }

    open spec fn from_spec(value: String) -> Self {
        ReplicaChangeKey(value)
    }
}

impl ReplicaId for ReplicaChangeKey {
    fn text(&self) -> (r: &str) {
        self.0.as_str()
    }

    fn again(&self) -> (r: Self) {
        self.clone()
    }
}

impl ReplicaValue for ReplicaChangeKey {
    fn copied(&self) -> (r: Self) {
        self.clone()
    }
}

impl ReplicaSame for ReplicaChangeKey {
    fn same(&self, other: &Self) -> (r: bool) {
        self.0 == other.0
    }
}

/// A change to push to the remote: what to do, and the key naming it.
///
/// Pushes are at-least-once: a crash between a serviced push and the
/// storage write that records it makes the next sync push the same change
/// again. The window is one chunk rather than one run (see
/// [`ReplicaSync::PUSH_CHUNK`](crate::sync::ReplicaSync::PUSH_CHUNK)), and
/// every change names itself through `key`, so a consumer that records the
/// keys it applied recognises a replay of any kind. Flag and content
/// pushes also re-apply harmlessly on their own; the other two are kept
/// harmless by treating a remove of an already-missing member as accepted,
/// and by using an add's `link_id` to detect that it already landed
/// instead of duplicating it.
#[derive(Debug, Eq, PartialEq)]
pub struct ReplicaChange {
    /// What the remote is asked to do.
    pub kind: ReplicaChangeKind,
    /// The idempotency key naming this change, as
    /// [`new`](Self::new) derives it.
    pub key: ReplicaChangeKey,
}

/// What a [`ReplicaChange`] stands for.
#[verifier::ext_equal]
pub struct ChangeView {
    pub kind: ChangeKindView,
    pub key: Text,
}

impl View for ReplicaChange {
    type V = ChangeView;

    open spec fn view(&self) -> ChangeView {
        ChangeView { kind: self.kind@, key: self.key@ }
    }
}

impl DeepView for ReplicaChange {
    type V = ChangeView;

    open spec fn deep_view(&self) -> ChangeView {
        self.view()
    }
}

impl ReplicaChange {
    /// Keys `kind` in `collection`.
    ///
    /// The only way a change is made, so it cannot exist without its key,
    /// and the key cannot disagree with what it names: the engine derives
    /// the kind, and keying it is the last thing that happens to it.
    pub fn new(collection: &ReplicaCollectionId, kind: ReplicaChangeKind) -> (r: Self)
        ensures
            r@ == keyed(collection@, kind@),
    {
        let key = kind.key(collection);
        ReplicaChange { kind, key }
    }

    /// The member this change acts on.
    pub fn handle(&self) -> (r: &ReplicaHandle)
        ensures
            r@ == target(self@.kind),
    {
        self.kind.handle()
    }
}

impl Clone for ReplicaChange {
    fn clone(&self) -> (r: Self)
        ensures
            r@ == self@,
    {
        ReplicaChange { kind: self.kind.clone(), key: self.key.clone() }
    }
}

impl ReplicaValue for ReplicaChange {
    fn copied(&self) -> (r: Self) {
        self.clone()
    }
}

/// Why a placement is being dropped.
///
/// The engine drops a row for two unrelated reasons, and a storage that
/// shares one item across sources (a [hub](crate::hub)) has to tell them
/// apart: propagating a delete the engine never meant is how a
/// housekeeping drop becomes data loss on another source.
#[derive(Clone, Copy, Debug, Eq, PartialEq, Structural)]
pub enum ReplicaDropReason {
    /// The item is gone: a local delete the remote confirmed, or a member
    /// that vanished upstream. A shared item is deleted everywhere.
    Deleted,
    /// Only this row is gone, superseded by another the same batch writes:
    /// a provisional placeholder reconciled to its server-assigned handle,
    /// a spine rebuilt onto a new handle space. The item lives on.
    Superseded,
}

/// A write to persist in local storage.
///
/// The set the verbs emit; the consumer applies them atomically
/// against its index and blob store.
///
/// Object references derive from placement pointers: a stored placement
/// references an object once per pointing field (`ReplicaPlacement::object` and
/// `ReplicaBase::object`). The consumer maintains the counts incrementally, by
/// diffing an upsert against the stored row it replaces and by releasing
/// both pointers of a dropped row; an object no other placement points at
/// may be garbage-collected.
#[derive(Debug, Eq, PartialEq)]
pub enum ReplicaWriteOp {
    /// Insert or replace a placement.
    UpsertPlacement(ReplicaPlacement),
    /// Drop a placement.
    DropPlacement {
        /// The owning collection.
        collection: ReplicaCollectionId,
        /// The handle to drop.
        handle: ReplicaHandle,
        /// Whether the item itself is gone, or only this row of it.
        reason: ReplicaDropReason,
    },
    /// Store an object body. Storing takes no reference of its own:
    /// references come from placement pointers only, so a stored object is
    /// unreferenced until an [`ReplicaWriteOp::UpsertPlacement`] points at its
    /// hash. That upsert usually rides in the same batch, but it need not: a
    /// consumer streaming bodies ahead of their metadata stores them in one
    /// batch and attaches them in a later one, and a storage backend must keep
    /// an unreferenced object rather than collect it at the commit.
    StoreObject {
        /// The object metadata.
        object: ReplicaObject,
        /// The body bytes, or `None` when the consumer already persisted the
        /// object into its blob store during a streaming fetch: the engine
        /// then only records the object (`object`), writing no bytes.
        body: Option<Vec<u8>>,
    },
    /// Set a collection's sync checkpoint.
    SetCheckpoint {
        /// The collection to checkpoint.
        collection: ReplicaCollectionId,
        /// The new checkpoint.
        checkpoint: ReplicaCheckpoint,
    },
}

/// What a [`ReplicaWriteOp`] stands for.
#[verifier::ext_equal]
pub enum WriteOpView {
    UpsertPlacement(PlacementView),
    DropPlacement { collection: Text, handle: Text, reason: ReplicaDropReason },
    StoreObject { object: ObjectView, body: Option<Seq<u8>> },
    SetCheckpoint { collection: Text, checkpoint: Seq<u8> },
}

impl View for ReplicaWriteOp {
    type V = WriteOpView;

    open spec fn view(&self) -> WriteOpView {
        match self {
            ReplicaWriteOp::UpsertPlacement(placement) => WriteOpView::UpsertPlacement(placement@),
            ReplicaWriteOp::DropPlacement { collection, handle, reason } => {
                WriteOpView::DropPlacement {
                    collection: collection@,
                    handle: handle@,
                    reason: *reason,
                }
            },
            ReplicaWriteOp::StoreObject { object, body } => {
                WriteOpView::StoreObject { object: object@, body: body.deep_view() }
            },
            ReplicaWriteOp::SetCheckpoint { collection, checkpoint } => {
                WriteOpView::SetCheckpoint { collection: collection@, checkpoint: checkpoint@ }
            },
        }
    }
}

impl DeepView for ReplicaWriteOp {
    type V = WriteOpView;

    open spec fn deep_view(&self) -> WriteOpView {
        self.view()
    }
}

impl Clone for ReplicaWriteOp {
    fn clone(&self) -> (r: Self)
        ensures
            r@ == self@,
    {
        match self {
            ReplicaWriteOp::UpsertPlacement(placement) => ReplicaWriteOp::UpsertPlacement(
                placement.clone(),
            ),
            ReplicaWriteOp::DropPlacement { collection, handle, reason } => {
                ReplicaWriteOp::DropPlacement {
                    collection: collection.clone(),
                    handle: handle.clone(),
                    reason: *reason,
                }
            },
            ReplicaWriteOp::StoreObject { object, body } => {
                ReplicaWriteOp::StoreObject { object: object.clone(), body: body.copied() }
            },
            ReplicaWriteOp::SetCheckpoint { collection, checkpoint } => {
                ReplicaWriteOp::SetCheckpoint {
                    collection: collection.clone(),
                    checkpoint: checkpoint.clone(),
                }
            },
        }
    }
}

impl ReplicaValue for ReplicaWriteOp {
    fn copied(&self) -> (r: Self) {
        self.clone()
    }
}

} // verus!
