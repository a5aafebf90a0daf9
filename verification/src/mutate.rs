//! I/O-free coroutine to mutate a collection locally, with no network.
//!
//! Loads the target placement, applies the change in memory, marks it
//! dirty or tombstone, and writes it back. The base is left untouched so
//! the next sync derives the pending push, the one exception being a
//! resolution, which rebases it onto the remote state it settled;
//! reconciliation is [`crate::sync`]'s job.

use vstd::prelude::*;

use crate::change::{ReplicaWriteOp, WriteOpView};
use crate::collection::ReplicaCollectionId;
use crate::coroutine::{
    answers, arg_error_message, refusal, refuse, step_view, ArgView, ReplicaArg, ReplicaArgError,
    ReplicaCoroutine, ReplicaCoroutineState, ReplicaYield, StepView, YieldView,
};
use crate::object::{ObjectView, ReplicaObject};
use crate::order::Text;
use crate::placement::{
    BaseView, FlagsView, OriginView, PlacementView, ReplicaBase, ReplicaFlags, ReplicaHandle,
    ReplicaLevel, ReplicaLinkId, ReplicaMeta, ReplicaOrigin, ReplicaPlacement, ReplicaSortKey,
    ReplicaStatus,
};
use crate::storage::{LoadScopeView, ReplicaLoadScope};
use crate::value::{one, push, ReplicaSame, ReplicaValue};

verus! {

/// A local edit applied offline.
///
/// Each mutation reads one source placement in the coroutine's
/// collection and stages the resulting writes, to be reconciled on the
/// next sync. A copy stages a [`ReplicaStatus::Created`] placement in
/// another collection.
#[allow(inconsistent_fields)]
#[derive(Debug, Eq, PartialEq)]
pub enum ReplicaMutation {
    /// Replace a placement's flag set.
    SetFlags {
        /// The placement to update.
        handle: ReplicaHandle,
        /// The new flag set.
        flags: ReplicaFlags,
    },
    /// Mark a placement deleted, keeping it as a tombstone until synced.
    Remove(ReplicaHandle),
    /// Replace a placement's body with locally edited content: the new
    /// object is stored and the placement repointed at it and marked
    /// dirty, its base keeping the previously synced body so the next
    /// sync derives the push.
    ///
    /// Editing a conflicted placement resolves it, and the base becomes
    /// the remote state the resolution was merged against: the revision
    /// observed at conflict time and the body recorded beside it. The
    /// resolving push is thus conditioned on that revision, and measured
    /// against that body, so keeping the ancestor of the divergence is a
    /// decision the remote hears like any other.
    Edit {
        /// The placement to update.
        handle: ReplicaHandle,
        /// The new body's object metadata.
        object: ReplicaObject,
        /// The new body bytes.
        body: Vec<u8>,
        /// The refreshed summary, when the consumer projects one; `None`
        /// keeps the cached summary.
        meta: Option<ReplicaMeta>,
        /// The refreshed sort key, on the same terms as `meta`. An edit
        /// changing what a key is derived from has to say so, or the
        /// item stays where it was in the list.
        sort_key: Option<ReplicaSortKey>,
    },
    /// Copy a placement into `target` as a pending create that the next
    /// sync pushes with a server-side copy (no body re-upload). The source
    /// is left untouched.
    Copy {
        /// The source placement to copy.
        handle: ReplicaHandle,
        /// The collection to copy it into.
        target: ReplicaCollectionId,
        /// The provisional handle the copy is staged under in `target`.
        placeholder: ReplicaHandle,
    },
    /// Move a placement into `target`: stage a `Created` placement there
    /// under `placeholder`, carrying the source origin, and tombstone
    /// the source carrying `target` as its destination. Each
    /// collection's next sync derives one half and whichever runs first
    /// delivers the item, the link id keeping the other from delivering
    /// a second copy (see
    /// [`ReplicaChange`](crate::change::ReplicaChange)).
    ///
    /// An item whose link id is not resolved yet has no such key, so
    /// only the source half is staged: the relocation delivers it alone,
    /// and the target picks it up on its next enumerate.
    Move {
        /// The source placement to move.
        handle: ReplicaHandle,
        /// The collection to move it into.
        target: ReplicaCollectionId,
        /// The provisional handle the move is staged under in `target`.
        placeholder: ReplicaHandle,
    },
    /// Create a brand-new, locally-authored item with no remote origin
    /// (compose, import). Stages a pending create the next sync pushes
    /// as an append, uploading the body, rather than a server-side copy.
    /// Reads no existing source.
    Add {
        /// The provisional local handle the create is staged under,
        /// rekeyed to the server-assigned handle when the push reports
        /// it.
        handle: ReplicaHandle,
        /// The item's cross-source link id (its `Message-ID`).
        link_id: ReplicaLinkId,
        /// The initial flag set.
        flags: ReplicaFlags,
        /// The new body's object metadata.
        object: ReplicaObject,
        /// The new body bytes.
        body: Vec<u8>,
        /// The summary, when the consumer projects one.
        meta: Option<ReplicaMeta>,
        /// The sort key, when the consumer's kind defines one.
        sort_key: ReplicaSortKey,
    },
}

/// What a [`ReplicaMutation`] stands for.
#[allow(inconsistent_fields)]
#[verifier::ext_equal]
pub enum MutationView {
    SetFlags { handle: Text, flags: FlagsView },
    Remove(Text),
    Edit {
        handle: Text,
        object: ObjectView,
        body: Seq<u8>,
        meta: Option<Text>,
        sort_key: Option<Text>,
    },
    Copy { handle: Text, target: Text, placeholder: Text },
    Move { handle: Text, target: Text, placeholder: Text },
    Add {
        handle: Text,
        link_id: Text,
        flags: FlagsView,
        object: ObjectView,
        body: Seq<u8>,
        meta: Option<Text>,
        sort_key: Text,
    },
}

impl View for ReplicaMutation {
    type V = MutationView;

    open spec fn view(&self) -> MutationView {
        match self {
            ReplicaMutation::SetFlags { handle, flags } => {
                MutationView::SetFlags { handle: handle@, flags: flags@ }
            },
            ReplicaMutation::Remove(handle) => MutationView::Remove(handle@),
            ReplicaMutation::Edit { handle, object, body, meta, sort_key } => {
                MutationView::Edit {
                    handle: handle@,
                    object: object@,
                    body: body.deep_view(),
                    meta: meta.deep_view(),
                    sort_key: sort_key.deep_view(),
                }
            },
            ReplicaMutation::Copy { handle, target, placeholder } => {
                MutationView::Copy {
                    handle: handle@,
                    target: target@,
                    placeholder: placeholder@,
                }
            },
            ReplicaMutation::Move { handle, target, placeholder } => {
                MutationView::Move {
                    handle: handle@,
                    target: target@,
                    placeholder: placeholder@,
                }
            },
            ReplicaMutation::Add { handle, link_id, flags, object, body, meta, sort_key } => {
                MutationView::Add {
                    handle: handle@,
                    link_id: link_id@,
                    flags: flags@,
                    object: object@,
                    body: body.deep_view(),
                    meta: meta.deep_view(),
                    sort_key: sort_key@,
                }
            },
        }
    }
}

impl Clone for ReplicaMutation {
    fn clone(&self) -> (r: Self)
        ensures
            r@ == self@,
    {
        match self {
            ReplicaMutation::SetFlags { handle, flags } => {
                ReplicaMutation::SetFlags { handle: handle.clone(), flags: flags.clone() }
            },
            ReplicaMutation::Remove(handle) => ReplicaMutation::Remove(handle.clone()),
            ReplicaMutation::Edit { handle, object, body, meta, sort_key } => {
                ReplicaMutation::Edit {
                    handle: handle.clone(),
                    object: object.clone(),
                    body: body.copied(),
                    meta: meta.copied(),
                    sort_key: sort_key.copied(),
                }
            },
            ReplicaMutation::Copy { handle, target, placeholder } => {
                ReplicaMutation::Copy {
                    handle: handle.clone(),
                    target: target.clone(),
                    placeholder: placeholder.clone(),
                }
            },
            ReplicaMutation::Move { handle, target, placeholder } => {
                ReplicaMutation::Move {
                    handle: handle.clone(),
                    target: target.clone(),
                    placeholder: placeholder.clone(),
                }
            },
            ReplicaMutation::Add { handle, link_id, flags, object, body, meta, sort_key } => {
                ReplicaMutation::Add {
                    handle: handle.clone(),
                    link_id: link_id.clone(),
                    flags: flags.clone(),
                    object: object.clone(),
                    body: body.copied(),
                    meta: meta.copied(),
                    sort_key: sort_key.clone(),
                }
            },
        }
    }
}

/// The source handle a mutation reads, `None` for an `Add`, which creates a
/// placement rather than reading one.
pub open spec fn source_handle(mutation: MutationView) -> Option<Text> {
    match mutation {
        MutationView::SetFlags { handle, .. } => Some(handle),
        MutationView::Remove(handle) => Some(handle),
        MutationView::Edit { handle, .. } => Some(handle),
        MutationView::Copy { handle, .. } => Some(handle),
        MutationView::Move { handle, .. } => Some(handle),
        MutationView::Add { .. } => None,
    }
}

/// What a mutation has to read: the one placement it edits, or, for an
/// `Add`, every row holding the link id it must not collide with.
pub open spec fn read_scope(mutation: MutationView) -> LoadScopeView {
    match mutation {
        MutationView::SetFlags { handle, .. } => LoadScopeView::Handles(seq![handle]),
        MutationView::Remove(handle) => LoadScopeView::Handles(seq![handle]),
        MutationView::Edit { handle, .. } => LoadScopeView::Handles(seq![handle]),
        MutationView::Copy { handle, .. } => LoadScopeView::Handles(seq![handle]),
        MutationView::Move { handle, .. } => LoadScopeView::Handles(seq![handle]),
        MutationView::Add { link_id, .. } => LoadScopeView::Links(seq![link_id]),
    }
}

impl ReplicaMutation {
    /// The source handle the mutation reads, or `None` for
    /// [`Add`](Self::Add), which creates a placement rather than reading
    /// one.
    fn handle(&self) -> (r: Option<&ReplicaHandle>)
        ensures
            match r {
                Some(handle) => source_handle(self@) == Some(handle@),
                None => source_handle(self@) is None,
            },
    {
        match self {
            ReplicaMutation::SetFlags { handle, .. } => Some(handle),
            ReplicaMutation::Remove(handle) => Some(handle),
            ReplicaMutation::Edit { handle, .. } => Some(handle),
            ReplicaMutation::Copy { handle, .. } => Some(handle),
            ReplicaMutation::Move { handle, .. } => Some(handle),
            ReplicaMutation::Add { .. } => None,
        }
    }

    /// What the mutation has to read: the one placement it edits, or, for
    /// an [`Add`](Self::Add), every row holding the link id it must not
    /// collide with.
    fn scope(&self) -> (r: ReplicaLoadScope)
        ensures
            r@ == read_scope(self@),
    {
        if let ReplicaMutation::Add { link_id, .. } = self {
            return ReplicaLoadScope::Links(one(link_id.clone()));
        }
        match self.handle() {
            Some(handle) => ReplicaLoadScope::Handles(one(handle.clone())),
            None => ReplicaLoadScope::All,
        }
    }
}

/// Failure causes during a MUTATE flow.
#[derive(Debug, Eq, PartialEq)]
pub enum ReplicaMutateError {
    /// The targeted handle has no placement in the collection.
    UnknownHandle(String),
    /// An `Add` names a link id a live placement already holds.
    LinkExists(String),
    /// The driver broke the coroutine contract.
    Arg(ReplicaArgError),
}

/// What a [`ReplicaMutateError`] stands for.
#[verifier::ext_equal]
pub enum MutateErrorView {
    UnknownHandle(Text),
    LinkExists(Text),
    Arg(ReplicaArgError),
}

impl DeepView for ReplicaMutateError {
    type V = MutateErrorView;

    open spec fn deep_view(&self) -> MutateErrorView {
        match self {
            ReplicaMutateError::UnknownHandle(handle) => MutateErrorView::UnknownHandle(handle@),
            ReplicaMutateError::LinkExists(link) => MutateErrorView::LinkExists(link@),
            ReplicaMutateError::Arg(error) => MutateErrorView::Arg(*error),
        }
    }
}

/// The sentence a failed mutation is reported with.
pub open spec fn mutate_error_message(error: MutateErrorView) -> Text {
    match error {
        MutateErrorView::UnknownHandle(handle) => "Replica MUTATE failed: unknown handle "@
            + handle,
        MutateErrorView::LinkExists(link) => "Replica MUTATE failed: link id already present: "@
            + link,
        MutateErrorView::Arg(error) => arg_error_message(error),
    }
}

impl ReplicaMutateError {
    /// The failure as a sentence.
    pub fn message(&self) -> (r: String)
        ensures
            r@ == mutate_error_message(self.deep_view()),
    {
        match self {
            ReplicaMutateError::UnknownHandle(handle) => {
                "Replica MUTATE failed: unknown handle ".to_owned().concat(handle.as_str())
            },
            ReplicaMutateError::LinkExists(link) => {
                "Replica MUTATE failed: link id already present: ".to_owned().concat(link.as_str())
            },
            ReplicaMutateError::Arg(error) => error.message(),
        }
    }
}

impl Clone for ReplicaMutateError {
    fn clone(&self) -> (r: Self)
        ensures
            r.deep_view() == self.deep_view(),
    {
        match self {
            ReplicaMutateError::UnknownHandle(handle) => ReplicaMutateError::UnknownHandle(
                handle.clone(),
            ),
            ReplicaMutateError::LinkExists(link) => ReplicaMutateError::LinkExists(link.clone()),
            ReplicaMutateError::Arg(error) => ReplicaMutateError::Arg(*error),
        }
    }
}

impl From<ReplicaArgError> for ReplicaMutateError {
    fn from(error: ReplicaArgError) -> (r: Self)
        ensures
            r == ReplicaMutateError::Arg(error),
    {
        ReplicaMutateError::Arg(error)
    }
}

impl vstd::std_specs::convert::FromSpecImpl<ReplicaArgError> for ReplicaMutateError {
    open spec fn obeys_from_spec() -> bool {
        true
    }

    open spec fn from_spec(error: ReplicaArgError) -> Self {
        ReplicaMutateError::Arg(error)
    }
}

/// Where a mutation stands.
#[derive(Clone, Copy, Debug, Eq, PartialEq, Structural)]
pub enum MutatePhase {
    /// Nothing has happened yet.
    Start,
    /// The source placement is being loaded.
    PendingLoad,
    /// The change is being stored.
    PendingWrite,
    /// The change is stored.
    Done,
}

/// What a [`ReplicaMutate`] stands for.
#[verifier::ext_equal]
pub struct MutateView {
    pub collection: Text,
    pub mutation: MutationView,
    pub phase: MutatePhase,
}

/// The flag set of a placement replaced. A pending create stays a create and
/// an unresolved conflict a conflict; the flag change rides along.
pub open spec fn flagged(source: PlacementView, flags: FlagsView) -> PlacementView {
    PlacementView {
        flags,
        status: if source.status is Clean {
            ReplicaStatus::Dirty
        } else {
            source.status
        },
        ..source
    }
}

/// A placement marked deleted.
pub open spec fn entombed(source: PlacementView) -> PlacementView {
    PlacementView { status: ReplicaStatus::Tombstone, ..source }
}

/// A conflict settled: the base becomes the remote state the resolution was
/// merged against, both halves of it. One without a base is given one, its
/// own resolution being where the two sides first agree.
pub open spec fn settled(source: PlacementView) -> PlacementView {
    PlacementView {
        conflict_revision: None,
        conflict_object: None,
        base: Some(
            BaseView {
                flags: match source.base {
                    Some(base) => base.flags,
                    None => source.flags,
                },
                revision: source.conflict_revision,
                object: source.conflict_object,
            },
        ),
        ..source
    }
}

/// The body of a placement replaced. Editing a conflict settles it; an edit
/// restating the synced body stages nothing and leaves the status alone.
pub open spec fn rewritten(
    source: PlacementView,
    hash: Text,
    meta: Option<Text>,
    sort_key: Option<Text>,
) -> PlacementView {
    let resolving = source.status is Conflict;
    let p = PlacementView {
        object: Some(hash),
        level: ReplicaLevel::Full,
        meta: if meta is Some {
            meta
        } else {
            source.meta
        },
        sort_key: match sort_key {
            Some(key) => key,
            None => source.sort_key,
        },
        ..source
    };
    let p = if resolving {
        settled(p)
    } else {
        p
    };
    let staged = p.base is None || p.base->0.object != Some(hash);
    PlacementView {
        status: if !(source.status is Created) && (staged || resolving) {
            ReplicaStatus::Dirty
        } else {
            source.status
        },
        ..p
    }
}

/// The pending create a copy or a move stages in its target, carrying the
/// source as its origin so the push is a server-side copy.
pub open spec fn staged_copy(
    source: PlacementView,
    target: Text,
    placeholder: Text,
) -> PlacementView {
    PlacementView {
        collection: target,
        handle: placeholder,
        status: ReplicaStatus::Created,
        conflict_revision: None,
        conflict_object: None,
        base: None,
        origin: Some(OriginView { collection: source.collection, handle: source.handle }),
        ambiguous_handles: Seq::empty(),
        ..source
    }
}

/// The source of a move: deleted, with its destination.
pub open spec fn departing(source: PlacementView, target: Text) -> PlacementView {
    PlacementView {
        status: ReplicaStatus::Tombstone,
        origin: Some(OriginView { collection: target, handle: source.handle }),
        ..source
    }
}

/// The pending create of a locally authored item.
pub open spec fn authored(
    collection: Text,
    handle: Text,
    link_id: Text,
    flags: FlagsView,
    hash: Text,
    meta: Option<Text>,
    sort_key: Text,
) -> PlacementView {
    PlacementView {
        collection,
        handle,
        link_id: Some(link_id),
        object: Some(hash),
        level: ReplicaLevel::Full,
        meta,
        sort_key,
        flags,
        status: ReplicaStatus::Created,
        conflict_revision: None,
        conflict_object: None,
        base: None,
        origin: None,
        ambiguous_handles: Seq::empty(),
    }
}

/// The writes of an `Add`: the object, and the create pointing at it.
pub open spec fn create_writes(collection: Text, mutation: MutationView) -> Seq<WriteOpView> {
    match mutation {
        MutationView::Add { handle, link_id, flags, object, body, meta, sort_key } => seq![
            WriteOpView::StoreObject { object, body: Some(body) },
            WriteOpView::UpsertPlacement(
                authored(collection, handle, link_id, flags, object.hash, meta, sort_key),
            ),
        ],
        _ => Seq::empty(),
    }
}

/// The writes of a mutation, given its loaded source.
pub open spec fn source_writes(
    collection: Text,
    mutation: MutationView,
    source: PlacementView,
) -> Seq<WriteOpView> {
    match mutation {
        MutationView::SetFlags { flags, .. } => seq![
            WriteOpView::UpsertPlacement(flagged(source, flags)),
        ],
        MutationView::Remove(_) => seq![WriteOpView::UpsertPlacement(entombed(source))],
        MutationView::Edit { object, body, meta, sort_key, .. } => seq![
            WriteOpView::StoreObject { object, body: Some(body) },
            WriteOpView::UpsertPlacement(rewritten(source, object.hash, meta, sort_key)),
        ],
        MutationView::Copy { target, placeholder, .. } => seq![
            WriteOpView::UpsertPlacement(staged_copy(source, target, placeholder)),
        ],
        MutationView::Move { target, placeholder, .. } => {
            let gone = WriteOpView::UpsertPlacement(departing(source, target));
            // without a link id nothing keeps the two halves of the move from
            // both delivering, so only the source half is staged
            if source.link_id is Some {
                seq![
                    WriteOpView::UpsertPlacement(staged_copy(source, target, placeholder)),
                    gone,
                ]
            } else {
                seq![gone]
            }
        },
        MutationView::Add { .. } => create_writes(collection, mutation),
    }
}

/// Whether a live placement already holds a link id.
pub open spec fn collides(placements: Seq<PlacementView>, link_id: Text) -> bool {
    exists|i: int|
        0 <= i < placements.len() && !((#[trigger] placements[i]).status is Tombstone)
            && placements[i].link_id == Some(link_id)
}

/// The first placement loaded that holds a handle.
pub open spec fn first_with(placements: Seq<PlacementView>, handle: Text) -> Option<PlacementView>
    decreases placements.len(),
{
    if placements.len() == 0 {
        None
    } else if placements.first().handle == handle {
        Some(placements.first())
    } else {
        first_with(placements.drop_first(), handle)
    }
}

/// What a step of a mutation hands back.
pub type MutateStep = StepView<(), MutateErrorView>;

/// The writes a load leads to, or why there are none.
pub open spec fn outcome(s: MutateView, placements: Seq<PlacementView>) -> Result<
    Seq<WriteOpView>,
    MutateErrorView,
> {
    match s.mutation {
        MutationView::Add { link_id, .. } => if collides(placements, link_id) {
            Err(MutateErrorView::LinkExists(link_id))
        } else {
            Ok(create_writes(s.collection, s.mutation))
        },
        _ => {
            let handle = source_handle(s.mutation)->0;
            match first_with(placements, handle) {
                Some(source) => Ok(source_writes(s.collection, s.mutation, source)),
                None => Err(MutateErrorView::UnknownHandle(handle)),
            }
        },
    }
}

/// What resuming a mutation with `arg` does.
pub open spec fn mutate_step(s: MutateView, arg: Option<ArgView>) -> (MutateView, MutateStep) {
    match (s.phase, arg) {
        (MutatePhase::Start, None) => (
            MutateView { phase: MutatePhase::PendingLoad, ..s },
            StepView::Yielded(
                YieldView::WantsLoad {
                    collection: s.collection,
                    scope: read_scope(s.mutation),
                },
            ),
        ),
        (MutatePhase::PendingLoad, Some(ArgView::Load(loaded))) => match outcome(
            s,
            loaded.placements,
        ) {
            Ok(writes) => (
                MutateView { phase: MutatePhase::PendingWrite, ..s },
                StepView::Yielded(YieldView::WantsWrite(writes)),
            ),
            Err(error) => (s, StepView::Failed(error)),
        },
        (MutatePhase::PendingWrite, Some(ArgView::Write)) => (
            MutateView { phase: MutatePhase::Done, ..s },
            StepView::Done(()),
        ),
        (_, _) => (s, StepView::Failed(MutateErrorView::Arg(refusal(arg)))),
    }
}

/// How far a mutation still is from its end.
pub open spec fn mutate_rank(s: MutateView) -> (nat, nat) {
    match s.phase {
        MutatePhase::Start => (3, 0),
        MutatePhase::PendingLoad => (2, 0),
        MutatePhase::PendingWrite => (1, 0),
        MutatePhase::Done => (0, 0),
    }
}

/// I/O-free MUTATE coroutine.
pub struct ReplicaMutate {
    collection: ReplicaCollectionId,
    mutation: ReplicaMutation,
    phase: MutatePhase,
}

impl View for ReplicaMutate {
    type V = MutateView;

    closed spec fn view(&self) -> MutateView {
        MutateView {
            collection: self.collection@,
            mutation: self.mutation@,
            phase: self.phase,
        }
    }
}

impl ReplicaMutate {
    /// Creates a coroutine that applies `mutation` to `collection`.
    pub fn new(collection: impl Into<ReplicaCollectionId>, mutation: ReplicaMutation) -> (r: Self)
        ensures
            exists|id: ReplicaCollectionId| #[trigger]
                call_ensures(Into::<ReplicaCollectionId>::into, (collection,), id) && r@ == (
                MutateView {
                    collection: id@,
                    mutation: mutation@,
                    phase: MutatePhase::Start,
                }),
    {
        let collection = collection.into();
        ReplicaMutate { collection, mutation, phase: MutatePhase::Start }
    }

    /// Stages the writes for the mutation given its loaded source
    /// placement. Flag sets and removes rewrite the source in place; a
    /// copy leaves it untouched and stages a pending create in the
    /// target.
    fn writes(&self, source: ReplicaPlacement) -> (r: Vec<ReplicaWriteOp>)
        ensures
            r.deep_view() == source_writes(self@.collection, self@.mutation, source@),
    {
        let ghost loaded = source@;
        let mut source = source;
        match &self.mutation {
            ReplicaMutation::SetFlags { flags, .. } => {
                source.flags = flags.clone();
                if source.status == ReplicaStatus::Clean {
                    source.status = ReplicaStatus::Dirty;
                }
                one(ReplicaWriteOp::UpsertPlacement(source))
            },
            ReplicaMutation::Remove(_) => {
                source.status = ReplicaStatus::Tombstone;
                one(ReplicaWriteOp::UpsertPlacement(source))
            },
            ReplicaMutation::Edit { object, body, meta, sort_key, .. } => {
                let rewritten = Self::rewrite(source, object, meta, sort_key);
                let mut ops = one(
                    ReplicaWriteOp::StoreObject {
                        object: object.clone(),
                        body: Some(body.copied()),
                    },
                );
                push(&mut ops, ReplicaWriteOp::UpsertPlacement(rewritten));
                assert(ops.deep_view() =~= source_writes(
                    self@.collection,
                    self@.mutation,
                    loaded,
                ));
                ops
            },
            ReplicaMutation::Copy { target, placeholder, .. } => {
                let create = Self::staged_copy(&source, target, placeholder);
                one(ReplicaWriteOp::UpsertPlacement(create))
            },
            ReplicaMutation::Move { target, placeholder, .. } => {
                // a move is staged twice over and whichever half reaches the
                // server first delivers; both carry the link id, so the
                // second recognises what the first did instead of delivering
                // a second copy
                let mut ops: Vec<ReplicaWriteOp> = Vec::new();
                if source.link_id.is_some() {
                    let create = Self::staged_copy(&source, target, placeholder);
                    push(&mut ops, ReplicaWriteOp::UpsertPlacement(create));
                }
                source.status = ReplicaStatus::Tombstone;
                source.origin = Some(
                    ReplicaOrigin { collection: target.clone(), handle: source.handle.clone() },
                );
                push(&mut ops, ReplicaWriteOp::UpsertPlacement(source));
                assert(ops.deep_view() =~= source_writes(
                    self@.collection,
                    self@.mutation,
                    loaded,
                ));
                ops
            },
            ReplicaMutation::Add { .. } => self.create_writes(),
        }
    }

    /// Repoints a placement at an edited body, settling a conflict it is in.
    ///
    /// Settling adopts the remote revision and its body together: the
    /// revision alone would leave the base claiming one its object was never
    /// the content of, and a resolution keeping the ancestor would read as
    /// nothing to push.
    fn rewrite(
        source: ReplicaPlacement,
        object: &ReplicaObject,
        meta: &Option<ReplicaMeta>,
        sort_key: &Option<ReplicaSortKey>,
    ) -> (r: ReplicaPlacement)
        ensures
            r@ == rewritten(source@, object@.hash, meta.deep_view(), sort_key.deep_view()),
    {
        let mut source = source;
        source.object = Some(object.hash.clone());
        source.level = ReplicaLevel::Full;
        if meta.is_some() {
            source.meta = meta.copied();
        }
        if let Some(sort_key) = sort_key {
            source.sort_key = sort_key.clone();
        }
        let resolving = source.status == ReplicaStatus::Conflict;
        if resolving {
            let flags = match &source.base {
                Some(base) => base.flags.clone(),
                None => source.flags.clone(),
            };
            let revision = source.conflict_revision.take();
            let object = source.conflict_object.take();
            source.base = Some(ReplicaBase { flags, revision, object });
        }
        let staged = match &source.base {
            Some(base) => !base.object.same(&source.object),
            None => true,
        };
        if source.status != ReplicaStatus::Created && (staged || resolving) {
            source.status = ReplicaStatus::Dirty;
        }
        source
    }

    /// The `Created` placement a copy or a move stages in its target,
    /// carrying the source as its [`ReplicaOrigin`] so the push is a
    /// server-side copy rather than a body upload.
    fn staged_copy(
        source: &ReplicaPlacement,
        target: &ReplicaCollectionId,
        placeholder: &ReplicaHandle,
    ) -> (r: ReplicaPlacement)
        ensures
            r@ == staged_copy(source@, target@, placeholder@),
    {
        let r = ReplicaPlacement {
            collection: target.clone(),
            handle: placeholder.clone(),
            link_id: source.link_id.copied(),
            object: source.object.copied(),
            level: source.level,
            meta: source.meta.copied(),
            sort_key: source.sort_key.clone(),
            flags: source.flags.clone(),
            status: ReplicaStatus::Created,
            conflict_revision: None,
            conflict_object: None,
            base: None,
            origin: Some(
                ReplicaOrigin {
                    collection: source.collection.clone(),
                    handle: source.handle.clone(),
                },
            ),
            ambiguous_handles: Vec::new(),
        };
        assert(r@ =~= staged_copy(source@, target@, placeholder@));
        r
    }

    /// Stages the writes for an [`Add`](ReplicaMutation::Add): a
    /// locally-authored `Created` placement with no base and no origin,
    /// so the next sync appends it rather than server-copying, plus its
    /// object.
    fn create_writes(&self) -> (r: Vec<ReplicaWriteOp>)
        ensures
            r.deep_view() == create_writes(self@.collection, self@.mutation),
    {
        match &self.mutation {
            ReplicaMutation::Add { handle, link_id, flags, object, body, meta, sort_key } => {
                let create = ReplicaPlacement {
                    collection: self.collection.clone(),
                    handle: handle.clone(),
                    link_id: Some(link_id.clone()),
                    object: Some(object.hash.clone()),
                    level: ReplicaLevel::Full,
                    meta: meta.copied(),
                    sort_key: sort_key.clone(),
                    flags: flags.clone(),
                    status: ReplicaStatus::Created,
                    conflict_revision: None,
                    conflict_object: None,
                    base: None,
                    origin: None,
                    ambiguous_handles: Vec::new(),
                };
                assert(create@.ambiguous_handles =~= Seq::<Text>::empty());
                let mut ops = one(
                    ReplicaWriteOp::StoreObject {
                        object: object.clone(),
                        body: Some(body.copied()),
                    },
                );
                push(&mut ops, ReplicaWriteOp::UpsertPlacement(create));
                assert(ops.deep_view() =~= create_writes(self@.collection, self@.mutation));
                ops
            },
            _ => {
                let ops: Vec<ReplicaWriteOp> = Vec::new();
                assert(ops.deep_view() =~= Seq::empty());
                ops
            },
        }
    }

    /// The writes a load leads to, or why there are none.
    fn stage(&self, placements: Vec<ReplicaPlacement>) -> (r: Result<
        Vec<ReplicaWriteOp>,
        ReplicaMutateError,
    >)
        ensures
            match r {
                Ok(ops) => outcome(self@, placements.deep_view()) == Ok::<
                    Seq<WriteOpView>,
                    MutateErrorView,
                >(ops.deep_view()),
                Err(error) => outcome(self@, placements.deep_view()) == Err::<
                    Seq<WriteOpView>,
                    MutateErrorView,
                >(error.deep_view()),
            },
    {
        if let ReplicaMutation::Add { link_id, .. } = &self.mutation {
            if is_taken(&placements, link_id) {
                return Err(ReplicaMutateError::LinkExists(link_id.0.clone()));
            }
            return Ok(self.create_writes());
        }
        match self.mutation.handle() {
            Some(handle) => match find(&placements, handle) {
                Some(source) => Ok(self.writes(source.clone())),
                None => Err(ReplicaMutateError::UnknownHandle(handle.0.clone())),
            },
            None => Ok(self.create_writes()),
        }
    }
}

/// Whether a live placement already holds `link_id`.
fn is_taken(placements: &Vec<ReplicaPlacement>, link_id: &ReplicaLinkId) -> (r: bool)
    ensures
        r == collides(placements.deep_view(), link_id@),
{
    let ghost all = placements.deep_view();
    let n = placements.len();
    let mut i: usize = 0;
    while i < n
        invariant
            n == placements@.len(),
            i <= n,
            all == placements.deep_view(),
            forall|j: int|
                0 <= j < i ==> (#[trigger] all[j]).status is Tombstone || all[j].link_id != Some(
                    link_id@,
                ),
        decreases n - i,
    {
        let placement = &placements[i];
        assert(all[i as int] == placement@);
        if placement.status != ReplicaStatus::Tombstone {
            if let Some(link) = &placement.link_id {
                if link.same(link_id) {
                    return true;
                }
            }
        }
        i += 1;
    }
    false
}

/// The first placement holding `handle`.
fn find<'a>(placements: &'a Vec<ReplicaPlacement>, handle: &ReplicaHandle) -> (r: Option<
    &'a ReplicaPlacement,
>)
    ensures
        match r {
            Some(placement) => first_with(placements.deep_view(), handle@) == Some(placement@),
            None => first_with(placements.deep_view(), handle@) is None,
        },
{
    let ghost all = placements.deep_view();
    let n = placements.len();
    let mut i: usize = 0;
    assert(all.skip(0) =~= all);
    while i < n
        invariant
            n == placements@.len(),
            i <= n,
            all == placements.deep_view(),
            first_with(all, handle@) == first_with(all.skip(i as int), handle@),
        decreases n - i,
    {
        let placement = &placements[i];
        proof {
            assert(all.skip(i as int).first() == placement@);
            assert(all.skip(i as int).drop_first() =~= all.skip(i + 1));
        }
        if placement.handle.same(handle) {
            return Some(placement);
        }
        i += 1;
    }
    None
}

impl ReplicaCoroutine for ReplicaMutate {
    type Yield = ReplicaYield;

    type Return = Result<(), ReplicaMutateError>;

    open spec fn wf(&self) -> bool {
        true
    }

    open spec fn rank(&self) -> (nat, nat) {
        mutate_rank(self@)
    }

    open spec fn steps(
        before: Self,
        arg: Option<ReplicaArg>,
        after: Self,
        out: ReplicaCoroutineState<ReplicaYield, Result<(), ReplicaMutateError>>,
    ) -> bool {
        (after@, step_view(out)) == mutate_step(before@, arg.deep_view())
    }

    fn resume(&mut self, arg: Option<ReplicaArg>) -> (r: ReplicaCoroutineState<
        ReplicaYield,
        Result<(), ReplicaMutateError>,
    >)
        ensures
            (final(self)@, step_view(r)) == mutate_step(old(self)@, arg.deep_view()),
    {
        match (self.phase, arg) {
            (MutatePhase::Start, None) => {
                self.phase = MutatePhase::PendingLoad;
                ReplicaCoroutineState::Yielded(
                    ReplicaYield::WantsLoad {
                        collection: self.collection.clone(),
                        scope: self.mutation.scope(),
                    },
                )
            },
            (MutatePhase::PendingLoad, Some(ReplicaArg::Load(loaded))) => {
                match self.stage(loaded.placements) {
                    Ok(ops) => {
                        self.phase = MutatePhase::PendingWrite;
                        ReplicaCoroutineState::Yielded(ReplicaYield::WantsWrite(ops))
                    },
                    Err(error) => ReplicaCoroutineState::Complete(Err(error)),
                }
            },
            (MutatePhase::PendingWrite, Some(ReplicaArg::Write)) => {
                // a completed coroutine stays completed: resuming one is a
                // driver bug, not an empty success
                self.phase = MutatePhase::Done;
                ReplicaCoroutineState::Complete(Ok(()))
            },
            (_, arg) => ReplicaCoroutineState::Complete(Err(ReplicaMutateError::Arg(refuse(&arg)))),
        }
    }
}

/// The reply a state waits for.
pub open spec fn mutate_awaits(phase: MutatePhase, arg: Option<ArgView>) -> bool {
    match phase {
        MutatePhase::Start => arg is None,
        MutatePhase::PendingLoad => arg matches Some(ArgView::Load(_)),
        MutatePhase::PendingWrite => arg matches Some(ArgView::Write),
        MutatePhase::Done => false,
    }
}

/// A driver that answers every yield with its kind of reply never breaks the
/// contract: the reply awaited is never refused, and every answer to what is
/// asked for next is one awaited.
pub proof fn lemma_mutate_answered(s: MutateView, arg: Option<ArgView>)
    requires
        mutate_awaits(s.phase, arg),
    ensures
        !(mutate_step(s, arg).1 matches StepView::Failed(MutateErrorView::Arg(_))),
        mutate_step(s, arg).1 matches StepView::Yielded(wanted) ==> forall|reply: ArgView|
            answers(wanted, reply) ==> #[trigger] mutate_awaits(
                mutate_step(s, arg).0.phase,
                Some(reply),
            ),
{
}

} // verus!
