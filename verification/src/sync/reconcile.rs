//! The three-way merge of one handle: what its placement, its base and the
//! remote state decide between them.
//!
//! A decision is a value: the writes to persist, at most one change to
//! push, what is held until that push is answered, and what the report
//! gains. Content is settled before flags, on the same placement, so both
//! land in one chain of writes.

use vstd::prelude::*;

use crate::change::{
    ChangeKindView, ReplicaChangeKind, ReplicaDropReason, ReplicaWriteOp, WriteOpView,
};
use crate::collection::ReplicaCollectionId;
use crate::object::ReplicaHash;
use crate::order::Text;
use crate::placement::{
    merged_flags, staged_edit, BaseView, FlagsView, PlacementView, ReplicaBase, ReplicaFlags,
    ReplicaHandle, ReplicaLevel, ReplicaLinkId, ReplicaPlacement, ReplicaSortKey, ReplicaStatus,
};
use crate::remote::{RemoteItemView, ReplicaRemoteItem};
use crate::sync::options::{
    EventView, ReplicaConflictPolicy, ReplicaDeletePolicy, ReplicaEvent, ReplicaSyncOptions,
};
use crate::sync::thaw::{settle_status, settled_status};
use crate::value::{append, one, push, ReplicaSame, ReplicaValue};

verus! {

/// One handle to merge: the placement holding it locally, the state the
/// remote reports for it, or both.
pub struct Candidate {
    pub handle: ReplicaHandle,
    pub local: Option<ReplicaPlacement>,
    pub remote: Option<ReplicaRemoteItem>,
}

/// What a [`Candidate`] stands for.
#[verifier::ext_equal]
pub struct CandidateView {
    pub handle: Text,
    pub local: Option<PlacementView>,
    pub remote: Option<RemoteItemView>,
}

impl View for Candidate {
    type V = CandidateView;

    open spec fn view(&self) -> CandidateView {
        CandidateView {
            handle: self.handle@,
            local: self.local.deep_view(),
            remote: self.remote.deep_view(),
        }
    }
}

impl DeepView for Candidate {
    type V = CandidateView;

    open spec fn deep_view(&self) -> CandidateView {
        self.view()
    }
}

/// What waits for the answer to the change a decision pushes.
pub enum Hold {
    /// No change was derived.
    Nothing,
    /// A flag push: the placement to rebase once the remote confirms.
    Flags(ReplicaPlacement),
    /// A content push: the placement whose base adopts the pushed body.
    Content(ReplicaPlacement),
    /// A delete: the placement is dropped only once the remote confirms.
    Drop,
    /// A create: the placement to rekey to the server-assigned handle.
    Create(ReplicaPlacement),
}

/// What a [`Hold`] stands for.
#[verifier::ext_equal]
pub enum HoldView {
    Nothing,
    Flags(PlacementView),
    Content(PlacementView),
    Drop,
    Create(PlacementView),
}

impl View for Hold {
    type V = HoldView;

    open spec fn view(&self) -> HoldView {
        match self {
            Hold::Nothing => HoldView::Nothing,
            Hold::Flags(placement) => HoldView::Flags(placement@),
            Hold::Content(placement) => HoldView::Content(placement@),
            Hold::Drop => HoldView::Drop,
            Hold::Create(placement) => HoldView::Create(placement@),
        }
    }
}

/// What merging one handle decided.
pub struct Decision {
    pub writes: Vec<ReplicaWriteOp>,
    pub change: Option<ReplicaChangeKind>,
    pub hold: Hold,
    pub events: Vec<ReplicaEvent>,
    pub pulled: usize,
    pub conflicts: usize,
    pub refreshed: usize,
}

/// What a [`Decision`] stands for.
#[verifier::ext_equal]
pub struct DecisionView {
    pub writes: Seq<WriteOpView>,
    pub change: Option<ChangeKindView>,
    pub hold: HoldView,
    pub events: Seq<EventView>,
    pub pulled: nat,
    pub conflicts: nat,
    pub refreshed: nat,
}

impl View for Decision {
    type V = DecisionView;

    open spec fn view(&self) -> DecisionView {
        DecisionView {
            writes: self.writes.deep_view(),
            change: self.change.deep_view(),
            hold: self.hold@,
            events: self.events.deep_view(),
            pulled: self.pulled as nat,
            conflicts: self.conflicts as nat,
            refreshed: self.refreshed as nat,
        }
    }
}

/// Nothing written, pushed or reported.
pub open spec fn nothing() -> DecisionView {
    DecisionView {
        writes: Seq::empty(),
        change: None,
        hold: HoldView::Nothing,
        events: Seq::empty(),
        pulled: 0,
        conflicts: 0,
        refreshed: 0,
    }
}

/// Some writes, and nothing else.
pub open spec fn writing(writes: Seq<WriteOpView>) -> DecisionView {
    DecisionView { writes, ..nothing() }
}

/// A change to push, and what is held until it is answered.
pub open spec fn pushing(change: ChangeKindView, hold: HoldView) -> DecisionView {
    DecisionView { change: Some(change), hold, ..nothing() }
}

/// A write pulled from the remote, and its event.
pub open spec fn pulling(write: WriteOpView, event: EventView) -> DecisionView {
    DecisionView { writes: seq![write], events: seq![event], pulled: 1, ..nothing() }
}

/// Whether the source takes flag pushes.
pub open spec fn pushes_flags(opts: ReplicaSyncOptions) -> bool {
    opts.push && opts.rights.flags
}

/// Whether the source takes content pushes.
pub open spec fn pushes_content(opts: ReplicaSyncOptions) -> bool {
    opts.push && opts.rights.content
}

/// Whether the source takes new members.
pub open spec fn pushes_adds(opts: ReplicaSyncOptions) -> bool {
    opts.push && opts.rights.add
}

/// Whether the source takes deletes.
pub open spec fn pushes_removes(opts: ReplicaSyncOptions) -> bool {
    opts.push && opts.rights.remove
}

/// The remote state a placement is based on, where it has a base.
pub open spec fn base_revision(local: PlacementView) -> Option<Text> {
    match local.base {
        Some(base) => base.revision,
        None => None,
    }
}

/// The body a placement is based on, where it has a base.
pub open spec fn base_object(local: PlacementView) -> Option<Text> {
    match local.base {
        Some(base) => base.object,
        None => None,
    }
}

/// Whether the remote reports a revision other than `known`.
pub open spec fn revised(item: RemoteItemView, known: Option<Text>) -> bool {
    item.revision is Some && item.revision != known
}

/// Whether a based placement points at a body its base does not hold.
pub open spec fn edited(local: PlacementView) -> bool {
    local.base is Some && local.object is Some && local.object != local.base->0.object
}

/// A member new to the replica: probed, clean, based on what the remote
/// reported.
pub open spec fn fresh(collection: Text, item: RemoteItemView) -> PlacementView {
    PlacementView {
        collection,
        handle: item.handle,
        link_id: None,
        object: None,
        level: ReplicaLevel::Probed,
        meta: None,
        sort_key: Seq::empty(),
        flags: item.flags,
        status: ReplicaStatus::Clean,
        conflict_revision: None,
        conflict_object: None,
        base: Some(BaseView { flags: item.flags, revision: item.revision, object: None }),
        origin: None,
        ambiguous_handles: Seq::empty(),
    }
}

/// A remote content change adopted: the stale body is dropped, the base
/// takes the new revision, and the level falls back to probed. The stale
/// summary stays as a display fallback.
pub open spec fn refreshed(local: PlacementView, item: RemoteItemView) -> PlacementView {
    PlacementView {
        object: None,
        level: ReplicaLevel::Probed,
        base: match local.base {
            Some(base) => Some(BaseView { revision: item.revision, object: None, ..base }),
            None => None,
        },
        ..local
    }
}

/// The status once the flag axis has converged: an unresolved content
/// conflict keeps its status, a staged edit stays pending, and everything
/// else lands clean.
pub open spec fn converged(local: PlacementView) -> ReplicaStatus {
    if local.status is Conflict {
        ReplicaStatus::Conflict
    } else if local.status is Dirty && edited(local) {
        ReplicaStatus::Dirty
    } else {
        ReplicaStatus::Clean
    }
}

/// The flag axis rebased onto `flags`.
pub open spec fn rebased(local: PlacementView, flags: FlagsView) -> PlacementView {
    PlacementView {
        status: converged(local),
        base: Some(
            BaseView { flags, revision: base_revision(local), object: base_object(local) },
        ),
        ..local
    }
}

/// `flags` adopted as both the current and the base flag set.
pub open spec fn adopting(local: PlacementView, flags: FlagsView) -> PlacementView {
    PlacementView { flags, ..rebased(local, flags) }
}

/// A placement marked conflicted, with the observed remote revision to
/// resolve against and its body wanted.
pub open spec fn conflicted(local: PlacementView, item: RemoteItemView) -> PlacementView {
    PlacementView {
        status: ReplicaStatus::Conflict,
        conflict_revision: item.revision,
        conflict_object: None,
        ..local
    }
}

/// A staged edit outliving the delete of its member: a pending create that
/// uploads the edited body.
pub open spec fn resurrected(local: PlacementView) -> PlacementView {
    PlacementView {
        status: ReplicaStatus::Created,
        conflict_revision: None,
        conflict_object: None,
        base: None,
        origin: None,
        ..local
    }
}

/// The local body of a conflict as a member of its own. Its identity is its
/// content, so no storage that shares items by link collapses the fork.
pub open spec fn forked(collection: Text, local: PlacementView) -> PlacementView {
    PlacementView {
        collection,
        handle: local.handle + "\u{1}"@ + local.object->0,
        link_id: Some("keepboth\u{1}"@ + local.object->0),
        object: local.object,
        level: ReplicaLevel::Full,
        meta: local.meta,
        sort_key: local.sort_key,
        flags: local.flags,
        status: ReplicaStatus::Created,
        conflict_revision: None,
        conflict_object: None,
        base: None,
        origin: None,
        ambiguous_handles: Seq::empty(),
    }
}

/// The create a pending member pushes.
pub open spec fn adding(handle: Text, local: PlacementView) -> ChangeKindView {
    ChangeKindView::Add {
        handle,
        link_id: local.link_id,
        flags: local.flags,
        origin: local.origin,
        object: local.object,
    }
}

/// A member pulled as new.
pub open spec fn pulled_add(collection: Text, handle: Text, item: RemoteItemView) -> DecisionView {
    pulling(WriteOpView::UpsertPlacement(fresh(collection, item)), EventView::Added(handle))
}

/// A local delete or move the source will not take: undone, what was pending
/// before it pending again, or held.
pub open spec fn refused_delete(opts: ReplicaSyncOptions, local: PlacementView) -> DecisionView {
    match opts.delete {
        ReplicaDeletePolicy::Revert => writing(
            seq![
                WriteOpView::UpsertPlacement(
                    PlacementView { status: settled_status(local), origin: None, ..local },
                ),
            ],
        ),
        ReplicaDeletePolicy::Keep => nothing(),
    }
}

/// A local delete or move of a member the remote still holds.
pub open spec fn deleting(
    opts: ReplicaSyncOptions,
    collection: Text,
    handle: Text,
    local: PlacementView,
    item: RemoteItemView,
) -> DecisionView {
    if revised(item, base_revision(local)) {
        // the remote edited what was deleted locally: the edit wins
        pulled_add(collection, handle, item)
    } else if staged_edit(local) is Some && local.origin is Some {
        // the edit rides ahead of the move, which must not go without it
        if pushes_content(opts) {
            pushing(
                ChangeKindView::Update {
                    handle,
                    object: local.object->0,
                    if_match: base_revision(local),
                },
                HoldView::Content(local),
            )
        } else {
            refused_delete(opts, local)
        }
    } else if pushes_removes(opts) {
        pushing(
            ChangeKindView::Remove {
                handle,
                to: match local.origin {
                    Some(origin) => Some(origin.collection),
                    None => None,
                },
                link_id: local.link_id,
                if_match: base_revision(local),
            },
            HoldView::Drop,
        )
    } else {
        refused_delete(opts, local)
    }
}

/// A synced member that vanished upstream. A staged edit survives it.
pub open spec fn vanishing(
    opts: ReplicaSyncOptions,
    collection: Text,
    handle: Text,
    local: PlacementView,
) -> DecisionView {
    if (local.status is Dirty || local.status is Conflict) && edited(local) {
        let writes = seq![WriteOpView::UpsertPlacement(resurrected(local))];
        if pushes_adds(opts) {
            DecisionView {
                writes,
                ..pushing(
                    adding(handle, resurrected(local)),
                    HoldView::Create(resurrected(local)),
                )
            }
        } else {
            writing(writes)
        }
    } else {
        pulling(
            WriteOpView::DropPlacement { collection, handle, reason: ReplicaDropReason::Deleted },
            EventView::Vanished(handle),
        )
    }
}

/// A member the remote has never seen: a pending create, or nothing.
pub open spec fn creating(
    opts: ReplicaSyncOptions,
    handle: Text,
    local: PlacementView,
) -> DecisionView {
    if pushes_adds(opts) && local.status is Created {
        pushing(adding(handle, local), HoldView::Create(local))
    } else {
        nothing()
    }
}

/// What the content axis decided, and the placement the flag axis goes on
/// with. A derived content push claims the handle, so the flag axis still
/// merges and writes but leaves its own push for the next sync.
#[verifier::ext_equal]
pub struct ContentView {
    pub decision: DecisionView,
    pub placement: PlacementView,
}

/// No content signal on either side.
pub open spec fn untouched(local: PlacementView) -> ContentView {
    ContentView { decision: nothing(), placement: local }
}

/// A content push of the staged body, conditioned on `if_match`.
pub open spec fn content_push(local: PlacementView, if_match: Option<Text>) -> ContentView {
    ContentView {
        decision: pushing(
            ChangeKindView::Update { handle: local.handle, object: local.object->0, if_match },
            HoldView::Content(local),
        ),
        placement: local,
    }
}

/// A conflict marked for the consumer to resolve.
pub open spec fn conflict_mark(local: PlacementView, item: RemoteItemView) -> ContentView {
    ContentView {
        decision: DecisionView {
            writes: seq![WriteOpView::UpsertPlacement(conflicted(local, item))],
            events: seq![EventView::Conflicted(local.handle)],
            conflicts: 1,
            ..nothing()
        },
        placement: conflicted(local, item),
    }
}

/// A remote content change pulled, after `before` is written.
pub open spec fn content_pull(
    before: Seq<WriteOpView>,
    local: PlacementView,
    item: RemoteItemView,
) -> ContentView {
    ContentView {
        decision: DecisionView {
            writes: before.push(WriteOpView::UpsertPlacement(refreshed(local, item))),
            events: seq![EventView::ContentChanged(local.handle)],
            refreshed: 1,
            ..nothing()
        },
        placement: refreshed(local, item),
    }
}

/// Both sides edited a based placement: the policy decides.
pub open spec fn resolving(
    opts: ReplicaSyncOptions,
    collection: Text,
    local: PlacementView,
    item: RemoteItemView,
) -> ContentView {
    match opts.conflict {
        ReplicaConflictPolicy::Manual => conflict_mark(local, item),
        ReplicaConflictPolicy::PreferRemote => content_pull(Seq::empty(), local, item),
        ReplicaConflictPolicy::PreferLocal => if pushes_content(opts) {
            // conditioned on the observed revision, not on the stale base
            content_push(local, item.revision)
        } else {
            conflict_mark(local, item)
        },
        ReplicaConflictPolicy::KeepBoth => content_pull(
            seq![WriteOpView::UpsertPlacement(forked(collection, local))],
            local,
            item,
        ),
    }
}

/// The content axis of a placement present on both sides.
///
/// Both sides are read by positive signals only: the local one changed when
/// a dirty placement points at a body its base does not hold, the remote one
/// when it reports a revision its base does not. An immutable-content
/// backend produces neither.
pub open spec fn reconciled_content(
    opts: ReplicaSyncOptions,
    collection: Text,
    local: PlacementView,
    item: RemoteItemView,
) -> ContentView {
    if local.base is None {
        // both sides minted content for one handle: no ancestor to merge with
        if local.object is Some && item.revision is Some {
            conflict_mark(local, item)
        } else {
            untouched(local)
        }
    } else if local.status is Conflict {
        if revised(item, local.conflict_revision) {
            let updated = PlacementView {
                conflict_revision: item.revision,
                conflict_object: None,
                ..local
            };
            ContentView {
                decision: writing(seq![WriteOpView::UpsertPlacement(updated)]),
                placement: updated,
            }
        } else {
            untouched(local)
        }
    } else {
        let ours = local.status is Dirty && edited(local);
        let theirs = revised(item, base_revision(local));
        if ours && theirs {
            resolving(opts, collection, local, item)
        } else if theirs {
            content_pull(Seq::empty(), local, item)
        } else if ours && pushes_content(opts) {
            content_push(local, base_revision(local))
        } else {
            untouched(local)
        }
    }
}

/// Whether the flag axis has nothing to decide: the remote did not report
/// its markers, and no flag edit is pending against a base.
pub open spec fn unheard(local: PlacementView, item: RemoteItemView) -> bool {
    item.flags is Unknown && (local.base is None || local.status is Clean)
}

/// The flags to merge with. A remote that has not reported its markers says
/// nothing of them, so the base stands for them.
pub open spec fn heard_flags(base: BaseView, item: RemoteItemView) -> FlagsView {
    if item.flags is Unknown {
        base.flags
    } else {
        item.flags
    }
}

/// The placement the flag axis leaves, whether it writes it or not.
pub open spec fn flags_left(local: PlacementView, item: RemoteItemView) -> PlacementView {
    if unheard(local, item) {
        local
    } else if local.base is None {
        adopting(local, item.flags)
    } else {
        let base = local.base->0;
        let heard = heard_flags(base, item);
        let flags = merged_flags(base.flags, local.flags, heard);
        if flags == local.flags && flags == heard {
            if local.flags != base.flags || (local.status is Dirty && !edited(local)) {
                rebased(local, flags)
            } else {
                local
            }
        } else if flags == heard {
            adopting(local, flags)
        } else {
            PlacementView { flags, ..local }
        }
    }
}

/// The flag axis of a placement present on both sides. `may_push` is whether
/// it may derive a push of its own.
pub open spec fn reconciled_flags(
    opts: ReplicaSyncOptions,
    local: PlacementView,
    item: RemoteItemView,
    may_push: bool,
) -> DecisionView {
    let event = EventView::FlagsChanged(local.handle);
    if unheard(local, item) {
        nothing()
    } else if local.base is None {
        // never based but present on both: converge on the remote
        pulling(WriteOpView::UpsertPlacement(adopting(local, item.flags)), event)
    } else {
        let base = local.base->0;
        let heard = heard_flags(base, item);
        let flags = merged_flags(base.flags, local.flags, heard);
        if flags == local.flags && flags == heard {
            if local.flags != base.flags || (local.status is Dirty && !edited(local)) {
                writing(seq![WriteOpView::UpsertPlacement(rebased(local, flags))])
            } else {
                nothing()
            }
        } else if flags == heard {
            pulling(WriteOpView::UpsertPlacement(adopting(local, flags)), event)
        } else {
            let updated = PlacementView { flags, ..local };
            let pull = if flags != local.flags {
                pulling(WriteOpView::UpsertPlacement(updated), event)
            } else {
                nothing()
            };
            if may_push && pushes_flags(opts) {
                DecisionView {
                    change: Some(ChangeKindView::SetFlags { handle: local.handle, flags }),
                    hold: HoldView::Flags(updated),
                    ..pull
                }
            } else {
                pull
            }
        }
    }
}

/// Two decisions on one handle, the second made after the first. Only one
/// of them pushes.
pub open spec fn followed_by(a: DecisionView, b: DecisionView) -> DecisionView {
    DecisionView {
        writes: a.writes + b.writes,
        change: if a.change is Some { a.change } else { b.change },
        hold: if a.change is Some { a.hold } else { b.hold },
        events: a.events + b.events,
        pulled: a.pulled + b.pulled,
        conflicts: a.conflicts + b.conflicts,
        refreshed: a.refreshed + b.refreshed,
    }
}

/// A placement present on both sides: content, then flags. A content push is
/// confirmed on the placement the flag axis left, so a flag pulled with it
/// stays.
pub open spec fn reconciled(
    opts: ReplicaSyncOptions,
    collection: Text,
    local: PlacementView,
    item: RemoteItemView,
) -> DecisionView {
    let content = reconciled_content(opts, collection, local, item);
    let pushed = content.decision.change is Some;
    let d = followed_by(
        content.decision,
        reconciled_flags(opts, content.placement, item, !pushed),
    );
    if pushed {
        DecisionView { hold: HoldView::Content(flags_left(content.placement, item)), ..d }
    } else {
        d
    }
}

/// The three-way merge of one candidate.
pub open spec fn merged(
    opts: ReplicaSyncOptions,
    collection: Text,
    candidate: CandidateView,
) -> DecisionView {
    let handle = candidate.handle;
    match (candidate.local, candidate.remote) {
        (None, None) => nothing(),
        (None, Some(item)) => pulled_add(collection, handle, item),
        (Some(local), remote) => match local.status {
            // which copy a change refers to cannot be decided
            ReplicaStatus::Ambiguous => nothing(),
            ReplicaStatus::Tombstone => match remote {
                Some(item) => if local.base is Some {
                    deleting(opts, collection, handle, local, item)
                } else {
                    pulled_add(collection, handle, item)
                },
                None => writing(
                    seq![
                        WriteOpView::DropPlacement {
                            collection,
                            handle,
                            reason: ReplicaDropReason::Deleted,
                        },
                    ],
                ),
            },
            _ => match remote {
                Some(item) => reconciled(opts, collection, local, item),
                None => if local.base is Some {
                    vanishing(opts, collection, handle, local)
                } else {
                    creating(opts, handle, local)
                },
            },
        },
    }
}

impl Decision {
    fn nothing() -> (r: Self)
        ensures
            r@ == nothing(),
    {
        let r = Decision {
            writes: Vec::new(),
            change: None,
            hold: Hold::Nothing,
            events: Vec::new(),
            pulled: 0,
            conflicts: 0,
            refreshed: 0,
        };
        assert(r@ =~= nothing());
        r
    }

    fn writing(write: ReplicaWriteOp) -> (r: Self)
        ensures
            r@ == writing(seq![write@]),
    {
        let mut r = Self::nothing();
        r.writes = one(write);
        r
    }

    fn pushing(change: ReplicaChangeKind, hold: Hold) -> (r: Self)
        ensures
            r@ == pushing(change@, hold@),
    {
        let mut r = Self::nothing();
        r.change = Some(change);
        r.hold = hold;
        r
    }

    fn pulling(write: ReplicaWriteOp, event: ReplicaEvent) -> (r: Self)
        ensures
            r@ == pulling(write@, event@),
    {
        let mut r = Self::nothing();
        r.writes = one(write);
        r.events = one(event);
        r.pulled = 1;
        r
    }

    /// Adds a decision made after this one.
    fn followed_by(self, next: Decision) -> (r: Self)
        requires
            self.pulled + next.pulled <= usize::MAX,
            self.conflicts + next.conflicts <= usize::MAX,
            self.refreshed + next.refreshed <= usize::MAX,
        ensures
            r@ == followed_by(self@, next@),
    {
        let pushed = self.change.is_some();
        let mut writes = self.writes;
        append(&mut writes, next.writes);
        let mut events = self.events;
        append(&mut events, next.events);
        Decision {
            writes,
            change: if pushed {
                self.change
            } else {
                next.change
            },
            hold: if pushed {
                self.hold
            } else {
                next.hold
            },
            events,
            pulled: self.pulled + next.pulled,
            conflicts: self.conflicts + next.conflicts,
            refreshed: self.refreshed + next.refreshed,
        }
    }
}

/// The revision a placement is based on.
fn revision_of(local: &ReplicaPlacement) -> (r: Option<String>)
    ensures
        r.deep_view() == base_revision(local@),
{
    match &local.base {
        Some(base) => base.revision.copied(),
        None => None,
    }
}

/// The body a placement is based on.
fn object_of(local: &ReplicaPlacement) -> (r: Option<ReplicaHash>)
    ensures
        r.deep_view() == base_object(local@),
{
    match &local.base {
        Some(base) => base.object.copied(),
        None => None,
    }
}

/// Whether the remote reports a revision other than `known`.
fn is_revised(item: &ReplicaRemoteItem, known: &Option<String>) -> (r: bool)
    ensures
        r == revised(item@, known.deep_view()),
{
    item.revision.is_some() && !item.revision.same(known)
}

/// Whether a based placement points at a body its base does not hold.
fn is_edited(local: &ReplicaPlacement) -> (r: bool)
    ensures
        r == edited(local@),
{
    match &local.base {
        Some(base) => local.object.is_some() && !local.object.same(&base.object),
        None => false,
    }
}

/// The placement of a member brand new upstream.
fn pull_add(collection: &ReplicaCollectionId, item: &ReplicaRemoteItem) -> (r: ReplicaPlacement)
    ensures
        r@ == fresh(collection@, item@),
{
    let r = ReplicaPlacement {
        collection: collection.clone(),
        handle: item.handle.clone(),
        link_id: None,
        object: None,
        level: ReplicaLevel::Probed,
        meta: None,
        sort_key: ReplicaSortKey::default(),
        flags: item.flags.clone(),
        status: ReplicaStatus::Clean,
        conflict_revision: None,
        conflict_object: None,
        base: Some(
            ReplicaBase {
                flags: item.flags.clone(),
                revision: item.revision.copied(),
                object: None,
            },
        ),
        origin: None,
        ambiguous_handles: Vec::new(),
    };
    assert(r@ =~= fresh(collection@, item@));
    r
}

/// Pulls a member brand new upstream, reporting it.
fn pull_new(
    collection: &ReplicaCollectionId,
    handle: &ReplicaHandle,
    item: &ReplicaRemoteItem,
) -> (r: Decision)
    ensures
        r@ == pulled_add(collection@, handle@, item@),
{
    Decision::pulling(
        ReplicaWriteOp::UpsertPlacement(pull_add(collection, item)),
        ReplicaEvent::Added(handle.clone()),
    )
}

/// Adopts a remote content change: the stale local body is dropped and the
/// base adopts the new revision. The level falls back to probed, keeping the
/// stale summary as a display fallback until a meta upgrade refetches it.
/// Flags and status are left for the flag axis to settle.
fn pull_content(local: &ReplicaPlacement, item: &ReplicaRemoteItem) -> (r: ReplicaPlacement)
    ensures
        r@ == refreshed(local@, item@),
{
    let mut updated = local.clone();
    updated.object = None;
    updated.level = ReplicaLevel::Probed;
    updated.base = match &local.base {
        Some(base) => Some(
            ReplicaBase {
                flags: base.flags.clone(),
                revision: item.revision.copied(),
                object: None,
            },
        ),
        None => None,
    };
    updated
}

/// Rebases the flag axis onto `flags`, keeping the current flag set. An
/// unresolved content conflict keeps its status, since resolving it belongs
/// to an edit; a staged edit stays dirty, since only a content push settles
/// it; everything else lands clean.
pub(crate) fn rebase(local: &ReplicaPlacement, flags: &ReplicaFlags) -> (r: ReplicaPlacement)
    ensures
        r@ == rebased(local@, flags@),
{
    let mut updated = local.clone();
    let pending = local.status == ReplicaStatus::Conflict || (local.status
        == ReplicaStatus::Dirty && is_edited(local));
    if !pending {
        updated.status = ReplicaStatus::Clean;
    }
    updated.base = Some(
        ReplicaBase {
            flags: flags.clone(),
            revision: revision_of(local),
            object: object_of(local),
        },
    );
    updated
}

/// Adopts `flags` as both the current and the base flag set.
fn pull_flags(local: &ReplicaPlacement, flags: &ReplicaFlags) -> (r: ReplicaPlacement)
    ensures
        r@ == adopting(local@, flags@),
{
    let mut updated = rebase(local, flags);
    updated.flags = flags.clone();
    updated
}

/// Marks a placement conflicted, carrying the observed remote revision for
/// the consumer to resolve against.
///
/// The diverging body is marked wanted rather than taken: a conflict holding
/// no conflict object is the request.
fn mark_conflict(local: &ReplicaPlacement, item: &ReplicaRemoteItem) -> (r: (
    Decision,
    ReplicaPlacement,
))
    ensures
        r.0@ == conflict_mark(local@, item@).decision,
        r.1@ == conflict_mark(local@, item@).placement,
{
    let mut marked = local.clone();
    marked.status = ReplicaStatus::Conflict;
    marked.conflict_revision = item.revision.copied();
    marked.conflict_object = None;
    let mut decision = Decision::writing(ReplicaWriteOp::UpsertPlacement(marked.clone()));
    decision.events = one(ReplicaEvent::Conflicted(local.handle.clone()));
    decision.conflicts = 1;
    (decision, marked)
}

/// Stages the local body as a fresh `Created` member so a `KeepBoth`
/// resolution loses neither version; the next sync appends it.
///
/// The duplicate is a new item, not another copy of the one it forked from:
/// giving it the link id of that one would have a storage that shares items
/// by link collapse the fork back. Its identity is therefore its content,
/// which also makes the handle and the add's idempotency key unique per
/// forked body.
fn stage_conflict_dup(collection: &ReplicaCollectionId, local: &ReplicaPlacement) -> (r:
    ReplicaPlacement)
    requires
        local.object is Some,
    ensures
        r@ == forked(collection@, local@),
{
    let object = local.object.as_ref().unwrap();
    let mut handle = local.handle.0.clone();
    handle.append("\u{1}");
    handle.append(object.as_str());
    let mut link = "keepboth\u{1}".to_owned();
    link.append(object.as_str());
    let r = ReplicaPlacement {
        collection: collection.clone(),
        handle: ReplicaHandle(handle),
        link_id: Some(ReplicaLinkId(link)),
        object: Some(object.clone()),
        level: ReplicaLevel::Full,
        meta: local.meta.copied(),
        sort_key: local.sort_key.clone(),
        flags: local.flags.clone(),
        status: ReplicaStatus::Created,
        conflict_revision: None,
        conflict_object: None,
        base: None,
        origin: None,
        ambiguous_handles: Vec::new(),
    };
    assert(r@ =~= forked(collection@, local@));
    r
}

/// Pushes the staged body, conditioned on `if_match`.
fn push_content(local: &ReplicaPlacement, if_match: Option<String>) -> (r: (
    Decision,
    ReplicaPlacement,
))
    requires
        local.object is Some,
    ensures
        r.0@ == content_push(local@, if_match.deep_view()).decision,
        r.1@ == content_push(local@, if_match.deep_view()).placement,
{
    let object = local.object.as_ref().unwrap().clone();
    let change = ReplicaChangeKind::Update { handle: local.handle.clone(), object, if_match };
    (Decision::pushing(change, Hold::Content(local.clone())), local.clone())
}

/// Pulls a remote content change, reporting it.
fn refresh(before: Option<ReplicaWriteOp>, local: &ReplicaPlacement, item: &ReplicaRemoteItem) -> (
r: (Decision, ReplicaPlacement))
    ensures
        ({
            let writes = match before {
                Some(write) => seq![write@],
                None => Seq::empty(),
            };
            &&& r.0@ == content_pull(writes, local@, item@).decision
            &&& r.1@ == content_pull(writes, local@, item@).placement
        }),
{
    let ghost writes = match &before {
        Some(write) => seq![write@],
        None => Seq::empty(),
    };
    let updated = pull_content(local, item);
    let mut decision = Decision::nothing();
    if let Some(write) = before {
        push(&mut decision.writes, write);
    }
    push(&mut decision.writes, ReplicaWriteOp::UpsertPlacement(updated.clone()));
    decision.events = one(ReplicaEvent::ContentChanged(local.handle.clone()));
    decision.refreshed = 1;
    assert(decision@ =~= content_pull(writes, local@, item@).decision);
    (decision, updated)
}

/// Resolves a content conflict (both sides edited a based placement) by the
/// configured [`ReplicaConflictPolicy`].
fn resolve_conflict(
    opts: &ReplicaSyncOptions,
    collection: &ReplicaCollectionId,
    local: &ReplicaPlacement,
    item: &ReplicaRemoteItem,
) -> (r: (Decision, ReplicaPlacement))
    requires
        local.object is Some,
    ensures
        r.0@ == resolving(*opts, collection@, local@, item@).decision,
        r.1@ == resolving(*opts, collection@, local@, item@).placement,
{
    match opts.conflict {
        ReplicaConflictPolicy::Manual => mark_conflict(local, item),
        ReplicaConflictPolicy::PreferRemote => refresh(None, local, item),
        ReplicaConflictPolicy::PreferLocal => {
            if opts.push && opts.rights.content {
                push_content(local, item.revision.copied())
            } else {
                mark_conflict(local, item)
            }
        },
        ReplicaConflictPolicy::KeepBoth => {
            let dup = stage_conflict_dup(collection, local);
            refresh(Some(ReplicaWriteOp::UpsertPlacement(dup)), local, item)
        },
    }
}

/// Reconciles the content of a placement present on both sides, ahead of the
/// flag reconciliation.
fn reconcile_content(
    opts: &ReplicaSyncOptions,
    collection: &ReplicaCollectionId,
    local: &ReplicaPlacement,
    item: &ReplicaRemoteItem,
) -> (r: (Decision, ReplicaPlacement))
    ensures
        r.0@ == reconciled_content(*opts, collection@, local@, item@).decision,
        r.1@ == reconciled_content(*opts, collection@, local@, item@).placement,
{
    if local.base.is_none() {
        if local.object.is_some() && item.revision.is_some() {
            return mark_conflict(local, item);
        }
        return (Decision::nothing(), local.clone());
    }
    if local.status == ReplicaStatus::Conflict {
        // an unresolved conflict is left alone so the local edit survives,
        // but the observed remote revision is kept current
        if is_revised(item, &local.conflict_revision) {
            let mut updated = local.clone();
            updated.conflict_revision = item.revision.copied();
            updated.conflict_object = None;
            let write = ReplicaWriteOp::UpsertPlacement(updated.clone());
            return (Decision::writing(write), updated);
        }
        return (Decision::nothing(), local.clone());
    }
    let ours = local.status == ReplicaStatus::Dirty && is_edited(local);
    let revision = revision_of(local);
    let theirs = is_revised(item, &revision);
    if ours && theirs {
        resolve_conflict(opts, collection, local, item)
    } else if theirs {
        refresh(None, local, item)
    } else if ours && opts.push && opts.rights.content {
        push_content(local, revision)
    } else {
        (Decision::nothing(), local.clone())
    }
}

/// Reconciles the flag sets of a placement present on both sides, pushing
/// when the local side won any flag and `may_push` holds.
///
/// Flags merge element-wise ([`ReplicaFlags::merge`]) and never conflict:
/// divergent sets fold into one merged set both sides converge on, pulling
/// the remote-won flags and pushing the local-won ones. A remote that has
/// not reported its markers holds no opinion: its base stands for them while
/// something is pending, and nothing is decided otherwise. The placement
/// left comes along, for a content push to be confirmed on.
fn reconcile_flags(
    opts: &ReplicaSyncOptions,
    local: &ReplicaPlacement,
    item: &ReplicaRemoteItem,
    may_push: bool,
) -> (r: (Decision, ReplicaPlacement))
    ensures
        r.0@ == reconciled_flags(*opts, local@, item@, may_push),
        r.1@ == flags_left(local@, item@),
{
    let event = ReplicaEvent::FlagsChanged(local.handle.clone());
    let unknown = matches!(item.flags, ReplicaFlags::Unknown);
    if unknown && (local.base.is_none() || local.status == ReplicaStatus::Clean) {
        return (Decision::nothing(), local.clone());
    }
    let base = match &local.base {
        Some(base) => base,
        None => {
            let updated = pull_flags(local, &item.flags);
            let write = ReplicaWriteOp::UpsertPlacement(updated.clone());
            return (Decision::pulling(write, event), updated);
        },
    };
    let heard = if unknown {
        &base.flags
    } else {
        &item.flags
    };
    let flags = ReplicaFlags::merge(&base.flags, &local.flags, heard);
    let pull = !flags.same(&local.flags);
    let push = !flags.same(heard);
    if !pull && !push {
        // an edit restating the base is a no-op to clean; a staged content
        // edit is not one and stays dirty
        if !local.flags.same(&base.flags) || (local.status == ReplicaStatus::Dirty && !is_edited(
            local,
        )) {
            let updated = rebase(local, &flags);
            let write = ReplicaWriteOp::UpsertPlacement(updated.clone());
            return (Decision::writing(write), updated);
        }
        return (Decision::nothing(), local.clone());
    }
    if !push {
        let updated = pull_flags(local, &flags);
        let write = ReplicaWriteOp::UpsertPlacement(updated.clone());
        return (Decision::pulling(write, event), updated);
    }
    // the local side won at least one flag; remote-won ones are folded in
    // right away, on the old base, so a push that does not land derives
    // the same merge next time
    let mut updated = local.clone();
    updated.flags = flags.clone();
    let mut decision = if pull {
        Decision::pulling(ReplicaWriteOp::UpsertPlacement(updated.clone()), event)
    } else {
        Decision::nothing()
    };
    if may_push && opts.push && opts.rights.flags {
        decision.change =
        Some(ReplicaChangeKind::SetFlags { handle: local.handle.clone(), flags });
        decision.hold = Hold::Flags(updated.clone());
    }
    (decision, updated)
}

/// Settles a local delete this source will not take, by
/// [`ReplicaDeletePolicy`]. Pushes nothing either way.
fn refuse_delete(opts: &ReplicaSyncOptions, local: ReplicaPlacement) -> (r: Decision)
    ensures
        r@ == refused_delete(*opts, local@),
{
    match opts.delete {
        ReplicaDeletePolicy::Revert => {
            let mut reverted = local;
            reverted.status = settle_status(&reverted);
            reverted.origin = None;
            Decision::writing(ReplicaWriteOp::UpsertPlacement(reverted))
        },
        ReplicaDeletePolicy::Keep => Decision::nothing(),
    }
}

/// Merges a tombstone with the member the remote still holds.
fn merge_delete(
    opts: &ReplicaSyncOptions,
    collection: &ReplicaCollectionId,
    handle: ReplicaHandle,
    local: ReplicaPlacement,
    item: &ReplicaRemoteItem,
) -> (r: Decision)
    ensures
        r@ == deleting(*opts, collection@, handle@, local@, item@),
{
    let revision = revision_of(&local);
    if is_revised(item, &revision) {
        return pull_new(collection, &handle, item);
    }
    if local.staged_edit().is_some() && local.origin.is_some() {
        if !(opts.push && opts.rights.content) {
            return refuse_delete(opts, local);
        }
        let object = local.object.as_ref().unwrap().clone();
        let change = ReplicaChangeKind::Update { handle, object, if_match: revision };
        return Decision::pushing(change, Hold::Content(local));
    }
    if !(opts.push && opts.rights.remove) {
        return refuse_delete(opts, local);
    }
    let to = match &local.origin {
        Some(origin) => Some(origin.collection.clone()),
        None => None,
    };
    Decision::pushing(
        ReplicaChangeKind::Remove { handle, to, link_id: local.link_id, if_match: revision },
        Hold::Drop,
    )
}

/// Merges a synced placement with its absence upstream.
fn merge_vanished(
    opts: &ReplicaSyncOptions,
    collection: &ReplicaCollectionId,
    handle: ReplicaHandle,
    local: ReplicaPlacement,
) -> (r: Decision)
    ensures
        r@ == vanishing(*opts, collection@, handle@, local@),
{
    let pending = local.status == ReplicaStatus::Dirty || local.status == ReplicaStatus::Conflict;
    if pending && is_edited(&local) {
        let mut kept = local;
        kept.status = ReplicaStatus::Created;
        kept.conflict_revision = None;
        kept.conflict_object = None;
        kept.base = None;
        kept.origin = None;
        let mut decision = Decision::writing(ReplicaWriteOp::UpsertPlacement(kept.clone()));
        if opts.push && opts.rights.add {
            decision.change = Some(add_change(handle, &kept));
            decision.hold = Hold::Create(kept);
        }
        return decision;
    }
    Decision::pulling(
        ReplicaWriteOp::DropPlacement {
            collection: collection.clone(),
            handle: handle.clone(),
            reason: ReplicaDropReason::Deleted,
        },
        ReplicaEvent::Vanished(handle),
    )
}

/// The create a pending member pushes.
fn add_change(handle: ReplicaHandle, local: &ReplicaPlacement) -> (r: ReplicaChangeKind)
    ensures
        r@ == adding(handle@, local@),
{
    ReplicaChangeKind::Add {
        handle,
        link_id: local.link_id.copied(),
        flags: local.flags.clone(),
        origin: local.origin.copied(),
        object: local.object.copied(),
    }
}

/// Merges a placement present on both sides: content first, then flags on
/// the placement the content axis left, so both changes land in one chain of
/// writes.
fn merge_present(
    opts: &ReplicaSyncOptions,
    collection: &ReplicaCollectionId,
    local: &ReplicaPlacement,
    item: &ReplicaRemoteItem,
) -> (r: Decision)
    ensures
        r@ == reconciled(*opts, collection@, local@, item@),
{
    let (content, placement) = reconcile_content(opts, collection, local, item);
    let pushed = content.change.is_some();
    let (flags, left) = reconcile_flags(opts, &placement, item, !pushed);
    let mut decision = content.followed_by(flags);
    if pushed {
        decision.hold = Hold::Content(left);
    }
    decision
}

/// Three-way merges one candidate.
pub fn merge(
    opts: &ReplicaSyncOptions,
    collection: &ReplicaCollectionId,
    candidate: Candidate,
) -> (r: Decision)
    ensures
        r@ == merged(*opts, collection@, candidate@),
{
    let Candidate { handle, local, remote } = candidate;
    let local = match local {
        Some(local) => local,
        None => {
            return match &remote {
                Some(item) => pull_new(collection, &handle, item),
                None => Decision::nothing(),
            };
        },
    };
    match local.status {
        ReplicaStatus::Ambiguous => Decision::nothing(),
        ReplicaStatus::Tombstone => match &remote {
            Some(item) => {
                if local.base.is_some() {
                    merge_delete(opts, collection, handle, local, item)
                } else {
                    pull_new(collection, &handle, item)
                }
            },
            None => Decision::writing(
                ReplicaWriteOp::DropPlacement {
                    collection: collection.clone(),
                    handle,
                    reason: ReplicaDropReason::Deleted,
                },
            ),
        },
        _ => match &remote {
            Some(item) => merge_present(opts, collection, &local, item),
            None => {
                if local.base.is_some() {
                    merge_vanished(opts, collection, handle, local)
                } else if opts.push && opts.rights.add && local.status == ReplicaStatus::Created {
                    let change = add_change(handle, &local);
                    Decision::pushing(change, Hold::Create(local))
                } else {
                    Decision::nothing()
                }
            },
        },
    }
}

} // verus!
