//! What a sync may do and what it reports: the push switches, the
//! conflict and delete policies, the events and the counters.

use vstd::prelude::*;

use crate::order::Text;
use crate::placement::ReplicaHandle;
use crate::value::ReplicaValue;

verus! {

/// Which push kinds a writable source may derive, refining
/// [`ReplicaSyncOptions::push`].
///
/// Each kind is independent, so a source can accept flag changes but
/// refuse deletes. All permitted by default, and only consulted when
/// [`ReplicaSyncOptions::push`] is true: a false `push` is read-only
/// regardless.
#[derive(Clone, Copy, Debug, Eq, PartialEq, Structural)]
pub struct ReplicaPushRights {
    /// May push a flag-set change.
    pub flags: bool,
    /// May push an in-place content update.
    pub content: bool,
    /// May push a membership add (a create: copy, move target or append).
    pub add: bool,
    /// May push a membership remove (a delete or move source).
    pub remove: bool,
}

impl ReplicaPushRights {
    /// Every push kind permitted (the default).
    pub fn all() -> (r: Self)
        ensures
            r == all_rights(),
    {
        ReplicaPushRights { flags: true, content: true, add: true, remove: true }
    }

    /// No push kind permitted.
    pub fn none() -> (r: Self)
        ensures
            r == (ReplicaPushRights { flags: false, content: false, add: false, remove: false }),
    {
        ReplicaPushRights { flags: false, content: false, add: false, remove: false }
    }
}

/// Every push kind permitted.
pub open spec fn all_rights() -> ReplicaPushRights {
    ReplicaPushRights { flags: true, content: true, add: true, remove: true }
}

impl Default for ReplicaPushRights {
    fn default() -> (r: Self)
        ensures
            r == all_rights(),
    {
        Self::all()
    }
}

/// How a sync resolves a content conflict, content diverged on both
/// sides against a shared base.
///
/// Only mutable-content backends can conflict: immutable content
/// reports no revision, so the merge never sees a divergence. An
/// interactive consumer leaves this `Manual` and resolves with an edit.
/// A base-less create-collision, where both sides minted content for
/// one handle with no shared ancestor, is always kept as a conflict:
/// there is no three-way merge to automate.
#[derive(Clone, Copy, Debug, Eq, PartialEq, Structural)]
pub enum ReplicaConflictPolicy {
    /// Mark the placement conflicted and leave it for the consumer to resolve
    /// with an edit (the interactive default).
    Manual,
    /// Keep the local edit, overwriting the remote's current version.
    PreferLocal,
    /// Keep the remote edit, dropping the local one and pulling the remote.
    PreferRemote,
    /// Keep both: pull the remote into the placement and stage the local body
    /// as a new member (a create the next sync appends), so neither is lost.
    KeepBoth,
}

impl Default for ReplicaConflictPolicy {
    fn default() -> (r: Self)
        ensures
            r == ReplicaConflictPolicy::Manual,
    {
        ReplicaConflictPolicy::Manual
    }
}

/// What becomes of a local delete the source will not take.
///
/// Deletion is the one axis where the push switches are not orthogonal:
/// a forbidden flag or content change stays dirty and re-derives, but a
/// forbidden delete has to be either undone or held, and holding it
/// hides a member the source still holds. Which one is right is the
/// consumer's call.
#[derive(Clone, Copy, Debug, Eq, PartialEq, Structural)]
pub enum ReplicaDeletePolicy {
    /// Undo it: the replica mirrors the source, so the member comes
    /// back with whatever it had cached. The default, and the right
    /// reading for a source the replica does not own: an incremental
    /// enumeration never lists an untouched member again, so a held
    /// tombstone hides that member for good.
    Revert,
    /// Hold it: the tombstone stays pending, so a later run that may
    /// push still delivers it. The right reading when the refusal is a
    /// policy that may lift, at the cost of a local view that hides the
    /// member meanwhile.
    ///
    /// **A source bound to a [hub](crate::hub) wants this one.**
    /// Reverting says the source still holds the member, which a hub
    /// reads as the item being alive (add beats delete across sources):
    /// it clears the deletion everywhere, then mirrors the item back to
    /// the source it was deleted on.
    Keep,
}

impl Default for ReplicaDeletePolicy {
    fn default() -> (r: Self)
        ensures
            r == ReplicaDeletePolicy::Revert,
    {
        ReplicaDeletePolicy::Revert
    }
}

/// Tuning for one sync run: the push direction and the enumerate depth.
#[derive(Clone, Copy, Debug, Eq, PartialEq, Structural)]
pub struct ReplicaSyncOptions {
    /// The master push switch. When false the source is read-only:
    /// local flag and content changes stay dirty, and a local delete
    /// follows `delete`.
    pub push: bool,
    /// Per-kind refinement of `push`, consulted only when `push` is
    /// true. A forbidden kind stays pending while the others still
    /// propagate; a forbidden delete follows `delete`.
    pub rights: ReplicaPushRights,
    /// What becomes of a local delete this source will not take,
    /// whether because `push` is false or because `rights` forbids the
    /// remove.
    pub delete: ReplicaDeletePolicy,
    /// How a content conflict is resolved. Defaults to `Manual`.
    pub conflict: ReplicaConflictPolicy,
    /// When true the checkpoint is ignored and the whole remote is
    /// enumerated, so the merge reconciles the complete spine: it
    /// re-adds any locally-missing member and drops any local phantom.
    /// The recovery path for a replica that drifted out of sync.
    pub full: bool,
}

impl Default for ReplicaSyncOptions {
    fn default() -> (r: Self)
        ensures
            r == (ReplicaSyncOptions {
                push: true,
                rights: all_rights(),
                delete: ReplicaDeletePolicy::Revert,
                conflict: ReplicaConflictPolicy::Manual,
                full: false,
            }),
    {
        ReplicaSyncOptions {
            push: true,
            rights: ReplicaPushRights::all(),
            delete: ReplicaDeletePolicy::Revert,
            conflict: ReplicaConflictPolicy::Manual,
            full: false,
        }
    }
}

/// A per-item outcome of a sync, for hooks and richer reporting.
///
/// Emitted in order as the merge and the push confirmation touch each
/// handle; the counters on [`ReplicaSyncReport`] summarise them. Events
/// are spine level (a handle, no body), so emitting them enters no I/O.
#[derive(Debug, Eq, PartialEq)]
pub enum ReplicaEvent {
    /// A new member appeared locally, pulled from the remote.
    Added(ReplicaHandle),
    /// A placement's flag set changed (pulled from, or pushed to, the remote).
    FlagsChanged(ReplicaHandle),
    /// A placement's content changed: a stale body dropped for an on-demand
    /// refetch (pull), or a local edit the remote confirmed (push).
    ContentChanged(ReplicaHandle),
    /// A member was removed: dropped after a remote delete, or a local delete
    /// the remote confirmed.
    Vanished(ReplicaHandle),
    /// A placement's content diverged on both sides and is left conflicted.
    Conflicted(ReplicaHandle),
    /// A local create (copy, move target or append) the remote accepted.
    Created(ReplicaHandle),
}

/// What a [`ReplicaEvent`] stands for.
#[verifier::ext_equal]
pub enum EventView {
    Added(Text),
    FlagsChanged(Text),
    ContentChanged(Text),
    Vanished(Text),
    Conflicted(Text),
    Created(Text),
}

impl View for ReplicaEvent {
    type V = EventView;

    open spec fn view(&self) -> EventView {
        match self {
            ReplicaEvent::Added(handle) => EventView::Added(handle@),
            ReplicaEvent::FlagsChanged(handle) => EventView::FlagsChanged(handle@),
            ReplicaEvent::ContentChanged(handle) => EventView::ContentChanged(handle@),
            ReplicaEvent::Vanished(handle) => EventView::Vanished(handle@),
            ReplicaEvent::Conflicted(handle) => EventView::Conflicted(handle@),
            ReplicaEvent::Created(handle) => EventView::Created(handle@),
        }
    }
}

impl DeepView for ReplicaEvent {
    type V = EventView;

    open spec fn deep_view(&self) -> EventView {
        self.view()
    }
}

impl Clone for ReplicaEvent {
    fn clone(&self) -> (r: Self)
        ensures
            r@ == self@,
    {
        match self {
            ReplicaEvent::Added(handle) => ReplicaEvent::Added(handle.clone()),
            ReplicaEvent::FlagsChanged(handle) => ReplicaEvent::FlagsChanged(handle.clone()),
            ReplicaEvent::ContentChanged(handle) => ReplicaEvent::ContentChanged(handle.clone()),
            ReplicaEvent::Vanished(handle) => ReplicaEvent::Vanished(handle.clone()),
            ReplicaEvent::Conflicted(handle) => ReplicaEvent::Conflicted(handle.clone()),
            ReplicaEvent::Created(handle) => ReplicaEvent::Created(handle.clone()),
        }
    }
}

impl ReplicaValue for ReplicaEvent {
    fn copied(&self) -> (r: Self) {
        self.clone()
    }
}

/// What a sync did.
#[derive(Debug, Eq, PartialEq)]
pub struct ReplicaSyncReport {
    /// Placements changed by pulling the remote.
    pub pulled: usize,
    /// Changes the remote accepted.
    pub pushed: usize,
    /// Placements left in conflict (content diverged on both sides).
    pub conflicts: usize,
    /// Pushes the remote rejected on optimistic concurrency, counted up to
    /// the largest count there is.
    pub rejected: usize,
    /// Placements whose stale body was dropped after a remote content
    /// change; an upgrade refetches them on demand.
    pub refreshed: usize,
    /// The per-item events this sync emitted, in order.
    pub events: Vec<ReplicaEvent>,
}

/// What a [`ReplicaSyncReport`] stands for.
#[verifier::ext_equal]
pub struct SyncReportView {
    pub pulled: nat,
    pub pushed: nat,
    pub conflicts: nat,
    pub rejected: nat,
    pub refreshed: nat,
    pub events: Seq<EventView>,
}

impl View for ReplicaSyncReport {
    type V = SyncReportView;

    open spec fn view(&self) -> SyncReportView {
        SyncReportView {
            pulled: self.pulled as nat,
            pushed: self.pushed as nat,
            conflicts: self.conflicts as nat,
            rejected: self.rejected as nat,
            refreshed: self.refreshed as nat,
            events: self.events.deep_view(),
        }
    }
}

impl DeepView for ReplicaSyncReport {
    type V = SyncReportView;

    open spec fn deep_view(&self) -> SyncReportView {
        self.view()
    }
}

/// A report of nothing done.
pub open spec fn empty_report() -> SyncReportView {
    SyncReportView {
        pulled: 0,
        pushed: 0,
        conflicts: 0,
        rejected: 0,
        refreshed: 0,
        events: Seq::empty(),
    }
}

impl Clone for ReplicaSyncReport {
    fn clone(&self) -> (r: Self)
        ensures
            r@ == self@,
    {
        ReplicaSyncReport {
            pulled: self.pulled,
            pushed: self.pushed,
            conflicts: self.conflicts,
            rejected: self.rejected,
            refreshed: self.refreshed,
            events: self.events.copied(),
        }
    }
}

impl Default for ReplicaSyncReport {
    fn default() -> (r: Self)
        ensures
            r@ == empty_report(),
    {
        let r = ReplicaSyncReport {
            pulled: 0,
            pushed: 0,
            conflicts: 0,
            rejected: 0,
            refreshed: 0,
            events: Vec::new(),
        };
        assert(r@.events =~= Seq::<EventView>::empty());
        r
    }
}

} // verus!
