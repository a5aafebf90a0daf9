//! What a sync makes of one handle, case by case, told from what the two
//! sides and the base hold.

use vstd::prelude::*;

use crate::change::{ChangeKindView, ReplicaDropReason, WriteOpView};
use crate::laws::flags::an_unchanged_set_stays;
use crate::laws::merging::is_paired;
use crate::order::Text;
use crate::placement::{BaseView, FlagsView, PlacementView, ReplicaStatus};
use crate::remote::RemoteItemView;
use crate::sync::options::{
    EventView, ReplicaConflictPolicy, ReplicaDeletePolicy, ReplicaSyncOptions,
};
use crate::sync::reconcile::{merged, CandidateView, DecisionView, HoldView};

verus! {

/// Whether a synced row points at a body other than the one last synced.
pub open spec fn stages_body(p: PlacementView) -> bool {
    p.object is Some && p.base is Some && p.object != p.base->0.object
}

/// Whether the remote reports a revision, and not the one known.
pub open spec fn has_moved(item: RemoteItemView, known: Option<Text>) -> bool {
    item.revision is Some && item.revision != known
}

/// The revision a row was last synced at.
pub open spec fn synced_at(p: PlacementView) -> Option<Text> {
    match p.base {
        Some(base) => base.revision,
        None => None,
    }
}

/// Whether a row is neither deleted here nor frozen.
pub open spec fn is_live(p: PlacementView) -> bool {
    !(p.status is Tombstone) && !(p.status is Ambiguous)
}

/// Whether a decision pulls, pushes, reports and counts nothing.
pub open spec fn tells_nothing(d: DecisionView) -> bool {
    &&& d.change is None
    &&& d.hold is Nothing
    &&& d.events.len() == 0
    &&& d.pulled == 0
    &&& d.conflicts == 0
    &&& d.refreshed == 0
}

/// Whether a decision is to pull a member as new, with nothing cached of it
/// and in sync with what the remote reports.
pub open spec fn pulls_new(
    d: DecisionView,
    collection: Text,
    handle: Text,
    item: RemoteItemView,
) -> bool {
    &&& d.change is None
    &&& d.hold is Nothing
    &&& d.events == seq![EventView::Added(handle)]
    &&& d.pulled == 1
    &&& d.conflicts == 0
    &&& d.refreshed == 0
    &&& d.writes.len() == 1
    &&& d.writes[0] matches WriteOpView::UpsertPlacement(p) && {
        &&& p.collection == collection
        &&& p.handle == item.handle
        &&& p.link_id is None
        &&& p.object is None
        &&& p.level is Probed
        &&& p.meta is None
        &&& p.sort_key.len() == 0
        &&& p.flags == item.flags
        &&& p.status is Clean
        &&& p.conflict_revision is None
        &&& p.conflict_object is None
        &&& p.base == Some(
            BaseView { flags: item.flags, revision: item.revision, object: None },
        )
        &&& p.origin is None
        &&& p.ambiguous_handles.len() == 0
    }
}

/// A member new upstream is pulled: where no row holds its handle, where the
/// row was deleted here before it was ever synced, and where the remote
/// edited what was deleted here.
pub proof fn a_member_new_upstream_is_pulled(
    opts: ReplicaSyncOptions,
    collection: Text,
    c: CandidateView,
)
    requires
        c.remote is Some,
        match c.local {
            None => true,
            Some(local) => local.status is Tombstone && (local.base is None || has_moved(
                c.remote->0,
                synced_at(local),
            )),
        },
    ensures
        pulls_new(merged(opts, collection, c), collection, c.handle, c.remote->0),
{
}

/// What neither side holds, and what is frozen, is left alone.
pub proof fn what_cannot_be_decided_is_left_alone(
    opts: ReplicaSyncOptions,
    collection: Text,
    c: CandidateView,
)
    requires
        match c.local {
            None => c.remote is None,
            Some(local) => local.status is Ambiguous,
        },
    ensures
        tells_nothing(merged(opts, collection, c)),
        merged(opts, collection, c).writes.len() == 0,
{
}

/// A delete made here of what is gone upstream too just drops the row.
pub proof fn a_delete_both_sides_made_drops_the_row(
    opts: ReplicaSyncOptions,
    collection: Text,
    c: CandidateView,
)
    requires
        c.local matches Some(local) && local.status is Tombstone,
        c.remote is None,
    ensures
        tells_nothing(merged(opts, collection, c)),
        merged(opts, collection, c).writes == seq![
            WriteOpView::DropPlacement {
                collection,
                handle: c.handle,
                reason: ReplicaDropReason::Deleted,
            },
        ],
{
}

/// Whether a row is deleted here while the remote still holds its member as
/// last synced.
pub open spec fn is_deleted_here(c: CandidateView) -> bool {
    c.local matches Some(local) && c.remote matches Some(item) && local.status is Tombstone
        && local.base is Some && !has_moved(item, synced_at(local))
}

/// A delete made here is pushed, to the destination of a move where it is
/// one, against the revision last synced; the row stays until the remote
/// confirms.
pub proof fn a_delete_made_here_is_pushed(
    opts: ReplicaSyncOptions,
    collection: Text,
    c: CandidateView,
)
    requires
        is_deleted_here(c),
        opts.push,
        opts.rights.remove,
        c.local->0.origin is None || !stages_body(c.local->0),
    ensures
        ({
            let (local, d) = (c.local->0, merged(opts, collection, c));
            &&& d.change == Some(
                ChangeKindView::Remove {
                    handle: c.handle,
                    to: match local.origin {
                        Some(origin) => Some(origin.collection),
                        None => None,
                    },
                    link_id: local.link_id,
                    if_match: synced_at(local),
                },
            )
            &&& d.hold is Drop
            &&& d.writes.len() == 0
            &&& d.events.len() == 0
            &&& d.pulled == 0 && d.conflicts == 0 && d.refreshed == 0
        }),
{
}

/// A staged edit goes ahead of a move: the body is pushed, and the move waits.
pub proof fn a_staged_body_goes_ahead_of_a_move(
    opts: ReplicaSyncOptions,
    collection: Text,
    c: CandidateView,
)
    requires
        is_deleted_here(c),
        opts.push,
        opts.rights.content,
        c.local->0.origin is Some,
        stages_body(c.local->0),
    ensures
        ({
            let (local, d) = (c.local->0, merged(opts, collection, c));
            &&& d.change == Some(
                ChangeKindView::Update {
                    handle: c.handle,
                    object: local.object->0,
                    if_match: synced_at(local),
                },
            )
            &&& d.hold == HoldView::Content(local)
            &&& d.writes.len() == 0
            &&& d.events.len() == 0
            &&& d.pulled == 0 && d.conflicts == 0 && d.refreshed == 0
        }),
{
}

/// A delete the source will not take is held as it is, or undone: the row
/// comes back with all it had, its destination apart, and with what was
/// pending on it pending again.
pub proof fn a_delete_not_taken_is_held_or_undone(
    opts: ReplicaSyncOptions,
    collection: Text,
    c: CandidateView,
)
    requires
        is_deleted_here(c),
        if c.local->0.origin is Some && stages_body(c.local->0) {
            !(opts.push && opts.rights.content)
        } else {
            !(opts.push && opts.rights.remove)
        },
    ensures
        ({
            let (local, d) = (c.local->0, merged(opts, collection, c));
            &&& tells_nothing(d)
            &&& opts.delete == ReplicaDeletePolicy::Keep ==> d.writes.len() == 0
            &&& opts.delete == ReplicaDeletePolicy::Revert ==> {
                let p = d.writes[0]->UpsertPlacement_0;
                &&& d.writes.len() == 1
                &&& d.writes[0] is UpsertPlacement
                &&& p == (PlacementView { status: p.status, origin: None, ..local })
                &&& p.status == if local.conflict_revision is Some {
                    ReplicaStatus::Conflict
                } else if stages_body(local) || local.flags != local.base->0.flags {
                    ReplicaStatus::Dirty
                } else {
                    ReplicaStatus::Clean
                }
            }
        }),
{
}

/// A synced member gone upstream is dropped, whatever its flags are, unless
/// an edit of its body is pending: the row goes, reported as vanished, and
/// nothing is pushed.
pub proof fn a_member_gone_upstream_is_dropped(
    opts: ReplicaSyncOptions,
    collection: Text,
    c: CandidateView,
)
    requires
        c.local matches Some(local) && is_live(local) && local.base is Some,
        c.remote is None,
        !stages_body(c.local->0) || !(c.local->0.status is Dirty || c.local->0.status is Conflict),
    ensures
        ({
            let d = merged(opts, collection, c);
            &&& d.writes == seq![
                WriteOpView::DropPlacement {
                    collection,
                    handle: c.handle,
                    reason: ReplicaDropReason::Deleted,
                },
            ]
            &&& d.events == seq![EventView::Vanished(c.handle)]
            &&& d.pulled == 1
            &&& d.conflicts == 0 && d.refreshed == 0
            &&& d.change is None
            &&& d.hold is Nothing
        }),
{
}

/// A pending edit outlives the delete of its member: the row becomes a
/// pending create of the edited body, with its cache, and nothing of what it
/// was synced with.
pub proof fn a_pending_body_outlives_its_member(
    opts: ReplicaSyncOptions,
    collection: Text,
    c: CandidateView,
)
    requires
        c.local matches Some(local) && (local.status is Dirty || local.status is Conflict),
        stages_body(c.local->0),
        c.remote is None,
    ensures
        ({
            let (local, d) = (c.local->0, merged(opts, collection, c));
            let kept = PlacementView {
                status: ReplicaStatus::Created,
                conflict_revision: None,
                conflict_object: None,
                base: None,
                origin: None,
                ..local
            };
            &&& d.writes == seq![WriteOpView::UpsertPlacement(kept)]
            &&& d.events.len() == 0
            &&& d.pulled == 0 && d.conflicts == 0 && d.refreshed == 0
            &&& if opts.push && opts.rights.add {
                &&& d.change == Some(
                    ChangeKindView::Add {
                        handle: c.handle,
                        link_id: local.link_id,
                        flags: local.flags,
                        origin: None,
                        object: local.object,
                    },
                )
                &&& d.hold == HoldView::Create(kept)
            } else {
                d.change is None && d.hold is Nothing
            }
        }),
{
}

/// A pending create the remote does not hold is pushed whole; any other row
/// never synced is left alone.
pub proof fn a_pending_create_is_pushed_whole(
    opts: ReplicaSyncOptions,
    collection: Text,
    c: CandidateView,
)
    requires
        c.local matches Some(local) && is_live(local) && local.base is None,
        c.remote is None,
    ensures
        ({
            let (local, d) = (c.local->0, merged(opts, collection, c));
            &&& d.writes.len() == 0
            &&& d.events.len() == 0
            &&& d.pulled == 0 && d.conflicts == 0 && d.refreshed == 0
            &&& if opts.push && opts.rights.add && local.status is Created {
                &&& d.change == Some(
                    ChangeKindView::Add {
                        handle: c.handle,
                        link_id: local.link_id,
                        flags: local.flags,
                        origin: local.origin,
                        object: local.object,
                    },
                )
                &&& d.hold == HoldView::Create(local)
            } else {
                d.change is None && d.hold is Nothing
            }
        }),
{
}

/// Whether a row meets the member the remote holds.
pub open spec fn is_met(c: CandidateView) -> bool {
    c.local matches Some(local) && is_live(local) && c.remote is Some && is_paired(c)
}

/// Whether the body of a synced row was edited here.
pub open spec fn edited_here(c: CandidateView) -> bool {
    c.local->0.status is Dirty && stages_body(c.local->0)
}

/// Whether the body of a synced row that is not conflicted was edited
/// upstream.
pub open spec fn edited_there(c: CandidateView) -> bool {
    !(c.local->0.status is Conflict) && c.local->0.base is Some && has_moved(
        c.remote->0,
        synced_at(c.local->0),
    )
}

/// The row a decision leaves: the last one it writes of the handle, or the
/// one it met.
pub open spec fn row_left(c: CandidateView, d: DecisionView) -> PlacementView {
    if d.writes.len() > 0 && d.writes.last() is UpsertPlacement {
        d.writes.last()->UpsertPlacement_0
    } else {
        c.local->0
    }
}

/// A merge of both sides writes the row, and perhaps a fork before it, and
/// never drops one. What identifies the row and what is cached of its member
/// stay.
pub proof fn a_merge_keeps_what_identifies_the_row(
    opts: ReplicaSyncOptions,
    collection: Text,
    c: CandidateView,
)
    requires
        is_met(c),
    ensures
        ({
            let (local, d) = (c.local->0, merged(opts, collection, c));
            let left = row_left(c, d);
            &&& forall|i: int|
                0 <= i < d.writes.len() ==> #[trigger] d.writes[i] is UpsertPlacement
            &&& left.collection == local.collection
            &&& left.handle == local.handle
            &&& left.link_id == local.link_id
            &&& left.meta == local.meta
            &&& left.sort_key == local.sort_key
            &&& left.origin == local.origin
            &&& left.ambiguous_handles == local.ambiguous_handles
        }),
{
}

/// Whether a decision pulls the content the remote reports: the stale body
/// goes, to be fetched again, and the row is based on the revision reported.
pub open spec fn pulls_content(c: CandidateView, d: DecisionView) -> bool {
    let (local, left) = (c.local->0, row_left(c, d));
    &&& d.refreshed == 1
    &&& d.conflicts == 0
    &&& d.events.len() > 0
    &&& d.events[0] == EventView::ContentChanged(c.handle)
    &&& d.writes.len() > 0
    &&& left.object is None
    &&& left.level is Probed
    &&& left.base is Some
    &&& left.base->0.revision == c.remote->0.revision
    &&& left.base->0.object is None
    &&& left.conflict_revision == local.conflict_revision
    &&& left.conflict_object == local.conflict_object
    &&& !(d.change matches Some(kind) && kind is Update)
}

/// Whether a decision pushes the staged body, on a condition, and leaves it
/// staged against the body and the revision last synced.
pub open spec fn pushes_body(c: CandidateView, d: DecisionView, if_match: Option<Text>) -> bool {
    let (local, left) = (c.local->0, row_left(c, d));
    &&& d.change == Some(
        ChangeKindView::Update { handle: c.handle, object: local.object->0, if_match },
    )
    &&& d.hold == HoldView::Content(left)
    &&& d.conflicts == 0
    &&& d.refreshed == 0
    &&& keeps_content(local, left)
    &&& left.conflict_revision == local.conflict_revision
    &&& left.conflict_object == local.conflict_object
}

/// Whether a row holds the content of another, on the same synced content.
pub open spec fn keeps_content(local: PlacementView, left: PlacementView) -> bool {
    &&& left.object == local.object
    &&& left.level == local.level
    &&& local.base is Some ==> left.base is Some && left.base->0.revision
        == local.base->0.revision && left.base->0.object == local.base->0.object
}

/// Whether a decision marks a conflict: the row keeps its own content, and
/// the remote's revision is recorded, its body still wanted.
pub open spec fn marks_conflict(c: CandidateView, d: DecisionView) -> bool {
    let (local, left) = (c.local->0, row_left(c, d));
    &&& d.conflicts == 1
    &&& d.refreshed == 0
    &&& d.events.len() > 0
    &&& d.events[0] == EventView::Conflicted(c.handle)
    &&& left.status is Conflict
    &&& left.conflict_revision == c.remote->0.revision
    &&& left.conflict_object is None
    &&& keeps_content(local, left)
    &&& !(d.change matches Some(kind) && kind is Update)
}

/// Whether a decision leaves the content of a row alone.
pub open spec fn leaves_content(c: CandidateView, d: DecisionView) -> bool {
    let (local, left) = (c.local->0, row_left(c, d));
    &&& d.conflicts == 0
    &&& d.refreshed == 0
    &&& keeps_content(local, left)
    &&& !(d.change matches Some(kind) && kind is Update)
}

/// Content edited upstream alone is pulled.
pub proof fn content_edited_there_alone_is_pulled(
    opts: ReplicaSyncOptions,
    collection: Text,
    c: CandidateView,
)
    requires
        is_met(c),
        edited_there(c),
        !edited_here(c),
    ensures
        pulls_content(c, merged(opts, collection, c)),
{
}

/// Content edited here alone is pushed, against the revision last synced,
/// where the source takes content; elsewhere it stays staged.
pub proof fn content_edited_here_alone_is_pushed(
    opts: ReplicaSyncOptions,
    collection: Text,
    c: CandidateView,
)
    requires
        is_met(c),
        edited_here(c),
        !edited_there(c),
    ensures
        ({
            let d = merged(opts, collection, c);
            if opts.push && opts.rights.content {
                pushes_body(c, d, synced_at(c.local->0))
            } else {
                leaves_content(c, d) && row_left(c, d).conflict_revision
                    == c.local->0.conflict_revision
            }
        }),
{
}

/// Content edited on neither side is left alone.
pub proof fn content_edited_nowhere_is_left_alone(
    opts: ReplicaSyncOptions,
    collection: Text,
    c: CandidateView,
)
    requires
        is_met(c),
        c.local->0.base is Some,
        !(c.local->0.status is Conflict),
        !edited_here(c),
        !edited_there(c),
    ensures
        leaves_content(c, merged(opts, collection, c)),
        row_left(c, merged(opts, collection, c)).conflict_revision
            == c.local->0.conflict_revision,
        row_left(c, merged(opts, collection, c)).conflict_object == c.local->0.conflict_object,
{
}

/// Content edited on both sides goes by the policy: marked as a conflict,
/// overwritten there against the revision observed, or pulled, the local
/// body kept beside it where both are asked for.
pub proof fn content_edited_on_both_sides_goes_by_the_policy(
    opts: ReplicaSyncOptions,
    collection: Text,
    c: CandidateView,
)
    requires
        is_met(c),
        edited_here(c),
        edited_there(c),
    ensures
        ({
            let (local, d) = (c.local->0, merged(opts, collection, c));
            match opts.conflict {
                ReplicaConflictPolicy::Manual => marks_conflict(c, d),
                ReplicaConflictPolicy::PreferLocal => if opts.push && opts.rights.content {
                    pushes_body(c, d, c.remote->0.revision)
                } else {
                    marks_conflict(c, d)
                },
                ReplicaConflictPolicy::PreferRemote => pulls_content(c, d) && forall|i: int|
                    0 <= i < d.writes.len() ==> (#[trigger] d.writes[i])->UpsertPlacement_0.handle
                        == c.handle,
                ReplicaConflictPolicy::KeepBoth => pulls_content(c, d) && {
                    let p = d.writes[0]->UpsertPlacement_0;
                    &&& d.writes.len() >= 2
                    &&& p.collection == collection
                    &&& p.handle == local.handle + "\u{1}"@ + local.object->0
                    &&& p.link_id == Some("keepboth\u{1}"@ + local.object->0)
                    &&& p.object == local.object
                    &&& p.level is Full
                    &&& p.meta == local.meta
                    &&& p.sort_key == local.sort_key
                    &&& p.flags == local.flags
                    &&& p.status is Created
                    &&& p.conflict_revision is None
                    &&& p.conflict_object is None
                    &&& p.base is None
                    &&& p.origin is None
                    &&& p.ambiguous_handles.len() == 0
                },
            }
        }),
{
}

/// An unresolved conflict keeps its content and follows the remote: the
/// revision recorded is the newest observed, and a body recorded for another
/// one goes.
pub proof fn a_conflict_follows_the_remote(
    opts: ReplicaSyncOptions,
    collection: Text,
    c: CandidateView,
)
    requires
        is_met(c),
        c.local->0.status is Conflict,
        c.local->0.base is Some,
    ensures
        ({
            let (local, d) = (c.local->0, merged(opts, collection, c));
            let left = row_left(c, d);
            &&& leaves_content(c, d)
            &&& left.status is Conflict
            &&& if has_moved(c.remote->0, local.conflict_revision) {
                left.conflict_revision == c.remote->0.revision && left.conflict_object is None
            } else {
                left.conflict_revision == local.conflict_revision && left.conflict_object
                    == local.conflict_object
            }
        }),
{
}

/// A row never synced that meets a member conflicts where both hold content,
/// and converges on the flags reported otherwise.
pub proof fn a_row_never_synced_converges_or_conflicts(
    opts: ReplicaSyncOptions,
    collection: Text,
    c: CandidateView,
)
    requires
        is_met(c),
        c.local->0.base is None,
    ensures
        ({
            let (local, item, d) = (c.local->0, c.remote->0, merged(opts, collection, c));
            let left = row_left(c, d);
            &&& d.change is None
            &&& d.hold is Nothing
            &&& left.object == local.object
            &&& left.level == local.level
            &&& if local.object is Some && item.revision is Some {
                marks_conflict(c, d)
            } else {
                &&& d.conflicts == 0 && d.refreshed == 0
                &&& left.conflict_revision == local.conflict_revision
                &&& left.conflict_object == local.conflict_object
            }
            &&& item.flags is Unknown ==> left.flags == local.flags && left.base is None
                && d.pulled == 0
            &&& item.flags is Known ==> {
                &&& left.flags == item.flags
                &&& left.base == Some(
                    BaseView { flags: item.flags, revision: None, object: None },
                )
                &&& d.pulled == 1
                &&& d.events.last() == EventView::FlagsChanged(c.handle)
                &&& d.conflicts == 0 && !(local.status is Conflict) ==> left.status is Clean
                &&& local.status is Conflict ==> left.status is Conflict
            }
        }),
{
}

/// Whether a flag set holds a flag.
pub open spec fn has_flag(flags: FlagsView, flag: Text) -> bool {
    flags matches FlagsView::Known(set) && set.contains(flag)
}

/// Whether a synced row meets a member, both with their markers known.
pub open spec fn flags_meet(c: CandidateView) -> bool {
    &&& is_met(c)
    &&& c.local->0.base is Some
    &&& c.local->0.flags is Known
    &&& c.remote->0.flags is Known
}

/// Flag by flag, a reading changed here stands, removals included, and any
/// other is the remote's.
pub proof fn each_flag_goes_to_the_side_that_changed_it(
    opts: ReplicaSyncOptions,
    collection: Text,
    c: CandidateView,
    flag: Text,
)
    requires
        flags_meet(c),
    ensures
        ({
            let (local, item) = (c.local->0, c.remote->0);
            let left = row_left(c, merged(opts, collection, c));
            let (base, here) = (has_flag(local.base->0.flags, flag), has_flag(local.flags, flag));
            &&& left.flags is Known
            &&& has_flag(left.flags, flag) == if here != base {
                here
            } else {
                has_flag(item.flags, flag)
            }
        }),
{
}

/// What the remote lacks of the merged flags is pushed, as one set, unless an
/// edit goes first or the source takes no flags; the base moves only where
/// the remote holds the merged set already. What the row lacked counts as
/// pulled.
pub proof fn merged_flags_are_pushed_and_pulled(
    opts: ReplicaSyncOptions,
    collection: Text,
    c: CandidateView,
)
    requires
        flags_meet(c),
    ensures
        ({
            let (local, item, d) = (c.local->0, c.remote->0, merged(opts, collection, c));
            let left = row_left(c, d);
            let edits = d.change matches Some(kind) && kind is Update;
            &&& left.flags == item.flags ==> left.base->0.flags == item.flags && (d.change is None
                || edits)
            &&& left.flags != item.flags ==> {
                &&& left.base->0.flags == local.base->0.flags
                &&& !edits && opts.push && opts.rights.flags ==> d.change == Some(
                    ChangeKindView::SetFlags { handle: c.handle, flags: left.flags },
                ) && d.hold == HoldView::Flags(left)
                &&& !edits && !(opts.push && opts.rights.flags) ==> d.change is None
            }
            &&& left.flags != local.flags ==> d.pulled == 1 && d.events.last()
                == EventView::FlagsChanged(c.handle) && d.events.len() == 1 + d.conflicts
                + d.refreshed
            &&& left.flags == local.flags ==> d.pulled == 0 && d.events.len() == d.conflicts
                + d.refreshed
        }),
{
}

/// How a row stands after a merge: conflicted where it was or became so,
/// pending while a flag or a body is still to be pushed, clean otherwise.
pub proof fn a_merge_leaves_a_row_pending_or_clean(
    opts: ReplicaSyncOptions,
    collection: Text,
    c: CandidateView,
)
    requires
        flags_meet(c),
        c.local->0.status is Clean || c.local->0.status is Dirty || c.local->0.status is Conflict,
    ensures
        ({
            let (local, item, d) = (c.local->0, c.remote->0, merged(opts, collection, c));
            let left = row_left(c, d);
            left.status == if local.status is Conflict || d.conflicts > 0 {
                ReplicaStatus::Conflict
            } else if left.flags != item.flags {
                local.status
            } else if local.status is Dirty && stages_body(left) {
                ReplicaStatus::Dirty
            } else {
                ReplicaStatus::Clean
            }
        }),
{
}

/// Where the remote did not report its markers, a clean row keeps its flags
/// and its base, and a pending flag edit is pushed as it stands.
pub proof fn markers_not_reported_change_none(
    opts: ReplicaSyncOptions,
    collection: Text,
    c: CandidateView,
)
    requires
        is_met(c),
        c.local->0.base is Some,
        c.local->0.flags is Known,
        c.remote->0.flags is Unknown,
    ensures
        ({
            let (local, d) = (c.local->0, merged(opts, collection, c));
            let left = row_left(c, d);
            let edits = d.change matches Some(kind) && kind is Update;
            &&& left.flags == local.flags
            &&& left.base->0.flags == local.base->0.flags
            &&& d.pulled == 0
            &&& local.status is Clean ==> d.change is None && left.status is Clean
            &&& !(local.status is Clean) && local.flags != local.base->0.flags && !edits
                && opts.push && opts.rights.flags ==> d.change == Some(
                ChangeKindView::SetFlags { handle: c.handle, flags: local.flags },
            )
            &&& local.flags == local.base->0.flags && !edits ==> d.change is None
        }),
{
    let base = c.local->0.base->0.flags;
    if base is Known {
        an_unchanged_set_stays(base, c.local->0.flags);
    }
}

} // verus!
