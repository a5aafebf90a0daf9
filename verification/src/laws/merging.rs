//! What the three-way merge of one handle keeps, whatever it decides.

use vstd::prelude::*;

use crate::change::{target, ChangeKindView, ReplicaDropReason, WriteOpView};
use crate::laws::flags::{
    a_merge_derives_again, agreeing_sides_converge, an_unchanged_set_stays,
};
use crate::order::Text;
use crate::placement::{merged_flags, staged_edit, BaseView, PlacementView};
use crate::remote::RemoteItemView;
use crate::sync::content_rebased;
use crate::sync::join::stand_in;
use crate::sync::options::{
    EventView, ReplicaConflictPolicy, ReplicaDeletePolicy, ReplicaSyncOptions,
};
use crate::sync::reconcile::{
    base_revision, edited, flags_left, forked, fresh, heard_flags, merged, nothing, pushes_adds,
    pushes_content, pushes_flags, pushes_removes, reconciled, reconciled_content, reconciled_flags,
    refreshed, resurrected, revised, unheard, untouched, CandidateView, DecisionView, HoldView,
};
use crate::sync::thaw::settled_status;

verus! {

/// Whether both sides of a candidate are about its handle.
pub open spec fn is_paired(c: CandidateView) -> bool {
    &&& c.local matches Some(local) ==> local.handle == c.handle
    &&& c.remote matches Some(item) ==> item.handle == c.handle
}

/// A placement holding an identity its source reports twice is frozen: the
/// merge derives nothing for it.
pub proof fn an_ambiguous_placement_derives_nothing(
    opts: ReplicaSyncOptions,
    collection: Text,
    c: CandidateView,
)
    requires
        c.local matches Some(local) && local.status is Ambiguous,
    ensures
        merged(opts, collection, c) == nothing(),
{
}

/// A clean placement whose flags and revision the remote still reports is
/// left alone.
pub proof fn an_unchanged_placement_is_left_alone(
    opts: ReplicaSyncOptions,
    collection: Text,
    c: CandidateView,
)
    requires
        c.local matches Some(local) && c.remote matches Some(item) && {
            &&& local.status is Clean
            &&& local.base is Some
            &&& local.base->0.flags == local.flags
            &&& item.flags == local.flags
            &&& !revised(item, base_revision(local))
        },
    ensures
        merged(opts, collection, c) == nothing(),
{
    let (local, item) = (c.local->0, c.remote->0);
    agreeing_sides_converge(local.base->0.flags, local.flags);
    assert(merged(opts, collection, c) =~= nothing());
}

/// A member just pulled is in sync: merging it with the same remote state
/// changes nothing.
pub proof fn a_pulled_member_is_in_sync(
    opts: ReplicaSyncOptions,
    collection: Text,
    item: RemoteItemView,
)
    ensures
        merged(
            opts,
            collection,
            CandidateView {
                handle: item.handle,
                local: Some(fresh(collection, item)),
                remote: Some(item),
            },
        ) == nothing(),
{
    an_unchanged_placement_is_left_alone(
        opts,
        collection,
        CandidateView {
            handle: item.handle,
            local: Some(fresh(collection, item)),
            remote: Some(item),
        },
    );
}

/// Edit beats delete, pull direction: a remote update resurrects a local
/// tombstone as a fresh member, and no delete is pushed.
pub proof fn a_remote_edit_beats_a_local_delete(
    opts: ReplicaSyncOptions,
    collection: Text,
    c: CandidateView,
)
    requires
        c.local matches Some(local) && c.remote matches Some(item) && {
            &&& local.status is Tombstone
            &&& local.base is Some
            &&& revised(item, base_revision(local))
        },
    ensures
        ({
            let d = merged(opts, collection, c);
            &&& d.change is None
            &&& d.writes == seq![WriteOpView::UpsertPlacement(fresh(collection, c.remote->0))]
            &&& d.events == seq![EventView::Added(c.handle)]
        }),
{
}

/// Edit beats delete, push direction: a staged local edit survives a remote
/// delete as a pending create holding the edited body, pushed where the
/// source takes new members.
pub proof fn a_local_edit_beats_a_remote_delete(
    opts: ReplicaSyncOptions,
    collection: Text,
    c: CandidateView,
)
    requires
        c.remote is None,
        c.local matches Some(local) && (local.status is Dirty || local.status is Conflict)
            && edited(local),
    ensures
        ({
            let d = merged(opts, collection, c);
            let kept = resurrected(c.local->0);
            &&& kept.status is Created
            &&& kept.object == c.local->0.object
            &&& d.writes == seq![WriteOpView::UpsertPlacement(kept)]
            &&& d.events.len() == 0
            &&& pushes_adds(opts) ==> d.change == Some(
                ChangeKindView::Add {
                    handle: c.handle,
                    link_id: kept.link_id,
                    flags: kept.flags,
                    origin: None,
                    object: kept.object,
                },
            ) && d.hold == HoldView::Create(kept)
            &&& !pushes_adds(opts) ==> d.change is None
        }),
{
}

/// A source reporting no revision never conflicts.
pub proof fn an_immutable_source_never_conflicts(
    opts: ReplicaSyncOptions,
    collection: Text,
    c: CandidateView,
)
    requires
        c.remote matches Some(item) ==> item.revision is None,
    ensures
        ({
            let d = merged(opts, collection, c);
            &&& d.conflicts == 0
            &&& d.refreshed == 0
            &&& forall|i: int|
                0 <= i < d.events.len() ==> !(#[trigger] d.events[i] is Conflicted)
        }),
{
}

/// Where no revision is reported and no edit is staged, the merge is of flags
/// and membership alone: the content axis is untouched.
pub proof fn immutable_content_merges_flags_and_membership_only(
    opts: ReplicaSyncOptions,
    collection: Text,
    local: PlacementView,
    item: RemoteItemView,
)
    requires
        item.revision is None,
        staged_edit(local) is None,
    ensures
        reconciled_content(opts, collection, local, item) == untouched(local),
{
}

/// One handle yields at most one change, and it is about that handle.
pub proof fn a_change_is_about_its_candidate(
    opts: ReplicaSyncOptions,
    collection: Text,
    c: CandidateView,
)
    requires
        is_paired(c),
    ensures
        merged(opts, collection, c).change matches Some(kind) ==> target(kind) == c.handle,
        merged(opts, collection, c).change is None <==> merged(opts, collection, c).hold is Nothing,
{
}

/// A change the source does not take is never derived.
pub proof fn a_refused_kind_is_never_pushed(
    opts: ReplicaSyncOptions,
    collection: Text,
    c: CandidateView,
)
    ensures
        merged(opts, collection, c).change matches Some(kind) ==> match kind {
            ChangeKindView::Add { .. } => pushes_adds(opts),
            ChangeKindView::Remove { .. } => pushes_removes(opts),
            ChangeKindView::SetFlags { .. } => pushes_flags(opts),
            ChangeKindView::Update { .. } => pushes_content(opts),
        },
        !opts.push ==> merged(opts, collection, c).change is None,
{
}

/// A row is dropped only where the remote does not hold its member, and only
/// where it was deleted locally or had been synced: a member never based is
/// never read as deleted.
pub proof fn only_a_member_known_gone_is_dropped(
    opts: ReplicaSyncOptions,
    collection: Text,
    c: CandidateView,
    i: int,
)
    requires
        0 <= i < merged(opts, collection, c).writes.len(),
        merged(opts, collection, c).writes[i] is DropPlacement,
    ensures
        c.remote is None,
        c.local matches Some(local) && (local.status is Tombstone || local.base is Some),
        merged(opts, collection, c).writes[i] == (WriteOpView::DropPlacement {
            collection,
            handle: c.handle,
            reason: ReplicaDropReason::Deleted,
        }),
{
}

/// A delete is held until the remote confirms it: pushing one writes nothing.
pub proof fn a_pushed_delete_writes_nothing(
    opts: ReplicaSyncOptions,
    collection: Text,
    c: CandidateView,
)
    requires
        merged(opts, collection, c).change matches Some(kind) && kind is Remove,
    ensures
        merged(opts, collection, c).writes.len() == 0,
        merged(opts, collection, c).hold is Drop,
{
}

/// A flag push is confirmed before the base moves: what is written alongside
/// keeps the base flags, so a push that does not land derives again.
pub proof fn a_pushed_flag_change_keeps_the_base_flags(
    opts: ReplicaSyncOptions,
    collection: Text,
    c: CandidateView,
    i: int,
)
    requires
        merged(opts, collection, c).change matches Some(kind) && kind is SetFlags,
        0 <= i < merged(opts, collection, c).writes.len(),
    ensures
        merged(opts, collection, c).writes[i] matches WriteOpView::UpsertPlacement(p) && (
        p.status is Created || (p.base is Some && p.base->0.flags == c.local->0.base->0.flags)),
{
}

/// A content push is confirmed before the base moves: what is written
/// alongside keeps the base body and revision.
pub proof fn a_pushed_edit_keeps_the_base_content(
    opts: ReplicaSyncOptions,
    collection: Text,
    c: CandidateView,
    i: int,
)
    requires
        merged(opts, collection, c).change matches Some(kind) && kind is Update,
        0 <= i < merged(opts, collection, c).writes.len(),
    ensures
        merged(opts, collection, c).writes[i] matches WriteOpView::UpsertPlacement(p) && p.object
            == c.local->0.object && p.base is Some && p.base->0.object == c.local->0.base->0.object
            && p.base->0.revision == c.local->0.base->0.revision,
{
}

/// Whether both sides edited the content of a placement since its base.
pub open spec fn is_divergent(local: PlacementView, item: RemoteItemView) -> bool {
    local.status is Dirty && edited(local) && revised(item, base_revision(local))
}

/// A divergence left to the consumer is marked once, keeps the local body and
/// carries the remote revision to resolve against.
pub proof fn a_conflict_keeps_the_local_body(
    opts: ReplicaSyncOptions,
    collection: Text,
    local: PlacementView,
    item: RemoteItemView,
)
    requires
        is_divergent(local, item),
        opts.conflict == ReplicaConflictPolicy::Manual,
    ensures
        ({
            let d = reconciled(opts, collection, local, item);
            &&& d.conflicts == 1
            &&& d.writes.len() > 0
            &&& forall|i: int|
                0 <= i < d.writes.len() ==> ({
                    &&& #[trigger] d.writes[i] matches WriteOpView::UpsertPlacement(p)
                    &&& p.status is Conflict
                    &&& p.object == local.object
                    &&& p.conflict_revision == item.revision
                })
        }),
{
}

/// Keeping both loses neither version: the local body is staged as a member
/// of its own, and the placement adopts the remote revision.
pub proof fn keeping_both_loses_neither(
    opts: ReplicaSyncOptions,
    collection: Text,
    local: PlacementView,
    item: RemoteItemView,
)
    requires
        is_divergent(local, item),
        opts.conflict == ReplicaConflictPolicy::KeepBoth,
    ensures
        ({
            let d = reconciled(opts, collection, local, item);
            let fork = forked(collection, local);
            &&& fork.object == local.object
            &&& fork.status is Created
            &&& d.writes.len() >= 2
            &&& d.writes[0] == WriteOpView::UpsertPlacement(fork)
            &&& d.writes[1] == WriteOpView::UpsertPlacement(refreshed(local, item))
            &&& refreshed(local, item).base->0.revision == item.revision
        }),
{
}

/// Forks of different bodies never share a handle or an identity.
pub proof fn forks_of_different_bodies_do_not_collide(
    collection: Text,
    a: PlacementView,
    b: PlacementView,
)
    requires
        a.object is Some,
        b.object is Some,
        a.object != b.object,
    ensures
        a.handle == b.handle ==> forked(collection, a).handle != forked(collection, b).handle,
        forked(collection, a).link_id != forked(collection, b).link_id,
{
    let (x, y) = (a.object->0, b.object->0);
    let link = "keepboth\u{1}"@;
    if link + x == link + y {
        lemma_same_tail(link, x, y);
    }
    let head = a.handle + "\u{1}"@;
    if head + x == head + y {
        lemma_same_tail(head, x, y);
    }
}

proof fn lemma_same_tail(head: Text, x: Text, y: Text)
    requires
        head + x == head + y,
    ensures
        x == y,
{
    let (p, q) = (head + x, head + y);
    assert(p.len() == head.len() + x.len());
    assert(q.len() == head.len() + y.len());
    assert forall|i: int| 0 <= i < x.len() implies x[i] == y[i] by {
        assert(p[head.len() + i] == x[i] && q[head.len() + i] == y[i]);
    }
    assert(x =~= y);
}

/// The placement a merge of both sides leaves: the last one written, or the
/// one it started from.
pub open spec fn resulting(local: PlacementView, d: DecisionView) -> PlacementView {
    if d.writes.len() == 0 {
        local
    } else {
        d.writes.last()->UpsertPlacement_0
    }
}

/// A merge settles: merging what it left with the same remote state decides
/// nothing more. It holds of every based placement the merge pushed nothing
/// for; one without a base adopts the flags first and the revision next.
pub proof fn a_merge_settles(
    opts: ReplicaSyncOptions,
    collection: Text,
    local: PlacementView,
    item: RemoteItemView,
)
    requires
        local.base is Some,
        !(local.status is Tombstone),
        !(local.status is Ambiguous),
        reconciled(opts, collection, local, item).change is None,
    ensures
        ({
            let left = resulting(local, reconciled(opts, collection, local, item));
            reconciled(opts, collection, left, item) == nothing()
        }),
{
    let d = reconciled(opts, collection, local, item);
    let left = resulting(local, d);
    let (base, heard) = (local.base->0.flags, heard_flags(local.base->0, item));
    a_merge_derives_again(base, local.flags, heard);
    agreeing_sides_converge(heard, heard);
    agreeing_sides_converge(local.flags, local.flags);
    assert(reconciled(opts, collection, left, item) =~= nothing());
}

/// A push that did not land derives again: merging the row its run left with
/// the same remote state pushes the same change, so with the same key. A
/// delta that does not mention the row stands the same state in for it.
pub proof fn a_push_that_did_not_land_derives_again(
    opts: ReplicaSyncOptions,
    collection: Text,
    c: CandidateView,
)
    requires
        is_paired(c),
        merged(opts, collection, c).change is Some,
    ensures
        c.local is Some,
        ({
            let d = merged(opts, collection, c);
            let left = resulting(c.local->0, d);
            &&& left.handle == c.handle
            &&& !(left.status is Ambiguous)
            &&& !(c.local->0.status is Clean) ==> !(left.status is Clean)
            &&& d.writes.len() > 0 ==> d.writes.last() is UpsertPlacement
            &&& merged(opts, collection, CandidateView { local: Some(left), ..c }).change
                == d.change
            &&& c.remote == stand_in(c.handle, c.local->0) ==> stand_in(c.handle, left) == c.remote
        }),
{
    let (local, d) = (c.local->0, merged(opts, collection, c));
    if local.base is Some && c.remote is Some {
        let heard = heard_flags(local.base->0, c.remote->0);
        a_merge_derives_again(local.base->0.flags, local.flags, heard);
        agreeing_sides_converge(heard, heard);
    }
}

/// A flag pulled beside a content push stays: the push is confirmed on the
/// row the merge left, so once it is taken the row holds the merged flags,
/// the pushed body and the revision reported for it.
pub proof fn a_confirmed_edit_keeps_the_flags_pulled_with_it(
    opts: ReplicaSyncOptions,
    collection: Text,
    c: CandidateView,
    revision: Option<Text>,
)
    requires
        is_paired(c),
        c.local matches Some(local) && !(local.status is Tombstone),
        merged(opts, collection, c).change matches Some(kind) && kind is Update,
    ensures
        c.remote is Some,
        c.local->0.base is Some,
        ({
            let (local, item) = (c.local->0, c.remote->0);
            let d = merged(opts, collection, c);
            let heard = heard_flags(local.base->0, item);
            let flags = merged_flags(local.base->0.flags, local.flags, heard);
            let p = d.hold->Content_0;
            let confirmed = content_rebased(p, revision);
            &&& d.hold is Content
            &&& p == resulting(local, d)
            &&& confirmed.handle == c.handle
            &&& confirmed.flags == flags
            &&& confirmed.object == local.object
            &&& confirmed.base == Some(
                BaseView { flags: p.base->0.flags, revision, object: local.object },
            )
            &&& flags == heard ==> confirmed.base->0.flags == flags
        }),
{
    let (local, item) = (c.local->0, c.remote->0);
    assert(merged(opts, collection, c) == reconciled(opts, collection, local, item));
    assert(PlacementView { flags: local.flags, ..local } =~= local);
}

/// Whether a staged edit, where there is one, is pending.
pub open spec fn keeps_edit_pending(p: PlacementView) -> bool {
    edited(p) ==> p.status is Dirty || p.status is Conflict || p.status is Tombstone || p.status
        is Ambiguous
}

/// A staged edit never lands clean: whatever is merged, pulled or refused
/// around it, the row written still has it pending. It holds of every based
/// placement; one without a base that is present on both sides converges on
/// the remote.
pub proof fn a_staged_edit_never_lands_clean(
    opts: ReplicaSyncOptions,
    collection: Text,
    c: CandidateView,
    i: int,
)
    requires
        c.local matches Some(local) ==> local.base is Some && keeps_edit_pending(local),
        0 <= i < merged(opts, collection, c).writes.len(),
    ensures
        merged(opts, collection, c).writes[i] matches WriteOpView::UpsertPlacement(p)
            ==> keeps_edit_pending(p),
{
}

/// A source that takes no edit leaves one dirty: pulling a flag over it keeps
/// the body staged against the body last synced.
pub proof fn a_read_only_source_keeps_an_edit_dirty(
    opts: ReplicaSyncOptions,
    collection: Text,
    local: PlacementView,
    item: RemoteItemView,
)
    requires
        local.status is Dirty,
        edited(local),
        !pushes_content(opts),
        !revised(item, base_revision(local)),
    ensures
        ({
            let d = reconciled(opts, collection, local, item);
            let left = resulting(local, d);
            &&& !(d.change matches Some(kind) && kind is Update)
            &&& left.status is Dirty
            &&& left.object == local.object
            &&& left.base->0.object == local.base->0.object
            &&& left.flags == merged_flags(
                local.base->0.flags,
                local.flags,
                heard_flags(local.base->0, item),
            )
        }),
{
}

/// A refused delete is undone: what was pending before it is pending again,
/// and no destination is left for a later delete to be pushed to.
pub proof fn a_refused_delete_is_undone(
    opts: ReplicaSyncOptions,
    collection: Text,
    c: CandidateView,
)
    requires
        is_paired(c),
        c.local matches Some(local) && local.status is Tombstone && local.base is Some,
        c.remote matches Some(item) && !revised(item, base_revision(c.local->0)),
        opts.delete == ReplicaDeletePolicy::Revert,
        if staged_edit(c.local->0) is Some && c.local->0.origin is Some {
            !pushes_content(opts)
        } else {
            !pushes_removes(opts)
        },
    ensures
        ({
            let local = c.local->0;
            let d = merged(opts, collection, c);
            let left = resulting(local, d);
            &&& d.change is None
            &&& left == (PlacementView { status: settled_status(local), origin: None, ..local })
            &&& edited(local) ==> left.status is Dirty || left.status is Conflict
        }),
{
}

/// An unknown side holds no opinion: where the remote did not report its
/// markers, a row that is clean or has no base keeps its flags and pushes
/// none, and for any other the remote counts as unmoved since the base.
pub proof fn an_unreported_flag_set_holds_no_opinion(
    opts: ReplicaSyncOptions,
    local: PlacementView,
    item: RemoteItemView,
    may_push: bool,
)
    requires
        item.flags is Unknown,
    ensures
        unheard(local, item) ==> reconciled_flags(opts, local, item, may_push) == nothing()
            && flags_left(local, item) == local,
        !unheard(local, item) ==> {
            let unmoved = RemoteItemView { flags: local.base->0.flags, ..item };
            &&& reconciled_flags(opts, local, item, may_push) == reconciled_flags(
                opts,
                local,
                unmoved,
                may_push,
            )
            &&& flags_left(local, item) == flags_left(local, unmoved)
        },
        local.flags is Known ==> flags_left(local, item).flags == local.flags,
{
    if !unheard(local, item) && local.flags is Known && local.base->0.flags is Known {
        an_unchanged_set_stays(local.base->0.flags, local.flags);
    }
}

} // verus!
