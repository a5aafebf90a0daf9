//! A local mutation, and what the next sync makes of it.

use vstd::prelude::*;

use crate::change::{ChangeKindView, WriteOpView};
use crate::coroutine::{refusal, ArgView};
use crate::laws::flags::an_unchanged_set_stays;
use crate::mutate::{
    authored, departing, entombed, first_with, flagged, mutate_awaits, mutate_step, outcome,
    rewritten, source_handle, source_writes, staged_copy, MutateErrorView, MutateStep, MutateView,
    MutationView,
};
use crate::order::Text;
use crate::placement::{staged_edit, FlagsView, OriginView, PlacementView};
use crate::remote::RemoteItemView;
use crate::sync::options::ReplicaSyncOptions;
use crate::sync::reconcile::{
    base_revision, merged, pushes_adds, pushes_content, pushes_flags, pushes_removes, revised,
    CandidateView,
};

verus! {

/// Whether a mutation rewrites the placement it reads in place.
pub open spec fn is_in_place(mutation: MutationView) -> bool {
    mutation is SetFlags || mutation is Remove || mutation is Edit
}

/// A mutation leaves the base alone, so that the next sync derives what
/// changed. The one exception is an edit settling a conflict.
pub proof fn a_mutation_leaves_the_base_alone(
    collection: Text,
    mutation: MutationView,
    source: PlacementView,
    i: int,
)
    requires
        is_in_place(mutation),
        mutation is Edit ==> !(source.status is Conflict),
        0 <= i < source_writes(collection, mutation, source).len(),
    ensures
        source_writes(collection, mutation, source)[i] matches WriteOpView::UpsertPlacement(p)
            ==> p.base == source.base && p.handle == source.handle && p.collection
            == source.collection && p.link_id == source.link_id,
{
}

/// A mutation never drops a row: what is deleted stays as a tombstone until
/// a sync confirms it.
pub proof fn a_mutation_never_drops_a_row(
    collection: Text,
    mutation: MutationView,
    source: PlacementView,
    i: int,
)
    requires
        0 <= i < source_writes(collection, mutation, source).len(),
    ensures
        source_writes(collection, mutation, source)[i] is UpsertPlacement || source_writes(
            collection,
            mutation,
            source,
        )[i] is StoreObject,
{
}

/// Settling a conflict rebases it onto the remote state it was merged
/// against, both halves of it: the revision observed and the body recorded
/// beside it. The resolution is pending from then on, even where it keeps
/// the body the two sides diverged from.
pub proof fn a_resolution_rebases_onto_the_remote_state(
    source: PlacementView,
    hash: Text,
    meta: Option<Text>,
    sort_key: Option<Text>,
)
    requires
        source.status is Conflict,
    ensures
        ({
            let p = rewritten(source, hash, meta, sort_key);
            &&& p.status is Dirty
            &&& p.base matches Some(base) && base.revision == source.conflict_revision
                && base.object == source.conflict_object
            &&& p.conflict_revision is None
            &&& p.conflict_object is None
        }),
{
}

/// An edit restating the body last synced stages nothing: no push derives
/// from it.
pub proof fn an_edit_restating_the_synced_body_stages_nothing(
    source: PlacementView,
    hash: Text,
    meta: Option<Text>,
    sort_key: Option<Text>,
)
    requires
        !(source.status is Conflict),
        source.base matches Some(base) && base.object == Some(hash),
    ensures
        ({
            let p = rewritten(source, hash, meta, sort_key);
            &&& staged_edit(p) is None
            &&& p.status == source.status
        }),
{
}

/// An edit changing the body stages it, and marks a synced placement dirty.
pub proof fn an_edit_stages_its_body(
    source: PlacementView,
    hash: Text,
    meta: Option<Text>,
    sort_key: Option<Text>,
)
    requires
        !(source.status is Conflict),
        source.base matches Some(base) ==> base.object != Some(hash),
    ensures
        ({
            let p = rewritten(source, hash, meta, sort_key);
            &&& staged_edit(p) == Some(hash)
            &&& !(source.status is Created) ==> p.status is Dirty
            &&& source.status is Created ==> p.status is Created
        }),
{
}

/// A pending create stays one whatever is edited on it, and an unresolved
/// conflict is not resolved by a flag change.
pub proof fn a_flag_change_rides_along(source: PlacementView, flags: FlagsView)
    ensures
        flagged(source, flags).flags == flags,
        source.status is Clean ==> flagged(source, flags).status is Dirty,
        !(source.status is Clean) ==> flagged(source, flags).status == source.status,
{
}

/// A copy writes nothing but the pending create in its target: its source is
/// untouched.
pub proof fn a_copy_leaves_its_source_alone(
    collection: Text,
    mutation: MutationView,
    source: PlacementView,
)
    requires
        mutation is Copy,
    ensures
        source_writes(collection, mutation, source) == seq![
            WriteOpView::UpsertPlacement(
                staged_copy(source, mutation->Copy_target, mutation->Copy_placeholder),
            ),
        ],
{
}

/// Both halves of a move carry the link id that keeps the second from
/// delivering another copy. Without one, only the source half is staged.
pub proof fn both_halves_of_a_move_carry_the_link(
    collection: Text,
    mutation: MutationView,
    source: PlacementView,
)
    requires
        mutation is Move,
    ensures
        ({
            let writes = source_writes(collection, mutation, source);
            let gone = departing(source, mutation->Move_target);
            &&& writes.last() == WriteOpView::UpsertPlacement(gone)
            &&& gone.status is Tombstone
            &&& gone.link_id == source.link_id
            &&& source.link_id is None ==> writes.len() == 1
            &&& source.link_id is Some ==> {
                let copy = staged_copy(
                    source,
                    mutation->Move_target,
                    mutation->Move_placeholder,
                );
                &&& writes.len() == 2
                &&& writes[0] == WriteOpView::UpsertPlacement(copy)
                &&& copy.link_id == source.link_id
                &&& copy.origin == Some(
                    OriginView { collection: source.collection, handle: source.handle },
                )
            }
        }),
{
}

/// A new item is refused exactly where a live placement loaded holds its
/// link id; a tombstone does not count. A refused one writes nothing.
pub proof fn an_add_is_refused_exactly_where_its_link_is_held(
    s: MutateView,
    placements: Seq<PlacementView>,
)
    requires
        s.mutation is Add,
    ensures
        outcome(s, placements) is Err <==> exists|i: int|
            0 <= i < placements.len() && !((#[trigger] placements[i]).status is Tombstone)
                && placements[i].link_id == Some(s.mutation->Add_link_id),
        outcome(s, placements) matches Err(error) ==> error == MutateErrorView::LinkExists(
            s.mutation->Add_link_id,
        ),
{
}

/// Any other mutation is refused exactly where no placement loaded holds its
/// handle.
pub proof fn a_mutation_is_refused_exactly_where_its_handle_is_unknown(
    s: MutateView,
    placements: Seq<PlacementView>,
)
    requires
        !(s.mutation is Add),
    ensures
        outcome(s, placements) is Err <==> forall|i: int|
            0 <= i < placements.len() ==> (#[trigger] placements[i]).handle != source_handle(
                s.mutation,
            )->0,
        outcome(s, placements) matches Err(error) ==> error == MutateErrorView::UnknownHandle(
            source_handle(s.mutation)->0,
        ),
{
    lemma_first_with(placements, source_handle(s.mutation)->0);
}

proof fn lemma_first_with(placements: Seq<PlacementView>, handle: Text)
    ensures
        first_with(placements, handle) is None <==> forall|i: int|
            0 <= i < placements.len() ==> (#[trigger] placements[i]).handle != handle,
        first_with(placements, handle) matches Some(p) ==> placements.contains(p) && p.handle
            == handle,
    decreases placements.len(),
{
    if placements.len() > 0 && placements.first().handle != handle {
        let rest = placements.drop_first();
        lemma_first_with(rest, handle);
        if first_with(rest, handle) is Some {
            let p = first_with(rest, handle)->0;
            let k = choose|k: int| 0 <= k < rest.len() && rest[k] == p;
            assert(placements[k + 1] == p);
            assert(placements[k + 1].handle == handle);
        } else {
            assert forall|i: int| 0 <= i < placements.len() implies (#[trigger] placements[i]).handle
                != handle by {
                if i > 0 {
                    assert(rest[i - 1] == placements[i]);
                }
            }
        }
    } else if placements.len() > 0 {
        assert(placements[0].handle == handle);
    }
}

/// A reply that is not the one awaited is refused and changes nothing.
pub proof fn a_reply_not_awaited_is_refused(s: MutateView, arg: Option<ArgView>)
    requires
        !mutate_awaits(s.phase, arg),
    ensures
        mutate_step(s, arg) == (s, MutateStep::Failed(MutateErrorView::Arg(refusal(arg)))),
{
}

/// The remote state a synced placement was last seen at.
pub open spec fn is_unchanged(p: PlacementView, item: RemoteItemView) -> bool {
    &&& item.handle == p.handle
    &&& p.base matches Some(base) && item.flags == base.flags
    &&& !revised(item, base_revision(p))
}

/// Whether a placement is as its last sync left it.
pub open spec fn is_synced(p: PlacementView) -> bool {
    &&& p.status is Clean
    &&& p.base matches Some(base) && base.flags == p.flags && base.object == p.object
}

/// A flag change made offline is pushed by the next sync.
pub proof fn a_flag_change_is_pushed(
    opts: ReplicaSyncOptions,
    collection: Text,
    source: PlacementView,
    flags: FlagsView,
    item: RemoteItemView,
)
    requires
        is_synced(source),
        is_unchanged(source, item),
        flags is Known,
        flags != source.flags,
        pushes_flags(opts),
    ensures
        merged(
            opts,
            collection,
            CandidateView {
                handle: source.handle,
                local: Some(flagged(source, flags)),
                remote: Some(item),
            },
        ).change == Some(ChangeKindView::SetFlags { handle: source.handle, flags }),
{
    if source.flags is Known {
        an_unchanged_set_stays(source.flags, flags);
    }
}

/// A delete made offline is pushed by the next sync, conditioned on the
/// revision it was made against.
pub proof fn a_delete_is_pushed(
    opts: ReplicaSyncOptions,
    collection: Text,
    source: PlacementView,
    item: RemoteItemView,
)
    requires
        is_synced(source),
        is_unchanged(source, item),
        source.origin is None,
        pushes_removes(opts),
    ensures
        merged(
            opts,
            collection,
            CandidateView {
                handle: source.handle,
                local: Some(entombed(source)),
                remote: Some(item),
            },
        ).change == Some(
            ChangeKindView::Remove {
                handle: source.handle,
                to: None,
                link_id: source.link_id,
                if_match: base_revision(source),
            },
        ),
{
}

/// The source half of a move is pushed as a relocation to its target.
pub proof fn a_move_is_pushed_as_a_relocation(
    opts: ReplicaSyncOptions,
    collection: Text,
    source: PlacementView,
    target: Text,
    item: RemoteItemView,
)
    requires
        is_synced(source),
        is_unchanged(source, item),
        pushes_removes(opts),
    ensures
        merged(
            opts,
            collection,
            CandidateView {
                handle: source.handle,
                local: Some(departing(source, target)),
                remote: Some(item),
            },
        ).change == Some(
            ChangeKindView::Remove {
                handle: source.handle,
                to: Some(target),
                link_id: source.link_id,
                if_match: base_revision(source),
            },
        ),
{
}

/// A content edit made offline is pushed by the next sync, conditioned on
/// the revision it was made against.
pub proof fn an_edit_is_pushed(
    opts: ReplicaSyncOptions,
    collection: Text,
    source: PlacementView,
    hash: Text,
    meta: Option<Text>,
    sort_key: Option<Text>,
    item: RemoteItemView,
)
    requires
        is_synced(source),
        is_unchanged(source, item),
        source.base->0.object != Some(hash),
        pushes_content(opts),
    ensures
        merged(
            opts,
            collection,
            CandidateView {
                handle: source.handle,
                local: Some(rewritten(source, hash, meta, sort_key)),
                remote: Some(item),
            },
        ).change == Some(
            ChangeKindView::Update {
                handle: source.handle,
                object: hash,
                if_match: base_revision(source),
            },
        ),
{
}

/// A resolution is pushed by the next sync, conditioned on the revision the
/// conflict was resolved against.
pub proof fn a_resolution_is_pushed(
    opts: ReplicaSyncOptions,
    collection: Text,
    source: PlacementView,
    hash: Text,
    meta: Option<Text>,
    sort_key: Option<Text>,
    item: RemoteItemView,
)
    requires
        source.status is Conflict,
        source.conflict_object != Some(hash),
        item.handle == source.handle,
        !revised(item, source.conflict_revision),
        pushes_content(opts),
    ensures
        merged(
            opts,
            collection,
            CandidateView {
                handle: source.handle,
                local: Some(rewritten(source, hash, meta, sort_key)),
                remote: Some(item),
            },
        ).change == Some(
            ChangeKindView::Update {
                handle: source.handle,
                object: hash,
                if_match: source.conflict_revision,
            },
        ),
{
}

/// A new item is pushed by the next sync as an upload of its body.
pub proof fn an_authored_item_is_pushed_as_an_upload(
    opts: ReplicaSyncOptions,
    collection: Text,
    handle: Text,
    link_id: Text,
    flags: FlagsView,
    hash: Text,
    meta: Option<Text>,
    sort_key: Text,
)
    requires
        pushes_adds(opts),
    ensures
        merged(
            opts,
            collection,
            CandidateView {
                handle,
                local: Some(
                    authored(collection, handle, link_id, flags, hash, meta, sort_key),
                ),
                remote: None,
            },
        ).change == Some(
            ChangeKindView::Add {
                handle,
                link_id: Some(link_id),
                flags,
                origin: None,
                object: Some(hash),
            },
        ),
{
}

/// A copy is pushed by the next sync of its target as a copy of its source.
pub proof fn a_copy_is_pushed_with_its_origin(
    opts: ReplicaSyncOptions,
    source: PlacementView,
    target: Text,
    placeholder: Text,
)
    requires
        pushes_adds(opts),
    ensures
        merged(
            opts,
            target,
            CandidateView {
                handle: placeholder,
                local: Some(staged_copy(source, target, placeholder)),
                remote: None,
            },
        ).change == Some(
            ChangeKindView::Add {
                handle: placeholder,
                link_id: source.link_id,
                flags: source.flags,
                origin: Some(
                    OriginView { collection: source.collection, handle: source.handle },
                ),
                object: source.object,
            },
        ),
{
}

} // verus!
