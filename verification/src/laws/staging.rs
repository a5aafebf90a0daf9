//! What a mutation stores, told from the row it reads and what it asks for.

use vstd::prelude::*;

use crate::change::WriteOpView;
use crate::coroutine::{ArgView, StepView, YieldView};
use crate::laws::mutating::{
    a_mutation_is_refused_exactly_where_its_handle_is_unknown,
    an_add_is_refused_exactly_where_its_link_is_held,
};
use crate::mutate::{
    first_with, mutate_step, MutateErrorView, MutatePhase, MutateView, MutationView,
};
use crate::order::Text;
use crate::placement::{BaseView, OriginView, PlacementView, ReplicaLevel, ReplicaStatus};
use crate::storage::{LoadScopeView, LoadedView};

verus! {

/// Whether a load gives a mutation the row of a handle: the first loaded
/// that holds it.
pub open spec fn reads(placements: Seq<PlacementView>, handle: Text, source: PlacementView) -> bool {
    exists|i: int|
        0 <= i < placements.len() && (#[trigger] placements[i]) == source && source.handle
            == handle && forall|j: int| 0 <= j < i ==> (#[trigger] placements[j]).handle != handle
}

proof fn lemma_reads(placements: Seq<PlacementView>, handle: Text, source: PlacementView)
    requires
        reads(placements, handle, source),
    ensures
        first_with(placements, handle) == Some(source),
    decreases placements.len(),
{
    let i = choose|i: int|
        0 <= i < placements.len() && (#[trigger] placements[i]) == source && source.handle
            == handle && forall|j: int| 0 <= j < i ==> (#[trigger] placements[j]).handle != handle;
    if i > 0 {
        let rest = placements.drop_first();
        assert(placements[0].handle != handle);
        assert(rest[i - 1] == source);
        assert forall|j: int| 0 <= j < i - 1 implies (#[trigger] rest[j]).handle != handle by {
            assert(rest[j] == placements[j + 1]);
        }
        lemma_reads(rest, handle, source);
    } else {
        assert(placements[0] == source);
    }
}

/// Whether taking up a load hands exactly some writes over.
pub open spec fn stores(s: MutateView, loaded: LoadedView, ops: Seq<WriteOpView>) -> bool {
    let (t, out) = mutate_step(s, Some(ArgView::Load(loaded)));
    &&& out matches StepView::Yielded(YieldView::WantsWrite(writes)) && writes == ops
    &&& t == (MutateView { phase: MutatePhase::PendingWrite, ..s })
}

/// A mutation reads the one row it is about, or every row holding the
/// identity a new item must not share, and is done once its writes are
/// stored.
pub proof fn a_mutation_reads_what_it_is_about(s: MutateView)
    ensures
        s.phase is Start ==> {
            let (t, out) = mutate_step(s, None);
            &&& t == (MutateView { phase: MutatePhase::PendingLoad, ..s })
            &&& out matches StepView::Yielded(YieldView::WantsLoad { collection, scope })
                && collection == s.collection && match s.mutation {
                MutationView::SetFlags { handle, .. } => scope == LoadScopeView::Handles(
                    seq![handle],
                ),
                MutationView::Remove(handle) => scope == LoadScopeView::Handles(seq![handle]),
                MutationView::Edit { handle, .. } => scope == LoadScopeView::Handles(seq![handle]),
                MutationView::Copy { handle, .. } => scope == LoadScopeView::Handles(seq![handle]),
                MutationView::Move { handle, .. } => scope == LoadScopeView::Handles(seq![handle]),
                MutationView::Add { link_id, .. } => scope == LoadScopeView::Links(seq![link_id]),
            }
        },
        s.phase is PendingWrite ==> {
            let (t, out) = mutate_step(s, Some(ArgView::Write));
            t == (MutateView { phase: MutatePhase::Done, ..s }) && out is Done
        },
{
}

/// A flag change replaces the whole flag set of the row and nothing else,
/// and makes a clean row pending.
pub proof fn a_flag_change_stores_the_flags_asked_for(
    s: MutateView,
    loaded: LoadedView,
    source: PlacementView,
)
    requires
        s.phase is PendingLoad,
        s.mutation is SetFlags,
        reads(loaded.placements, s.mutation->SetFlags_handle, source),
    ensures
        stores(
            s,
            loaded,
            seq![
                WriteOpView::UpsertPlacement(
                    PlacementView {
                        flags: s.mutation->SetFlags_flags,
                        status: if source.status is Clean {
                            ReplicaStatus::Dirty
                        } else {
                            source.status
                        },
                        ..source
                    },
                ),
            ],
        ),
{
    lemma_reads(loaded.placements, s.mutation->SetFlags_handle, source);
}

/// A delete keeps the row, with all it holds, as a tombstone.
pub proof fn a_delete_stores_a_tombstone(s: MutateView, loaded: LoadedView, source: PlacementView)
    requires
        s.phase is PendingLoad,
        s.mutation is Remove,
        reads(loaded.placements, s.mutation->Remove_0, source),
    ensures
        stores(
            s,
            loaded,
            seq![
                WriteOpView::UpsertPlacement(
                    PlacementView { status: ReplicaStatus::Tombstone, ..source },
                ),
            ],
        ),
{
    lemma_reads(loaded.placements, s.mutation->Remove_0, source);
}

/// An edit stores the bytes handed in under the object given, ahead of the
/// row, which then points at that object, holds it whole, and keeps the
/// cached summary and key where no new ones are given.
pub proof fn an_edit_stores_its_bytes_ahead_of_its_row(
    s: MutateView,
    loaded: LoadedView,
    source: PlacementView,
)
    requires
        s.phase is PendingLoad,
        s.mutation is Edit,
        reads(loaded.placements, s.mutation->Edit_handle, source),
    ensures
        ({
            let (t, out) = mutate_step(s, Some(ArgView::Load(loaded)));
            let ops = out->Yielded_0->WantsWrite_0;
            let p = ops[1]->UpsertPlacement_0;
            &&& stores(s, loaded, ops)
            &&& ops.len() == 2
            &&& ops[0] == (WriteOpView::StoreObject {
                object: s.mutation->Edit_object,
                body: Some(s.mutation->Edit_body),
            })
            &&& ops[1] is UpsertPlacement
            &&& p == (PlacementView {
                object: Some(s.mutation->Edit_object.hash),
                level: ReplicaLevel::Full,
                meta: p.meta,
                sort_key: p.sort_key,
                status: p.status,
                base: p.base,
                conflict_revision: p.conflict_revision,
                conflict_object: p.conflict_object,
                ..source
            })
            &&& p.meta == if s.mutation->Edit_meta is Some {
                s.mutation->Edit_meta
            } else {
                source.meta
            }
            &&& p.sort_key == if s.mutation->Edit_sort_key is Some {
                s.mutation->Edit_sort_key->0
            } else {
                source.sort_key
            }
        }),
{
    lemma_reads(loaded.placements, s.mutation->Edit_handle, source);
}

/// How an edited row stands: an edit that restates the body last synced
/// leaves it as it was, any other makes it pending, a create staying one.
/// Editing a conflict resolves it: the row is then based on the remote state
/// it was resolved against, and pending.
pub proof fn an_edit_is_pending_or_resolves(
    s: MutateView,
    loaded: LoadedView,
    source: PlacementView,
)
    requires
        s.phase is PendingLoad,
        s.mutation is Edit,
        reads(loaded.placements, s.mutation->Edit_handle, source),
    ensures
        ({
            let out = mutate_step(s, Some(ArgView::Load(loaded))).1;
            let p = out->Yielded_0->WantsWrite_0[1]->UpsertPlacement_0;
            if source.status is Conflict {
                &&& p.status is Dirty
                &&& p.conflict_revision is None
                &&& p.conflict_object is None
                &&& p.base == Some(
                    BaseView {
                        flags: if source.base is Some {
                            source.base->0.flags
                        } else {
                            source.flags
                        },
                        revision: source.conflict_revision,
                        object: source.conflict_object,
                    },
                )
            } else {
                &&& p.base == source.base
                &&& p.conflict_revision == source.conflict_revision
                &&& p.conflict_object == source.conflict_object
                &&& p.status == if source.status is Created || (source.base is Some
                    && source.base->0.object == Some(s.mutation->Edit_object.hash)) {
                    source.status
                } else {
                    ReplicaStatus::Dirty
                }
            }
        }),
{
    lemma_reads(loaded.placements, s.mutation->Edit_handle, source);
}

/// Whether a row is a pending create of another's member, in a collection
/// and under a handle: it holds what is cached of it, and where it comes
/// from.
pub open spec fn copies(
    p: PlacementView,
    source: PlacementView,
    collection: Text,
    handle: Text,
) -> bool {
    &&& p.collection == collection
    &&& p.handle == handle
    &&& p.link_id == source.link_id
    &&& p.object == source.object
    &&& p.level == source.level
    &&& p.meta == source.meta
    &&& p.sort_key == source.sort_key
    &&& p.flags == source.flags
    &&& p.status is Created
    &&& p.conflict_revision is None
    &&& p.conflict_object is None
    &&& p.base is None
    &&& p.origin == Some(OriginView { collection: source.collection, handle: source.handle })
    &&& p.ambiguous_handles.len() == 0
}

/// A copy stores one row: the pending create in its target.
pub proof fn a_copy_stores_a_create_of_its_source(
    s: MutateView,
    loaded: LoadedView,
    source: PlacementView,
)
    requires
        s.phase is PendingLoad,
        s.mutation is Copy,
        reads(loaded.placements, s.mutation->Copy_handle, source),
    ensures
        ({
            let ops = mutate_step(s, Some(ArgView::Load(loaded))).1->Yielded_0->WantsWrite_0;
            &&& stores(s, loaded, ops)
            &&& ops.len() == 1
            &&& ops[0] matches WriteOpView::UpsertPlacement(p) && copies(
                p,
                source,
                s.mutation->Copy_target,
                s.mutation->Copy_placeholder,
            )
        }),
{
    lemma_reads(loaded.placements, s.mutation->Copy_handle, source);
}

/// A move stores its source as a tombstone with its destination, after the
/// pending create in its target where the item can be told from a copy of
/// it.
pub proof fn a_move_stores_both_its_halves(
    s: MutateView,
    loaded: LoadedView,
    source: PlacementView,
)
    requires
        s.phase is PendingLoad,
        s.mutation is Move,
        reads(loaded.placements, s.mutation->Move_handle, source),
    ensures
        ({
            let ops = mutate_step(s, Some(ArgView::Load(loaded))).1->Yielded_0->WantsWrite_0;
            &&& stores(s, loaded, ops)
            &&& ops.last() == WriteOpView::UpsertPlacement(
                PlacementView {
                    status: ReplicaStatus::Tombstone,
                    origin: Some(
                        OriginView { collection: s.mutation->Move_target, handle: source.handle },
                    ),
                    ..source
                },
            )
            &&& if source.link_id is Some {
                &&& ops.len() == 2
                &&& ops[0] matches WriteOpView::UpsertPlacement(p) && copies(
                    p,
                    source,
                    s.mutation->Move_target,
                    s.mutation->Move_placeholder,
                )
            } else {
                ops.len() == 1
            }
        }),
{
    lemma_reads(loaded.placements, s.mutation->Move_handle, source);
}

/// A new item stores its bytes under the object given, ahead of its row: a
/// pending create with no base and no origin, holding all that was handed
/// in.
pub proof fn a_new_item_stores_its_bytes_ahead_of_its_row(s: MutateView, loaded: LoadedView)
    requires
        s.phase is PendingLoad,
        s.mutation is Add,
        forall|i: int|
            0 <= i < loaded.placements.len() ==> (#[trigger] loaded.placements[i]).status
                is Tombstone || loaded.placements[i].link_id != Some(s.mutation->Add_link_id),
    ensures
        ({
            let ops = mutate_step(s, Some(ArgView::Load(loaded))).1->Yielded_0->WantsWrite_0;
            &&& stores(s, loaded, ops)
            &&& ops.len() == 2
            &&& ops[0] == (WriteOpView::StoreObject {
                object: s.mutation->Add_object,
                body: Some(s.mutation->Add_body),
            })
            &&& ops[1] matches WriteOpView::UpsertPlacement(p) && {
                &&& p.collection == s.collection
                &&& p.handle == s.mutation->Add_handle
                &&& p.link_id == Some(s.mutation->Add_link_id)
                &&& p.object == Some(s.mutation->Add_object.hash)
                &&& p.level is Full
                &&& p.meta == s.mutation->Add_meta
                &&& p.sort_key == s.mutation->Add_sort_key
                &&& p.flags == s.mutation->Add_flags
                &&& p.status is Created
                &&& p.conflict_revision is None
                &&& p.conflict_object is None
                &&& p.base is None
                &&& p.origin is None
                &&& p.ambiguous_handles.len() == 0
            }
        }),
{
}

/// The handle of the row a mutation is about, where it is about one.
pub open spec fn is_about(mutation: MutationView, about: Text) -> bool {
    match mutation {
        MutationView::SetFlags { handle, .. } => handle == about,
        MutationView::Remove(handle) => handle == about,
        MutationView::Edit { handle, .. } => handle == about,
        MutationView::Copy { handle, .. } => handle == about,
        MutationView::Move { handle, .. } => handle == about,
        MutationView::Add { .. } => false,
    }
}

/// A mutation of a row that is not there fails on its handle, and a new item
/// whose identity a live row holds fails on that identity; either stores
/// nothing. A row deleted here holds none.
pub proof fn what_cannot_be_mutated_is_refused(
    s: MutateView,
    loaded: LoadedView,
    handle: Text,
)
    requires
        s.phase is PendingLoad,
    ensures
        is_about(s.mutation, handle) ==> {
            let (t, out) = mutate_step(s, Some(ArgView::Load(loaded)));
            if exists|i: int|
                0 <= i < loaded.placements.len() && (#[trigger] loaded.placements[i]).handle
                    == handle {
                out is Yielded
            } else {
                t == s && out is Failed && out->Failed_0 == MutateErrorView::UnknownHandle(handle)
            }
        },
        s.mutation matches MutationView::Add { link_id, .. } ==> {
            let (t, out) = mutate_step(s, Some(ArgView::Load(loaded)));
            if exists|i: int|
                0 <= i < loaded.placements.len() && (#[trigger] loaded.placements[i]).link_id
                    == Some(link_id) && !(loaded.placements[i].status is Tombstone) {
                t == s && out is Failed && out->Failed_0 == MutateErrorView::LinkExists(link_id)
            } else {
                out is Yielded
            }
        },
{
    if is_about(s.mutation, handle) {
        a_mutation_is_refused_exactly_where_its_handle_is_unknown(s, loaded.placements);
    } else if s.mutation is Add {
        an_add_is_refused_exactly_where_its_link_is_held(s, loaded.placements);
    }
}

} // verus!
