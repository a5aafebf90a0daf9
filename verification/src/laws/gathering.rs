//! What a sync decides on, told from the rows it loads and what the remote
//! enumerates: each handle with what both sides hold for it, and the frozen
//! rows released before.

use vstd::prelude::*;

use crate::change::WriteOpView;
use crate::laws::flowing::left_to_merge;
use crate::laws::joining::{
    a_complete_snapshot_decides_every_handle, a_delta_decides_what_narrowing_keeps,
    a_listed_handle_means_its_first_item,
};
use crate::order::{ascending, lemma_ascending, Text};
use crate::placement::{PlacementView, ReplicaStatus};
use crate::remote::{RemoteItemView, RemoteSnapshotView};
use crate::sync::join::{by_handle, joined, listed, narrow, narrowed, paired};
use crate::sync::reconcile::CandidateView;
use crate::sync::thaw::{is_gone, remaining, thaw_writes, thawed, thawed_all};
use crate::sync::{opened, seen, SyncView};

verus! {

/// Whether the row at `k` is the last one loaded for a handle.
pub open spec fn is_last_for(rows: Seq<PlacementView>, handle: Text, k: int) -> bool {
    &&& 0 <= k < rows.len()
    &&& rows[k].handle == handle
    &&& forall|m: int| k < m < rows.len() ==> (#[trigger] rows[m]).handle != handle
}

/// Of the rows loaded for a handle the last one counts, and no handle has a
/// row that none was loaded for.
pub proof fn the_last_row_loaded_counts(rows: Seq<PlacementView>, handle: Text)
    ensures
        by_handle(rows).contains_key(handle) <==> exists|k: int| is_last_for(rows, handle, k),
        forall|k: int| #[trigger] is_last_for(rows, handle, k) ==> by_handle(rows)[handle]
            == rows[k],
    decreases rows.len(),
{
    if rows.len() > 0 {
        let (before, last) = (rows.drop_last(), rows.len() - 1);
        the_last_row_loaded_counts(before, handle);
        if rows[last].handle == handle {
            assert(is_last_for(rows, handle, last));
        } else {
            assert forall|k: int|
                is_last_for(rows, handle, k) <==> #[trigger] is_last_for(before, handle, k) by {
                if is_last_for(before, handle, k) {
                    assert forall|m: int| k < m < rows.len() implies (#[trigger] rows[m]).handle
                        != handle by {
                        if m < last {
                            assert(before[m] == rows[m]);
                        }
                    }
                }
                if is_last_for(rows, handle, k) {
                    assert forall|m: int| k < m < before.len() implies (
                    #[trigger] before[m]).handle != handle by {
                        assert(before[m] == rows[m]);
                    }
                }
            }
            if by_handle(rows).contains_key(handle) {
                let k = choose|k: int| is_last_for(before, handle, k);
                assert(is_last_for(rows, handle, k));
            }
            assert forall|k: int| #[trigger] is_last_for(rows, handle, k) implies by_handle(
                rows,
            )[handle] == rows[k] by {
                assert(is_last_for(before, handle, k));
                assert(before[k] == rows[k]);
            }
            if exists|k: int| is_last_for(rows, handle, k) {
                let k = choose|k: int| is_last_for(rows, handle, k);
                assert(is_last_for(before, handle, k));
            }
        }
    }
}

/// Whether the item at `k` is the first one enumerated for a handle.
pub open spec fn is_first_for(items: Seq<RemoteItemView>, handle: Text, k: int) -> bool {
    &&& 0 <= k < items.len()
    &&& items[k].handle == handle
    &&& forall|m: int| 0 <= m < k ==> (#[trigger] items[m]).handle != handle
}

/// Whether an item is enumerated for a handle.
pub open spec fn is_enumerated(items: Seq<RemoteItemView>, handle: Text) -> bool {
    exists|k: int| 0 <= k < items.len() && (#[trigger] items[k]).handle == handle
}

/// Whether an enumeration shows a handle to be gone: a complete one by
/// leaving it out, a delta by naming it.
pub open spec fn shows_gone(snapshot: RemoteSnapshotView, handle: Text) -> bool {
    if snapshot.complete {
        !is_enumerated(snapshot.items, handle)
    } else {
        snapshot.vanished.contains(handle)
    }
}

/// Whether a row is frozen on a copy an enumeration shows to be gone.
pub open spec fn is_loosened(snapshot: RemoteSnapshotView, p: PlacementView) -> bool {
    p.status is Ambiguous && exists|k: int|
        0 <= k < p.ambiguous_handles.len() && shows_gone(snapshot, #[trigger] p.ambiguous_handles[k])
}

/// A row once an enumeration is taken into account: it stays frozen on the
/// copies still there, and without any left it is what its own state stands
/// for, a conflict recorded coming first.
pub open spec fn released(snapshot: RemoteSnapshotView, p: PlacementView) -> PlacementView {
    let left = p.ambiguous_handles.filter(|h: Text| !shows_gone(snapshot, h));
    if !is_loosened(snapshot, p) {
        p
    } else if left.len() > 0 {
        PlacementView { ambiguous_handles: left, ..p }
    } else {
        PlacementView {
            ambiguous_handles: left,
            status: if p.conflict_revision is Some {
                ReplicaStatus::Conflict
            } else if p.base is None {
                ReplicaStatus::Created
            } else if p.flags == p.base->0.flags && (p.object is None || p.object
                == p.base->0.object) {
                ReplicaStatus::Clean
            } else {
                ReplicaStatus::Dirty
            },
            ..p
        }
    }
}

proof fn lemma_enumerated(items: Seq<RemoteItemView>, handle: Text)
    ensures
        listed(items).contains_key(handle) <==> is_enumerated(items, handle),
        is_enumerated(items, handle) ==> exists|k: int| is_first_for(items, handle, k),
        forall|k: int| #[trigger] is_first_for(items, handle, k) ==> listed(items)[handle]
            == items[k],
{
    a_listed_handle_means_its_first_item(items);
    if listed(items).contains_key(handle) {
        let i = choose|i: int|
            0 <= i < items.len() && (#[trigger] items[i]).handle == handle && listed(items)[handle]
                == items[i] && forall|j: int|
                0 <= j < i ==> (#[trigger] items[j]).handle != handle;
        assert(is_first_for(items, handle, i));
        assert forall|k: int| #[trigger] is_first_for(items, handle, k) implies listed(
            items,
        )[handle] == items[k] by {
            if i < k {
                assert(items[i].handle != handle);
            } else if k < i {
                assert(items[k].handle != handle);
            }
        }
    }
}

proof fn lemma_gone(snapshot: RemoteSnapshotView, handle: Text)
    ensures
        is_gone(seen(snapshot), handle) == shows_gone(snapshot, handle),
{
    lemma_enumerated(snapshot.items, handle);
}

proof fn lemma_remaining(snapshot: RemoteSnapshotView, handles: Seq<Text>)
    ensures
        remaining(seen(snapshot), handles) == handles.filter(
            |h: Text| !shows_gone(snapshot, h),
        ),
        remaining(seen(snapshot), handles).len() <= handles.len(),
        remaining(seen(snapshot), handles).len() < handles.len() <==> exists|k: int|
            0 <= k < handles.len() && shows_gone(snapshot, #[trigger] handles[k]),
    decreases handles.len(),
{
    reveal(Seq::filter);
    if handles.len() > 0 {
        let (before, last) = (handles.drop_last(), handles.last());
        lemma_remaining(snapshot, before);
        lemma_gone(snapshot, last);
        assert(handles[handles.len() - 1] == last);
        if exists|k: int| 0 <= k < before.len() && shows_gone(snapshot, #[trigger] before[k]) {
            let k = choose|k: int|
                0 <= k < before.len() && shows_gone(snapshot, #[trigger] before[k]);
            assert(shows_gone(snapshot, handles[k]));
        }
        if exists|k: int| 0 <= k < handles.len() && shows_gone(snapshot, #[trigger] handles[k]) {
            let k = choose|k: int|
                0 <= k < handles.len() && shows_gone(snapshot, #[trigger] handles[k]);
            if k < before.len() {
                assert(shows_gone(snapshot, before[k]));
            }
        }
    }
}

proof fn lemma_released(snapshot: RemoteSnapshotView, p: PlacementView)
    ensures
        thawed(seen(snapshot), p) == released(snapshot, p),
        (p.status is Ambiguous && remaining(seen(snapshot), p.ambiguous_handles).len()
            < p.ambiguous_handles.len()) == is_loosened(snapshot, p),
{
    lemma_remaining(snapshot, p.ambiguous_handles);
}

proof fn lemma_released_writes(
    snapshot: RemoteSnapshotView,
    local: Map<Text, PlacementView>,
    handles: Seq<Text>,
)
    ensures
        thaw_writes(seen(snapshot), local, handles) == handles.filter(
            |h: Text| is_loosened(snapshot, local[h]),
        ).map_values(|h: Text| WriteOpView::UpsertPlacement(released(snapshot, local[h]))),
    decreases handles.len(),
{
    reveal(Seq::filter);
    let kind = |h: Text| is_loosened(snapshot, local[h]);
    let write = |h: Text| WriteOpView::UpsertPlacement(released(snapshot, local[h]));
    if handles.len() > 0 {
        let (before, last) = (handles.drop_last(), handles.last());
        lemma_released_writes(snapshot, local, before);
        lemma_released(snapshot, local[last]);
        if kind(last) {
            assert(before.filter(kind).push(last).map_values(write) =~= before.filter(
                kind,
            ).map_values(write).push(write(last)));
        }
    } else {
        assert(thaw_writes(seen(snapshot), local, handles) =~= handles.filter(kind).map_values(
            write,
        ));
    }
}

/// Every row an enumeration loosens is stored as released, in the order of
/// the handles, ahead of all the sync decides; the sync ends on the
/// checkpoint enumerated.
pub proof fn loosened_rows_are_stored_first(s: SyncView, snapshot: RemoteSnapshotView)
    ensures
        ({
            let t = opened(s, snapshot);
            &&& t.writes == s.writes + ascending(s.local.dom()).filter(
                |h: Text| is_loosened(snapshot, s.local[h]),
            ).map_values(|h: Text| WriteOpView::UpsertPlacement(released(snapshot, s.local[h])))
            &&& t.merging is Some
            &&& t.merging->0.checkpoint == snapshot.checkpoint
            &&& t.pushes == s.pushes
            &&& t.report == s.report
            &&& t.opts == s.opts
            &&& t.collection == s.collection
        }),
{
    lemma_released_writes(snapshot, s.local, ascending(s.local.dom()));
}

/// Whether a candidate is what both sides hold for its handle: the row,
/// released, and the first item enumerated for it. Of a handle a delta names
/// as gone there is no item; of one it says nothing about, what was last
/// synced stands in, at the revision of a conflict where there is one, and
/// it is about something pending.
pub open spec fn is_gathered(
    local: Map<Text, PlacementView>,
    snapshot: RemoteSnapshotView,
    c: CandidateView,
) -> bool {
    let named = !snapshot.complete && snapshot.vanished.contains(c.handle);
    &&& c.local == if local.contains_key(c.handle) {
        Some(released(snapshot, local[c.handle]))
    } else {
        None
    }
    &&& c.local is Some || is_enumerated(snapshot.items, c.handle)
    &&& named ==> c.remote is None
    &&& !named ==> forall|k: int| #[trigger]
        is_first_for(snapshot.items, c.handle, k) ==> c.remote == Some(snapshot.items[k])
    &&& !named && !is_enumerated(snapshot.items, c.handle) && snapshot.complete ==> c.remote is None
    &&& !named && !is_enumerated(snapshot.items, c.handle) && !snapshot.complete ==> {
        let p = c.local->0;
        &&& !(p.status is Clean)
        &&& c.remote == if p.base is Some {
            Some(
                RemoteItemView {
                    handle: c.handle,
                    flags: p.base->0.flags,
                    revision: if p.conflict_revision is Some {
                        p.conflict_revision
                    } else {
                        p.base->0.revision
                    },
                },
            )
        } else {
            None
        }
    }
}

/// Whether a handle is one to decide on: a complete enumeration decides every
/// one either side holds; a delta those it names, and those with something
/// pending.
pub open spec fn is_to_decide(
    local: Map<Text, PlacementView>,
    snapshot: RemoteSnapshotView,
    handle: Text,
) -> bool {
    let held = local.contains_key(handle);
    ||| is_enumerated(snapshot.items, handle)
    ||| held && snapshot.complete
    ||| held && snapshot.vanished.contains(handle)
    ||| held && !(released(snapshot, local[handle]).status is Clean)
}

proof fn lemma_gathered_one(
    local: Map<Text, PlacementView>,
    snapshot: RemoteSnapshotView,
    handle: Text,
)
    ensures
        ({
            let rows = thawed_all(seen(snapshot), local);
            let pair = paired(rows, listed(snapshot.items), handle);
            &&& rows.contains_key(handle) || listed(snapshot.items).contains_key(handle) ==> {
                &&& snapshot.complete ==> is_gathered(local, snapshot, pair)
                &&& !snapshot.complete ==> match narrow(snapshot.vanished.to_set(), pair) {
                    Some(c) => c.handle == handle && is_gathered(local, snapshot, c)
                        && is_to_decide(local, snapshot, handle),
                    None => !is_to_decide(local, snapshot, handle),
                }
            }
        }),
{
    lemma_enumerated(snapshot.items, handle);
    if local.contains_key(handle) {
        lemma_released(snapshot, local[handle]);
    }
    assert(snapshot.vanished.to_set().contains(handle) == snapshot.vanished.contains(handle));
    if !is_enumerated(snapshot.items, handle) {
        assert forall|k: int| !(#[trigger] is_first_for(snapshot.items, handle, k)) by {
            if is_first_for(snapshot.items, handle, k) {
                assert(snapshot.items[k].handle == handle);
            }
        }
    }
}

proof fn lemma_narrowed_from(
    complete: bool,
    vanished: Set<Text>,
    q: Seq<CandidateView>,
    i: int,
) -> (j: int)
    requires
        0 <= i < narrowed(complete, vanished, q).len(),
    ensures
        0 <= j < q.len(),
        complete ==> narrowed(complete, vanished, q)[i] == q[j],
        !complete ==> narrow(vanished, q[j]) == Some(narrowed(complete, vanished, q)[i]),
    decreases q.len(),
{
    let all = narrowed(complete, vanished, q);
    let rest = narrowed(complete, vanished, q.drop_first());
    if complete || narrow(vanished, q.first()) is Some {
        if i == 0 {
            0
        } else {
            assert(all[i] == rest[i - 1]);
            lemma_narrowed_from(complete, vanished, q.drop_first(), i - 1) + 1
        }
    } else {
        lemma_narrowed_from(complete, vanished, q.drop_first(), i) + 1
    }
}

/// Every candidate of a sync is what both sides hold for its handle.
pub proof fn every_candidate_is_what_both_sides_hold(
    s: SyncView,
    snapshot: RemoteSnapshotView,
    i: int,
)
    requires
        s.local.dom().finite(),
        0 <= i < left_to_merge(opened(s, snapshot)).len(),
    ensures
        is_gathered(s.local, snapshot, left_to_merge(opened(s, snapshot))[i]),
        is_to_decide(s.local, snapshot, left_to_merge(opened(s, snapshot))[i].handle),
{
    let rows = thawed_all(seen(snapshot), s.local);
    let remote = listed(snapshot.items);
    let q = joined(rows, remote);
    let j = lemma_narrowed_from(snapshot.complete, snapshot.vanished.to_set(), q, i);
    let handle = ascending(rows.dom().union(remote.dom()))[j];
    a_listed_handle_means_its_first_item(snapshot.items);
    assert(rows.dom() =~= s.local.dom());
    lemma_ascending(rows.dom().union(remote.dom()));
    assert(ascending(rows.dom().union(remote.dom())).contains(handle));
    assert(q[j] == paired(rows, remote, handle));
    lemma_gathered_one(s.local, snapshot, handle);
    lemma_enumerated(snapshot.items, handle);
}

/// Every handle there is something to decide on is a candidate of the sync.
pub proof fn every_handle_to_decide_is_a_candidate(
    s: SyncView,
    snapshot: RemoteSnapshotView,
    handle: Text,
)
    requires
        s.local.dom().finite(),
        is_to_decide(s.local, snapshot, handle),
    ensures
        exists|i: int|
            0 <= i < left_to_merge(opened(s, snapshot)).len() && (#[trigger] left_to_merge(
                opened(s, snapshot),
            )[i]).handle == handle,
{
    let rows = thawed_all(seen(snapshot), s.local);
    let remote = listed(snapshot.items);
    let q = left_to_merge(opened(s, snapshot));
    let pair = paired(rows, remote, handle);
    assert(rows.dom() =~= s.local.dom());
    lemma_enumerated(snapshot.items, handle);
    lemma_gathered_one(s.local, snapshot, handle);
    if snapshot.complete {
        a_complete_snapshot_decides_every_handle(rows, snapshot, handle);
        let i = choose|i: int| 0 <= i < q.len() && q[i] == pair;
        assert(q[i].handle == handle);
    } else {
        a_delta_decides_what_narrowing_keeps(rows, snapshot, handle);
        let c = narrow(snapshot.vanished.to_set(), pair)->0;
        let i = choose|i: int| 0 <= i < q.len() && q[i] == c;
        assert(q[i].handle == handle);
    }
}

} // verus!
