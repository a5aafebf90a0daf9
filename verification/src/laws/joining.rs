//! Which handles a run decides, and in what order.

use vstd::prelude::*;

use crate::order::{ascending, lemma_ascending, less, Text};
use crate::placement::PlacementView;
use crate::remote::{RemoteItemView, RemoteSnapshotView};
use crate::sync::join::{
    by_handle, candidates, joined, lemma_narrowed_complete, listed, narrow, narrowed, paired,
    stand_in,
};
use crate::sync::reconcile::CandidateView;

verus! {

/// Whether each placement is filed under its own handle.
pub open spec fn is_filed(local: Map<Text, PlacementView>) -> bool {
    local.dom().finite() && forall|h: Text| #[trigger]
        local.contains_key(h) ==> local[h].handle == h
}

/// A load files each placement under its own handle.
pub proof fn a_load_is_filed(placements: Seq<PlacementView>)
    ensures
        is_filed(by_handle(placements)),
    decreases placements.len(),
{
    if placements.len() > 0 {
        a_load_is_filed(placements.drop_last());
    }
}

/// What an enumeration lists: a handle is listed exactly where an item names
/// it, and means the first item that does.
pub proof fn a_listed_handle_means_its_first_item(items: Seq<RemoteItemView>)
    ensures
        listed(items).dom().finite(),
        forall|h: Text| #[trigger]
            listed(items).contains_key(h) ==> exists|i: int|
                0 <= i < items.len() && (#[trigger] items[i]).handle == h && listed(items)[h]
                    == items[i] && forall|j: int|
                    0 <= j < i ==> (#[trigger] items[j]).handle != h,
        forall|i: int|
            0 <= i < items.len() ==> listed(items).contains_key((#[trigger] items[i]).handle),
    decreases items.len(),
{
    if items.len() > 0 {
        let before = items.drop_last();
        a_listed_handle_means_its_first_item(before);
        let (old, all) = (listed(before), listed(items));
        let last = items.last();
        assert forall|h: Text| #[trigger] all.contains_key(h) implies exists|i: int|
            0 <= i < items.len() && (#[trigger] items[i]).handle == h && all[h] == items[i]
                && forall|j: int| 0 <= j < i ==> (#[trigger] items[j]).handle != h by {
            if old.contains_key(h) {
                let i = choose|i: int|
                    0 <= i < before.len() && (#[trigger] before[i]).handle == h && old[h]
                        == before[i] && forall|j: int|
                        0 <= j < i ==> (#[trigger] before[j]).handle != h;
                assert(items[i] == before[i]);
                assert forall|j: int| 0 <= j < i implies (#[trigger] items[j]).handle != h by {
                    assert(before[j] == items[j]);
                }
            } else {
                let i = items.len() - 1;
                assert(items[i] == last);
                assert forall|j: int| 0 <= j < i implies (#[trigger] items[j]).handle != h by {
                    assert(before[j] == items[j]);
                }
            }
        }
        assert forall|i: int| 0 <= i < items.len() implies all.contains_key(
            (#[trigger] items[i]).handle,
        ) by {
            if i < before.len() {
                assert(before[i] == items[i]);
            }
        }
    }
}

/// Whether no handle is listed twice.
pub open spec fn lists_once(items: Seq<RemoteItemView>) -> bool {
    forall|i: int, j: int|
        0 <= i < j < items.len() ==> (#[trigger] items[i]).handle != (#[trigger] items[j]).handle
}

/// The order of an enumeration does not matter: two that list the same items
/// make the same candidates.
pub proof fn an_unordered_enumeration_merges_like_an_ordered_one(
    local: Map<Text, PlacementView>,
    a: RemoteSnapshotView,
    b: RemoteSnapshotView,
)
    requires
        lists_once(a.items),
        lists_once(b.items),
        forall|item: RemoteItemView| #[trigger] a.items.contains(item) <==> b.items.contains(item),
        a.vanished.to_set() == b.vanished.to_set(),
        a.complete == b.complete,
    ensures
        candidates(local, a) == candidates(local, b),
{
    a_listed_handle_means_its_first_item(a.items);
    a_listed_handle_means_its_first_item(b.items);
    lemma_same_listing(a.items, b.items);
    lemma_same_listing(b.items, a.items);
    assert(listed(a.items) =~= listed(b.items));
}

proof fn lemma_same_listing(a: Seq<RemoteItemView>, b: Seq<RemoteItemView>)
    requires
        lists_once(b),
        forall|item: RemoteItemView| #[trigger] a.contains(item) ==> b.contains(item),
    ensures
        forall|h: Text| #[trigger]
            listed(a).contains_key(h) ==> listed(b).contains_key(h) && listed(b)[h]
                == listed(a)[h],
{
    a_listed_handle_means_its_first_item(a);
    a_listed_handle_means_its_first_item(b);
    assert forall|h: Text| #[trigger] listed(a).contains_key(h) implies listed(b).contains_key(h)
        && listed(b)[h] == listed(a)[h] by {
        let i = choose|i: int|
            0 <= i < a.len() && (#[trigger] a[i]).handle == h && listed(a)[h] == a[i]
                && forall|j: int| 0 <= j < i ==> (#[trigger] a[j]).handle != h;
        assert(a.contains(a[i]));
        let k = choose|k: int| 0 <= k < b.len() && b[k] == a[i];
        assert(listed(b).contains_key(b[k].handle));
        let m = choose|m: int|
            0 <= m < b.len() && (#[trigger] b[m]).handle == h && listed(b)[h] == b[m]
                && forall|j: int| 0 <= j < m ==> (#[trigger] b[j]).handle != h;
        if m < k {
            assert(b[m].handle != b[k].handle);
        } else if k < m {
            assert(b[k].handle != b[m].handle);
        }
    }
}

/// A handle listed again adds nothing.
pub proof fn a_handle_listed_twice_is_merged_once(
    items: Seq<RemoteItemView>,
    again: RemoteItemView,
)
    requires
        exists|i: int| 0 <= i < items.len() && (#[trigger] items[i]).handle == again.handle,
    ensures
        listed(items.push(again)) == listed(items),
{
    a_listed_handle_means_its_first_item(items);
    assert(items.push(again).drop_last() =~= items);
    let i = choose|i: int| 0 <= i < items.len() && (#[trigger] items[i]).handle == again.handle;
    assert(listed(items).contains_key(items[i].handle));
}

/// Whether candidates come in strictly ascending handle order.
pub open spec fn is_in_order(q: Seq<CandidateView>) -> bool {
    forall|i: int, j: int|
        0 <= i < j < q.len() ==> less((#[trigger] q[i]).handle, (#[trigger] q[j]).handle)
}

/// Every candidate is a joined handle, and candidates come in ascending
/// handle order, so each handle is decided at most once.
pub proof fn each_handle_is_decided_at_most_once(
    local: Map<Text, PlacementView>,
    snapshot: RemoteSnapshotView,
)
    requires
        local.dom().finite(),
    ensures
        is_in_order(candidates(local, snapshot)),
        forall|i: int|
            0 <= i < candidates(local, snapshot).len() ==> ({
                let h = (#[trigger] candidates(local, snapshot)[i]).handle;
                local.contains_key(h) || listed(snapshot.items).contains_key(h)
            }),
{
    a_listed_handle_means_its_first_item(snapshot.items);
    let remote = listed(snapshot.items);
    let all = local.dom().union(remote.dom());
    lemma_ascending(all);
    let q = joined(local, remote);
    assert forall|i: int| 0 <= i < q.len() implies all.contains((#[trigger] q[i]).handle) by {
        assert(ascending(all).contains(ascending(all)[i]));
    }
    assert forall|i: int, j: int| 0 <= i < j < q.len() implies less(
        (#[trigger] q[i]).handle,
        (#[trigger] q[j]).handle,
    ) by {
        assert(less(ascending(all)[i], ascending(all)[j]));
    }
    lemma_narrowed_handles(snapshot.complete, snapshot.vanished.to_set(), q);
    let out = candidates(local, snapshot);
    assert forall|i: int| 0 <= i < out.len() implies ({
        let h = (#[trigger] out[i]).handle;
        local.contains_key(h) || remote.contains_key(h)
    }) by {
        let k = choose|k: int| 0 <= k < q.len() && (#[trigger] q[k]).handle == out[i].handle;
        assert(all.contains(q[k].handle));
    }
}

/// Narrowing keeps the order and adds no handle.
proof fn lemma_narrowed_handles(complete: bool, vanished: Set<Text>, q: Seq<CandidateView>)
    requires
        is_in_order(q),
    ensures
        is_in_order(narrowed(complete, vanished, q)),
        forall|i: int|
            0 <= i < narrowed(complete, vanished, q).len() ==> exists|k: int|
                0 <= k < q.len() && (#[trigger] q[k]).handle == (#[trigger] narrowed(
                    complete,
                    vanished,
                    q,
                )[i]).handle,
    decreases q.len(),
{
    if q.len() > 0 {
        let rest = q.drop_first();
        assert forall|i: int, j: int| 0 <= i < j < rest.len() implies less(
            (#[trigger] rest[i]).handle,
            (#[trigger] rest[j]).handle,
        ) by {
            assert(less(q[i + 1].handle, q[j + 1].handle));
        }
        lemma_narrowed_handles(complete, vanished, rest);
        let (tail, out) = (narrowed(complete, vanished, rest), narrowed(complete, vanished, q));
        let shift = out.len() - tail.len();
        assert forall|i: int| 0 <= i < out.len() implies exists|k: int|
            0 <= k < q.len() && (#[trigger] q[k]).handle == (#[trigger] out[i]).handle by {
            if i < shift {
                assert(q[0].handle == out[i].handle);
            } else {
                assert(out[i] == tail[i - shift]);
                let k = choose|k: int|
                    0 <= k < rest.len() && (#[trigger] rest[k]).handle == tail[i - shift].handle;
                assert(q[k + 1].handle == out[i].handle);
            }
        }
        assert forall|i: int, j: int| 0 <= i < j < out.len() implies less(
            (#[trigger] out[i]).handle,
            (#[trigger] out[j]).handle,
        ) by {
            assert(out[j] == tail[j - shift]);
            if i < shift {
                let k = choose|k: int|
                    0 <= k < rest.len() && (#[trigger] rest[k]).handle == tail[j - shift].handle;
                assert(less(q[0].handle, q[k + 1].handle));
            } else {
                assert(out[i] == tail[i - shift]);
            }
        }
    }
}

/// A complete snapshot decides every handle either side holds, each with
/// what both hold for it.
pub proof fn a_complete_snapshot_decides_every_handle(
    local: Map<Text, PlacementView>,
    snapshot: RemoteSnapshotView,
    handle: Text,
)
    requires
        local.dom().finite(),
        snapshot.complete,
        local.contains_key(handle) || listed(snapshot.items).contains_key(handle),
    ensures
        candidates(local, snapshot).contains(paired(local, listed(snapshot.items), handle)),
{
    a_listed_handle_means_its_first_item(snapshot.items);
    let remote = listed(snapshot.items);
    let all = local.dom().union(remote.dom());
    lemma_ascending(all);
    lemma_narrowed_complete(snapshot.vanished.to_set(), joined(local, remote));
    assert(ascending(all).contains(handle));
    let i = choose|i: int| 0 <= i < ascending(all).len() && ascending(all)[i] == handle;
    assert(joined(local, remote)[i] == paired(local, remote, handle));
}

/// A delta decides a joined handle exactly where narrowing keeps it.
pub proof fn a_delta_decides_what_narrowing_keeps(
    local: Map<Text, PlacementView>,
    snapshot: RemoteSnapshotView,
    handle: Text,
)
    requires
        local.dom().finite(),
        !snapshot.complete,
        local.contains_key(handle) || listed(snapshot.items).contains_key(handle),
    ensures
        ({
            let pair = paired(local, listed(snapshot.items), handle);
            match narrow(snapshot.vanished.to_set(), pair) {
                Some(c) => candidates(local, snapshot).contains(c),
                None => forall|i: int|
                    0 <= i < candidates(local, snapshot).len() ==> (#[trigger] candidates(
                        local,
                        snapshot,
                    )[i]).handle != handle,
            }
        }),
{
    a_listed_handle_means_its_first_item(snapshot.items);
    let remote = listed(snapshot.items);
    let all = local.dom().union(remote.dom());
    lemma_ascending(all);
    assert(ascending(all).contains(handle));
    let k = choose|k: int| 0 <= k < ascending(all).len() && ascending(all)[k] == handle;
    let q = joined(local, remote);
    assert(q[k] == paired(local, remote, handle));
    assert forall|i: int, j: int| 0 <= i < j < q.len() implies less(
        (#[trigger] q[i]).handle,
        (#[trigger] q[j]).handle,
    ) by {
        assert(less(ascending(all)[i], ascending(all)[j]));
    }
    lemma_narrowed_keeps(snapshot.vanished.to_set(), q, k);
}

proof fn lemma_narrowed_keeps(vanished: Set<Text>, q: Seq<CandidateView>, k: int)
    requires
        is_in_order(q),
        0 <= k < q.len(),
    ensures
        match narrow(vanished, q[k]) {
            Some(c) => narrowed(false, vanished, q).contains(c),
            None => forall|i: int|
                0 <= i < narrowed(false, vanished, q).len() ==> (#[trigger] narrowed(
                    false,
                    vanished,
                    q,
                )[i]).handle != q[k].handle,
        },
    decreases q.len(),
{
    let rest = q.drop_first();
    assert forall|i: int, j: int| 0 <= i < j < rest.len() implies less(
        (#[trigger] rest[i]).handle,
        (#[trigger] rest[j]).handle,
    ) by {
        assert(less(q[i + 1].handle, q[j + 1].handle));
    }
    let (tail, out) = (narrowed(false, vanished, rest), narrowed(false, vanished, q));
    let shift = out.len() - tail.len();
    lemma_narrowed_handles(false, vanished, rest);
    if k == 0 {
        match narrow(vanished, q[0]) {
            Some(c) => {
                assert(out[0] == c);
            },
            None => {
                assert forall|i: int| 0 <= i < out.len() implies (#[trigger] out[i]).handle
                    != q[0].handle by {
                    let m = choose|m: int|
                        0 <= m < rest.len() && (#[trigger] rest[m]).handle == tail[i].handle;
                    assert(less(q[0].handle, q[m + 1].handle));
                    crate::order::lemma_less_irreflexive(q[0].handle);
                }
            },
        }
    } else {
        lemma_narrowed_keeps(vanished, rest, k - 1);
        assert(rest[k - 1] == q[k]);
        match narrow(vanished, q[k]) {
            Some(c) => {
                let i = choose|i: int| 0 <= i < tail.len() && tail[i] == c;
                assert(out[i + shift] == c);
            },
            None => {
                assert forall|i: int| 0 <= i < out.len() implies (#[trigger] out[i]).handle
                    != q[k].handle by {
                    if i < shift {
                        assert(less(q[0].handle, q[k].handle));
                        crate::order::lemma_less_irreflexive(q[k].handle);
                    } else {
                        assert(out[i] == tail[i - shift]);
                    }
                }
            },
        }
    }
}

/// A delta leaves a clean placement it never mentioned untouched.
pub proof fn a_delta_leaves_an_unlisted_clean_placement_alone(
    local: Map<Text, PlacementView>,
    snapshot: RemoteSnapshotView,
    handle: Text,
)
    requires
        local.dom().finite(),
        !snapshot.complete,
        local.contains_key(handle),
        local[handle].status is Clean,
        !listed(snapshot.items).contains_key(handle),
        !snapshot.vanished.contains(handle),
    ensures
        forall|i: int|
            0 <= i < candidates(local, snapshot).len() ==> (#[trigger] candidates(
                local,
                snapshot,
            )[i]).handle != handle,
{
    a_delta_decides_what_narrowing_keeps(local, snapshot, handle);
}

/// A delta still merges a pending placement it never mentioned, against the
/// state its own base stands for, so its push derives.
pub proof fn a_delta_merges_an_unlisted_pending_placement(
    local: Map<Text, PlacementView>,
    snapshot: RemoteSnapshotView,
    handle: Text,
)
    requires
        local.dom().finite(),
        !snapshot.complete,
        local.contains_key(handle),
        !(local[handle].status is Clean),
        !listed(snapshot.items).contains_key(handle),
        !snapshot.vanished.contains(handle),
    ensures
        candidates(local, snapshot).contains(
            CandidateView {
                handle,
                local: Some(local[handle]),
                remote: stand_in(handle, local[handle]),
            },
        ),
{
    a_delta_decides_what_narrowing_keeps(local, snapshot, handle);
}

/// A handle reported vanished that nothing holds is ignored.
pub proof fn an_unknown_vanished_handle_is_ignored(
    local: Map<Text, PlacementView>,
    snapshot: RemoteSnapshotView,
    handle: Text,
)
    requires
        local.dom().finite(),
        !local.contains_key(handle),
        !listed(snapshot.items).contains_key(handle),
    ensures
        forall|i: int|
            0 <= i < candidates(local, snapshot).len() ==> (#[trigger] candidates(
                local,
                snapshot,
            )[i]).handle != handle,
{
    each_handle_is_decided_at_most_once(local, snapshot);
}

} // verus!
