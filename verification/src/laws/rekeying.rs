//! What survives a change of the handle space.

use vstd::prelude::*;

use crate::change::{ChangeKindView, ReplicaDropReason, WriteOpView};
use crate::coroutine::ArgView;
use crate::laws::flags::an_unchanged_set_stays;
use crate::laws::merging::an_unchanged_placement_is_left_alone;
use crate::order::Text;
use crate::placement::{staged_edit, PlacementView};
use crate::rekey::{
    base_flags, by_link, carried, holds_edit, place, placed, rebuild_report, rebuild_writes,
    rebuilt, rekey_awaits, rekey_refusal, rekey_step, rescue, rescued, resolved_of, spine,
    spine_drops, Rebuilt, RekeyStep, RekeyView, ResolvedView,
};
use crate::remote::RemoteItemView;
use crate::sync::options::ReplicaSyncOptions;
use crate::sync::reconcile::{merged, nothing, pushes_removes, CandidateView};

verus! {

/// The spine is every old placement that is no pending create.
pub proof fn the_spine_holds_no_pending_create(old: Seq<PlacementView>)
    ensures
        forall|i: int|
            0 <= i < spine(old).len() ==> !((#[trigger] spine(old)[i]).status is Created)
                && old.contains(spine(old)[i]),
        forall|i: int|
            0 <= i < old.len() && !((#[trigger] old[i]).status is Created) ==> spine(old).contains(
                old[i],
            ),
    decreases old.len(),
{
    if old.len() > 0 {
        let before = old.drop_last();
        the_spine_holds_no_pending_create(before);
        let (was, all) = (spine(before), spine(old));
        assert forall|i: int| 0 <= i < all.len() implies !((#[trigger] all[i]).status is Created)
            && old.contains(all[i]) by {
            if i < was.len() {
                assert(was[i] == all[i]);
                let k = choose|k: int| 0 <= k < before.len() && before[k] == was[i];
                assert(old[k] == all[i]);
            } else {
                assert(old[old.len() - 1] == all[i]);
            }
        }
        assert forall|i: int|
            0 <= i < old.len() && !((#[trigger] old[i]).status is Created) implies all.contains(
            old[i],
        ) by {
            if i < before.len() {
                assert(before[i] == old[i]);
                let k = choose|k: int| 0 <= k < was.len() && was[k] == old[i];
                assert(all[k] == old[i]);
            } else {
                assert(all[all.len() - 1] == old[i]);
            }
        }
    }
}

/// What placing new members writes: one placement each, in order, after what
/// was written before.
proof fn lemma_placed(
    collection: Text,
    links: Map<Text, ResolvedView>,
    start: Rebuilt,
    items: Seq<RemoteItemView>,
)
    ensures
        ({
            let done = placed(collection, links, start, items);
            &&& done.rekeyed + done.pulled == start.rekeyed + start.pulled + items.len()
            &&& done.writes.len() == start.writes.len() + items.len()
            &&& forall|i: int|
                0 <= i < start.writes.len() ==> #[trigger] done.writes[i] == start.writes[i]
            &&& forall|i: int|
                start.writes.len() <= i < done.writes.len() ==> {
                    &&& #[trigger] done.writes[i] is UpsertPlacement
                    &&& done.writes[i]->UpsertPlacement_0.handle == items[i
                        - start.writes.len()].handle
                }
        }),
    decreases items.len(),
{
    if items.len() > 0 {
        let before = placed(collection, links, start, items.drop_last());
        lemma_placed(collection, links, start, items.drop_last());
        let done = placed(collection, links, start, items);
        assert forall|i: int| start.writes.len() <= i < done.writes.len() implies {
            &&& #[trigger] done.writes[i] is UpsertPlacement
            &&& done.writes[i]->UpsertPlacement_0.handle == items[i - start.writes.len()].handle
        } by {
            if i < before.writes.len() {
                assert(done.writes[i] == before.writes[i]);
                assert(items.drop_last()[i - start.writes.len()] == items[i
                    - start.writes.len()]);
            }
        }
        assert forall|i: int| 0 <= i < start.writes.len() implies #[trigger] done.writes[i]
            == start.writes[i] by {
            assert(done.writes[i] == before.writes[i]);
        }
    }
}

/// What rescuing writes: pending creates, after what was written before.
proof fn lemma_rescued(start: Rebuilt, old: Seq<PlacementView>)
    ensures
        ({
            let done = rescued(start, old);
            &&& done.writes.len() >= start.writes.len()
            &&& done.pulled == start.pulled
            &&& done.rekeyed == start.rekeyed + done.writes.len() - start.writes.len()
            &&& forall|i: int|
                0 <= i < start.writes.len() ==> #[trigger] done.writes[i] == start.writes[i]
            &&& forall|i: int|
                start.writes.len() <= i < done.writes.len() ==> {
                    &&& #[trigger] done.writes[i] is UpsertPlacement
                    &&& done.writes[i]->UpsertPlacement_0.status is Created
                }
        }),
    decreases old.len(),
{
    if old.len() > 0 {
        let before = rescued(start, old.drop_last());
        lemma_rescued(start, old.drop_last());
        let done = rescued(start, old);
        assert forall|i: int| 0 <= i < before.writes.len() implies #[trigger] done.writes[i]
            == before.writes[i] by {}
    }
}

/// The rebuild a run starts placing from.
pub open spec fn cleared(collection: Text, old: Seq<PlacementView>) -> Rebuilt {
    Rebuilt {
        unclaimed: by_link(spine(old)),
        carried: Set::empty(),
        writes: spine_drops(collection, spine(old)),
        rekeyed: 0,
        pulled: 0,
    }
}

/// Every new member is placed once, under its own handle, in the order
/// listed, right after the old spine is dropped; it is counted as carried or
/// as pulled.
pub proof fn each_new_member_is_placed(
    collection: Text,
    old: Seq<PlacementView>,
    items: Seq<RemoteItemView>,
    links: Map<Text, ResolvedView>,
    checkpoint: Seq<u8>,
    i: int,
)
    requires
        0 <= i < items.len(),
    ensures
        ({
            let writes = rebuild_writes(collection, old, items, links, checkpoint);
            let k = spine(old).len() + i;
            &&& k < writes.len()
            &&& writes[k] is UpsertPlacement
            &&& writes[k]->UpsertPlacement_0.handle == items[i].handle
        }),
        ({
            let report = rebuild_report(collection, old, items, links);
            report.rekeyed + report.pulled >= items.len()
        }),
{
    let start = cleared(collection, old);
    lemma_placed(collection, links, start, items);
    lemma_rescued(placed(collection, links, start, items), spine(old));
    let done = placed(collection, links, start, items);
    assert(done.writes[spine(old).len() + i] is UpsertPlacement);
    assert(rebuilt(collection, old, items, links).writes[spine(old).len() + i]
        == done.writes[spine(old).len() + i]);
}

/// A rebuild is no delete: every row it drops is of the old spine and is
/// marked superseded, so nothing shared with other sources is read as
/// deleted, and no pending create is dropped.
pub proof fn a_rebuild_deletes_nothing(
    collection: Text,
    old: Seq<PlacementView>,
    items: Seq<RemoteItemView>,
    links: Map<Text, ResolvedView>,
    checkpoint: Seq<u8>,
    i: int,
)
    requires
        0 <= i < rebuild_writes(collection, old, items, links, checkpoint).len(),
        rebuild_writes(collection, old, items, links, checkpoint)[i] is DropPlacement,
    ensures
        i < spine(old).len(),
        rebuild_writes(collection, old, items, links, checkpoint)[i] == (
        WriteOpView::DropPlacement {
            collection,
            handle: spine(old)[i].handle,
            reason: ReplicaDropReason::Superseded,
        }),
        !(spine(old)[i].status is Created),
{
    let start = cleared(collection, old);
    let done = placed(collection, links, start, items);
    lemma_placed(collection, links, start, items);
    lemma_rescued(done, spine(old));
    the_spine_holds_no_pending_create(old);
    let all = rebuilt(collection, old, items, links).writes;
    assert(i < all.len());
    assert(rebuild_writes(collection, old, items, links, checkpoint)[i] == all[i]);
    if i < done.writes.len() {
        assert(all[i] == done.writes[i]);
        if i >= start.writes.len() {
            assert(done.writes[i] is UpsertPlacement);
        }
    } else {
        assert(all[i] is UpsertPlacement);
    }
}

/// The new checkpoint is the last write of a rebuild, and the only one: a
/// rebuild that was not stored whole starts over.
pub proof fn the_checkpoint_is_stored_last(
    collection: Text,
    old: Seq<PlacementView>,
    items: Seq<RemoteItemView>,
    links: Map<Text, ResolvedView>,
    checkpoint: Seq<u8>,
    i: int,
)
    requires
        0 <= i < rebuild_writes(collection, old, items, links, checkpoint).len(),
    ensures
        rebuild_writes(collection, old, items, links, checkpoint)[i] is SetCheckpoint <==> i
            == rebuild_writes(collection, old, items, links, checkpoint).len() - 1,
        rebuild_writes(collection, old, items, links, checkpoint).last() == (
        WriteOpView::SetCheckpoint { collection, checkpoint }),
{
    let start = cleared(collection, old);
    let done = placed(collection, links, start, items);
    lemma_placed(collection, links, start, items);
    lemma_rescued(done, spine(old));
    let all = rebuilt(collection, old, items, links).writes;
    if i < all.len() {
        if i < done.writes.len() {
            assert(all[i] == done.writes[i]);
            if i >= start.writes.len() {
                assert(done.writes[i] is UpsertPlacement);
            } else {
                assert(done.writes[i] == start.writes[i]);
            }
        } else {
            assert(all[i] is UpsertPlacement);
        }
    }
}

/// The cache survives a rebuild, and so does everything pending: body, level
/// and base body stay, a tombstone stays one with its destination, a
/// conflict and a freeze stay, and the base adopts what the new handle space
/// reports.
pub proof fn a_carried_placement_keeps_its_cache_and_pending_state(
    collection: Text,
    old: PlacementView,
    item: RemoteItemView,
    resolved: ResolvedView,
)
    ensures
        ({
            let p = carried(collection, old, item, resolved);
            &&& p.handle == item.handle
            &&& p.link_id == old.link_id
            &&& p.object == old.object
            &&& p.level == old.level
            &&& p.origin == old.origin
            &&& p.ambiguous_handles == old.ambiguous_handles
            &&& old.status is Tombstone ==> p.status is Tombstone
            &&& old.status is Conflict ==> p.status is Conflict && p.conflict_revision
                == item.revision
            &&& old.status is Ambiguous ==> p.status is Ambiguous
            &&& old.status is Dirty && staged_edit(old) is Some ==> p.status is Dirty
            &&& p.base matches Some(base) && base.flags == item.flags && base.revision
                == item.revision
            &&& old.base is Some ==> staged_edit(p) == staged_edit(old)
        }),
{
}

/// A placement that was in sync is in sync under its new handle: merging it
/// with what the new handle space reports decides nothing.
pub proof fn a_clean_placement_is_carried_in_sync(
    opts: ReplicaSyncOptions,
    collection: Text,
    old: PlacementView,
    item: RemoteItemView,
    resolved: ResolvedView,
)
    requires
        old.status is Clean,
        old.base matches Some(base) && base.flags == old.flags,
        old.flags is Known,
        item.flags is Known,
    ensures
        ({
            let p = carried(collection, old, item, resolved);
            &&& p.status is Clean
            &&& p.flags == item.flags
            &&& merged(
                opts,
                collection,
                CandidateView { handle: item.handle, local: Some(p), remote: Some(item) },
            ) == nothing()
        }),
{
    an_unchanged_set_stays(base_flags(old), item.flags);
    let p = carried(collection, old, item, resolved);
    an_unchanged_placement_is_left_alone(
        opts,
        collection,
        CandidateView { handle: item.handle, local: Some(p), remote: Some(item) },
    );
}

/// A delete or a move pending before a rebuild is pushed by the next sync
/// under the new handle, to the same destination.
pub proof fn a_carried_delete_is_pushed(
    opts: ReplicaSyncOptions,
    collection: Text,
    old: PlacementView,
    item: RemoteItemView,
    resolved: ResolvedView,
)
    requires
        old.status is Tombstone,
        staged_edit(old) is None,
        pushes_removes(opts),
    ensures
        ({
            let p = carried(collection, old, item, resolved);
            merged(
                opts,
                collection,
                CandidateView { handle: item.handle, local: Some(p), remote: Some(item) },
            ).change == Some(
                ChangeKindView::Remove {
                    handle: item.handle,
                    to: match old.origin {
                        Some(origin) => Some(origin.collection),
                        None => None,
                    },
                    link_id: old.link_id,
                    if_match: item.revision,
                },
            )
        }),
{
}

/// Whether a batch keeps a body, pending or not.
pub open spec fn keeps_body(writes: Seq<WriteOpView>, old: PlacementView) -> bool {
    exists|k: int|
        0 <= k < writes.len() && (#[trigger] writes[k]) is UpsertPlacement && {
            let p = writes[k]->UpsertPlacement_0;
            &&& p.object == old.object
            &&& p.link_id == old.link_id
            &&& p.level == old.level
            &&& holds_edit(old) ==> p.status is Dirty || p.status is Conflict || p.status
                is Created
        }
}

/// What a rebuild keeps while it goes on: what is unclaimed is of the old
/// spine, and what is carried was written.
pub open spec fn keeps_carried(acc: Rebuilt, old: Seq<PlacementView>) -> bool {
    &&& forall|link: Text| #[trigger]
        acc.unclaimed.contains_key(link) ==> old.contains(acc.unclaimed[link])
    &&& forall|h: Text| #[trigger]
        acc.carried.contains(h) ==> exists|j: int|
            0 <= j < old.len() && (#[trigger] old[j]).handle == h && keeps_body(acc.writes, old[j])
}

proof fn lemma_keeps_more(writes: Seq<WriteOpView>, more: WriteOpView, p: PlacementView)
    requires
        keeps_body(writes, p),
    ensures
        keeps_body(writes.push(more), p),
{
    let k = choose|k: int|
        0 <= k < writes.len() && (#[trigger] writes[k]) is UpsertPlacement && {
            let q = writes[k]->UpsertPlacement_0;
            &&& q.object == p.object
            &&& q.link_id == p.link_id
            &&& q.level == p.level
            &&& holds_edit(p) ==> q.status is Dirty || q.status is Conflict || q.status is Created
        };
    assert(writes.push(more)[k] == writes[k]);
}

proof fn lemma_by_link(old: Seq<PlacementView>)
    ensures
        forall|link: Text| #[trigger]
            by_link(old).contains_key(link) ==> old.contains(by_link(old)[link]),
    decreases old.len(),
{
    if old.len() > 0 {
        let before = old.drop_last();
        lemma_by_link(before);
        assert forall|link: Text| #[trigger] by_link(old).contains_key(link) implies old.contains(
            by_link(old)[link],
        ) by {
            if old.last().link_id == Some(link) {
                assert(old[old.len() - 1] == by_link(old)[link]);
            } else {
                let k = choose|k: int| 0 <= k < before.len() && before[k] == by_link(before)[link];
                assert(old[k] == by_link(old)[link]);
            }
        }
    }
}

/// One more write, and perhaps one more placement it carries.
proof fn lemma_carries_one(
    acc: Rebuilt,
    after: Rebuilt,
    more: WriteOpView,
    old: Seq<PlacementView>,
    j: int,
)
    requires
        keeps_carried(acc, old),
        after.writes == acc.writes.push(more),
        forall|link: Text| #[trigger]
            after.unclaimed.contains_key(link) ==> acc.unclaimed.contains_key(link)
                && after.unclaimed[link] == acc.unclaimed[link],
        after.carried == acc.carried || (0 <= j < old.len() && after.carried == acc.carried.insert(
            old[j].handle,
        ) && keeps_body(after.writes, old[j])),
    ensures
        keeps_carried(after, old),
{
    assert forall|h: Text| #[trigger] after.carried.contains(h) implies exists|j: int|
        0 <= j < old.len() && (#[trigger] old[j]).handle == h && keeps_body(after.writes, old[j]) by {
        if acc.carried.contains(h) {
            let m = choose|m: int|
                0 <= m < old.len() && (#[trigger] old[m]).handle == h && keeps_body(
                    acc.writes,
                    old[m],
                );
            lemma_keeps_more(acc.writes, more, old[m]);
            assert(old[m].handle == h && keeps_body(after.writes, old[m]));
        } else {
            assert(old[j].handle == h);
        }
    }
}

proof fn lemma_placed_keeps(
    collection: Text,
    links: Map<Text, ResolvedView>,
    start: Rebuilt,
    items: Seq<RemoteItemView>,
    old: Seq<PlacementView>,
)
    requires
        keeps_carried(start, old),
    ensures
        keeps_carried(placed(collection, links, start, items), old),
    decreases items.len(),
{
    if items.len() > 0 {
        let acc = placed(collection, links, start, items.drop_last());
        lemma_placed_keeps(collection, links, start, items.drop_last(), old);
        let item = items.last();
        let after = place(collection, links, acc, item);
        match resolved_of(links, item.handle) {
            Some(resolved) if acc.unclaimed.contains_key(resolved.link_id) => {
                let from = acc.unclaimed[resolved.link_id];
                let j = choose|j: int| 0 <= j < old.len() && old[j] == from;
                let more = WriteOpView::UpsertPlacement(carried(collection, from, item, resolved));
                assert(after.writes[acc.writes.len() as int] == more);
                assert(keeps_body(after.writes, old[j]));
                lemma_carries_one(acc, after, more, old, j);
            },
            _ => {
                lemma_carries_one(acc, after, after.writes.last(), old, 0);
            },
        }
    }
}

proof fn lemma_rescued_keeps(start: Rebuilt, old: Seq<PlacementView>, n: int)
    requires
        0 <= n <= old.len(),
        keeps_carried(start, old),
    ensures
        keeps_carried(rescued(start, old.take(n)), old),
        forall|i: int|
            0 <= i < n && holds_edit(#[trigger] old[i]) ==> rescued(
                start,
                old.take(n),
            ).carried.contains(old[i].handle),
    decreases n,
{
    let q = old.take(n);
    if n > 0 {
        lemma_rescued_keeps(start, old, n - 1);
        assert(q.drop_last() =~= old.take(n - 1));
        let acc = rescued(start, old.take(n - 1));
        let after = rescue(acc, old[n - 1]);
        assert(q.last() == old[n - 1]);
        if !acc.carried.contains(old[n - 1].handle) && holds_edit(old[n - 1]) {
            assert(after.writes[acc.writes.len() as int] is UpsertPlacement);
            assert(keeps_body(after.writes, old[n - 1]));
            lemma_carries_one(acc, after, after.writes.last(), old, n - 1);
        }
    }
}

/// No staged edit is lost: whether its item found a new home or not, the
/// edited body is kept under its identity, pending.
pub proof fn no_staged_edit_is_lost(
    collection: Text,
    old: Seq<PlacementView>,
    items: Seq<RemoteItemView>,
    links: Map<Text, ResolvedView>,
    i: int,
)
    requires
        forall|i: int, j: int|
            0 <= i < j < spine(old).len() ==> (#[trigger] spine(old)[i]).handle != (
            #[trigger] spine(old)[j]).handle,
        0 <= i < spine(old).len(),
        holds_edit(spine(old)[i]),
    ensures
        keeps_body(rebuilt(collection, old, items, links).writes, spine(old)[i]),
{
    let q = spine(old);
    let start = cleared(collection, old);
    lemma_by_link(q);
    lemma_placed_keeps(collection, links, start, items, q);
    let done = placed(collection, links, start, items);
    lemma_rescued_keeps(done, q, q.len() as int);
    assert(q.take(q.len() as int) =~= q);
    let all = rescued(done, q);
    assert(all.carried.contains(q[i].handle));
    let j = choose|j: int|
        0 <= j < q.len() && (#[trigger] q[j]).handle == q[i].handle && keeps_body(
            all.writes,
            q[j],
        );
    if j < i {
        assert(q[j].handle != q[i].handle);
    } else if i < j {
        assert(q[i].handle != q[j].handle);
    }
}

/// A reply that is not the one awaited is refused and changes nothing.
pub proof fn a_reply_not_awaited_is_refused(s: RekeyView, arg: Option<ArgView>)
    requires
        !rekey_awaits(s.phase, arg),
    ensures
        rekey_step(s, arg) == (s, RekeyStep::Failed(rekey_refusal(arg))),
{
}

} // verus!
