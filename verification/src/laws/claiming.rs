//! Who gets an identity that a fetch reports, told from the rows known and
//! the items fetched: the first to report one nobody holds; any other copy
//! goes without, and freezes the holder.

use vstd::prelude::*;

use crate::change::WriteOpView;
use crate::coroutine::ArgView;
use crate::laws::joining::is_filed;
use crate::laws::raising::{is_known, is_raised};
use crate::laws::upgrading::{
    a_lost_handle_is_recorded_once, every_known_identity_is_claimed,
    every_loser_is_recorded_on_its_holder, freezes_holder,
};
use crate::order::{ascending, lemma_ascending, Text};
use crate::placement::PlacementView;
use crate::remote::{FetchedItemView, ReplicaTier};
use crate::storage::LoadedView;
use crate::upgrade::{
    applied, apply, freezes, frozen, holders, item_writes, lost_by, outcome, staged_from,
    stages, upgrade_step, widened, Applied, UpgradeView,
};

verus! {

/// Whether a fetched item is of a known row without an identity.
pub open spec fn is_unlinked(rows: Map<Text, PlacementView>, item: FetchedItemView) -> bool {
    is_known(rows, item) && rows[item.handle].link_id is None
}

/// Whether a row known holds an identity.
pub open spec fn is_held(rows: Map<Text, PlacementView>, link: Text) -> bool {
    exists|h: Text| #[trigger] rows.contains_key(h) && rows[h].link_id == Some(link)
}

/// Whether one of the first `n` items is of a row without an identity, and
/// reports one.
pub open spec fn is_reported(
    rows: Map<Text, PlacementView>,
    items: Seq<FetchedItemView>,
    n: int,
    link: Text,
) -> bool {
    exists|j: int|
        0 <= j < n && is_unlinked(rows, #[trigger] items[j]) && items[j].link_id == link
}

/// Whether a fetched item is the first to report an identity nobody holds,
/// for a row that has none.
pub open spec fn is_free(
    rows: Map<Text, PlacementView>,
    items: Seq<FetchedItemView>,
    i: int,
) -> bool {
    &&& 0 <= i < items.len()
    &&& is_unlinked(rows, items[i])
    &&& !is_held(rows, items[i].link_id)
    &&& !is_reported(rows, items, i, items[i].link_id)
}

/// Whether a handle is that of the holder of an identity: a row that held it
/// before, or the first to report it.
pub open spec fn is_holder(
    rows: Map<Text, PlacementView>,
    items: Seq<FetchedItemView>,
    link: Text,
    handle: Text,
) -> bool {
    ||| rows.contains_key(handle) && rows[handle].link_id == Some(link)
    ||| exists|j: int|
        #[trigger] is_free(rows, items, j) && items[j].link_id == link && items[j].handle == handle
}

/// Whether a batch gives a row its identity.
pub open spec fn gives(
    ops: Seq<WriteOpView>,
    p: PlacementView,
    tier: ReplicaTier,
    item: FetchedItemView,
    link: Option<Text>,
) -> bool {
    exists|k: int|
        0 <= k < ops.len() && (#[trigger] ops[k]) is UpsertPlacement && is_raised(
            ops[k]->UpsertPlacement_0,
            p,
            tier,
            item,
        ) && ops[k]->UpsertPlacement_0.link_id == link
}

/// Whether a batch freezes a row on a copy of its identity.
pub open spec fn freezes_on(ops: Seq<WriteOpView>, handle: Text, copy: Text) -> bool {
    exists|k: int|
        0 <= k < ops.len() && (#[trigger] ops[k]) is UpsertPlacement && {
            let q = ops[k]->UpsertPlacement_0;
            q.handle == handle && q.status is Ambiguous && q.ambiguous_handles.contains(copy)
        }
}

spec fn beginning(s: UpgradeView) -> Applied {
    Applied {
        claimed: holders(s.placements, ascending(s.placements.dom())),
        lost: Map::empty(),
        ops: s.ops,
        raised: 0,
        bodies: 0,
    }
}

/// What holds once `n` items are applied.
spec fn has_applied(s: UpgradeView, n: int, acc: Applied) -> bool {
    let (rows, items) = (s.placements, s.fetched);
    &&& forall|link: Text| #[trigger]
        acc.claimed.contains_key(link) <==> is_held(rows, link) || is_reported(
            rows,
            items,
            n,
            link,
        )
    &&& forall|link: Text| #[trigger]
        acc.claimed.contains_key(link) ==> is_holder(rows, items, link, acc.claimed[link])
    &&& s.ops.len() <= acc.ops.len()
    &&& forall|i: int|
        0 <= i < n && is_unlinked(rows, #[trigger] items[i]) ==> gives(
            acc.ops,
            rows[items[i].handle],
            s.tier,
            items[i],
            if is_free(rows, items, i) {
                Some(items[i].link_id)
            } else {
                None
            },
        )
    &&& forall|i: int|
        0 <= i < n && is_unlinked(rows, #[trigger] items[i]) && !is_free(rows, items, i)
            ==> is_lost(s, acc.lost, i)
    &&& (forall|i: int|
        0 <= i < n && is_unlinked(rows, #[trigger] items[i]) ==> is_free(rows, items, i))
        ==> acc.lost == Map::<Text, Seq<Text>>::empty()
    &&& forall|k: int|
        s.ops.len() <= k < acc.ops.len() && (#[trigger] acc.ops[k]) is UpsertPlacement ==> {
            let q = acc.ops[k]->UpsertPlacement_0;
            &&& rows.contains_key(q.handle)
            &&& q.status == rows[q.handle].status
            &&& q.ambiguous_handles == rows[q.handle].ambiguous_handles
        }
}

/// Whether a copy is recorded against a holder of its identity.
spec fn is_lost(s: UpgradeView, lost: Map<Text, Seq<Text>>, i: int) -> bool {
    exists|holder: Text|
        {
            &&& #[trigger] lost.contains_key(holder)
            &&& lost[holder].contains(s.fetched[i].handle)
            &&& is_holder(s.placements, s.fetched, s.fetched[i].link_id, holder)
        }
}

proof fn lemma_gives_more(
    ops: Seq<WriteOpView>,
    more: Seq<WriteOpView>,
    p: PlacementView,
    tier: ReplicaTier,
    item: FetchedItemView,
    link: Option<Text>,
)
    requires
        gives(ops, p, tier, item, link),
    ensures
        gives(ops + more, p, tier, item, link),
{
    let k = choose|k: int|
        0 <= k < ops.len() && (#[trigger] ops[k]) is UpsertPlacement && is_raised(
            ops[k]->UpsertPlacement_0,
            p,
            tier,
            item,
        ) && ops[k]->UpsertPlacement_0.link_id == link;
    assert((ops + more)[k] == ops[k]);
}

proof fn lemma_lost_more(
    s: UpgradeView,
    lost: Map<Text, Seq<Text>>,
    holder: Text,
    handle: Text,
    i: int,
)
    requires
        is_lost(s, lost, i),
    ensures
        is_lost(s, lost.insert(holder, lost_by(lost, holder).push(handle)), i),
{
    let more = lost.insert(holder, lost_by(lost, holder).push(handle));
    let h = choose|h: Text|
        {
            &&& #[trigger] lost.contains_key(h)
            &&& lost[h].contains(s.fetched[i].handle)
            &&& is_holder(s.placements, s.fetched, s.fetched[i].link_id, h)
        };
    assert(more.contains_key(h));
    let k = choose|k: int| 0 <= k < lost[h].len() && lost[h][k] == s.fetched[i].handle;
    assert(more[h][k] == s.fetched[i].handle);
}

proof fn lemma_reported(
    rows: Map<Text, PlacementView>,
    items: Seq<FetchedItemView>,
    n: int,
    link: Text,
)
    requires
        0 <= n < items.len(),
    ensures
        is_reported(rows, items, n + 1, link) <==> is_reported(rows, items, n, link) || (is_unlinked(
            rows,
            items[n],
        ) && items[n].link_id == link),
{
    if is_reported(rows, items, n, link) {
        let j = choose|j: int|
            0 <= j < n && is_unlinked(rows, #[trigger] items[j]) && items[j].link_id == link;
        assert(0 <= j < n + 1 && is_unlinked(rows, items[j]));
    }
    if is_unlinked(rows, items[n]) && items[n].link_id == link {
        assert(0 <= n < n + 1 && is_unlinked(rows, items[n]));
    }
    if is_reported(rows, items, n + 1, link) {
        let j = choose|j: int|
            0 <= j < n + 1 && is_unlinked(rows, #[trigger] items[j]) && items[j].link_id == link;
        if j < n {
            assert(0 <= j < n && is_unlinked(rows, items[j]));
        }
    }
}

proof fn lemma_applied_one(s: UpgradeView, n: int, acc: Applied)
    requires
        is_filed(s.placements),
        0 <= n < s.fetched.len(),
        has_applied(s, n, acc),
    ensures
        has_applied(s, n + 1, apply(s.tier, s.placements, acc, s.fetched[n])),
{
    let (rows, items, item) = (s.placements, s.fetched, s.fetched[n]);
    let after = apply(s.tier, rows, acc, item);
    let p = rows[item.handle];
    let more = after.ops.skip(acc.ops.len() as int);
    assert(after.ops =~= acc.ops + more);
    assert forall|link: Text|
        is_reported(rows, items, n + 1, link) <==> #[trigger] is_reported(rows, items, n, link)
            || (is_unlinked(rows, item) && item.link_id == link) by {
        lemma_reported(rows, items, n, link);
    }
    let fresh = is_unlinked(rows, item) && !acc.claimed.contains_key(item.link_id);
    assert(fresh <==> is_free(rows, items, n));
    assert forall|link: Text| #[trigger] after.claimed.contains_key(link) <==> is_held(rows, link)
        || is_reported(rows, items, n + 1, link) by {
        lemma_reported(rows, items, n, link);
        assert(acc.claimed.contains_key(link) <==> is_held(rows, link) || is_reported(
            rows,
            items,
            n,
            link,
        ));
    }
    assert forall|link: Text| #[trigger] after.claimed.contains_key(link) implies is_holder(
        rows,
        items,
        link,
        after.claimed[link],
    ) by {
        if acc.claimed.contains_key(link) {
            assert(is_holder(rows, items, link, acc.claimed[link]));
        } else {
            assert(is_free(rows, items, n) && items[n].link_id == link);
        }
    }
    if is_known(rows, item) {
        assert(p.handle == item.handle);
        let link = if p.link_id is Some {
            p.link_id
        } else if fresh {
            Some(item.link_id)
        } else {
            None
        };
        assert(more =~= item_writes(s.tier, p, link, item));
        let k = after.ops.len() - 1;
        assert(after.ops[k] is UpsertPlacement);
        assert(is_raised(after.ops[k]->UpsertPlacement_0, p, s.tier, item));
        assert(after.ops[k]->UpsertPlacement_0.link_id == link);
    }
    assert forall|i: int| 0 <= i < n + 1 && is_unlinked(rows, #[trigger] items[i]) implies gives(
        after.ops,
        rows[items[i].handle],
        s.tier,
        items[i],
        if is_free(rows, items, i) {
            Some(items[i].link_id)
        } else {
            None
        },
    ) by {
        if i < n {
            lemma_gives_more(
                acc.ops,
                more,
                rows[items[i].handle],
                s.tier,
                items[i],
                if is_free(rows, items, i) {
                    Some(items[i].link_id)
                } else {
                    None
                },
            );
        }
    }
    assert forall|i: int|
        0 <= i < n + 1 && is_unlinked(rows, #[trigger] items[i]) && !is_free(
            rows,
            items,
            i,
        ) implies is_lost(s, after.lost, i) by {
        let loses = is_unlinked(rows, item) && !fresh;
        let holder = acc.claimed[item.link_id];
        if i < n {
            assert(is_lost(s, acc.lost, i));
            if loses {
                lemma_lost_more(s, acc.lost, holder, item.handle, i);
            }
        } else {
            assert(is_holder(rows, items, item.link_id, holder));
            let all = after.lost[holder];
            assert(all[all.len() - 1] == item.handle);
            assert(after.lost.contains_key(holder));
        }
    }
    if forall|i: int|
        0 <= i < n + 1 && is_unlinked(rows, #[trigger] items[i]) ==> is_free(rows, items, i) {
        assert forall|i: int| 0 <= i < n && is_unlinked(rows, #[trigger] items[i]) implies is_free(
            rows,
            items,
            i,
        ) by {}
        assert(is_unlinked(rows, items[n]) ==> is_free(rows, items, n));
    }
    assert forall|k: int|
        s.ops.len() <= k < after.ops.len() && (#[trigger] after.ops[k])
            is UpsertPlacement implies {
        let q = after.ops[k]->UpsertPlacement_0;
        &&& rows.contains_key(q.handle)
        &&& q.status == rows[q.handle].status
        &&& q.ambiguous_handles == rows[q.handle].ambiguous_handles
    } by {
        if k < acc.ops.len() {
            assert(after.ops[k] == acc.ops[k]);
        } else {
            assert(after.ops[k] == more[k - acc.ops.len()]);
        }
    }
}

proof fn lemma_applied_all(s: UpgradeView, n: int)
    requires
        is_filed(s.placements),
        0 <= n <= s.fetched.len(),
    ensures
        has_applied(s, n, applied(s.tier, s.placements, beginning(s), s.fetched.take(n))),
    decreases n,
{
    if n > 0 {
        lemma_applied_all(s, n - 1);
        assert(s.fetched.take(n).drop_last() =~= s.fetched.take(n - 1));
        assert(s.fetched.take(n).last() == s.fetched[n - 1]);
        lemma_applied_one(
            s,
            n - 1,
            applied(s.tier, s.placements, beginning(s), s.fetched.take(n - 1)),
        );
    } else {
        assert(s.fetched.take(0) =~= Seq::empty());
        let rows = s.placements;
        let q = ascending(rows.dom());
        lemma_ascending(rows.dom());
        assert forall|i: int| 0 <= i < q.len() implies rows.contains_key(#[trigger] q[i]) by {
            assert(q.contains(q[i]));
        }
        every_known_identity_is_claimed(rows, q);
        let acc = beginning(s);
        assert forall|link: Text| #[trigger] acc.claimed.contains_key(link) <==> is_held(rows, link)
            || is_reported(rows, s.fetched, 0, link) by {
            if is_held(rows, link) {
                let h = choose|h: Text| #[trigger]
                    rows.contains_key(h) && rows[h].link_id == Some(link);
                assert(q.contains(h));
                let i = choose|i: int| 0 <= i < q.len() && q[i] == h;
                assert(rows[q[i]].link_id is Some);
            }
            if acc.claimed.contains_key(link) {
                assert(rows.contains_key(acc.claimed[link]));
            }
        }
    }
}

proof fn lemma_freezes_give(
    rows: Map<Text, PlacementView>,
    ops: Seq<WriteOpView>,
    lost: Map<Text, Seq<Text>>,
    handles: Seq<Text>,
    p: PlacementView,
    tier: ReplicaTier,
    item: FetchedItemView,
    link: Option<Text>,
)
    requires
        gives(ops, p, tier, item, link),
    ensures
        gives(freezes(rows, ops, lost, handles), p, tier, item, link),
    decreases handles.len(),
{
    if handles.len() > 0 {
        let before = freezes(rows, ops, lost, handles.drop_last());
        let after = freezes(rows, ops, lost, handles);
        lemma_freezes_give(rows, ops, lost, handles.drop_last(), p, tier, item, link);
        lemma_stages_at(before, handles.last(), 0);
        let k = choose|k: int|
            0 <= k < before.len() && (#[trigger] before[k]) is UpsertPlacement && is_raised(
                before[k]->UpsertPlacement_0,
                p,
                tier,
                item,
            ) && before[k]->UpsertPlacement_0.link_id == link;
        assert(after[k] is UpsertPlacement);
        assert(is_raised(after[k]->UpsertPlacement_0, p, tier, item));
    }
}

proof fn lemma_stages_at(ops: Seq<WriteOpView>, handle: Text, i: int)
    requires
        0 <= i,
    ensures
        staged_from(ops, handle, i) matches Some(k) ==> i <= k < ops.len() && ops[k]
            is UpsertPlacement,
    decreases ops.len() - i,
{
    if i < ops.len() && !stages(ops[i], handle) {
        lemma_stages_at(ops, handle, i + 1);
    }
}

proof fn lemma_widened_filed(rows: Map<Text, PlacementView>, loaded: Seq<PlacementView>)
    requires
        is_filed(rows),
    ensures
        is_filed(widened(rows, loaded)),
    decreases loaded.len(),
{
    if loaded.len() > 0 {
        lemma_widened_filed(rows, loaded.drop_last());
    }
}

/// Once the holders are known, an identity is given to the row of the first
/// item that reports it, where nobody holds it; a row of any other copy gets
/// none, and the holder is frozen on that copy.
pub proof fn an_identity_goes_to_its_first_copy(s: UpgradeView, loaded: LoadedView, i: int)
    requires
        s.phase is PendingLinkCheck,
        is_filed(s.placements),
        0 <= i < s.fetched.len(),
    ensures
        ({
            let (t, out) = upgrade_step(s, Some(ArgView::Load(loaded)));
            let (rows, item) = (t.placements, s.fetched[i]);
            let ops = out->Yielded_0->WantsWrite_0;
            is_unlinked(rows, item) ==> {
                &&& is_free(rows, s.fetched, i) ==> gives(
                    ops,
                    rows[item.handle],
                    s.tier,
                    item,
                    Some(item.link_id),
                )
                &&& !is_free(rows, s.fetched, i) ==> {
                    &&& gives(ops, rows[item.handle], s.tier, item, None)
                    &&& exists|holder: Text| #[trigger]
                        is_holder(rows, s.fetched, item.link_id, holder) && freezes_on(
                            ops,
                            holder,
                            item.handle,
                        )
                }
            }
        }),
{
    let rows = widened(s.placements, loaded.placements);
    lemma_widened_filed(s.placements, loaded.placements);
    let next = UpgradeView { placements: rows, ..s };
    lemma_applied_all(next, s.fetched.len() as int);
    assert(s.fetched.take(s.fetched.len() as int) =~= s.fetched);
    let done = outcome(next);
    let q = ascending(done.lost.dom());
    let ops = freezes(rows, done.ops, done.lost, q);
    let item = s.fetched[i];
    assert(has_applied(next, s.fetched.len() as int, done));
    if is_unlinked(rows, item) {
        let link = if is_free(rows, s.fetched, i) {
            Some(item.link_id)
        } else {
            None
        };
        lemma_freezes_give(rows, done.ops, done.lost, q, rows[item.handle], s.tier, item, link);
        if !is_free(rows, s.fetched, i) {
            assert(is_lost(next, done.lost, i));
            let holder = choose|holder: Text|
                {
                    &&& #[trigger] done.lost.contains_key(holder)
                    &&& done.lost[holder].contains(item.handle)
                    &&& is_holder(rows, s.fetched, item.link_id, holder)
                };
            every_loser_is_recorded_on_its_holder(next, holder);
            assert(freezes_holder(ops, holder, done.lost[holder]));
            let k = choose|k: int|
                0 <= k < ops.len() && stages(#[trigger] ops[k], holder) && {
                    let p = ops[k]->UpsertPlacement_0;
                    &&& p.status is Ambiguous
                    &&& forall|i: int|
                        0 <= i < done.lost[holder].len() ==> p.ambiguous_handles.contains(
                            #[trigger] done.lost[holder][i],
                        )
                };
            let m = choose|m: int|
                0 <= m < done.lost[holder].len() && done.lost[holder][m] == item.handle;
            assert(ops[k] is UpsertPlacement);
            assert(ops[k]->UpsertPlacement_0.ambiguous_handles.contains(done.lost[holder][m]));
            assert(freezes_on(ops, holder, item.handle));
        }
    }
}

/// A fetch without a second copy of any identity freezes nothing.
pub proof fn a_fetch_without_copies_freezes_nothing(s: UpgradeView, loaded: LoadedView, k: int)
    requires
        s.phase is PendingLinkCheck,
        is_filed(s.placements),
        ({
            let (t, out) = upgrade_step(s, Some(ArgView::Load(loaded)));
            &&& forall|i: int|
                0 <= i < s.fetched.len() && is_unlinked(t.placements, #[trigger] s.fetched[i])
                    ==> is_free(t.placements, s.fetched, i)
            &&& s.ops.len() <= k < out->Yielded_0->WantsWrite_0.len()
            &&& out->Yielded_0->WantsWrite_0[k] is UpsertPlacement
        }),
    ensures
        ({
            let (t, out) = upgrade_step(s, Some(ArgView::Load(loaded)));
            let q = out->Yielded_0->WantsWrite_0[k]->UpsertPlacement_0;
            &&& t.placements.contains_key(q.handle)
            &&& q.status == t.placements[q.handle].status
            &&& q.ambiguous_handles == t.placements[q.handle].ambiguous_handles
        }),
{
    let rows = widened(s.placements, loaded.placements);
    lemma_widened_filed(s.placements, loaded.placements);
    let next = UpgradeView { placements: rows, ..s };
    lemma_applied_all(next, s.fetched.len() as int);
    assert(s.fetched.take(s.fetched.len() as int) =~= s.fetched);
    let done = outcome(next);
    assert(done.lost == Map::<Text, Seq<Text>>::empty());
    assert(done.lost.dom() =~= Set::<Text>::empty());
    assert(ascending(done.lost.dom()).len() == 0);
}

/// Whether a row is another, or another frozen: on top of the copies it
/// records already, and with nothing else changed.
pub open spec fn is_same_or_frozen(p: PlacementView, q: PlacementView) -> bool {
    ||| q == p
    ||| {
        &&& q == (PlacementView { status: q.status, ambiguous_handles: q.ambiguous_handles, ..p })
        &&& q.status is Ambiguous
        &&& forall|i: int|
            0 <= i < p.ambiguous_handles.len() ==> q.ambiguous_handles.contains(
                #[trigger] p.ambiguous_handles[i],
            )
    }
}

/// Whether a write is another, but that the row it stores may be frozen.
pub open spec fn is_same_write(a: WriteOpView, b: WriteOpView) -> bool {
    match (a, b) {
        (WriteOpView::UpsertPlacement(p), WriteOpView::UpsertPlacement(q)) => is_same_or_frozen(
            p,
            q,
        ),
        _ => a == b,
    }
}

proof fn lemma_frozen_again(p: PlacementView, q: PlacementView, lost: Seq<Text>)
    requires
        is_same_or_frozen(p, q),
    ensures
        is_same_or_frozen(p, frozen(q, lost)),
{
    a_lost_handle_is_recorded_once(q.ambiguous_handles, lost);
    let r = frozen(q, lost);
    assert forall|i: int| 0 <= i < p.ambiguous_handles.len() implies r.ambiguous_handles.contains(
        #[trigger] p.ambiguous_handles[i],
    ) by {
        assert(q.ambiguous_handles.contains(p.ambiguous_handles[i])) by {
            if q == p {
                assert(q.ambiguous_handles[i] == p.ambiguous_handles[i]);
            }
        }
        let k = choose|k: int|
            0 <= k < q.ambiguous_handles.len() && q.ambiguous_handles[k]
                == p.ambiguous_handles[i];
        assert(r.ambiguous_handles.contains(q.ambiguous_handles[k]));
    }
}

proof fn lemma_freezes_only(
    rows: Map<Text, PlacementView>,
    ops: Seq<WriteOpView>,
    lost: Map<Text, Seq<Text>>,
    handles: Seq<Text>,
)
    requires
        is_filed(rows),
    ensures
        ({
            let all = freezes(rows, ops, lost, handles);
            &&& all.len() >= ops.len()
            &&& forall|k: int| 0 <= k < ops.len() ==> is_same_write(ops[k], #[trigger] all[k])
            &&& forall|k: int|
                ops.len() <= k < all.len() ==> (#[trigger] all[k]) is UpsertPlacement && {
                    let q = all[k]->UpsertPlacement_0;
                    rows.contains_key(q.handle) && is_same_or_frozen(rows[q.handle], q)
                }
        }),
    decreases handles.len(),
{
    if handles.len() > 0 {
        let before = freezes(rows, ops, lost, handles.drop_last());
        let all = freezes(rows, ops, lost, handles);
        let holder = handles.last();
        lemma_freezes_only(rows, ops, lost, handles.drop_last());
        lemma_stages_at(before, holder, 0);
        assert forall|k: int| 0 <= k < ops.len() implies is_same_write(ops[k], #[trigger] all[k]) by {
            assert(is_same_write(ops[k], before[k]));
            if all[k] != before[k] {
                lemma_frozen_again(
                    ops[k]->UpsertPlacement_0,
                    before[k]->UpsertPlacement_0,
                    lost[holder],
                );
            }
        }
        assert forall|k: int| ops.len() <= k < all.len() implies (#[trigger] all[k])
            is UpsertPlacement && {
            let q = all[k]->UpsertPlacement_0;
            rows.contains_key(q.handle) && is_same_or_frozen(rows[q.handle], q)
        } by {
            if k < before.len() {
                assert(before[k] is UpsertPlacement);
                if all[k] != before[k] {
                    let q = before[k]->UpsertPlacement_0;
                    lemma_frozen_again(rows[q.handle], q, lost[holder]);
                }
            } else {
                lemma_frozen_again(rows[holder], rows[holder], lost[holder]);
            }
        }
    }
}

/// Taking up a fetch does nothing but raise rows, store bodies and freeze:
/// what was staged before stays, frozen at most, on top of the copies it
/// records; then come the raised rows; and whatever is added is a row known,
/// frozen likewise.
pub proof fn a_fetch_only_raises_and_freezes(s: UpgradeView, loaded: LoadedView, k: int)
    requires
        s.phase is PendingLinkCheck,
        is_filed(s.placements),
        0 <= k < upgrade_step(s, Some(ArgView::Load(loaded))).1->Yielded_0->WantsWrite_0.len(),
    ensures
        ({
            let (t, out) = upgrade_step(s, Some(ArgView::Load(loaded)));
            let rows = t.placements;
            let op = out->Yielded_0->WantsWrite_0[k];
            let q = op->UpsertPlacement_0;
            &&& k < s.ops.len() ==> is_same_write(s.ops[k], op)
            &&& k >= s.ops.len() && op is UpsertPlacement ==> rows.contains_key(q.handle) && (
            is_same_or_frozen(rows[q.handle], q) || exists|i: int|
                0 <= i < s.fetched.len() && (#[trigger] s.fetched[i]).handle == q.handle
                    && is_raised(q, rows[q.handle], s.tier, s.fetched[i]))
            &&& k >= s.ops.len() ==> op is UpsertPlacement || op is StoreObject
        }),
{
    let rows = widened(s.placements, loaded.placements);
    lemma_widened_filed(s.placements, loaded.placements);
    let next = UpgradeView { placements: rows, ..s };
    let done = outcome(next);
    let handles = ascending(done.lost.dom());
    let ops = freezes(rows, done.ops, done.lost, handles);
    lemma_freezes_only(rows, done.ops, done.lost, handles);
    lemma_staged_writes(next, s.fetched.len() as int);
    assert(s.fetched.take(s.fetched.len() as int) =~= s.fetched);
    if k < done.ops.len() {
        assert(is_same_write(done.ops[k], ops[k]));
        if k >= s.ops.len() && done.ops[k] is UpsertPlacement {
            let q = done.ops[k]->UpsertPlacement_0;
            let i = choose|i: int|
                0 <= i < s.fetched.len() && (#[trigger] s.fetched[i]).handle == q.handle
                    && is_raised(q, rows[q.handle], s.tier, s.fetched[i]);
            assert(s.fetched[i].handle == ops[k]->UpsertPlacement_0.handle);
            assert(is_raised(ops[k]->UpsertPlacement_0, rows[q.handle], s.tier, s.fetched[i]));
        }
    } else {
        assert(ops[k] is UpsertPlacement);
    }
}

proof fn lemma_staged_writes(s: UpgradeView, n: int)
    requires
        is_filed(s.placements),
        0 <= n <= s.fetched.len(),
    ensures
        ({
            let acc = applied(s.tier, s.placements, beginning(s), s.fetched.take(n));
            &&& acc.ops.len() >= s.ops.len()
            &&& forall|k: int| 0 <= k < s.ops.len() ==> #[trigger] acc.ops[k] == s.ops[k]
            &&& forall|k: int|
                s.ops.len() <= k < acc.ops.len() ==> (#[trigger] acc.ops[k]) is StoreObject
                    || is_raising(s, acc.ops[k])
        }),
    decreases n,
{
    let acc = applied(s.tier, s.placements, beginning(s), s.fetched.take(n));
    if n > 0 {
        lemma_staged_writes(s, n - 1);
        assert(s.fetched.take(n).drop_last() =~= s.fetched.take(n - 1));
        assert(s.fetched.take(n).last() == s.fetched[n - 1]);
        let before = applied(s.tier, s.placements, beginning(s), s.fetched.take(n - 1));
        assert(acc == apply(s.tier, s.placements, before, s.fetched[n - 1]));
        assert forall|k: int| 0 <= k < s.ops.len() implies #[trigger] acc.ops[k] == s.ops[k] by {
            assert(before.ops[k] == s.ops[k]);
        }
        assert forall|k: int| s.ops.len() <= k < acc.ops.len() implies (#[trigger] acc.ops[k])
            is StoreObject || is_raising(s, acc.ops[k]) by {
            if k < before.ops.len() {
                assert(acc.ops[k] == before.ops[k]);
            } else if acc.ops[k] is UpsertPlacement {
                assert(s.fetched[n - 1].handle == acc.ops[k]->UpsertPlacement_0.handle);
            }
        }
    } else {
        assert(s.fetched.take(0) =~= Seq::empty());
    }
}

/// Whether a write stores a known row raised by some item fetched for it.
spec fn is_raising(s: UpgradeView, op: WriteOpView) -> bool {
    let q = op->UpsertPlacement_0;
    &&& op is UpsertPlacement
    &&& s.placements.contains_key(q.handle)
    &&& exists|i: int|
        0 <= i < s.fetched.len() && (#[trigger] s.fetched[i]).handle == q.handle && is_raised(
            q,
            s.placements[q.handle],
            s.tier,
            s.fetched[i],
        )
}

} // verus!
