//! What a fetch leaves, whatever the order it reports its items in.

use vstd::prelude::*;

use crate::change::WriteOpView;
use crate::coroutine::{ArgView, YieldView};
use crate::laws::joining::is_filed;
use crate::laws::storing::{lemma_stored_both, stored};
use crate::order::{ascending, lemma_ascending, Text};
use crate::placement::PlacementView;
use crate::remote::{FetchedItemView, ReplicaTier};
use crate::upgrade::{
    applied, brings_body, fresh_links, freezes, holders, item_writes, object_of, one_if, outcome,
    raised_full, raised_meta, raises, upgrade_step, Applied, UpgradeStep, UpgradeView,
};

verus! {

/// Whether no handle is reported twice.
pub open spec fn reports_once(items: Seq<FetchedItemView>) -> bool {
    forall|i: int, j: int|
        0 <= i < j < items.len() ==> (#[trigger] items[i]).handle != (#[trigger] items[j]).handle
}

/// Whether every placement known holds an identity.
pub open spec fn all_linked(placements: Map<Text, PlacementView>) -> bool {
    forall|h: Text| #[trigger] placements.contains_key(h) ==> placements[h].link_id is Some
}

/// Whether two fetches report the same of the placements known.
pub open spec fn report_alike(
    placements: Map<Text, PlacementView>,
    a: Seq<FetchedItemView>,
    b: Seq<FetchedItemView>,
) -> bool {
    forall|item: FetchedItemView|
        placements.contains_key(item.handle) ==> (#[trigger] a.contains(item) <==> b.contains(item))
}

/// How many of some items are of a kind.
pub open spec fn tally(kind: spec_fn(FetchedItemView) -> bool, items: Seq<FetchedItemView>) -> nat
    decreases items.len(),
{
    if items.len() == 0 {
        0
    } else {
        tally(kind, items.drop_last()) + one_if(kind(items.last()))
    }
}

proof fn lemma_tally_remove(
    kind: spec_fn(FetchedItemView) -> bool,
    items: Seq<FetchedItemView>,
    k: int,
)
    requires
        0 <= k < items.len(),
    ensures
        tally(kind, items) == tally(kind, items.remove(k)) + one_if(kind(items[k])),
    decreases items.len(),
{
    let fewer = items.remove(k);
    if k == items.len() - 1 {
        assert(fewer =~= items.drop_last());
    } else {
        lemma_tally_remove(kind, items.drop_last(), k);
        assert(fewer.drop_last() =~= items.drop_last().remove(k));
        assert(fewer.last() == items.last());
    }
}

/// Two fetches that agree on the items of a kind hold as many of them.
proof fn lemma_tally_alike(
    kind: spec_fn(FetchedItemView) -> bool,
    a: Seq<FetchedItemView>,
    b: Seq<FetchedItemView>,
)
    requires
        reports_once(a),
        reports_once(b),
        forall|item: FetchedItemView|
            kind(item) ==> (#[trigger] a.contains(item) <==> b.contains(item)),
    ensures
        tally(kind, a) == tally(kind, b),
    decreases a.len() + b.len(),
{
    if a.len() == 0 {
        if b.len() > 0 {
            let (rest, last) = (b.drop_last(), b.last());
            assert(b[b.len() - 1] == last);
            assert(b.contains(last));
            assert(!a.contains(last));
            assert forall|item: FetchedItemView| kind(item) implies (#[trigger] a.contains(item)
                <==> rest.contains(item)) by {
                if rest.contains(item) {
                    let i = choose|i: int| 0 <= i < rest.len() && rest[i] == item;
                    assert(b[i] == item);
                    assert(a.contains(item));
                }
            }
            lemma_tally_alike(kind, a, rest);
        }
    } else {
        let (rest, last) = (a.drop_last(), a.last());
        assert(a[a.len() - 1] == last);
        assert(a.contains(last));
        assert(!rest.contains(last)) by {
            if rest.contains(last) {
                let i = choose|i: int| 0 <= i < rest.len() && rest[i] == last;
                assert(a[i].handle != a[a.len() - 1].handle);
            }
        }
        assert forall|item: FetchedItemView| item != last implies (#[trigger] a.contains(item)
            <==> rest.contains(item)) by {
            if a.contains(item) {
                let i = choose|i: int| 0 <= i < a.len() && a[i] == item;
                assert(rest[i] == item);
            }
            if rest.contains(item) {
                let i = choose|i: int| 0 <= i < rest.len() && rest[i] == item;
                assert(a[i] == item);
            }
        }
        if kind(last) {
            assert(b.contains(last));
            let k = choose|k: int| 0 <= k < b.len() && b[k] == last;
            let fewer = b.remove(k);
            lemma_tally_remove(kind, b, k);
            assert forall|i: int, j: int| 0 <= i < j < fewer.len() implies (
            #[trigger] fewer[i]).handle != (#[trigger] fewer[j]).handle by {
                let (m, n) = (if i < k { i } else { i + 1 }, if j < k { j } else { j + 1 });
                assert(b[m].handle != b[n].handle);
            }
            assert forall|item: FetchedItemView| kind(item) implies (#[trigger] rest.contains(item)
                <==> fewer.contains(item)) by {
                if fewer.contains(item) {
                    let i = choose|i: int| 0 <= i < fewer.len() && fewer[i] == item;
                    let m = if i < k { i } else { i + 1 };
                    assert(b[m] == item);
                    assert(m != k);
                    assert(item.handle != last.handle);
                    assert(b.contains(item));
                    assert(a.contains(item));
                }
                if rest.contains(item) {
                    assert(item != last);
                    assert(a.contains(item));
                    assert(b.contains(item));
                    let m = choose|m: int| 0 <= m < b.len() && b[m] == item;
                    let i = if m < k { m } else { m - 1 };
                    assert(fewer[i] == item);
                }
            }
            lemma_tally_alike(kind, rest, fewer);
        } else {
            assert forall|item: FetchedItemView| kind(item) implies (#[trigger] rest.contains(item)
                <==> b.contains(item)) by {
                assert(item != last);
                assert(a.contains(item) <==> rest.contains(item));
            }
            lemma_tally_alike(kind, rest, b);
        }
    }
}

/// The placement a fetched item makes of a linked one.
pub open spec fn raised(
    tier: ReplicaTier,
    p: PlacementView,
    item: FetchedItemView,
) -> PlacementView {
    match (tier, item.body) {
        (ReplicaTier::Full, Some(body)) => raised_full(p, p.link_id, item, object_of(body).hash),
        (_, _) => raised_meta(p, p.link_id, item),
    }
}

/// The writes of some items for the linked placements known.
pub open spec fn row_writes(
    tier: ReplicaTier,
    placements: Map<Text, PlacementView>,
    items: Seq<FetchedItemView>,
) -> Seq<WriteOpView>
    decreases items.len(),
{
    if items.len() == 0 {
        Seq::empty()
    } else {
        let before = row_writes(tier, placements, items.drop_last());
        let item = items.last();
        if placements.contains_key(item.handle) {
            let p = placements[item.handle];
            before + item_writes(tier, p, p.link_id, item)
        } else {
            before
        }
    }
}

/// Whether an item raises a placement known.
pub open spec fn counts(
    tier: ReplicaTier,
    placements: Map<Text, PlacementView>,
) -> spec_fn(FetchedItemView) -> bool {
    |item: FetchedItemView| placements.contains_key(item.handle) && raises(tier, item)
}

/// Whether an item brings the body of a placement known.
pub open spec fn brings(
    tier: ReplicaTier,
    placements: Map<Text, PlacementView>,
) -> spec_fn(FetchedItemView) -> bool {
    |item: FetchedItemView| placements.contains_key(item.handle) && brings_body(tier, item)
}

proof fn lemma_applied_linked(
    tier: ReplicaTier,
    placements: Map<Text, PlacementView>,
    start: Applied,
    items: Seq<FetchedItemView>,
)
    requires
        all_linked(placements),
    ensures
        ({
            let done = applied(tier, placements, start, items);
            &&& done.lost == start.lost
            &&& done.ops == start.ops + row_writes(tier, placements, items)
            &&& done.raised == start.raised + tally(counts(tier, placements), items)
            &&& done.bodies == start.bodies + tally(brings(tier, placements), items)
        }),
        fresh_links(placements, items).len() == 0,
    decreases items.len(),
{
    if items.len() > 0 {
        lemma_applied_linked(tier, placements, start, items.drop_last());
        let item = items.last();
        let before = row_writes(tier, placements, items.drop_last());
        if placements.contains_key(item.handle) {
            let p = placements[item.handle];
            assert(start.ops + (before + item_writes(tier, p, p.link_id, item)) =~= (start.ops
                + before) + item_writes(tier, p, p.link_id, item));
        }
    } else {
        assert(start.ops + row_writes(tier, placements, items) =~= start.ops);
    }
}

/// Whether some items report on a placement known.
pub open spec fn reports(
    placements: Map<Text, PlacementView>,
    items: Seq<FetchedItemView>,
    handle: Text,
) -> bool {
    placements.contains_key(handle) && exists|i: int|
        0 <= i < items.len() && (#[trigger] items[i]).handle == handle
}

/// The rows some items leave: each reported one raised, every other as it
/// was.
proof fn lemma_stored_rows(
    tier: ReplicaTier,
    placements: Map<Text, PlacementView>,
    rows: Map<Text, PlacementView>,
    items: Seq<FetchedItemView>,
)
    requires
        is_filed(placements),
        reports_once(items),
    ensures
        ({
            let left = stored(rows, row_writes(tier, placements, items));
            &&& forall|i: int|
                0 <= i < items.len() && placements.contains_key((#[trigger] items[i]).handle)
                    ==> left.contains_key(items[i].handle) && left[items[i].handle] == raised(
                    tier,
                    placements[items[i].handle],
                    items[i],
                )
            &&& forall|h: Text|
                !(#[trigger] reports(placements, items, h)) ==> left.contains_key(h)
                    == rows.contains_key(h) && (rows.contains_key(h) ==> left[h] == rows[h])
        }),
    decreases items.len(),
{
    if items.len() > 0 {
        let (rest, item) = (items.drop_last(), items.last());
        assert(items[items.len() - 1] == item);
        lemma_stored_rows(tier, placements, rows, rest);
        let (before, all) = (
            row_writes(tier, placements, rest),
            row_writes(tier, placements, items),
        );
        let (mid, left) = (stored(rows, before), stored(rows, all));
        if placements.contains_key(item.handle) {
            let p = placements[item.handle];
            let more = item_writes(tier, p, p.link_id, item);
            lemma_stored_both(rows, before, more);
            reveal_with_fuel(stored, 3);
            assert(left =~= mid.insert(item.handle, raised(tier, p, item)));
        }
        assert forall|i: int|
            0 <= i < items.len() && placements.contains_key((#[trigger] items[i]).handle) implies left.contains_key(
            items[i].handle,
        ) && left[items[i].handle] == raised(tier, placements[items[i].handle], items[i]) by {
            if i < rest.len() {
                assert(rest[i] == items[i]);
                assert(items[i].handle != items[items.len() - 1].handle);
            }
        }
        assert forall|h: Text| !(#[trigger] reports(placements, items, h)) implies left.contains_key(
            h,
        ) == rows.contains_key(h) && (rows.contains_key(h) ==> left[h] == rows[h]) by {
            if reports(placements, rest, h) {
                let i = choose|i: int| 0 <= i < rest.len() && (#[trigger] rest[i]).handle == h;
                assert(items[i].handle == h);
            }
            assert(items[items.len() - 1] == item);
        }
    }
}

proof fn lemma_row_writes_contain(
    tier: ReplicaTier,
    placements: Map<Text, PlacementView>,
    items: Seq<FetchedItemView>,
    op: WriteOpView,
)
    ensures
        row_writes(tier, placements, items).contains(op) <==> exists|i: int|
            0 <= i < items.len() && placements.contains_key((#[trigger] items[i]).handle)
                && item_writes(
                tier,
                placements[items[i].handle],
                placements[items[i].handle].link_id,
                items[i],
            ).contains(op),
    decreases items.len(),
{
    if items.len() > 0 {
        let (rest, item) = (items.drop_last(), items.last());
        assert(items[items.len() - 1] == item);
        lemma_row_writes_contain(tier, placements, rest, op);
        let (before, all) = (
            row_writes(tier, placements, rest),
            row_writes(tier, placements, items),
        );
        let p = placements[item.handle];
        let more = item_writes(tier, p, p.link_id, item);
        if before.contains(op) {
            let k = choose|k: int| 0 <= k < before.len() && before[k] == op;
            assert(all[k] == op);
            let i = choose|i: int|
                0 <= i < rest.len() && placements.contains_key((#[trigger] rest[i]).handle)
                    && item_writes(
                    tier,
                    placements[rest[i].handle],
                    placements[rest[i].handle].link_id,
                    rest[i],
                ).contains(op);
            assert(items[i] == rest[i]);
        }
        if placements.contains_key(item.handle) && more.contains(op) {
            let k = choose|k: int| 0 <= k < more.len() && more[k] == op;
            assert(all[before.len() + k] == op);
        }
        if all.contains(op) && !before.contains(op) {
            let k = choose|k: int| 0 <= k < all.len() && all[k] == op;
            if k < before.len() {
                assert(before[k] == op);
            } else {
                assert(more[k - before.len()] == op);
            }
        }
        if exists|i: int|
            0 <= i < items.len() && placements.contains_key((#[trigger] items[i]).handle)
                && item_writes(
                tier,
                placements[items[i].handle],
                placements[items[i].handle].link_id,
                items[i],
            ).contains(op) {
            let i = choose|i: int|
                0 <= i < items.len() && placements.contains_key((#[trigger] items[i]).handle)
                    && item_writes(
                    tier,
                    placements[items[i].handle],
                    placements[items[i].handle].link_id,
                    items[i],
                ).contains(op);
            if i < rest.len() {
                assert(rest[i] == items[i]);
                assert(before.contains(op));
            }
        }
    }
}

proof fn lemma_writes_alike(
    tier: ReplicaTier,
    placements: Map<Text, PlacementView>,
    a: Seq<FetchedItemView>,
    b: Seq<FetchedItemView>,
    op: WriteOpView,
)
    requires
        report_alike(placements, a, b),
        row_writes(tier, placements, a).contains(op),
    ensures
        row_writes(tier, placements, b).contains(op),
{
    lemma_row_writes_contain(tier, placements, a, op);
    lemma_row_writes_contain(tier, placements, b, op);
    let i = choose|i: int|
        0 <= i < a.len() && placements.contains_key((#[trigger] a[i]).handle) && item_writes(
            tier,
            placements[a[i].handle],
            placements[a[i].handle].link_id,
            a[i],
        ).contains(op);
    assert(a.contains(a[i]));
    assert(b.contains(a[i]));
    let k = choose|k: int| 0 <= k < b.len() && b[k] == a[i];
    assert(placements.contains_key(b[k].handle));
}

/// The rows two fetches that report alike leave are the same.
proof fn lemma_rows_alike(
    tier: ReplicaTier,
    placements: Map<Text, PlacementView>,
    rows: Map<Text, PlacementView>,
    a: Seq<FetchedItemView>,
    b: Seq<FetchedItemView>,
)
    requires
        is_filed(placements),
        reports_once(a),
        reports_once(b),
        report_alike(placements, a, b),
    ensures
        stored(rows, row_writes(tier, placements, a)) == stored(
            rows,
            row_writes(tier, placements, b),
        ),
{
    lemma_stored_rows(tier, placements, rows, a);
    lemma_stored_rows(tier, placements, rows, b);
    let (x, y) = (
        stored(rows, row_writes(tier, placements, a)),
        stored(rows, row_writes(tier, placements, b)),
    );
    assert forall|h: Text|
        #![trigger x.contains_key(h)]
        #![trigger y.contains_key(h)]
        x.contains_key(h) == y.contains_key(h) && (x.contains_key(h) ==> x[h] == y[h]) by {
        if reports(placements, a, h) {
            let i = choose|i: int| 0 <= i < a.len() && (#[trigger] a[i]).handle == h;
            assert(a.contains(a[i]));
            assert(b.contains(a[i]));
            let k = choose|k: int| 0 <= k < b.len() && b[k] == a[i];
            assert(placements.contains_key(b[k].handle));
        } else if reports(placements, b, h) {
            let k = choose|k: int| 0 <= k < b.len() && (#[trigger] b[k]).handle == h;
            assert(b.contains(b[k]));
            assert(a.contains(b[k]));
            let i = choose|i: int| 0 <= i < a.len() && a[i] == b[k];
            assert(a[i].handle == h);
        }
    }
    assert(x =~= y);
}

/// What taking up a fetch of linked placements hands over and counts.
proof fn lemma_fetched_linked(s: UpgradeView, items: Seq<FetchedItemView>)
    requires
        s.phase is PendingFetch,
        all_linked(s.placements),
    ensures
        ({
            let (t, out) = upgrade_step(s, Some(ArgView::Fetch(items)));
            &&& out == UpgradeStep::Yielded(
                YieldView::WantsWrite(s.ops + row_writes(s.tier, s.placements, items)),
            )
            &&& t.report.upgraded == s.report.upgraded + tally(counts(s.tier, s.placements), items)
            &&& t.report.fetched == s.report.fetched + tally(brings(s.tier, s.placements), items)
            &&& t.report.deduped == s.report.deduped
        }),
{
    let start = Applied {
        claimed: holders(s.placements, ascending(s.placements.dom())),
        lost: Map::empty(),
        ops: s.ops,
        raised: 0,
        bodies: 0,
    };
    lemma_applied_linked(s.tier, s.placements, start, items);
    let none = Map::<Text, Seq<Text>>::empty();
    let q = ascending(none.dom());
    lemma_ascending(none.dom());
    if q.len() > 0 {
        assert(q.contains(q[0]));
    }
    let next = UpgradeView { fetched: items, ..s };
    assert(outcome(next) == applied(s.tier, s.placements, start, items));
    assert(freezes(s.placements, outcome(next).ops, none, q) == outcome(next).ops);
}

/// The order a fetch reports in does not matter, nor do items nobody asked
/// for: two fetches of linked placements that report the same of the rows
/// known end in the same report, store the same bodies and, over any rows,
/// leave the same rows.
pub proof fn an_unordered_fetch_raises_like_an_ordered_one(
    s: UpgradeView,
    a: Seq<FetchedItemView>,
    b: Seq<FetchedItemView>,
    rows: Map<Text, PlacementView>,
)
    requires
        s.phase is PendingFetch,
        is_filed(s.placements),
        all_linked(s.placements),
        reports_once(a),
        reports_once(b),
        report_alike(s.placements, a, b),
    ensures
        ({
            let (t, out) = upgrade_step(s, Some(ArgView::Fetch(a)));
            let (u, other) = upgrade_step(s, Some(ArgView::Fetch(b)));
            let (x, y) = (out->Yielded_0->WantsWrite_0, other->Yielded_0->WantsWrite_0);
            &&& out is Yielded && out->Yielded_0 is WantsWrite
            &&& other is Yielded && other->Yielded_0 is WantsWrite
            &&& t.report == u.report
            &&& forall|op: WriteOpView| #[trigger] x.contains(op) <==> y.contains(op)
            &&& stored(rows, x) == stored(rows, y)
        }),
{
    lemma_fetched_linked(s, a);
    lemma_fetched_linked(s, b);
    lemma_tally_alike(counts(s.tier, s.placements), a, b);
    lemma_tally_alike(brings(s.tier, s.placements), a, b);
    let (v, w) = (row_writes(s.tier, s.placements, a), row_writes(s.tier, s.placements, b));
    let (x, y) = (s.ops + v, s.ops + w);
    assert forall|op: WriteOpView| #[trigger] x.contains(op) <==> y.contains(op) by {
        if v.contains(op) {
            lemma_writes_alike(s.tier, s.placements, a, b, op);
        }
        if w.contains(op) {
            lemma_writes_alike(s.tier, s.placements, b, a, op);
        }
        lemma_either_contains(s.ops, v, op);
        lemma_either_contains(s.ops, w, op);
    }
    lemma_stored_both(rows, s.ops, v);
    lemma_stored_both(rows, s.ops, w);
    lemma_rows_alike(s.tier, s.placements, stored(rows, s.ops), a, b);
}

proof fn lemma_either_contains(a: Seq<WriteOpView>, b: Seq<WriteOpView>, op: WriteOpView)
    ensures
        (a + b).contains(op) <==> a.contains(op) || b.contains(op),
{
    if a.contains(op) {
        let k = choose|k: int| 0 <= k < a.len() && a[k] == op;
        assert((a + b)[k] == op);
    }
    if b.contains(op) {
        let k = choose|k: int| 0 <= k < b.len() && b[k] == op;
        assert((a + b)[a.len() + k] == op);
    }
    if (a + b).contains(op) {
        let k = choose|k: int| 0 <= k < a.len() + b.len() && (a + b)[k] == op;
        if k < a.len() {
            assert(a[k] == op);
        } else {
            assert(b[k - a.len()] == op);
        }
    }
}

} // verus!
