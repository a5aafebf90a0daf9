//! What an upgrade asks for and stores, told from the rows it loads and what
//! the store and the remote answer.

use vstd::prelude::*;

use crate::change::WriteOpView;
use crate::coroutine::{ArgView, StepView, YieldView};
use crate::object::ObjectView;
use crate::order::{ascending, Text};
use crate::placement::{BaseView, PlacementView, ReplicaLevel};
use crate::remote::{FetchedBodyView, FetchedItemView, ReplicaTier};
use crate::storage::{LoadScopeView, LoadedView};
use crate::sync::join::by_handle;
use crate::upgrade::{
    applied, freezes, fresh_links, holders, link_writes, lookups, misses, outcome, pending,
    staged_from, stages, upgrade_step, widened, Applied, UpgradePhase, UpgradeView,
};

verus! {

/// Whether a row lacks what a tier is for: the level, or the payload it
/// claims.
pub open spec fn needs(tier: ReplicaTier, p: PlacementView) -> bool {
    match tier {
        ReplicaTier::Meta => p.level is Probed || p.meta is None,
        ReplicaTier::Full => !(p.level is Full) || p.object is None,
    }
}

/// The handles requested whose row is known and lacks something, in the
/// order requested.
pub open spec fn wanting(
    tier: ReplicaTier,
    rows: Map<Text, PlacementView>,
    handles: Seq<Text>,
) -> Seq<Text> {
    handles.filter(|h: Text| rows.contains_key(h) && needs(tier, rows[h]))
}

/// Whether the store may hold the body of a row: it has an identity, and its
/// source does not rewrite content in place.
pub open spec fn is_sharable(p: PlacementView) -> bool {
    p.link_id is Some && !(p.base is Some && p.base->0.revision is Some)
}

/// Whether the store holds the body of a row.
pub open spec fn is_stored(known: Map<Text, Text>, p: PlacementView) -> bool {
    is_sharable(p) && known.contains_key(p.link_id->0)
}

proof fn lemma_pending(tier: ReplicaTier, rows: Map<Text, PlacementView>, handles: Seq<Text>)
    ensures
        pending(tier, rows, handles) == wanting(tier, rows, handles),
    decreases handles.len(),
{
    reveal(Seq::filter);
    if handles.len() > 0 {
        lemma_pending(tier, rows, handles.drop_last());
    }
}

proof fn lemma_filter_holds(q: Seq<Text>, kind: spec_fn(Text) -> bool)
    ensures
        forall|i: int| 0 <= i < q.filter(kind).len() ==> kind(#[trigger] q.filter(kind)[i]),
    decreases q.len(),
{
    reveal(Seq::filter);
    if q.len() > 0 {
        lemma_filter_holds(q.drop_last(), kind);
    }
}

proof fn lemma_lookups(rows: Map<Text, PlacementView>, handles: Seq<Text>)
    requires
        forall|i: int| 0 <= i < handles.len() ==> rows.contains_key(#[trigger] handles[i]),
    ensures
        lookups(rows, handles) == handles.filter(|h: Text| is_sharable(rows[h])).map_values(
            |h: Text| rows[h].link_id->0,
        ),
    decreases handles.len(),
{
    reveal(Seq::filter);
    let (kind, link) = (|h: Text| is_sharable(rows[h]), |h: Text| rows[h].link_id->0);
    if handles.len() > 0 {
        let (before, last) = (handles.drop_last(), handles.last());
        assert forall|i: int| 0 <= i < before.len() implies rows.contains_key(
            #[trigger] before[i],
        ) by {
            assert(before[i] == handles[i]);
        }
        assert(rows.contains_key(handles[handles.len() - 1]));
        lemma_lookups(rows, before);
        if kind(last) {
            assert(before.filter(kind).push(last).map_values(link) =~= before.filter(
                kind,
            ).map_values(link).push(link(last)));
        }
    } else {
        assert(lookups(rows, handles) =~= handles.filter(kind).map_values(link));
    }
}

/// What an upgrade asks for first: the rows requested, then, of those that
/// lack what the tier is for, the bodies the store may hold under their
/// identity where bodies are wanted, and the rest from the remote. Where
/// none lacks anything it is done.
pub proof fn an_upgrade_asks_for_what_is_lacking(s: UpgradeView, loaded: LoadedView)
    ensures
        s.phase is Start ==> {
            let (t, out) = upgrade_step(s, None);
            &&& t == (UpgradeView { phase: UpgradePhase::PendingLoad, ..s })
            &&& out matches StepView::Yielded(YieldView::WantsLoad { collection, scope })
                && collection == s.collection && scope == LoadScopeView::Handles(s.handles)
        },
        s.phase is PendingLoad ==> {
            let rows = by_handle(loaded.placements);
            let todo = wanting(s.tier, rows, s.handles);
            let shared = todo.filter(|h: Text| is_sharable(rows[h]));
            let (t, out) = upgrade_step(s, Some(ArgView::Load(loaded)));
            &&& t.placements == rows
            &&& t.ops == s.ops
            &&& t.report == s.report
            &&& if todo.len() == 0 {
                out is Done && out->Done_0 == s.report && t.phase is Done
            } else if s.tier is Meta || shared.len() == 0 {
                t.phase is PendingFetch && out->Yielded_0 == (YieldView::WantsFetch {
                    collection: s.collection,
                    handles: todo,
                    tier: s.tier,
                }) && out is Yielded
            } else {
                t.phase is PendingLookup && out is Yielded && out->Yielded_0
                    == YieldView::WantsLookupObject(
                    shared.map_values(|h: Text| rows[h].link_id->0),
                )
            }
        },
{
    let rows = by_handle(loaded.placements);
    lemma_pending(s.tier, rows, s.handles);
    let todo = wanting(s.tier, rows, s.handles);
    let kind = |h: Text| rows.contains_key(h) && needs(s.tier, rows[h]);
    lemma_filter_holds(s.handles, kind);
    assert forall|i: int| 0 <= i < todo.len() implies rows.contains_key(#[trigger] todo[i]) by {
        assert(kind(s.handles.filter(kind)[i]));
    }
    lemma_lookups(rows, todo);
}

/// A row linked to a body of the store: it points at it and holds it whole,
/// its base with it, and nothing else of it moves.
pub open spec fn links(
    rows: Map<Text, PlacementView>,
    known: Map<Text, Text>,
    handle: Text,
) -> WriteOpView {
    let p = rows[handle];
    let hash = known[p.link_id->0];
    WriteOpView::UpsertPlacement(
        PlacementView {
            object: Some(hash),
            level: ReplicaLevel::Full,
            base: if p.base is Some {
                Some(
                    BaseView {
                        flags: p.base->0.flags,
                        revision: p.base->0.revision,
                        object: Some(hash),
                    },
                )
            } else {
                None
            },
            ..p
        },
    )
}

proof fn lemma_links(rows: Map<Text, PlacementView>, known: Map<Text, Text>, handles: Seq<Text>)
    ensures
        link_writes(rows, known, handles) == handles.filter(
            |h: Text| is_stored(known, rows[h]),
        ).map_values(|h: Text| links(rows, known, h)),
        misses(rows, known, handles) == handles.filter(|h: Text| !is_stored(known, rows[h])),
    decreases handles.len(),
{
    reveal(Seq::filter);
    let kind = |h: Text| is_stored(known, rows[h]);
    let link = |h: Text| links(rows, known, h);
    if handles.len() > 0 {
        let (before, last) = (handles.drop_last(), handles.last());
        lemma_links(rows, known, before);
        if kind(last) {
            assert(before.filter(kind).push(last).map_values(link) =~= before.filter(
                kind,
            ).map_values(link).push(link(last)));
        }
    } else {
        assert(link_writes(rows, known, handles) =~= handles.filter(kind).map_values(link));
    }
}

/// What the store holds is linked, in the order requested, and counted as
/// raised and as linked; what it does not hold is fetched, and only that.
pub proof fn what_the_store_holds_is_linked(s: UpgradeView, known: Map<Text, Text>)
    requires
        s.phase is PendingLookup,
    ensures
        ({
            let todo = wanting(s.tier, s.placements, s.handles);
            let held = todo.filter(|h: Text| is_stored(known, s.placements[h]));
            let rest = todo.filter(|h: Text| !is_stored(known, s.placements[h]));
            let ops = s.ops + held.map_values(|h: Text| links(s.placements, known, h));
            let (t, out) = upgrade_step(s, Some(ArgView::LookupObject(known)));
            &&& t.report.upgraded == s.report.upgraded + held.len()
            &&& t.report.deduped == s.report.deduped + held.len()
            &&& t.report.fetched == s.report.fetched
            &&& t.placements == s.placements
            &&& out is Yielded
            &&& if rest.len() == 0 {
                t.phase is PendingWrite && out->Yielded_0 == YieldView::WantsWrite(ops)
            } else {
                t.phase is PendingFetch && t.ops == ops && out->Yielded_0
                    == (YieldView::WantsFetch {
                    collection: s.collection,
                    handles: rest,
                    tier: s.tier,
                })
            }
        }),
{
    lemma_pending(s.tier, s.placements, s.handles);
    lemma_links(s.placements, known, wanting(s.tier, s.placements, s.handles));
}

/// The write that stores a fetched body: the hash reported, with the bytes
/// and as many as there are, or with the size reported and no bytes where
/// the consumer has stored them already.
pub open spec fn keeps_bytes(op: WriteOpView, body: FetchedBodyView) -> bool {
    match body {
        FetchedBodyView::Inline { hash, bytes } => op == (WriteOpView::StoreObject {
            object: ObjectView { hash, size: bytes.len() as usize },
            body: Some(bytes),
        }),
        FetchedBodyView::Persisted { hash, size } => op == (WriteOpView::StoreObject {
            object: ObjectView { hash, size },
            body: None,
        }),
    }
}

/// The hash of a fetched body.
pub open spec fn hash_of(body: FetchedBodyView) -> Text {
    match body {
        FetchedBodyView::Inline { hash, .. } => hash,
        FetchedBodyView::Persisted { hash, .. } => hash,
    }
}

/// Whether a row is another raised by a fetched item: its summary and key
/// are the ones fetched, and with a body it points at it, whole, in sync at
/// the revision fetched. An identity it had stays, and a freeze is all that
/// may come on top.
pub open spec fn is_raised(
    q: PlacementView,
    p: PlacementView,
    tier: ReplicaTier,
    item: FetchedItemView,
) -> bool {
    &&& q == (PlacementView {
        link_id: q.link_id,
        status: q.status,
        ambiguous_handles: q.ambiguous_handles,
        object: q.object,
        level: q.level,
        base: q.base,
        meta: Some(item.meta),
        sort_key: item.sort_key,
        ..p
    })
    &&& if p.link_id is Some {
        q.link_id == p.link_id
    } else {
        q.link_id is None || q.link_id == Some(item.link_id)
    }
    &&& q.status == p.status && q.ambiguous_handles == p.ambiguous_handles || q.status
        is Ambiguous
    &&& if tier is Full && item.body is Some {
        let hash = hash_of(item.body->0);
        &&& q.object == Some(hash)
        &&& q.level is Full
        &&& q.base == if p.base is Some {
            Some(
                BaseView {
                    flags: p.base->0.flags,
                    revision: item.revision,
                    object: Some(hash),
                },
            )
        } else {
            None
        }
    } else {
        &&& q.object == p.object
        &&& q.base == p.base
        &&& q.level == if p.level is Full {
            ReplicaLevel::Full
        } else {
            ReplicaLevel::Meta
        }
    }
}

/// Whether a batch raises a row by a fetched item, the body stored right
/// before it.
pub open spec fn raises_row(
    ops: Seq<WriteOpView>,
    p: PlacementView,
    tier: ReplicaTier,
    item: FetchedItemView,
) -> bool {
    exists|k: int|
        0 <= k < ops.len() && (#[trigger] ops[k]) is UpsertPlacement && is_raised(
            ops[k]->UpsertPlacement_0,
            p,
            tier,
            item,
        ) && (tier is Full && item.body is Some ==> k > 0 && keeps_bytes(
            ops[k - 1],
            item.body->0,
        ))
}

proof fn lemma_raises_more(
    ops: Seq<WriteOpView>,
    more: Seq<WriteOpView>,
    p: PlacementView,
    tier: ReplicaTier,
    item: FetchedItemView,
)
    requires
        raises_row(ops, p, tier, item),
    ensures
        raises_row(ops + more, p, tier, item),
{
    let all = ops + more;
    let k = choose|k: int|
        0 <= k < ops.len() && (#[trigger] ops[k]) is UpsertPlacement && is_raised(
            ops[k]->UpsertPlacement_0,
            p,
            tier,
            item,
        ) && (tier is Full && item.body is Some ==> k > 0 && keeps_bytes(
            ops[k - 1],
            item.body->0,
        ));
    assert(all[k] == ops[k]);
    if k > 0 {
        assert(all[k - 1] == ops[k - 1]);
    }
}

/// Whether a fetched item is of a known row.
pub open spec fn is_known(rows: Map<Text, PlacementView>, item: FetchedItemView) -> bool {
    rows.contains_key(item.handle)
}

proof fn lemma_applied_raises(
    tier: ReplicaTier,
    rows: Map<Text, PlacementView>,
    start: Applied,
    items: Seq<FetchedItemView>,
    i: int,
)
    requires
        0 <= i < items.len(),
        is_known(rows, items[i]),
    ensures
        raises_row(
            applied(tier, rows, start, items).ops,
            rows[items[i].handle],
            tier,
            items[i],
        ),
    decreases items.len(),
{
    let (before, last) = (items.drop_last(), items.last());
    let (old, all) = (
        applied(tier, rows, start, before).ops,
        applied(tier, rows, start, items).ops,
    );
    let p = rows[items[i].handle];
    if i < before.len() {
        assert(before[i] == items[i]);
        lemma_applied_raises(tier, rows, start, before, i);
        if is_known(rows, last) {
            let more = all.skip(old.len() as int);
            assert(all =~= old + more);
            lemma_raises_more(old, more, p, tier, items[i]);
        }
    } else {
        assert(items[i] == last);
        let k = all.len() - 1;
        assert(all[k] is UpsertPlacement);
        assert(is_raised(all[k]->UpsertPlacement_0, p, tier, last));
    }
}

proof fn lemma_staged_at(ops: Seq<WriteOpView>, handle: Text, i: int)
    requires
        0 <= i,
    ensures
        staged_from(ops, handle, i) matches Some(k) ==> i <= k < ops.len() && ops[k]
            is UpsertPlacement,
    decreases ops.len() - i,
{
    if i < ops.len() && !stages(ops[i], handle) {
        lemma_staged_at(ops, handle, i + 1);
    }
}

proof fn lemma_freezes_raise(
    rows: Map<Text, PlacementView>,
    ops: Seq<WriteOpView>,
    lost: Map<Text, Seq<Text>>,
    handles: Seq<Text>,
    p: PlacementView,
    tier: ReplicaTier,
    item: FetchedItemView,
)
    requires
        raises_row(ops, p, tier, item),
    ensures
        raises_row(freezes(rows, ops, lost, handles), p, tier, item),
    decreases handles.len(),
{
    if handles.len() > 0 {
        let before = freezes(rows, ops, lost, handles.drop_last());
        let after = freezes(rows, ops, lost, handles);
        lemma_freezes_raise(rows, ops, lost, handles.drop_last(), p, tier, item);
        lemma_staged_at(before, handles.last(), 0);
        let k = choose|k: int|
            0 <= k < before.len() && (#[trigger] before[k]) is UpsertPlacement && is_raised(
                before[k]->UpsertPlacement_0,
                p,
                tier,
                item,
            ) && (tier is Full && item.body is Some ==> k > 0 && keeps_bytes(
                before[k - 1],
                item.body->0,
            ));
        assert(after[k] is UpsertPlacement);
        assert(is_raised(after[k]->UpsertPlacement_0, p, tier, item));
        if k > 0 && tier is Full && item.body is Some {
            assert(before[k - 1] is StoreObject);
            assert(after[k - 1] == before[k - 1]);
        }
    }
}

/// The writes of a fetch taken up, and the counts: rows raised to the tier,
/// and bodies stored.
pub open spec fn takes_up_fetch(
    s: UpgradeView,
    rows: Map<Text, PlacementView>,
    items: Seq<FetchedItemView>,
    t: UpgradeView,
    ops: Seq<WriteOpView>,
) -> bool {
    &&& forall|i: int|
        0 <= i < items.len() && is_known(rows, #[trigger] items[i]) ==> raises_row(
            ops,
            rows[items[i].handle],
            s.tier,
            items[i],
        )
    &&& forall|i: int| 0 <= i < s.ops.len() && s.ops[i] is StoreObject ==> #[trigger] ops[i]
        == s.ops[i]
    &&& t.report.upgraded == s.report.upgraded + items.filter(
        |item: FetchedItemView| is_known(rows, item) && (s.tier is Meta || item.body is Some),
    ).len()
    &&& t.report.fetched == s.report.fetched + items.filter(
        |item: FetchedItemView| is_known(rows, item) && s.tier is Full && item.body is Some,
    ).len()
    &&& t.report.deduped == s.report.deduped
    &&& t.phase is PendingWrite
}

proof fn lemma_applied_counts(
    tier: ReplicaTier,
    rows: Map<Text, PlacementView>,
    start: Applied,
    items: Seq<FetchedItemView>,
)
    ensures
        ({
            let done = applied(tier, rows, start, items);
            &&& done.raised == start.raised + items.filter(
                |item: FetchedItemView| is_known(rows, item) && (tier is Meta || item.body is Some),
            ).len()
            &&& done.bodies == start.bodies + items.filter(
                |item: FetchedItemView| is_known(rows, item) && tier is Full && item.body is Some,
            ).len()
            &&& start.ops.is_prefix_of(done.ops)
        }),
    decreases items.len(),
{
    reveal(Seq::filter);
    let done = applied(tier, rows, start, items);
    if items.len() > 0 {
        lemma_applied_counts(tier, rows, start, items.drop_last());
        let before = applied(tier, rows, start, items.drop_last());
        assert(before.ops.is_prefix_of(done.ops));
        assert(start.ops =~= done.ops.subrange(0, start.ops.len() as int)) by {
            assert forall|i: int| 0 <= i < start.ops.len() implies start.ops[i] == done.ops[i] by {
                assert(start.ops[i] == before.ops.subrange(0, start.ops.len() as int)[i]);
                assert(before.ops[i] == done.ops.subrange(0, before.ops.len() as int)[i]);
            }
        }
    } else {
        assert(start.ops =~= done.ops.subrange(0, start.ops.len() as int));
    }
}

proof fn lemma_freezes_keep_objects(
    rows: Map<Text, PlacementView>,
    ops: Seq<WriteOpView>,
    lost: Map<Text, Seq<Text>>,
    handles: Seq<Text>,
)
    ensures
        freezes(rows, ops, lost, handles).len() >= ops.len(),
        forall|i: int| 0 <= i < ops.len() && ops[i] is StoreObject ==> #[trigger] freezes(
            rows,
            ops,
            lost,
            handles,
        )[i] == ops[i],
    decreases handles.len(),
{
    if handles.len() > 0 {
        let before = freezes(rows, ops, lost, handles.drop_last());
        lemma_freezes_keep_objects(rows, ops, lost, handles.drop_last());
        lemma_staged_at(before, handles.last(), 0);
        let after = freezes(rows, ops, lost, handles);
        assert forall|i: int| 0 <= i < ops.len() && ops[i] is StoreObject implies #[trigger] after[i]
            == ops[i] by {
            assert(before[i] == ops[i]);
        }
    }
}

proof fn lemma_written(s: UpgradeView)
    ensures
        ({
            let done = outcome(s);
            let ops = freezes(s.placements, done.ops, done.lost, ascending(done.lost.dom()));
            &&& forall|i: int|
                0 <= i < s.fetched.len() && is_known(s.placements, #[trigger] s.fetched[i])
                    ==> raises_row(
                    ops,
                    s.placements[s.fetched[i].handle],
                    s.tier,
                    s.fetched[i],
                )
            &&& forall|i: int|
                0 <= i < s.ops.len() && s.ops[i] is StoreObject ==> #[trigger] ops[i] == s.ops[i]
        }),
{
    let start = Applied {
        claimed: holders(s.placements, ascending(s.placements.dom())),
        lost: Map::empty(),
        ops: s.ops,
        raised: 0,
        bodies: 0,
    };
    let done = outcome(s);
    let q = ascending(done.lost.dom());
    let ops = freezes(s.placements, done.ops, done.lost, q);
    lemma_applied_counts(s.tier, s.placements, start, s.fetched);
    lemma_freezes_keep_objects(s.placements, done.ops, done.lost, q);
    assert forall|i: int|
        0 <= i < s.ops.len() && s.ops[i] is StoreObject implies #[trigger] ops[i] == s.ops[i] by {
        assert(s.ops[i] == done.ops.subrange(0, s.ops.len() as int)[i]);
    }
    assert forall|i: int|
        0 <= i < s.fetched.len() && is_known(s.placements, #[trigger] s.fetched[i]) implies raises_row(
        ops,
        s.placements[s.fetched[i].handle],
        s.tier,
        s.fetched[i],
    ) by {
        let p = s.placements[s.fetched[i].handle];
        lemma_applied_raises(s.tier, s.placements, start, s.fetched, i);
        lemma_freezes_raise(s.placements, done.ops, done.lost, q, p, s.tier, s.fetched[i]);
    }
}

proof fn lemma_fresh_links(rows: Map<Text, PlacementView>, items: Seq<FetchedItemView>)
    ensures
        fresh_links(rows, items) == items.filter(
            |item: FetchedItemView| is_known(rows, item) && rows[item.handle].link_id is None,
        ).map_values(|item: FetchedItemView| item.link_id),
    decreases items.len(),
{
    reveal(Seq::filter);
    let kind = |item: FetchedItemView|
        is_known(rows, item) && rows[item.handle].link_id is None;
    let link = |item: FetchedItemView| item.link_id;
    if items.len() > 0 {
        let (before, last) = (items.drop_last(), items.last());
        lemma_fresh_links(rows, before);
        if kind(last) {
            assert(before.filter(kind).push(last).map_values(link) =~= before.filter(
                kind,
            ).map_values(link).push(link(last)));
        }
    } else {
        assert(fresh_links(rows, items) =~= items.filter(kind).map_values(link));
    }
}

/// What is fetched is stored, item by item: each known row is raised by what
/// was fetched for it, each body stored whole right before the row that
/// points at it, and exactly what was raised and stored is counted. Where an
/// item would give a row its identity, who holds it is asked first.
pub proof fn what_is_fetched_is_stored_whole(s: UpgradeView, items: Seq<FetchedItemView>)
    requires
        s.phase is PendingFetch,
    ensures
        ({
            let fresh = items.filter(
                |item: FetchedItemView|
                    is_known(s.placements, item) && s.placements[item.handle].link_id is None,
            );
            let (t, out) = upgrade_step(s, Some(ArgView::Fetch(items)));
            &&& out is Yielded
            &&& if fresh.len() == 0 {
                out->Yielded_0 is WantsWrite && takes_up_fetch(
                    s,
                    s.placements,
                    items,
                    t,
                    out->Yielded_0->WantsWrite_0,
                )
            } else {
                &&& out->Yielded_0 == (YieldView::WantsLoad {
                    collection: s.collection,
                    scope: LoadScopeView::Links(
                        fresh.map_values(|item: FetchedItemView| item.link_id),
                    ),
                })
                &&& t == (UpgradeView {
                    phase: UpgradePhase::PendingLinkCheck,
                    fetched: items,
                    ..s
                })
            }
        }),
{
    lemma_fresh_links(s.placements, items);
    let next = UpgradeView { fetched: items, ..s };
    lemma_written(next);
    lemma_applied_counts(
        s.tier,
        s.placements,
        Applied {
            claimed: holders(s.placements, ascending(s.placements.dom())),
            lost: Map::empty(),
            ops: s.ops,
            raised: 0,
            bodies: 0,
        },
        items,
    );
}

/// Whether rows are others with more made known: every one known stays as it
/// was, and what is new was loaded.
pub open spec fn widens(
    rows: Map<Text, PlacementView>,
    loaded: Seq<PlacementView>,
    more: Map<Text, PlacementView>,
) -> bool {
    &&& forall|h: Text| #[trigger]
        rows.contains_key(h) ==> more.contains_key(h) && more[h] == rows[h]
    &&& forall|i: int| 0 <= i < loaded.len() ==> more.contains_key((#[trigger] loaded[i]).handle)
    &&& forall|h: Text| #[trigger]
        more.contains_key(h) && !rows.contains_key(h) ==> loaded.contains(more[h])
            && more[h].handle == h
}

proof fn lemma_widens(rows: Map<Text, PlacementView>, loaded: Seq<PlacementView>)
    ensures
        widens(rows, loaded, widened(rows, loaded)),
    decreases loaded.len(),
{
    if loaded.len() > 0 {
        let before = loaded.drop_last();
        lemma_widens(rows, before);
        let (old, more) = (widened(rows, before), widened(rows, loaded));
        assert(loaded[loaded.len() - 1] == loaded.last());
        assert forall|i: int| 0 <= i < loaded.len() implies more.contains_key(
            (#[trigger] loaded[i]).handle,
        ) by {
            if i < before.len() {
                assert(before[i] == loaded[i]);
            }
        }
        assert forall|h: Text| #[trigger]
            more.contains_key(h) && !rows.contains_key(h) implies loaded.contains(more[h])
            && more[h].handle == h by {
            if old.contains_key(h) {
                let k = choose|k: int| 0 <= k < before.len() && before[k] == old[h];
                assert(loaded[k] == more[h]);
            }
        }
    }
}

/// Once the holders of the identities fetched are known, what was fetched is
/// stored just as well, over the rows known before.
pub proof fn what_was_fetched_is_stored_after_the_check(s: UpgradeView, loaded: LoadedView)
    requires
        s.phase is PendingLinkCheck,
    ensures
        ({
            let (t, out) = upgrade_step(s, Some(ArgView::Load(loaded)));
            &&& widens(s.placements, loaded.placements, t.placements)
            &&& out is Yielded
            &&& out->Yielded_0 is WantsWrite
            &&& takes_up_fetch(s, t.placements, s.fetched, t, out->Yielded_0->WantsWrite_0)
        }),
{
    lemma_widens(s.placements, loaded.placements);
    let rows = widened(s.placements, loaded.placements);
    let next = UpgradeView { placements: rows, ..s };
    lemma_written(next);
    lemma_applied_counts(
        s.tier,
        rows,
        Applied {
            claimed: holders(rows, ascending(rows.dom())),
            lost: Map::empty(),
            ops: s.ops,
            raised: 0,
            bodies: 0,
        },
        s.fetched,
    );
}

/// An upgrade is done once its writes are stored, and reports what it
/// counted.
pub proof fn a_stored_upgrade_reports_its_counts(s: UpgradeView)
    requires
        s.phase is PendingWrite,
    ensures
        ({
            let (t, out) = upgrade_step(s, Some(ArgView::Write));
            t.phase is Done && out is Done && out->Done_0 == s.report
        }),
{
}

} // verus!
