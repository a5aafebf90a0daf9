//! What a rekey stores, told from the rows it loads, the members the new
//! handle space lists and what is resolved of them.

use vstd::prelude::*;

use crate::change::{ReplicaDropReason, WriteOpView};
use crate::coroutine::{ArgView, YieldView};
use crate::laws::deciding::has_flag;
use crate::order::Text;
use crate::placement::{BaseView, FlagsView, PlacementView, ReplicaLevel, ReplicaStatus};
use crate::rekey::{
    by_link, handles_of, lost_count, place, placed, rebuild_report, rebuild_writes, rebuilt,
    rekey_step, rescue, rescued, resolutions, spine, spine_drops, Rebuilt, RekeyPhase,
    RekeyReportView, RekeyStep, RekeyView,
};
use crate::remote::{FetchedItemView, RemoteItemView, RemoteSnapshotView, ReplicaTier};
use crate::storage::{LoadScopeView, LoadedView};

verus! {

/// The rows a rebuild is about: all but the pending creates.
pub open spec fn rows_of(old: Seq<PlacementView>) -> Seq<PlacementView> {
    old.filter(|p: PlacementView| !(p.status is Created))
}

/// Whether what is resolved of a handle is the item fetched at `k`, the last
/// one fetched for it.
pub open spec fn resolves(f: Seq<FetchedItemView>, handle: Text, k: int) -> bool {
    &&& 0 <= k < f.len()
    &&& f[k].handle == handle
    &&& forall|m: int| k < m < f.len() ==> (#[trigger] f[m]).handle != handle
}

/// Whether a handle resolved to an identity.
pub open spec fn is_named(f: Seq<FetchedItemView>, handle: Text, link: Text) -> bool {
    exists|k: int| #[trigger] resolves(f, handle, k) && f[k].link_id == link
}

/// Whether an identity is held by the row at `j`, the last one to hold it.
pub open spec fn holds(rows: Seq<PlacementView>, link: Text, j: int) -> bool {
    &&& 0 <= j < rows.len()
    &&& rows[j].link_id == Some(link)
    &&& forall|m: int| j < m < rows.len() ==> (#[trigger] rows[m]).link_id != Some(link)
}

/// Whether a member is the first listed of an identity.
pub open spec fn is_first(
    items: Seq<RemoteItemView>,
    f: Seq<FetchedItemView>,
    link: Text,
    i: int,
) -> bool {
    &&& 0 <= i < items.len()
    &&& is_named(f, items[i].handle, link)
    &&& forall|m: int| 0 <= m < i ==> !is_named(f, (#[trigger] items[m]).handle, link)
}

/// Whether a member takes a row over: it is the first listed of the identity
/// that row holds.
pub open spec fn takes_over(
    rows: Seq<PlacementView>,
    items: Seq<RemoteItemView>,
    f: Seq<FetchedItemView>,
    i: int,
    j: int,
) -> bool {
    &&& 0 <= j < rows.len()
    &&& rows[j].link_id is Some
    &&& holds(rows, rows[j].link_id->0, j)
    &&& is_first(items, f, rows[j].link_id->0, i)
}

/// Whether a member takes some row over.
pub open spec fn is_matched(
    rows: Seq<PlacementView>,
    items: Seq<RemoteItemView>,
    f: Seq<FetchedItemView>,
    i: int,
) -> bool {
    exists|j: int| takes_over(rows, items, f, i, j)
}

/// Whether some member takes a row over.
pub open spec fn is_taken(
    rows: Seq<PlacementView>,
    items: Seq<RemoteItemView>,
    f: Seq<FetchedItemView>,
    j: int,
) -> bool {
    exists|i: int| takes_over(rows, items, f, i, j)
}

/// Whether a row had a body staged that its base does not hold.
pub open spec fn is_edited(p: PlacementView) -> bool {
    p.object is Some && (p.base is None || p.base->0.object != p.object)
}

/// The flags last synced of a row, none where it never was.
pub open spec fn flags_synced(p: PlacementView) -> FlagsView {
    if p.base is Some {
        p.base->0.flags
    } else {
        FlagsView::Known(Set::empty())
    }
}

/// Whether the flags of a row merge with the ones reported, flag by flag: a
/// reading changed here stands, removals included, and any other is the one
/// reported. A side that reports none says nothing.
pub open spec fn merges_flags(old: PlacementView, there: FlagsView, left: FlagsView) -> bool {
    if old.flags is Unknown {
        left == there
    } else if there is Unknown {
        left == old.flags
    } else {
        &&& left is Known
        &&& forall|flag: Text| #[trigger]
            has_flag(left, flag) == if has_flag(old.flags, flag) != has_flag(
                flags_synced(old),
                flag,
            ) {
                has_flag(old.flags, flag)
            } else {
                has_flag(there, flag)
            }
    }
}

/// Whether a row is another carried over to a new member: its cache and what
/// is pending stay, its flags merge with the ones reported, and it is synced
/// at what is reported but for the body.
pub open spec fn carries(
    collection: Text,
    old: PlacementView,
    item: RemoteItemView,
    found: FetchedItemView,
    q: PlacementView,
) -> bool {
    &&& q == (PlacementView {
        collection,
        handle: item.handle,
        meta: Some(found.meta),
        sort_key: found.sort_key,
        flags: q.flags,
        status: q.status,
        conflict_revision: if old.status is Conflict {
            item.revision
        } else {
            None
        },
        conflict_object: None,
        base: Some(
            BaseView {
                flags: item.flags,
                revision: item.revision,
                object: if old.base is Some {
                    old.base->0.object
                } else {
                    None
                },
            },
        ),
        ..old
    })
    &&& merges_flags(old, item.flags, q.flags)
    &&& if old.status is Tombstone || old.status is Conflict || old.status is Ambiguous {
        q.status == old.status
    } else if q.flags != item.flags || (old.status is Dirty && is_edited(old)) {
        q.status is Dirty
    } else {
        q.status is Clean
    }
}

/// A member no row is carried over to, as it is listed.
pub open spec fn listed_alone(collection: Text, item: RemoteItemView) -> PlacementView {
    PlacementView {
        collection,
        handle: item.handle,
        link_id: None,
        object: None,
        level: ReplicaLevel::Probed,
        meta: None,
        sort_key: Seq::empty(),
        flags: item.flags,
        status: ReplicaStatus::Clean,
        conflict_revision: None,
        conflict_object: None,
        base: Some(BaseView { flags: item.flags, revision: item.revision, object: None }),
        origin: None,
        ambiguous_handles: Seq::empty(),
    }
}

/// Whether a row is that of a new member: carried over where it takes one
/// over, else as listed, with what was resolved of it.
pub open spec fn places(
    collection: Text,
    rows: Seq<PlacementView>,
    items: Seq<RemoteItemView>,
    f: Seq<FetchedItemView>,
    i: int,
    q: PlacementView,
) -> bool {
    let item = items[i];
    &&& forall|j: int, k: int| #[trigger]
        takes_over(rows, items, f, i, j) && #[trigger] resolves(f, item.handle, k) ==> carries(
            collection,
            rows[j],
            item,
            f[k],
            q,
        )
    &&& forall|k: int|
        !is_matched(rows, items, f, i) && #[trigger] resolves(f, item.handle, k) ==> q == (
        PlacementView {
            link_id: Some(f[k].link_id),
            level: ReplicaLevel::Meta,
            meta: Some(f[k].meta),
            sort_key: f[k].sort_key,
            ..listed_alone(collection, item)
        })
    &&& (forall|k: int| !(#[trigger] resolves(f, item.handle, k))) ==> q == listed_alone(
        collection,
        item,
    )
}

/// How many of the first `n` numbers a test holds of.
pub open spec fn how_many(n: int, test: spec_fn(int) -> bool) -> nat
    decreases n,
{
    if n <= 0 {
        0
    } else {
        how_many(n - 1, test) + if test(n - 1) {
            1nat
        } else {
            0nat
        }
    }
}

/// Whether a row is pending with an edit.
pub open spec fn edits(p: PlacementView) -> bool {
    (p.status is Dirty || p.status is Conflict) && is_edited(p)
}

/// A row that found no new home, kept as a pending create.
pub open spec fn kept_alone(p: PlacementView) -> PlacementView {
    PlacementView {
        status: ReplicaStatus::Created,
        conflict_revision: None,
        conflict_object: None,
        base: None,
        origin: None,
        ..p
    }
}

/// Whether a write keeps a row as a pending create.
pub open spec fn is_row_kept(p: PlacementView, op: WriteOpView) -> bool {
    op == WriteOpView::UpsertPlacement(kept_alone(p))
}

/// Whether a write keeps some row that is edited.
pub open spec fn keeps_an_edit(rows: Seq<PlacementView>, op: WriteOpView) -> bool {
    exists|j: int| 0 <= j < rows.len() && edits(#[trigger] rows[j]) && is_row_kept(rows[j], op)
}

/// Whether a batch keeps a row as a pending create.
pub open spec fn is_kept_by(p: PlacementView, ops: Seq<WriteOpView>) -> bool {
    exists|m: int| 0 <= m < ops.len() && is_row_kept(p, #[trigger] ops[m])
}

/// Whether no two rows share a handle.
pub open spec fn are_apart(rows: Seq<PlacementView>) -> bool {
    forall|i: int, j: int|
        0 <= i < j < rows.len() ==> (#[trigger] rows[i]).handle != (#[trigger] rows[j]).handle
}

/// Whether a batch and a report are those of a rebuild: every row is dropped
/// as superseded, every member placed, every edit that found no home kept,
/// the checkpoint stored last, and each of these counted.
pub open spec fn rebuilds(
    collection: Text,
    old: Seq<PlacementView>,
    items: Seq<RemoteItemView>,
    f: Seq<FetchedItemView>,
    checkpoint: Seq<u8>,
    ops: Seq<WriteOpView>,
    report: RekeyReportView,
) -> bool {
    let rows = rows_of(old);
    let n = rows.len();
    &&& ops.len() > n + items.len()
    &&& forall|j: int|
        0 <= j < n ==> #[trigger] ops[j] == (WriteOpView::DropPlacement {
            collection,
            handle: rows[j].handle,
            reason: ReplicaDropReason::Superseded,
        })
    &&& forall|i: int|
        0 <= i < items.len() ==> (#[trigger] ops[n + i]) is UpsertPlacement && places(
            collection,
            rows,
            items,
            f,
            i,
            ops[n + i]->UpsertPlacement_0,
        )
    &&& forall|m: int|
        n + items.len() <= m < ops.len() - 1 ==> keeps_an_edit(rows, #[trigger] ops[m])
    &&& ops.last() == WriteOpView::SetCheckpoint { collection, checkpoint }
    &&& report.rekeyed == how_many(items.len() as int, |i: int| is_matched(rows, items, f, i))
        + ops.len() - 1 - n - items.len()
    &&& report.pulled == how_many(items.len() as int, |i: int| !is_matched(rows, items, f, i))
    &&& are_apart(rows) ==> {
        &&& forall|j: int|
            0 <= j < n && edits(#[trigger] rows[j]) && !is_taken(rows, items, f, j)
                ==> is_kept_by(rows[j], ops.skip((n + items.len()) as int))
        &&& forall|j: int|
            0 <= j < n && is_taken(rows, items, f, j) ==> !is_kept_by(
                #[trigger] rows[j],
                ops.skip((n + items.len()) as int),
            )
        &&& report.dropped == how_many(
            n as int,
            |j: int|
                !(rows[j].status is Clean) && !is_taken(rows, items, f, j) && !edits(rows[j]),
        )
    }
}

proof fn lemma_rows(old: Seq<PlacementView>)
    ensures
        spine(old) == rows_of(old),
    decreases old.len(),
{
    reveal(Seq::filter);
    if old.len() > 0 {
        lemma_rows(old.drop_last());
    }
}

proof fn lemma_resolutions(f: Seq<FetchedItemView>, handle: Text)
    ensures
        resolutions(f).contains_key(handle) <==> exists|k: int| resolves(f, handle, k),
        forall|k: int| #[trigger]
            resolves(f, handle, k) ==> {
                let found = resolutions(f)[handle];
                found.link_id == f[k].link_id && found.meta == f[k].meta && found.sort_key
                    == f[k].sort_key
            },
    decreases f.len(),
{
    if f.len() > 0 {
        let (before, last) = (f.drop_last(), f.len() - 1);
        lemma_resolutions(before, handle);
        if f[last].handle == handle {
            assert(resolves(f, handle, last));
        } else {
            assert forall|k: int| resolves(f, handle, k) <==> #[trigger] resolves(
                before,
                handle,
                k,
            ) by {
                assert(forall|m: int| 0 <= m < last ==> before[m] == #[trigger] f[m]);
                if resolves(before, handle, k) {
                    assert forall|m: int| k < m < f.len() implies (#[trigger] f[m]).handle
                        != handle by {
                        if m < last {
                            assert(before[m] == f[m]);
                        }
                    }
                }
                if resolves(f, handle, k) {
                    assert forall|m: int| k < m < before.len() implies (#[trigger] before[m]).handle
                        != handle by {
                        assert(before[m] == f[m]);
                    }
                }
            }
            if resolutions(f).contains_key(handle) {
                let k = choose|k: int| resolves(before, handle, k);
                assert(resolves(f, handle, k));
            }
            assert forall|k: int| #[trigger] resolves(f, handle, k) implies {
                let found = resolutions(f)[handle];
                found.link_id == f[k].link_id && found.meta == f[k].meta && found.sort_key
                    == f[k].sort_key
            } by {
                assert(resolves(before, handle, k));
                assert(before[k] == f[k]);
            }
            if exists|k: int| resolves(f, handle, k) {
                let k = choose|k: int| resolves(f, handle, k);
                assert(resolves(before, handle, k));
            }
        }
    }
}

proof fn lemma_holders(rows: Seq<PlacementView>, link: Text)
    ensures
        by_link(rows).contains_key(link) <==> exists|j: int| holds(rows, link, j),
        forall|j: int| #[trigger] holds(rows, link, j) ==> by_link(rows)[link] == rows[j],
    decreases rows.len(),
{
    if rows.len() > 0 {
        let (before, last) = (rows.drop_last(), rows.len() - 1);
        lemma_holders(before, link);
        if rows[last].link_id == Some(link) {
            assert(holds(rows, link, last));
        } else {
            assert forall|j: int| holds(rows, link, j) <==> #[trigger] holds(before, link, j) by {
                if holds(before, link, j) {
                    assert forall|m: int| j < m < rows.len() implies (#[trigger] rows[m]).link_id
                        != Some(link) by {
                        if m < last {
                            assert(before[m] == rows[m]);
                        }
                    }
                }
                if holds(rows, link, j) {
                    assert forall|m: int| j < m < before.len() implies (
                    #[trigger] before[m]).link_id != Some(link) by {
                        assert(before[m] == rows[m]);
                    }
                }
            }
            if by_link(rows).contains_key(link) {
                let j = choose|j: int| holds(before, link, j);
                assert(holds(rows, link, j));
            }
            assert forall|j: int| #[trigger] holds(rows, link, j) implies by_link(rows)[link]
                == rows[j] by {
                assert(holds(before, link, j));
                assert(before[j] == rows[j]);
            }
            if exists|j: int| holds(rows, link, j) {
                let j = choose|j: int| holds(rows, link, j);
                assert(holds(before, link, j));
            }
        }
    }
}

/// A rebuild with nothing placed yet.
spec fn emptied(collection: Text, rows: Seq<PlacementView>) -> Rebuilt {
    Rebuilt {
        unclaimed: by_link(rows),
        carried: Set::empty(),
        writes: spine_drops(collection, rows),
        rekeyed: 0,
        pulled: 0,
    }
}

/// Whether an identity is still to be taken over once `n` members are
/// placed.
spec fn is_open(
    rows: Seq<PlacementView>,
    items: Seq<RemoteItemView>,
    f: Seq<FetchedItemView>,
    n: int,
    link: Text,
) -> bool {
    &&& exists|j: int| holds(rows, link, j)
    &&& forall|i: int| 0 <= i < n ==> !is_named(f, (#[trigger] items[i]).handle, link)
}

/// What holds once `n` members are placed.
spec fn has_placed(
    collection: Text,
    rows: Seq<PlacementView>,
    items: Seq<RemoteItemView>,
    f: Seq<FetchedItemView>,
    n: int,
    acc: Rebuilt,
) -> bool {
    &&& forall|link: Text| #[trigger]
        acc.unclaimed.contains_key(link) <==> is_open(rows, items, f, n, link)
    &&& forall|link: Text| #[trigger]
        acc.unclaimed.contains_key(link) ==> acc.unclaimed[link] == by_link(rows)[link]
    &&& forall|h: Text| #[trigger]
        acc.carried.contains(h) <==> exists|i: int, j: int|
            i < n && #[trigger] takes_over(rows, items, f, i, j) && rows[j].handle == h
    &&& acc.writes.len() == rows.len() + n
    &&& acc.writes.take(rows.len() as int) == spine_drops(collection, rows)
    &&& forall|i: int|
        0 <= i < n ==> (#[trigger] acc.writes[rows.len() + i]) is UpsertPlacement && places(
            collection,
            rows,
            items,
            f,
            i,
            acc.writes[rows.len() + i]->UpsertPlacement_0,
        )
    &&& acc.rekeyed == how_many(n, |i: int| is_matched(rows, items, f, i))
    &&& acc.pulled == how_many(n, |i: int| !is_matched(rows, items, f, i))
}

proof fn lemma_resolves_once(f: Seq<FetchedItemView>, handle: Text, k: int, m: int)
    requires
        resolves(f, handle, k),
        resolves(f, handle, m),
    ensures
        k == m,
{
    if k < m {
        assert(f[m].handle != handle);
    } else if m < k {
        assert(f[k].handle != handle);
    }
}

/// What a member takes over, by what it is resolved to.
proof fn lemma_matches(
    rows: Seq<PlacementView>,
    items: Seq<RemoteItemView>,
    f: Seq<FetchedItemView>,
    i: int,
)
    requires
        0 <= i < items.len(),
    ensures
        forall|k: int| #[trigger]
            resolves(f, items[i].handle, k) ==> (is_matched(rows, items, f, i) <==> is_open(
                rows,
                items,
                f,
                i,
                f[k].link_id,
            )),
        forall|j: int, k: int| #[trigger]
            takes_over(rows, items, f, i, j) && #[trigger] resolves(f, items[i].handle, k) ==> holds(
                rows,
                f[k].link_id,
                j,
            ),
        (forall|k: int| !(#[trigger] resolves(f, items[i].handle, k))) ==> !is_matched(
            rows,
            items,
            f,
            i,
        ),
{
    let handle = items[i].handle;
    assert forall|j: int, k: int| #[trigger]
        takes_over(rows, items, f, i, j) && #[trigger] resolves(f, handle, k) implies holds(
        rows,
        f[k].link_id,
        j,
    ) by {
        let link = rows[j].link_id->0;
        let m = choose|m: int| #[trigger] resolves(f, handle, m) && f[m].link_id == link;
        lemma_resolves_once(f, handle, k, m);
    }
    assert forall|k: int| #[trigger] resolves(f, handle, k) implies (is_matched(rows, items, f, i)
        <==> is_open(rows, items, f, i, f[k].link_id)) by {
        let link = f[k].link_id;
        assert(is_named(f, handle, link));
        if is_open(rows, items, f, i, link) {
            let j = choose|j: int| holds(rows, link, j);
            assert(is_first(items, f, link, i));
            assert(takes_over(rows, items, f, i, j));
        }
        if is_matched(rows, items, f, i) {
            let j = choose|j: int| takes_over(rows, items, f, i, j);
            assert(holds(rows, link, j));
            assert(rows[j].link_id == Some(link));
        }
    }
    if is_matched(rows, items, f, i) {
        let j = choose|j: int| takes_over(rows, items, f, i, j);
        let k = choose|k: int| #[trigger]
            resolves(f, handle, k) && f[k].link_id == rows[j].link_id->0;
        assert(resolves(f, handle, k));
    }
}

proof fn lemma_placed_one(
    collection: Text,
    rows: Seq<PlacementView>,
    items: Seq<RemoteItemView>,
    f: Seq<FetchedItemView>,
    n: int,
    acc: Rebuilt,
)
    requires
        0 <= n < items.len(),
        has_placed(collection, rows, items, f, n, acc),
    ensures
        has_placed(
            collection,
            rows,
            items,
            f,
            n + 1,
            place(collection, resolutions(f), acc, items[n]),
        ),
{
    let item = items[n];
    let after = place(collection, resolutions(f), acc, item);
    let base = rows.len() as int;
    lemma_resolutions(f, item.handle);
    lemma_matches(rows, items, f, n);
    let q = after.writes[base + n]->UpsertPlacement_0;
    let matched = is_matched(rows, items, f, n);
    if exists|k: int| resolves(f, item.handle, k) {
        let k = choose|k: int| resolves(f, item.handle, k);
        let link = f[k].link_id;
        lemma_holders(rows, link);
        assert(acc.unclaimed.contains_key(link) <==> matched);
        assert forall|m: int| #[trigger] resolves(f, item.handle, m) implies m == k by {
            lemma_resolves_once(f, item.handle, k, m);
        }
        assert forall|l: Text| is_named(f, item.handle, l) <==> l == link by {
            if is_named(f, item.handle, l) {
                let m = choose|m: int| #[trigger] resolves(f, item.handle, m) && f[m].link_id == l;
                assert(m == k);
            }
        }
        assert forall|l: Text| #[trigger] after.unclaimed.contains_key(l) <==> is_open(
            rows,
            items,
            f,
            n + 1,
            l,
        ) by {
            assert(acc.unclaimed.contains_key(l) <==> is_open(rows, items, f, n, l));
            if is_open(rows, items, f, n, l) && l != link {
                assert forall|i: int| 0 <= i < n + 1 implies !is_named(
                    f,
                    (#[trigger] items[i]).handle,
                    l,
                ) by {}
            }
            if l == link {
                assert(is_named(f, items[n].handle, l));
            }
        }
        assert forall|j: int, m: int| #[trigger]
            takes_over(rows, items, f, n, j) && #[trigger] resolves(f, item.handle, m) implies carries(
            collection,
            rows[j],
            item,
            f[m],
            q,
        ) by {
            assert(holds(rows, link, j));
            assert(acc.unclaimed[link] == rows[j]);
        }
        if matched {
            let j = choose|j: int| takes_over(rows, items, f, n, j);
            assert(holds(rows, link, j));
            assert(acc.unclaimed[link] == rows[j]);
            assert(after.carried == acc.carried.insert(rows[j].handle));
        }
    } else {
        assert(!resolutions(f).contains_key(item.handle));
        assert forall|l: Text| #[trigger] after.unclaimed.contains_key(l) <==> is_open(
            rows,
            items,
            f,
            n + 1,
            l,
        ) by {
            assert(acc.unclaimed.contains_key(l) <==> is_open(rows, items, f, n, l));
            assert(!is_named(f, item.handle, l));
            if is_open(rows, items, f, n, l) {
                assert forall|i: int| 0 <= i < n + 1 implies !is_named(
                    f,
                    (#[trigger] items[i]).handle,
                    l,
                ) by {}
            }
        }
    }
    assert(places(collection, rows, items, f, n, q));
    assert forall|h: Text| #[trigger] after.carried.contains(h) <==> exists|i: int, j: int|
        i < n + 1 && #[trigger] takes_over(rows, items, f, i, j) && rows[j].handle == h by {
        if acc.carried.contains(h) {
            let (i, j) = choose|i: int, j: int|
                i < n && #[trigger] takes_over(rows, items, f, i, j) && rows[j].handle == h;
            assert(i < n + 1 && takes_over(rows, items, f, i, j));
        } else if after.carried.contains(h) {
            let j = choose|j: int| takes_over(rows, items, f, n, j);
            assert(n < n + 1 && takes_over(rows, items, f, n, j));
        }
        if exists|i: int, j: int|
            i < n + 1 && #[trigger] takes_over(rows, items, f, i, j) && rows[j].handle == h {
            let (i, j) = choose|i: int, j: int|
                i < n + 1 && #[trigger] takes_over(rows, items, f, i, j) && rows[j].handle == h;
            if i < n {
                assert(acc.carried.contains(h));
            } else {
                assert(i == n);
                let k = choose|k: int| resolves(f, item.handle, k);
                lemma_holders(rows, f[k].link_id);
                assert(holds(rows, f[k].link_id, j));
            }
        }
    }
    assert(after.writes.take(base) =~= acc.writes.take(base));
    assert forall|i: int| 0 <= i < n + 1 implies (#[trigger] after.writes[base + i])
        is UpsertPlacement && places(
        collection,
        rows,
        items,
        f,
        i,
        after.writes[base + i]->UpsertPlacement_0,
    ) by {
        if i < n {
            assert(after.writes[base + i] == acc.writes[base + i]);
        }
    }
}

proof fn lemma_placed_all(
    collection: Text,
    rows: Seq<PlacementView>,
    items: Seq<RemoteItemView>,
    f: Seq<FetchedItemView>,
    n: int,
)
    requires
        0 <= n <= items.len(),
    ensures
        has_placed(
            collection,
            rows,
            items,
            f,
            n,
            placed(collection, resolutions(f), emptied(collection, rows), items.take(n)),
        ),
    decreases n,
{
    if n > 0 {
        lemma_placed_all(collection, rows, items, f, n - 1);
        assert(items.take(n).drop_last() =~= items.take(n - 1));
        assert(items.take(n).last() == items[n - 1]);
        lemma_placed_one(
            collection,
            rows,
            items,
            f,
            n - 1,
            placed(collection, resolutions(f), emptied(collection, rows), items.take(n - 1)),
        );
    } else {
        let acc = emptied(collection, rows);
        assert(items.take(0) =~= Seq::empty());
        assert forall|link: Text| #[trigger] acc.unclaimed.contains_key(link) <==> is_open(
            rows,
            items,
            f,
            0,
            link,
        ) by {
            lemma_holders(rows, link);
        }
        assert forall|i: int, j: int| #[trigger] takes_over(rows, items, f, i, j) implies i >= 0 by {}
        assert(acc.writes.take(rows.len() as int) =~= acc.writes);
    }
}

/// Whether a row is kept alone once those before it are.
spec fn is_kept(start: Rebuilt, rows: Seq<PlacementView>, j: int) -> bool {
    0 <= j < rows.len() && edits(rows[j]) && !start.carried.contains(rows[j].handle)
}

/// Whether a write keeps some row alone.
spec fn keeps_one(start: Rebuilt, rows: Seq<PlacementView>, op: WriteOpView) -> bool {
    exists|j: int| #[trigger] is_kept(start, rows, j) && is_row_kept(rows[j], op)
}

proof fn lemma_kept(start: Rebuilt, rows: Seq<PlacementView>, n: int)
    requires
        0 <= n <= rows.len(),
    ensures
        ({
            let done = rescued(start, rows.take(n));
            let base = start.writes.len();
            &&& done.writes.len() >= base
            &&& done.writes.take(base as int) == start.writes
            &&& done.pulled == start.pulled
            &&& done.rekeyed == start.rekeyed + done.writes.len() - base
            &&& forall|m: int|
                base <= m < done.writes.len() ==> keeps_one(start, rows, #[trigger] done.writes[m])
            &&& forall|h: Text| #[trigger]
                done.carried.contains(h) <==> start.carried.contains(h) || exists|j: int|
                    0 <= j < n && edits(#[trigger] rows[j]) && rows[j].handle == h
            &&& are_apart(rows) ==> forall|j: int|
                0 <= j < n && is_kept(start, rows, j) ==> exists|m: int|
                    base <= m < done.writes.len() && is_row_kept(
                        #[trigger] rows[j],
                        #[trigger] done.writes[m],
                    )
        }),
    decreases n,
{
    let base = start.writes.len();
    if n > 0 {
        lemma_kept(start, rows, n - 1);
        let (q, p) = (rows.take(n), rows[n - 1]);
        assert(q.drop_last() =~= rows.take(n - 1));
        assert(q.last() == p);
        let before = rescued(start, rows.take(n - 1));
        let done = rescued(start, q);
        assert(done == rescue(before, p));
        assert forall|m: int| base <= m < done.writes.len() implies keeps_one(
            start,
            rows,
            #[trigger] done.writes[m],
        ) by {
            if m < before.writes.len() {
                assert(done.writes[m] == before.writes[m]);
            } else {
                assert(is_kept(start, rows, n - 1));
                assert(is_row_kept(rows[n - 1], done.writes[m]));
            }
        }
        assert(done.writes.take(base as int) =~= before.writes.take(base as int));
        if are_apart(rows) {
            assert forall|j: int| 0 <= j < n && is_kept(start, rows, j) implies exists|m: int|
                base <= m < done.writes.len() && is_row_kept(
                    #[trigger] rows[j],
                    #[trigger] done.writes[m],
                ) by {
                if j < n - 1 {
                    let m = choose|m: int|
                        base <= m < before.writes.len() && is_row_kept(
                            rows[j],
                            #[trigger] before.writes[m],
                        );
                    assert(done.writes[m] == before.writes[m]);
                } else {
                    assert(!before.carried.contains(p.handle));
                    let m = before.writes.len() as int;
                    assert(is_row_kept(rows[j], done.writes[m]));
                }
            }
        }
        assert forall|h: Text| #[trigger] done.carried.contains(h) <==> start.carried.contains(h)
            || exists|j: int| 0 <= j < n && edits(#[trigger] rows[j]) && rows[j].handle == h by {
            if done.carried.contains(h) && !before.carried.contains(h) {
                assert(edits(rows[n - 1]) && rows[n - 1].handle == h);
            }
            if exists|j: int| 0 <= j < n && edits(#[trigger] rows[j]) && rows[j].handle == h {
                let j = choose|j: int|
                    0 <= j < n && edits(#[trigger] rows[j]) && rows[j].handle == h;
                if j < n - 1 {
                    assert(before.carried.contains(h));
                }
            }
        }
    } else {
        assert(rows.take(0) =~= Seq::empty());
        assert(start.writes.take(base as int) =~= start.writes);
    }
}

proof fn lemma_lost(carried: Set<Text>, rows: Seq<PlacementView>, n: int, test: spec_fn(int) -> bool)
    requires
        0 <= n <= rows.len(),
        forall|j: int|
            0 <= j < rows.len() ==> test(j) == (!(rows[j].status is Clean) && !carried.contains(
                (#[trigger] rows[j]).handle,
            )),
    ensures
        lost_count(carried, rows.take(n)) == how_many(n, test),
    decreases n,
{
    if n > 0 {
        lemma_lost(carried, rows, n - 1, test);
        assert(rows.take(n).drop_last() =~= rows.take(n - 1));
        assert(rows.take(n).last() == rows[n - 1]);
    }
}

proof fn lemma_rebuilds(
    collection: Text,
    old: Seq<PlacementView>,
    items: Seq<RemoteItemView>,
    f: Seq<FetchedItemView>,
    checkpoint: Seq<u8>,
)
    ensures
        rebuilds(
            collection,
            old,
            items,
            f,
            checkpoint,
            rebuild_writes(collection, old, items, resolutions(f), checkpoint),
            rebuild_report(collection, old, items, resolutions(f)),
        ),
{
    let links = resolutions(f);
    let rows = rows_of(old);
    let n = rows.len();
    lemma_rows(old);
    lemma_placed_all(collection, rows, items, f, items.len() as int);
    assert(items.take(items.len() as int) =~= items);
    let start = placed(collection, links, emptied(collection, rows), items);
    lemma_kept(start, rows, n as int);
    assert(rows.take(n as int) =~= rows);
    let done = rescued(start, rows);
    assert(done == rebuilt(collection, old, items, links));
    let ops = rebuild_writes(collection, old, items, links, checkpoint);
    let report = rebuild_report(collection, old, items, links);
    let base = start.writes.len() as int;
    assert forall|m: int| 0 <= m < base implies #[trigger] ops[m] == start.writes[m] by {
        assert(done.writes.take(base)[m] == start.writes[m]);
    }
    assert forall|j: int| 0 <= j < n implies #[trigger] ops[j] == (WriteOpView::DropPlacement {
        collection,
        handle: rows[j].handle,
        reason: ReplicaDropReason::Superseded,
    }) by {
        assert(start.writes.take(n as int)[j] == start.writes[j]);
    }
    assert forall|i: int| 0 <= i < items.len() implies (#[trigger] ops[n + i]) is UpsertPlacement
        && places(collection, rows, items, f, i, ops[n + i]->UpsertPlacement_0) by {
        assert(start.writes[n + i] is UpsertPlacement);
    }
    assert forall|m: int| base <= m < ops.len() - 1 implies keeps_an_edit(
        rows,
        #[trigger] ops[m],
    ) by {
        assert(ops[m] == done.writes[m]);
        assert(keeps_one(start, rows, done.writes[m]));
        let j = choose|j: int| #[trigger]
            is_kept(start, rows, j) && is_row_kept(rows[j], done.writes[m]);
        assert(edits(rows[j]));
    }
    if are_apart(rows) {
        assert forall|j: int| 0 <= j < n implies (is_taken(rows, items, f, j)
            <==> start.carried.contains((#[trigger] rows[j]).handle)) by {
            if is_taken(rows, items, f, j) {
                let i = choose|i: int| takes_over(rows, items, f, i, j);
                assert(i < items.len() && takes_over(rows, items, f, i, j));
            }
            if start.carried.contains(rows[j].handle) {
                let (i, m) = choose|i: int, m: int|
                    i < items.len() && #[trigger] takes_over(rows, items, f, i, m)
                        && rows[m].handle == rows[j].handle;
                if m < j {
                    assert(rows[m].handle != rows[j].handle);
                } else if j < m {
                    assert(rows[j].handle != rows[m].handle);
                }
            }
        }
        assert forall|j: int|
            0 <= j < n && edits(#[trigger] rows[j]) && !is_taken(rows, items, f, j) implies is_kept_by(
            rows[j],
            ops.skip(base),
        ) by {
            assert(is_kept(start, rows, j));
            let m = choose|m: int|
                base <= m < done.writes.len() && is_row_kept(rows[j], #[trigger] done.writes[m]);
            assert(ops.skip(base)[m - base] == done.writes[m]);
        }
        let tail = ops.skip(base);
        assert forall|j: int| 0 <= j < n && is_taken(rows, items, f, j) implies !is_kept_by(
            #[trigger] rows[j],
            tail,
        ) by {
            if is_kept_by(rows[j], tail) {
                let m = choose|m: int| 0 <= m < tail.len() && is_row_kept(rows[j], #[trigger] tail[m]);
                assert(tail[m] == ops[base + m]);
                assert(ops[base + m] == done.writes[base + m]);
                assert(keeps_one(start, rows, done.writes[base + m]));
                let t = choose|t: int| #[trigger]
                    is_kept(start, rows, t) && is_row_kept(rows[t], done.writes[base + m]);
                assert(kept_alone(rows[t]).handle == rows[t].handle);
                assert(kept_alone(rows[j]).handle == rows[j].handle);
            }
        }
        let test = |j: int|
            !(rows[j].status is Clean) && !is_taken(rows, items, f, j) && !edits(rows[j]);
        assert forall|j: int| 0 <= j < n implies test(j) == (!(rows[j].status is Clean)
            && !done.carried.contains((#[trigger] rows[j]).handle)) by {
            if done.carried.contains(rows[j].handle) && !start.carried.contains(rows[j].handle) {
                let m = choose|m: int|
                    0 <= m < n && edits(#[trigger] rows[m]) && rows[m].handle == rows[j].handle;
                if m < j {
                    assert(rows[m].handle != rows[j].handle);
                } else if j < m {
                    assert(rows[j].handle != rows[m].handle);
                }
            }
        }
        lemma_lost(done.carried, rows, n as int, test);
    }
}

/// What a rekey asks for: all rows, all members from scratch, and, where any
/// row has an identity to match by, what the members are.
pub proof fn a_rekey_reads_both_handle_spaces(
    s: RekeyView,
    loaded: LoadedView,
    snapshot: RemoteSnapshotView,
)
    ensures
        s.phase is Start ==> rekey_step(s, None) == (
            RekeyView { phase: RekeyPhase::PendingLoad, ..s },
            RekeyStep::Yielded(
                YieldView::WantsLoad { collection: s.collection, scope: LoadScopeView::All },
            ),
        ),
        s.phase is PendingLoad ==> rekey_step(s, Some(ArgView::Load(loaded))) == (
            RekeyView { phase: RekeyPhase::PendingEnumerate, old: loaded.placements, ..s },
            RekeyStep::Yielded(
                YieldView::WantsEnumerate { collection: s.collection, cursor: None },
            ),
        ),
        s.phase is PendingEnumerate && (exists|j: int|
            0 <= j < s.old.len() && (#[trigger] s.old[j]).link_id is Some) ==> rekey_step(
            s,
            Some(ArgView::Enumerate(snapshot)),
        ) == (
            RekeyView {
                phase: RekeyPhase::PendingFetch,
                items: snapshot.items,
                checkpoint: Some(snapshot.checkpoint),
                ..s
            },
            RekeyStep::Yielded(
                YieldView::WantsFetch {
                    collection: s.collection,
                    handles: snapshot.items.map_values(|item: RemoteItemView| item.handle),
                    tier: ReplicaTier::Meta,
                },
            ),
        ),
{
    assert(handles_of(snapshot.items) =~= snapshot.items.map_values(
        |item: RemoteItemView| item.handle,
    ));
}

/// Once the members are resolved the collection is rebuilt: each member that
/// is the first of an identity takes over the row that holds it, with its
/// cache and all that is pending, its flags merged flag by flag; every other
/// one is new; an edit that found no home is kept; nothing else survives.
pub proof fn rows_are_carried_to_their_new_handles(s: RekeyView, f: Seq<FetchedItemView>)
    requires
        s.phase is PendingFetch,
        s.checkpoint is Some,
    ensures
        ({
            let (t, out) = rekey_step(s, Some(ArgView::Fetch(f)));
            &&& t.phase is PendingWrite
            &&& out is Yielded
            &&& out->Yielded_0 is WantsWrite
            &&& rebuilds(
                s.collection,
                s.old,
                s.items,
                f,
                s.checkpoint->0,
                out->Yielded_0->WantsWrite_0,
                t.report,
            )
        }),
{
    lemma_rebuilds(s.collection, s.old, s.items, f, s.checkpoint->0);
}

/// Without a single identity to match by, the collection is rebuilt from the
/// members alone, with nothing resolved.
pub proof fn rows_without_identity_are_rebuilt_at_once(s: RekeyView, snapshot: RemoteSnapshotView)
    requires
        s.phase is PendingEnumerate,
        forall|j: int| 0 <= j < s.old.len() ==> (#[trigger] s.old[j]).link_id is None,
    ensures
        ({
            let (t, out) = rekey_step(s, Some(ArgView::Enumerate(snapshot)));
            &&& t.phase is PendingWrite
            &&& out is Yielded
            &&& out->Yielded_0 is WantsWrite
            &&& rebuilds(
                s.collection,
                s.old,
                snapshot.items,
                Seq::empty(),
                snapshot.checkpoint,
                out->Yielded_0->WantsWrite_0,
                t.report,
            )
        }),
{
    lemma_rebuilds(s.collection, s.old, snapshot.items, Seq::empty(), snapshot.checkpoint);
}

/// A rekey is done once its writes are stored, and reports what it counted.
pub proof fn a_stored_rekey_reports_its_counts(s: RekeyView)
    requires
        s.phase is PendingWrite,
    ensures
        rekey_step(s, Some(ArgView::Write)) == (s, RekeyStep::Done(s.report)),
{
}

} // verus!
