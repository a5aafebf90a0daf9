//! What the hub projects for a source and takes back from it, told from the
//! item shared and the rows handed over.

use vstd::prelude::*;

use crate::change::{ReplicaDropReason, WriteOpView};
use crate::hub::{
    absorbed, absorbed_all, absorbed_one, project_item, project_items, pruned, BindingView,
    HubItemView, HubView,
};
use crate::order::Text;
use crate::placement::{PlacementView, ReplicaLevel};

verus! {

/// Every projection shows what is shared, whole: body, summary, sort key and
/// flags, under the identity it is shared by, with nothing pending a move or
/// frozen.
pub proof fn a_projection_shows_what_is_shared(
    item: HubItemView,
    collection: Text,
    source: Text,
    link: Text,
)
    requires
        project_item(item, collection, source, link) is Some,
    ensures
        ({
            let p = project_item(item, collection, source, link)->0;
            &&& p.collection == collection
            &&& p.link_id == Some(link)
            &&& p.object == item.object
            &&& p.meta == item.meta
            &&& p.sort_key == item.sort_key
            &&& p.flags == item.flags
            &&& p.origin is None
            &&& p.ambiguous_handles.len() == 0
            &&& if item.level is Full && item.object is None {
                p.level is Meta
            } else {
                p.level == item.level || p.status is Created && p.level is Full
            }
        }),
{
}

/// An item a source holds is projected under the handle it has there, against
/// what was last synced there: stuck where the source is, in sync where both
/// its flags and its body are the synced ones, and to be pushed otherwise. A
/// delete is projected as one, with no conflict left.
pub proof fn an_item_held_is_projected_against_its_base(
    item: HubItemView,
    collection: Text,
    source: Text,
    link: Text,
)
    requires
        item.sources.contains_key(source),
    ensures
        ({
            let held = item.sources[source];
            let out = project_item(item, collection, source, link);
            let p = out->0;
            &&& out is Some
            &&& p.handle == held.handle
            &&& p.base == held.base
            &&& if item.deleted {
                p.status is Tombstone && p.conflict_revision is None && p.conflict_object is None
            } else {
                &&& p.conflict_revision == held.conflict_revision
                &&& p.conflict_object == held.conflict_object
                &&& p.status is Conflict <==> held.conflicted
                &&& p.status is Clean <==> !held.conflicted && held.base is Some
                    && held.base->0.flags == item.flags && held.base->0.object == item.object
                &&& p.status is Dirty || p.status is Conflict || p.status is Clean
            }
        }),
{
}

/// An item a source lacks is offered to it as a create, whole, and only where
/// it is not deleted and its body is there.
pub proof fn an_item_lacking_is_offered_whole(
    item: HubItemView,
    collection: Text,
    source: Text,
    link: Text,
)
    requires
        !item.sources.contains_key(source),
    ensures
        ({
            let out = project_item(item, collection, source, link);
            let p = out->0;
            &&& out is Some <==> !item.deleted && item.object is Some
            &&& out is Some ==> {
                &&& p.handle == link + "\u{1}hub"@
                &&& p.status is Created
                &&& p.level is Full
                &&& p.base is None
                &&& p.conflict_revision is None
                &&& p.conflict_object is None
            }
        }),
{
}

/// Every item that projects anything is projected once, in the order of the
/// links, and nothing else is.
pub proof fn each_item_is_projected_once_in_order(
    items: Map<Text, HubItemView>,
    collection: Text,
    source: Text,
    links: Seq<Text>,
)
    ensures
        project_items(items, collection, source, links) == links.filter(
            |l: Text|
                items[l].sources.contains_key(source) || (!items[l].deleted && items[l].object
                    is Some),
        ).map_values(|l: Text| project_item(items[l], collection, source, l)->0),
    decreases links.len(),
{
    reveal(Seq::filter);
    let kind = |l: Text|
        items[l].sources.contains_key(source) || (!items[l].deleted && items[l].object is Some);
    let show = |l: Text| project_item(items[l], collection, source, l)->0;
    if links.len() > 0 {
        let (before, last) = (links.drop_last(), links.last());
        each_item_is_projected_once_in_order(items, collection, source, before);
        assert(project_item(items[last], collection, source, last) is Some <==> kind(last));
        if kind(last) {
            assert(before.filter(kind).push(last).map_values(show) =~= before.filter(
                kind,
            ).map_values(show).push(show(last)));
        }
    } else {
        assert(project_items(items, collection, source, links) =~= links.filter(kind).map_values(
            show,
        ));
    }
}

/// Whether a binding is the one a row leaves: its handle and base, and its
/// conflict where it is in one.
pub open spec fn binds(row: PlacementView, binding: BindingView) -> bool {
    &&& binding.handle == row.handle
    &&& binding.base == row.base
    &&& binding.conflicted == (row.status is Conflict)
    &&& binding.conflict_revision == if row.status is Conflict {
        row.conflict_revision
    } else {
        None
    }
    &&& binding.conflict_object == if row.status is Conflict {
        row.conflict_object
    } else {
        None
    }
}

/// Whether two hubs differ in one item at most.
pub open spec fn same_but(before: HubView, after: HubView, link: Text) -> bool {
    &&& after.conflict == before.conflict
    &&& after.items.remove(link) == before.items.remove(link)
}

/// Whether two items bind every other source alike.
pub open spec fn same_sources_but(before: HubItemView, after: HubItemView, source: Text) -> bool {
    after.sources.remove(source) == before.sources.remove(source)
}

/// The body a source last synced with its own remote, where it has.
pub open spec fn body_synced(item: HubItemView, source: Text) -> Option<Text> {
    if item.sources.contains_key(source) && item.sources[source].base is Some {
        item.sources[source].base->0.object
    } else {
        None
    }
}

/// The shared body a source last saw, or its synced one until it has.
pub open spec fn body_seen(item: HubItemView, source: Text) -> Option<Text> {
    if item.sources.contains_key(source) && item.sources[source].shared_object is Some {
        item.sources[source].shared_object
    } else {
        body_synced(item, source)
    }
}

/// Whether an item holds the same body as another, and the same conflict.
pub open spec fn same_body(before: HubItemView, after: HubItemView) -> bool {
    &&& after.object == before.object
    &&& after.conflicted == before.conflicted
    &&& after.conflict_object == before.conflict_object
}

/// The highest of two levels.
pub open spec fn top(a: ReplicaLevel, b: ReplicaLevel) -> ReplicaLevel {
    if a is Full || b is Full {
        ReplicaLevel::Full
    } else if a is Meta || b is Meta {
        ReplicaLevel::Meta
    } else {
        ReplicaLevel::Probed
    }
}

/// A live row of an identity nobody shares yet is shared as it stands, bound
/// to its source alone.
pub proof fn a_first_row_is_shared_as_it_stands(hub: HubView, source: Text, row: PlacementView)
    requires
        row.link_id is Some,
        !hub.items.contains_key(row.link_id->0),
    ensures
        ({
            let link = row.link_id->0;
            let after = absorbed_one(hub, source, WriteOpView::UpsertPlacement(row));
            let item = after.items[link];
            &&& same_but(hub, after, link)
            &&& after.items.contains_key(link)
            &&& item.flags == row.flags
            &&& item.object == row.object
            &&& item.meta == row.meta
            &&& item.sort_key == row.sort_key
            &&& !item.conflicted
            &&& item.conflict_object is None
            &&& item.deleted == (row.status is Tombstone)
            &&& item.sources.dom() == set![source]
            &&& binds(row, item.sources[source])
            &&& item.sources[source].shared_object == if row.status is Tombstone {
                None
            } else {
                row.object
            }
            &&& item.level == if row.level is Full && row.object is None && !(row.status
                is Tombstone) {
                ReplicaLevel::Meta
            } else {
                row.level
            }
        }),
{
    let link = row.link_id->0;
    let after = absorbed_one(hub, source, WriteOpView::UpsertPlacement(row));
    assert(after.items.remove(link) =~= hub.items.remove(link));
    assert(after.items[link].sources.dom() =~= set![source]);
}

/// A live row of a shared item brings what its source knows: known flags, a
/// summary and a sort key where there are some. A delete in flight is
/// undone, the level is the highest reached that the body bears out, and the
/// source is bound to what is shared from then on; the others stay bound as
/// they were.
pub proof fn a_live_row_brings_what_its_source_knows(
    hub: HubView,
    source: Text,
    row: PlacementView,
)
    requires
        row.link_id is Some,
        hub.items.contains_key(row.link_id->0),
        !(row.status is Tombstone),
    ensures
        ({
            let link = row.link_id->0;
            let after = absorbed_one(hub, source, WriteOpView::UpsertPlacement(row));
            let (old, item) = (hub.items[link], after.items[link]);
            &&& same_but(hub, after, link)
            &&& after.items.contains_key(link)
            &&& !item.deleted
            &&& item.flags == if row.flags is Known {
                row.flags
            } else {
                old.flags
            }
            &&& item.meta == if row.meta is Some {
                row.meta
            } else {
                old.meta
            }
            &&& item.sort_key == if row.sort_key.len() > 0 {
                row.sort_key
            } else {
                old.sort_key
            }
            &&& item.level == if item.object is None && top(old.level, row.level) is Full {
                ReplicaLevel::Meta
            } else {
                top(old.level, row.level)
            }
            &&& same_sources_but(old, item, source)
            &&& item.sources.contains_key(source)
            &&& binds(row, item.sources[source])
            &&& item.sources[source].shared_object == item.object
        }),
{
    let link = row.link_id->0;
    let after = absorbed_one(hub, source, WriteOpView::UpsertPlacement(row));
    let (old, item) = (hub.items[link], after.items[link]);
    assert(after.items.remove(link) =~= hub.items.remove(link));
    assert(item.sources.remove(source) =~= old.sources.remove(source));
}

/// The body of a live row is adopted where its source changed it and nobody
/// else has since the source last saw it; where somebody has, the policy
/// decides between the two, and a manual one keeps both. A body its source
/// did not change, or that is shared already, changes none, nor does one
/// that is gone on either side while the other moved.
pub proof fn the_body_of_a_live_row_is_folded_in(hub: HubView, source: Text, row: PlacementView)
    requires
        row.link_id is Some,
        hub.items.contains_key(row.link_id->0),
        !(row.status is Tombstone),
    ensures
        ({
            let after = absorbed_one(hub, source, WriteOpView::UpsertPlacement(row));
            let (old, item) = (hub.items[row.link_id->0], after.items[row.link_id->0]);
            let changed = row.object != body_synced(old, source) && row.object != old.object;
            let alone = old.object == body_seen(old, source);
            &&& !changed ==> same_body(old, item)
            &&& changed && alone ==> item.object == row.object && !item.conflicted
                && item.conflict_object is None
            &&& changed && !alone && (row.object is None || old.object is None) ==> same_body(
                old,
                item,
            )
            &&& changed && !alone && row.object is Some && old.object is Some ==> {
                &&& hub.conflict is Manual ==> item.object == old.object && item.conflicted
                    && item.conflict_object == row.object
                &&& hub.conflict is PreferIncoming ==> item.object == row.object
                    && !item.conflicted && item.conflict_object is None
                &&& hub.conflict is PreferExisting ==> item.object == old.object
                    && !item.conflicted && item.conflict_object is None
            }
        }),
{
}

/// A delete a source staged is shared, and changes nothing else but the
/// source's own binding, which keeps what it last saw.
pub proof fn a_staged_delete_is_shared(hub: HubView, source: Text, row: PlacementView)
    requires
        row.link_id is Some,
        hub.items.contains_key(row.link_id->0),
        row.status is Tombstone,
    ensures
        ({
            let link = row.link_id->0;
            let after = absorbed_one(hub, source, WriteOpView::UpsertPlacement(row));
            let (old, item) = (hub.items[link], after.items[link]);
            &&& same_but(hub, after, link)
            &&& after.items.contains_key(link)
            &&& item == (HubItemView { deleted: true, sources: item.sources, ..old })
            &&& same_sources_but(old, item, source)
            &&& item.sources.contains_key(source)
            &&& binds(row, item.sources[source])
            &&& item.sources[source].shared_object == if old.sources.contains_key(source) {
                old.sources[source].shared_object
            } else {
                None
            }
        }),
{
    let link = row.link_id->0;
    let after = absorbed_one(hub, source, WriteOpView::UpsertPlacement(row));
    let (old, item) = (hub.items[link], after.items[link]);
    assert(after.items.remove(link) =~= hub.items.remove(link));
    assert(item.sources.remove(source) =~= old.sources.remove(source));
}

/// A row its source dropped unbinds the source from every item it binds by
/// that handle, and from no other; a genuine delete marks these deleted. No
/// content moves.
pub proof fn a_dropped_row_unbinds_its_source(
    hub: HubView,
    source: Text,
    collection: Text,
    handle: Text,
    reason: ReplicaDropReason,
    link: Text,
)
    ensures
        ({
            let after = absorbed_one(
                hub,
                source,
                WriteOpView::DropPlacement { collection, handle, reason },
            );
            let (old, item) = (hub.items[link], after.items[link]);
            &&& after.conflict == hub.conflict
            &&& after.items.contains_key(link) <==> hub.items.contains_key(link)
            &&& hub.items.contains_key(link) ==> if old.sources.contains_key(source)
                && old.sources[source].handle == handle {
                item == (HubItemView {
                    deleted: old.deleted || reason is Deleted,
                    sources: old.sources.remove(source),
                    ..old
                })
            } else {
                item == old
            }
        }),
{
}

/// Nothing but a row with an identity, or its drop, is shared.
pub proof fn other_writes_are_not_shared(hub: HubView, source: Text, op: WriteOpView)
    requires
        match op {
            WriteOpView::UpsertPlacement(row) => row.link_id is None,
            WriteOpView::DropPlacement { .. } => false,
            _ => true,
        },
    ensures
        absorbed_one(hub, source, op) == hub,
{
}

/// The writes of a batch are taken up one after the other, the first one
/// first, and then the items no source holds go, and only these.
pub proof fn a_batch_is_absorbed_in_order(
    hub: HubView,
    source: Text,
    ops: Seq<WriteOpView>,
    link: Text,
)
    ensures
        ({
            let all = ops.fold_left(hub, |h: HubView, op: WriteOpView| absorbed_one(h, source, op));
            let after = absorbed(hub, source, ops);
            &&& after.conflict == all.conflict
            &&& after.items.contains_key(link) <==> all.items.contains_key(link) && (
            exists|other: Text| #[trigger] all.items[link].sources.contains_key(other))
            &&& after.items.contains_key(link) ==> after.items[link] == all.items[link]
        }),
{
    let take = |h: HubView, op: WriteOpView| absorbed_one(h, source, op);
    lemma_in_order(hub, source, ops);
    let all = absorbed_all(hub, source, ops);
    if all.items.contains_key(link) {
        let held = all.items[link].sources;
        if held != Map::<Text, BindingView>::empty() {
            if !(exists|other: Text| #[trigger] held.contains_key(other)) {
                assert(held =~= Map::<Text, BindingView>::empty());
            }
        }
    }
    assert(pruned(all) == absorbed(hub, source, ops));
}

proof fn lemma_in_order(hub: HubView, source: Text, ops: Seq<WriteOpView>)
    ensures
        absorbed_all(hub, source, ops) == ops.fold_left(
            hub,
            |h: HubView, op: WriteOpView| absorbed_one(h, source, op),
        ),
    decreases ops.len(),
{
    reveal_with_fuel(Seq::fold_left, 2);
    if ops.len() > 0 {
        lemma_in_order(hub, source, ops.drop_last());
    }
}

} // verus!
