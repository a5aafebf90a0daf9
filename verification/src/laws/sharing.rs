//! What the hub keeps of an item several sources hold, and how a change one
//! of them made reaches the others.

use vstd::prelude::*;

use crate::change::{ChangeKindView, ReplicaDropReason, WriteOpView};
use crate::hub::{
    absorbed, absorbed_all, absorbed_one, agreed_object, diverged, dropped, folded, in_sync,
    project_item, project_items, staged_delete, stored_level, synced_object, updated, BindingView,
    HubItemView, HubView, ReplicaHubConflict,
};
use crate::laws::flags::an_unchanged_set_stays;
use crate::laws::merging::an_unchanged_placement_is_left_alone;
use crate::laws::mutating::is_unchanged;
use crate::order::{ascending, lemma_ascending, Text};
use crate::placement::{rung, PlacementView};
use crate::remote::RemoteItemView;
use crate::sync::options::ReplicaSyncOptions;
use crate::sync::reconcile::{
    base_revision, merged, nothing, pushes_adds, pushes_content, pushes_flags, pushes_removes,
    CandidateView,
};

verus! {

/// An item every source agrees on projects clean, and the sync of a source
/// whose remote did not move decides nothing.
pub proof fn an_item_in_agreement_projects_clean(
    opts: ReplicaSyncOptions,
    item: HubItemView,
    collection: Text,
    source: Text,
    link: Text,
    remote: RemoteItemView,
)
    requires
        !item.deleted,
        item.sources.contains_key(source),
        !item.sources[source].conflicted,
        in_sync(item, item.sources[source]),
    ensures
        ({
            let p = project_item(item, collection, source, link);
            &&& p is Some
            &&& p->0.status is Clean
            &&& is_unchanged(p->0, remote) ==> merged(
                opts,
                collection,
                CandidateView { handle: p->0.handle, local: p, remote: Some(remote) },
            ) == nothing()
        }),
{
    let p = project_item(item, collection, source, link);
    if is_unchanged(p->0, remote) {
        an_unchanged_placement_is_left_alone(
            opts,
            collection,
            CandidateView { handle: p->0.handle, local: p, remote: Some(remote) },
        );
    }
}

/// A projection never raises a level, and claims a body only where there is
/// one: items in agreement fetch nothing, and one whose body was dropped
/// fetches again.
pub proof fn a_projection_claims_no_more_than_is_stored(
    item: HubItemView,
    collection: Text,
    source: Text,
    link: Text,
)
    ensures
        project_item(item, collection, source, link) matches Some(p) ==> {
            &&& p.level is Full ==> p.object is Some
            &&& item.sources.contains_key(source) ==> rung(p.level) <= rung(item.level)
            &&& p.object == item.object
            &&& p.link_id == Some(link)
        },
{
}

/// An item a source lacks is offered to it as a new member exactly where the
/// hub holds its body and nobody deleted it.
pub proof fn a_missing_item_is_offered_once_its_body_is_there(
    item: HubItemView,
    collection: Text,
    source: Text,
    link: Text,
)
    requires
        !item.sources.contains_key(source),
    ensures
        project_item(item, collection, source, link) is Some <==> item.object is Some
            && !item.deleted,
        project_item(item, collection, source, link) matches Some(p) ==> p.status is Created
            && p.base is None && p.level is Full,
{
}

/// An item added on one source is pushed to another that lacks it.
pub proof fn an_add_reaches_the_other_sources(
    opts: ReplicaSyncOptions,
    item: HubItemView,
    collection: Text,
    source: Text,
    link: Text,
)
    requires
        !item.sources.contains_key(source),
        !item.deleted,
        item.object is Some,
        pushes_adds(opts),
    ensures
        ({
            let p = project_item(item, collection, source, link);
            merged(
                opts,
                collection,
                CandidateView { handle: p->0.handle, local: p, remote: None },
            ).change == Some(
                ChangeKindView::Add {
                    handle: p->0.handle,
                    link_id: Some(link),
                    flags: item.flags,
                    origin: None,
                    object: item.object,
                },
            )
        }),
{
}

/// Whether a source holds an item it is neither stuck on nor ahead of.
pub open spec fn holds_settled(item: HubItemView, source: Text) -> bool {
    item.sources.contains_key(source) && !item.sources[source].conflicted
        && item.sources[source].base is Some
}

/// A flag change absorbed from one source reads as a local one on another,
/// whose sync pushes it.
pub proof fn a_flag_change_reaches_the_other_sources(
    opts: ReplicaSyncOptions,
    item: HubItemView,
    from: Text,
    change: PlacementView,
    policy: ReplicaHubConflict,
    to: Text,
    collection: Text,
    link: Text,
    remote: RemoteItemView,
)
    requires
        from != to,
        holds_settled(item, to),
        change.flags is Known,
        change.flags != item.sources[to].base->0.flags,
        updated(item, from, change, policy).object == item.sources[to].base->0.object,
        pushes_flags(opts),
    ensures
        ({
            let after = updated(item, from, change, policy);
            let p = project_item(after, collection, to, link);
            &&& p is Some
            &&& p->0.status is Dirty
            &&& p->0.flags == change.flags
            &&& p->0.base == item.sources[to].base
            &&& is_unchanged(p->0, remote) ==> merged(
                opts,
                collection,
                CandidateView { handle: p->0.handle, local: p, remote: Some(remote) },
            ).change == Some(
                ChangeKindView::SetFlags { handle: p->0.handle, flags: change.flags },
            )
        }),
{
    let after = updated(item, from, change, policy);
    assert(after.sources[to] == item.sources[to]);
    if remote.flags is Known {
        an_unchanged_set_stays(remote.flags, change.flags);
    }
}

/// A body absorbed from one source reads as a local edit on another, whose
/// sync pushes it against the revision that source last synced.
pub proof fn a_content_change_reaches_the_other_sources(
    opts: ReplicaSyncOptions,
    item: HubItemView,
    from: Text,
    change: PlacementView,
    policy: ReplicaHubConflict,
    to: Text,
    collection: Text,
    link: Text,
    remote: RemoteItemView,
)
    requires
        from != to,
        holds_settled(item, to),
        updated(item, from, change, policy).object matches Some(hash) && Some(hash)
            != item.sources[to].base->0.object,
        pushes_content(opts),
    ensures
        ({
            let after = updated(item, from, change, policy);
            let p = project_item(after, collection, to, link);
            &&& p is Some
            &&& p->0.status is Dirty
            &&& is_unchanged(p->0, remote) ==> merged(
                opts,
                collection,
                CandidateView { handle: p->0.handle, local: p, remote: Some(remote) },
            ).change == Some(
                ChangeKindView::Update {
                    handle: p->0.handle,
                    object: after.object->0,
                    if_match: base_revision(p->0),
                },
            )
        }),
{
    let after = updated(item, from, change, policy);
    assert(after.sources[to] == item.sources[to]);
}

/// A delete on one source is pushed to every other still holding the item,
/// and never copied to one that lacks it.
pub proof fn a_delete_reaches_the_other_sources(
    opts: ReplicaSyncOptions,
    item: HubItemView,
    collection: Text,
    source: Text,
    link: Text,
    remote: RemoteItemView,
)
    requires
        item.deleted,
        pushes_removes(opts),
    ensures
        !item.sources.contains_key(source) ==> project_item(item, collection, source, link)
            is None,
        item.sources.contains_key(source) && item.sources[source].base is Some ==> {
            let p = project_item(item, collection, source, link);
            &&& p is Some
            &&& p->0.status is Tombstone
            &&& is_unchanged(p->0, remote) ==> merged(
                opts,
                collection,
                CandidateView { handle: p->0.handle, local: p, remote: Some(remote) },
            ).change == Some(
                ChangeKindView::Remove {
                    handle: p->0.handle,
                    to: None,
                    link_id: Some(link),
                    if_match: base_revision(p->0),
                },
            )
        },
{
}

/// Only a genuine delete propagates: a row superseded by another of its
/// source leaves the item as it is, binding aside.
pub proof fn only_a_genuine_delete_propagates(
    item: HubItemView,
    source: Text,
    handle: Text,
    reason: ReplicaDropReason,
)
    ensures
        ({
            let after = dropped(item, source, handle, reason);
            let bound_here = item.sources.contains_key(source) && item.sources[source].handle
                == handle;
            &&& after.deleted <==> item.deleted || (bound_here && reason is Deleted)
            &&& after.flags == item.flags
            &&& after.object == item.object
            &&& after.meta == item.meta
            &&& !bound_here ==> after == item
        }),
{
}

/// Edit and add beat delete across sources: a live upsert undoes a delete in
/// flight.
pub proof fn a_live_upsert_undoes_a_delete(
    item: HubItemView,
    source: Text,
    placement: PlacementView,
    policy: ReplicaHubConflict,
)
    ensures
        !updated(item, source, placement, policy).deleted,
{
}

/// A source that has only probed an item erases nothing another one read:
/// unknown flags, an unknown sort key and a missing summary leave the known
/// ones.
pub proof fn the_unknown_does_not_erase_the_known(
    item: HubItemView,
    source: Text,
    placement: PlacementView,
    policy: ReplicaHubConflict,
)
    ensures
        ({
            let after = updated(item, source, placement, policy);
            &&& placement.flags is Unknown ==> after.flags == item.flags
            &&& placement.flags is Known ==> after.flags == placement.flags
            &&& placement.sort_key.len() == 0 ==> after.sort_key == item.sort_key
            &&& placement.sort_key.len() > 0 ==> after.sort_key == placement.sort_key
            &&& placement.meta is None ==> after.meta == item.meta
            &&& placement.meta is Some ==> after.meta == placement.meta
        }),
{
}

/// An item claims a body only while it holds one.
pub proof fn an_updated_item_claims_only_the_body_it_holds(
    item: HubItemView,
    source: Text,
    placement: PlacementView,
    policy: ReplicaHubConflict,
)
    ensures
        updated(item, source, placement, policy).level is Full ==> updated(
            item,
            source,
            placement,
            policy,
        ).object is Some,
{
}

/// A source never conflicts with itself: whatever it folds in after an
/// upsert of its own, however far behind its remote it is, is no divergence
/// until another source moves the shared body.
pub proof fn a_source_never_conflicts_with_itself(
    item: HubItemView,
    source: Text,
    placement: PlacementView,
    policy: ReplicaHubConflict,
    incoming: Option<Text>,
)
    ensures
        !diverged(updated(item, source, placement, policy), source, incoming),
{
    let after = updated(item, source, placement, policy);
    assert(after.sources[source].shared_object == after.object);
}

/// A fast-forward is adopted: where nobody moved the shared body since this
/// source agreed with it, the body it brings becomes the shared one.
pub proof fn a_fast_forward_is_adopted(
    item: HubItemView,
    source: Text,
    hash: Text,
    policy: ReplicaHubConflict,
)
    requires
        agreed_object(item, source) == item.object,
        Some(hash) != synced_object(item, source),
    ensures
        folded(item, source, Some(hash), policy).object == Some(hash),
{
}

/// A divergence left to the consumer loses neither body: the shared one
/// stays and the diverging one is recorded beside it.
pub proof fn a_divergence_loses_neither_body(
    item: HubItemView,
    source: Text,
    incoming: Option<Text>,
)
    requires
        diverged(item, source, incoming),
    ensures
        ({
            let after = folded(item, source, incoming, ReplicaHubConflict::Manual);
            &&& after.conflicted
            &&& after.object == item.object
            &&& after.conflict_object == incoming
        }),
        folded(item, source, incoming, ReplicaHubConflict::PreferIncoming).object == incoming,
        folded(item, source, incoming, ReplicaHubConflict::PreferExisting).object == item.object,
{
}

/// A tombstone adopts nothing and moves no agreement: the content kept is
/// what an edit made meanwhile resurrects, measured as before.
pub proof fn a_tombstone_keeps_content_and_agreement(
    item: HubItemView,
    source: Text,
    placement: PlacementView,
)
    requires
        placement.status is Tombstone,
    ensures
        ({
            let after = staged_delete(item, source, placement);
            &&& after.deleted
            &&& after.flags == item.flags
            &&& after.object == item.object
            &&& after.meta == item.meta
            &&& after.sort_key == item.sort_key
            &&& after.sources.contains_key(source)
            &&& !after.sources[source].conflicted
            &&& after.sources[source].shared_object == if item.sources.contains_key(source) {
                item.sources[source].shared_object
            } else {
                None
            }
        }),
{
}

/// A conflict of a source with its own remote survives the round trip: it is
/// projected as it was absorbed, revision and diverging body with it, and an
/// upsert of any other status clears it.
pub proof fn a_conflict_round_trips(
    item: HubItemView,
    source: Text,
    placement: PlacementView,
    policy: ReplicaHubConflict,
    collection: Text,
    link: Text,
)
    requires
        !(placement.status is Tombstone),
    ensures
        ({
            let p = project_item(updated(item, source, placement, policy), collection, source, link);
            &&& p is Some
            &&& p->0.handle == placement.handle
            &&& p->0.base == placement.base
            &&& p->0.status is Conflict <==> placement.status is Conflict
            &&& placement.status is Conflict ==> p->0.conflict_revision
                == placement.conflict_revision && p->0.conflict_object
                == placement.conflict_object
            &&& !(placement.status is Conflict) ==> p->0.conflict_revision is None
                && p->0.conflict_object is None
        }),
{
}

/// Absorbing what was projected leaves the shared content alone.
pub proof fn absorbing_a_projection_keeps_the_shared_content(
    item: HubItemView,
    source: Text,
    collection: Text,
    link: Text,
    policy: ReplicaHubConflict,
)
    requires
        !item.deleted,
        item.sources.contains_key(source),
    ensures
        ({
            let p = project_item(item, collection, source, link)->0;
            let after = updated(item, source, p, policy);
            &&& after.flags == item.flags
            &&& after.object == item.object
            &&& after.meta == item.meta
            &&& after.sort_key == item.sort_key
            &&& after.level == stored_level(item)
            &&& after.conflicted == item.conflicted
            &&& after.conflict_object == item.conflict_object
            &&& !after.deleted
        }),
{
}

/// The bindings of an item that are not of one source.
pub open spec fn other_bindings(hub: HubView, source: Text, link: Text) -> Map<Text, BindingView> {
    if hub.items.contains_key(link) {
        hub.items[link].sources.remove(source)
    } else {
        Map::empty()
    }
}

proof fn lemma_absorbed_one_keeps_others(hub: HubView, source: Text, op: WriteOpView, link: Text)
    ensures
        other_bindings(absorbed_one(hub, source, op), source, link) == other_bindings(
            hub,
            source,
            link,
        ),
{
    let after = absorbed_one(hub, source, op);
    assert(other_bindings(after, source, link) =~= other_bindings(hub, source, link));
}

/// What one source writes never touches what another one holds.
pub proof fn other_sources_are_left_alone(
    hub: HubView,
    source: Text,
    ops: Seq<WriteOpView>,
    link: Text,
)
    ensures
        other_bindings(absorbed(hub, source, ops), source, link) == other_bindings(
            hub,
            source,
            link,
        ),
{
    lemma_absorbed_all_keeps_others(hub, source, ops, link);
    assert(other_bindings(absorbed(hub, source, ops), source, link) =~= other_bindings(
        absorbed_all(hub, source, ops),
        source,
        link,
    ));
}

proof fn lemma_absorbed_all_keeps_others(
    hub: HubView,
    source: Text,
    ops: Seq<WriteOpView>,
    link: Text,
)
    ensures
        other_bindings(absorbed_all(hub, source, ops), source, link) == other_bindings(
            hub,
            source,
            link,
        ),
    decreases ops.len(),
{
    if ops.len() > 0 {
        lemma_absorbed_all_keeps_others(hub, source, ops.drop_last(), link);
        lemma_absorbed_one_keeps_others(
            absorbed_all(hub, source, ops.drop_last()),
            source,
            ops.last(),
            link,
        );
    }
}

/// No item outlives its sources: what absorb leaves, somebody holds.
pub proof fn no_item_outlives_its_sources(
    hub: HubView,
    source: Text,
    ops: Seq<WriteOpView>,
    link: Text,
)
    requires
        absorbed(hub, source, ops).items.contains_key(link),
    ensures
        exists|holder: Text| #[trigger]
            absorbed(hub, source, ops).items[link].sources.contains_key(holder),
{
    let sources = absorbed(hub, source, ops).items[link].sources;
    if forall|holder: Text| !(#[trigger] sources.contains_key(holder)) {
        assert(sources =~= Map::<Text, BindingView>::empty());
    }
}

/// An unlinked placement is not shared, and neither an object nor a
/// checkpoint concerns the hub.
pub proof fn only_linked_placements_are_shared(hub: HubView, source: Text, op: WriteOpView)
    requires
        op is StoreObject || op is SetCheckpoint || (op matches WriteOpView::UpsertPlacement(p)
            && p.link_id is None),
    ensures
        absorbed_one(hub, source, op) == hub,
{
}

/// Whether a binding records a divergence only while its source is stuck on
/// one.
pub open spec fn records_only_conflicts(binding: BindingView) -> bool {
    !binding.conflicted ==> binding.conflict_revision is None && binding.conflict_object is None
}

/// Whether every binding of an item does.
pub open spec fn is_sound_item(item: HubItemView) -> bool {
    forall|source: Text| #[trigger]
        item.sources.contains_key(source) ==> records_only_conflicts(item.sources[source])
}

/// What every hub keeps: finitely many items, each held by some source, each
/// binding sound.
pub open spec fn is_sound_hub(hub: HubView) -> bool {
    &&& hub.items.dom().finite()
    &&& forall|link: Text| #[trigger]
        hub.items.contains_key(link) ==> is_sound_item(hub.items[link])
            && hub.items[link].sources != Map::<Text, BindingView>::empty()
}

proof fn lemma_absorbed_all_sound(hub: HubView, source: Text, ops: Seq<WriteOpView>)
    requires
        is_sound_hub(hub),
    ensures
        absorbed_all(hub, source, ops).items.dom().finite(),
        forall|link: Text| #[trigger]
            absorbed_all(hub, source, ops).items.contains_key(link) ==> is_sound_item(
                absorbed_all(hub, source, ops).items[link],
            ),
    decreases ops.len(),
{
    if ops.len() > 0 {
        lemma_absorbed_all_sound(hub, source, ops.drop_last());
        let (before, after) = (
            absorbed_all(hub, source, ops.drop_last()),
            absorbed_all(hub, source, ops),
        );
        if ops.last() is DropPlacement {
            assert(after.items.dom() =~= before.items.dom());
        }
    }
}

/// A hub starts sound, and absorbing keeps it so.
pub proof fn a_hub_stays_sound(hub: HubView, source: Text, ops: Seq<WriteOpView>)
    ensures
        is_sound_hub(HubView { items: Map::empty(), ..hub }),
        is_sound_hub(hub) ==> is_sound_hub(absorbed(hub, source, ops)),
{
    assert(Map::<Text, HubItemView>::empty().dom() =~= Set::empty());
    if is_sound_hub(hub) {
        lemma_absorbed_all_sound(hub, source, ops);
        let (all, kept) = (absorbed_all(hub, source, ops), absorbed(hub, source, ops));
        vstd::set_lib::lemma_set_subset_finite(all.items.dom(), kept.items.dom());
    }
}

/// What a source's upsert of an item, projected for it, makes of the item.
pub open spec fn taken_back(
    item: HubItemView,
    source: Text,
    placement: PlacementView,
    policy: ReplicaHubConflict,
) -> HubItemView {
    if placement.status is Tombstone {
        staged_delete(item, source, placement)
    } else {
        updated(item, source, placement, policy)
    }
}

/// An item a source holds projects the same once the source's projection of
/// it is absorbed, deleted or conflicted ones included.
pub proof fn absorbing_a_projection_keeps_it(
    item: HubItemView,
    source: Text,
    collection: Text,
    link: Text,
    policy: ReplicaHubConflict,
)
    requires
        is_sound_item(item),
        item.sources.contains_key(source),
    ensures
        ({
            let p = project_item(item, collection, source, link)->0;
            let after = taken_back(item, source, p, policy);
            &&& project_item(after, collection, source, link) == Some(p)
            &&& is_sound_item(after)
            &&& after.sources.dom() == item.sources.dom()
        }),
{
    let p = project_item(item, collection, source, link)->0;
    let after = taken_back(item, source, p, policy);
    assert(after.sources.dom() =~= item.sources.dom());
    if item.deleted {
        assert(project_item(after, collection, source, link)->0 =~= p);
    } else {
        absorbing_a_projection_keeps_the_shared_content(item, source, collection, link, policy);
        assert(records_only_conflicts(item.sources[source]));
        assert(project_item(after, collection, source, link)->0 =~= p);
    }
}

/// Whether a hub projects for a source what another does, item by item.
pub open spec fn projects_alike(
    hub: HubView,
    other: HubView,
    collection: Text,
    source: Text,
) -> bool {
    &&& hub.items.dom() == other.items.dom()
    &&& forall|link: Text| #[trigger]
        hub.items.contains_key(link) ==> project_item(
            hub.items[link],
            collection,
            source,
            link,
        ) == project_item(other.items[link], collection, source, link)
}

/// Whether every write hands back what a hub projects for its source, of the
/// items it holds.
pub open spec fn hands_back(
    hub: HubView,
    collection: Text,
    source: Text,
    ops: Seq<WriteOpView>,
) -> bool {
    forall|i: int|
        0 <= i < ops.len() ==> (#[trigger] ops[i] matches WriteOpView::UpsertPlacement(p)
            && p.link_id matches Some(link) && hub.items.contains_key(link) && project_item(
            hub.items[link],
            collection,
            source,
            link,
        ) == Some(p) && !(p.status is Created))
}

proof fn lemma_hands_back(
    hub: HubView,
    collection: Text,
    source: Text,
    ops: Seq<WriteOpView>,
)
    requires
        is_sound_hub(hub),
        hands_back(hub, collection, source, ops),
    ensures
        is_sound_hub(absorbed_all(hub, source, ops)),
        projects_alike(absorbed_all(hub, source, ops), hub, collection, source),
    decreases ops.len(),
{
    if ops.len() > 0 {
        let before = ops.drop_last();
        assert forall|i: int| 0 <= i < before.len() implies (
        #[trigger] before[i] matches WriteOpView::UpsertPlacement(p)
            && p.link_id matches Some(link) && hub.items.contains_key(link) && project_item(
            hub.items[link],
            collection,
            source,
            link,
        ) == Some(p) && !(p.status is Created)) by {
            assert(before[i] == ops[i]);
        }
        lemma_hands_back(hub, collection, source, before);
        let (old, new) = (absorbed_all(hub, source, before), absorbed_all(hub, source, ops));
        assert(ops[ops.len() - 1] == ops.last());
        let p = ops.last()->UpsertPlacement_0;
        let link = p.link_id->0;
        let item = old.items[link];
        assert(old.items.contains_key(link));
        assert(is_sound_item(item));
        assert(item.sources.contains_key(source));
        absorbing_a_projection_keeps_it(item, source, collection, link, hub.conflict);
        assert(old.conflict == hub.conflict) by {
            lemma_absorbed_policy(hub, source, before);
        }
        assert(new.items =~= old.items.insert(
            link,
            taken_back(item, source, p, hub.conflict),
        ));
        assert(new.items.dom() =~= old.items.dom());
        assert(new.items[link].sources.contains_key(source));
        assert(!Map::<Text, BindingView>::empty().contains_key(source));
    }
}

proof fn lemma_absorbed_policy(hub: HubView, source: Text, ops: Seq<WriteOpView>)
    ensures
        absorbed_all(hub, source, ops).conflict == hub.conflict,
    decreases ops.len(),
{
    if ops.len() > 0 {
        lemma_absorbed_policy(hub, source, ops.drop_last());
    }
}

proof fn lemma_same_projection(
    hub: HubView,
    other: HubView,
    collection: Text,
    source: Text,
    links: Seq<Text>,
)
    requires
        projects_alike(hub, other, collection, source),
        forall|i: int| 0 <= i < links.len() ==> hub.items.contains_key(#[trigger] links[i]),
    ensures
        project_items(hub.items, collection, source, links) == project_items(
            other.items,
            collection,
            source,
            links,
        ),
    decreases links.len(),
{
    if links.len() > 0 {
        let before = links.drop_last();
        assert forall|i: int| 0 <= i < before.len() implies hub.items.contains_key(
            #[trigger] before[i],
        ) by {
            assert(before[i] == links[i]);
        }
        assert(hub.items.contains_key(links[links.len() - 1]));
        lemma_same_projection(hub, other, collection, source, before);
    }
}

/// A hub that takes back what it projected projects the same: absorbing a
/// source's own projection, all of it or some, leaves that source's
/// projection as it was, tombstones and conflicts included. A member offered
/// to a source that lacks it is left out: absorbed, it is one the source
/// holds.
pub proof fn absorbing_its_own_projection_changes_no_projection(
    hub: HubView,
    collection: Text,
    source: Text,
    ops: Seq<WriteOpView>,
)
    requires
        is_sound_hub(hub),
        hands_back(hub, collection, source, ops),
    ensures
        ({
            let after = absorbed(hub, source, ops);
            project_items(after.items, collection, source, ascending(after.items.dom()))
                == project_items(hub.items, collection, source, ascending(hub.items.dom()))
        }),
{
    lemma_hands_back(hub, collection, source, ops);
    let all = absorbed_all(hub, source, ops);
    let after = absorbed(hub, source, ops);
    assert(after.items =~= all.items);
    let links = ascending(hub.items.dom());
    lemma_ascending(hub.items.dom());
    assert forall|i: int| 0 <= i < links.len() implies after.items.contains_key(
        #[trigger] links[i],
    ) by {
        assert(links.contains(links[i]));
    }
    lemma_same_projection(after, hub, collection, source, links);
}

/// The writes that upsert some placements, in order.
pub open spec fn upserts(placements: Seq<PlacementView>) -> Seq<WriteOpView> {
    Seq::new(placements.len(), |i: int| WriteOpView::UpsertPlacement(placements[i]))
}

/// Every placement projected is what some item projects.
proof fn lemma_projected_from_an_item(
    hub: HubView,
    collection: Text,
    source: Text,
    links: Seq<Text>,
    i: int,
)
    requires
        forall|j: int| 0 <= j < links.len() ==> hub.items.contains_key(#[trigger] links[j]),
        0 <= i < project_items(hub.items, collection, source, links).len(),
    ensures
        ({
            let p = project_items(hub.items, collection, source, links)[i];
            p.link_id matches Some(link) && hub.items.contains_key(link) && project_item(
                hub.items[link],
                collection,
                source,
                link,
            ) == Some(p)
        }),
    decreases links.len(),
{
    let before = links.drop_last();
    assert forall|j: int| 0 <= j < before.len() implies hub.items.contains_key(
        #[trigger] before[j],
    ) by {
        assert(before[j] == links[j]);
    }
    assert(hub.items.contains_key(links[links.len() - 1]));
    if i < project_items(hub.items, collection, source, before).len() {
        lemma_projected_from_an_item(hub, collection, source, before, i);
    }
}

/// The round trip of a source that holds every item: absorbing the whole of
/// its projection leaves the projection as it was.
pub proof fn a_whole_projection_round_trips(hub: HubView, collection: Text, source: Text)
    requires
        hub.items.dom().finite(),
        forall|link: Text| #[trigger]
            hub.items.contains_key(link) ==> is_sound_item(hub.items[link])
                && hub.items[link].sources.contains_key(source),
    ensures
        ({
            let ps = project_items(hub.items, collection, source, ascending(hub.items.dom()));
            let after = absorbed(hub, source, upserts(ps));
            project_items(after.items, collection, source, ascending(after.items.dom())) == ps
        }),
{
    let links = ascending(hub.items.dom());
    lemma_ascending(hub.items.dom());
    assert forall|j: int| 0 <= j < links.len() implies hub.items.contains_key(
        #[trigger] links[j],
    ) by {
        assert(links.contains(links[j]));
    }
    let ps = project_items(hub.items, collection, source, links);
    let ops = upserts(ps);
    assert forall|i: int| 0 <= i < ops.len() implies (
    #[trigger] ops[i] matches WriteOpView::UpsertPlacement(p)
        && p.link_id matches Some(link) && hub.items.contains_key(link) && project_item(
        hub.items[link],
        collection,
        source,
        link,
    ) == Some(p) && !(p.status is Created)) by {
        lemma_projected_from_an_item(hub, collection, source, links, i);
    }
    assert(!Map::<Text, BindingView>::empty().contains_key(source));
    absorbing_its_own_projection_changes_no_projection(hub, collection, source, ops);
}

} // verus!
