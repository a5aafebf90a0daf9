//! Multi-source hub: shared content with a base per source.
//!
//! One logical item can live on several sources (a `left` and a `right`
//! server, a server and a phone). The hub holds that item's current
//! content once, plus a last-synced base per source, so a storage
//! wrapping it can [`project`] a per-source placement and [`absorb`] the
//! engine's writes back. A projected placement carries the shared
//! content against the source's own base, so a change another source
//! folded in reads as locally dirty here and the ordinary reconcile
//! pushes it: propagation falls out of the per-source merge, with no
//! cross-merge. Adds, flags and deletes propagate the same way;
//! cross-source content conflicts resolve by policy.
//!
//! [`project`]: ReplicaHub::project
//! [`absorb`]: ReplicaHub::absorb

use vstd::prelude::*;

use crate::change::{ReplicaDropReason, ReplicaWriteOp, WriteOpView};
use crate::collection::ReplicaCollectionId;
use crate::object::ReplicaHash;
use crate::order::{
    ascending, lemma_ascending, lemma_ascending_distinct, lemma_ascending_remove, Text,
};
use crate::placement::{
    higher, BaseView, FlagsView, PlacementView, ReplicaBase, ReplicaFlags, ReplicaHandle,
    ReplicaLevel, ReplicaLinkId, ReplicaMeta, ReplicaPlacement, ReplicaSortKey, ReplicaStatus,
};
use crate::sorted::{ReplicaId, ReplicaMap};
use crate::value::{push, ReplicaSame, ReplicaValue};

verus! {

/// A source of a shared item: one authoritative replica (`left`, `right`,
/// `phone`).
#[derive(Debug, Eq, Hash, Ord, PartialEq, PartialOrd)]
pub struct ReplicaSourceId(pub String);

impl View for ReplicaSourceId {
    type V = Text;

    open spec fn view(&self) -> Text {
        self.0@
    }
}

impl DeepView for ReplicaSourceId {
    type V = Text;

    open spec fn deep_view(&self) -> Text {
        self.0@
    }
}

impl ReplicaSourceId {
    /// Borrows the id as a string slice.
    pub fn as_str(&self) -> (r: &str)
        ensures
            r@ == self@,
    {
        self.0.as_str()
    }
}

impl Clone for ReplicaSourceId {
    fn clone(&self) -> (r: Self)
        ensures
            r@ == self@,
    {
        ReplicaSourceId(self.0.clone())
    }
}

impl From<&str> for ReplicaSourceId {
    fn from(value: &str) -> (r: Self)
        ensures
            r@ == value@,
    {
        ReplicaSourceId(value.to_owned())
    }
}

impl vstd::std_specs::convert::FromSpecImpl<&str> for ReplicaSourceId {
    open spec fn obeys_from_spec() -> bool {
        false
    }

    open spec fn from_spec(value: &str) -> Self {
        arbitrary()
    }
}

impl From<String> for ReplicaSourceId {
    fn from(value: String) -> (r: Self)
        ensures
            r@ == value@,
    {
        ReplicaSourceId(value)
    }
}

impl vstd::std_specs::convert::FromSpecImpl<String> for ReplicaSourceId {
    open spec fn obeys_from_spec() -> bool {
        true
    }

    open spec fn from_spec(value: String) -> Self {
        ReplicaSourceId(value)
    }
}

impl ReplicaId for ReplicaSourceId {
    fn text(&self) -> (r: &str) {
        self.0.as_str()
    }

    fn again(&self) -> (r: Self) {
        self.clone()
    }
}

impl ReplicaValue for ReplicaSourceId {
    fn copied(&self) -> (r: Self) {
        self.clone()
    }
}

impl ReplicaSame for ReplicaSourceId {
    fn same(&self, other: &Self) -> (r: bool) {
        self.0 == other.0
    }
}

/// One source's binding of a shared item: its handle there, the base last
/// synced with it, and whether that source's own sync is stuck on a conflict.
#[derive(Debug, Eq, PartialEq)]
pub struct ReplicaSourceBinding {
    /// The item's handle on this source.
    pub handle: ReplicaHandle,
    /// The last state synced with this source; `None` until first reconciled.
    pub base: Option<ReplicaBase>,
    /// Set when this source and its own remote diverged and the merge
    /// left the placement [`ReplicaStatus::Conflict`].
    ///
    /// Distinct from [`ReplicaHubItem::conflicted`], the cross-source
    /// conflict: one says left and its server disagree, the other left
    /// and right disagree, and a two-source store needs both. Cleared by
    /// an upsert of any other status, so a consumer resolving with an
    /// edit needs no explicit resolution call.
    pub conflicted: bool,
    /// The remote revision observed when this binding was marked
    /// conflicted, what a resolver merges against. `None` when not
    /// conflicted, or when the remote reports no revision.
    pub conflict_revision: Option<String>,
    /// The remote body at that revision, so a resolver reads the
    /// divergence from the store rather than from the source. `None`
    /// until the upgrade pass supplies it, and dropped whenever the
    /// revision beside it moves.
    ///
    /// Persisted with the binding because that is what a storage keeps
    /// per source: the projection hands it back to the placement, and
    /// an absorb records whatever the placement holds.
    pub conflict_object: Option<ReplicaHash>,
    /// The shared body this source last reconciled against, which is
    /// the base of the cross-source merge.
    ///
    /// The second axis needs a base of its own. [`base`](Self::base) is
    /// what this source last agreed with its own remote, and only a
    /// sync moves it, so a body this source folded into the hub and has
    /// not pushed yet leaves it behind the shared one. Read as the
    /// cross-source base it would make the source disagree with itself,
    /// and its next edit would be dropped as a conflict.
    ///
    /// `None` until this source has folded once, where the sync base
    /// stands in for it.
    pub shared_object: Option<ReplicaHash>,
}

/// What a [`ReplicaSourceBinding`] stands for.
#[verifier::ext_equal]
pub struct BindingView {
    pub handle: Text,
    pub base: Option<BaseView>,
    pub conflicted: bool,
    pub conflict_revision: Option<Text>,
    pub conflict_object: Option<Text>,
    pub shared_object: Option<Text>,
}

impl View for ReplicaSourceBinding {
    type V = BindingView;

    open spec fn view(&self) -> BindingView {
        BindingView {
            handle: self.handle@,
            base: self.base.deep_view(),
            conflicted: self.conflicted,
            conflict_revision: self.conflict_revision.deep_view(),
            conflict_object: self.conflict_object.deep_view(),
            shared_object: self.shared_object.deep_view(),
        }
    }
}

impl DeepView for ReplicaSourceBinding {
    type V = BindingView;

    open spec fn deep_view(&self) -> BindingView {
        self.view()
    }
}

impl Clone for ReplicaSourceBinding {
    fn clone(&self) -> (r: Self)
        ensures
            r@ == self@,
    {
        ReplicaSourceBinding {
            handle: self.handle.clone(),
            base: self.base.copied(),
            conflicted: self.conflicted,
            conflict_revision: self.conflict_revision.copied(),
            conflict_object: self.conflict_object.copied(),
            shared_object: self.shared_object.copied(),
        }
    }
}

impl ReplicaValue for ReplicaSourceBinding {
    fn copied(&self) -> (r: Self) {
        self.clone()
    }
}

/// How the hub resolves a cross-source content conflict, both sources
/// having edited the same body since they last agreed.
///
/// Flags never reach this: they merge element-wise. Only mutable-content
/// backends conflict; immutable ones mint a new link id per body.
#[derive(Clone, Copy, Debug, Eq, PartialEq, Structural)]
pub enum ReplicaHubConflict {
    /// Flag the item conflicted and record the diverging body for the
    /// consumer to resolve, keeping the shared body so nothing is lost.
    Manual,
    /// Last-writer-wins: adopt the incoming body, overwriting the shared one.
    PreferIncoming,
    /// Keep the already-shared body, dropping the incoming one.
    PreferExisting,
}

impl Default for ReplicaHubConflict {
    fn default() -> (r: Self)
        ensures
            r == ReplicaHubConflict::Manual,
    {
        ReplicaHubConflict::Manual
    }
}

/// A logical item shared across sources: its current content plus a binding per
/// source that holds it.
#[derive(Debug, Eq, PartialEq)]
pub struct ReplicaHubItem {
    /// The current flag set, shared by every source.
    pub flags: ReplicaFlags,
    /// The current body, shared by every source; `None` until hydrated.
    pub object: Option<ReplicaHash>,
    /// The current summary, shared by every source; `None` until fetched.
    pub meta: Option<ReplicaMeta>,
    /// The current sort key, shared by every source; empty until derived.
    pub sort_key: ReplicaSortKey,
    /// The highest detail level any source has reached, which is the
    /// item's own only while it holds a body
    /// ([`stored_level`](Self::stored_level)).
    pub level: ReplicaLevel,
    /// Set once a source removed the item: the delete propagates to
    /// every source still holding it, and it is never copied to one that
    /// lacks it. A later live upsert clears it, edit and add beating
    /// delete across sources.
    pub deleted: bool,
    /// Set when a cross-source content conflict was left unresolved (the
    /// `Manual` policy); the diverging body is in `conflict_object`.
    pub conflicted: bool,
    /// The diverging body a `Manual` conflict recorded, for the consumer to
    /// resolve against; `None` otherwise.
    pub conflict_object: Option<ReplicaHash>,
    /// Per-source bindings, keyed by source id.
    pub sources: ReplicaMap<ReplicaSourceId, ReplicaSourceBinding>,
}

/// What a [`ReplicaHubItem`] stands for.
#[verifier::ext_equal]
pub struct HubItemView {
    pub flags: FlagsView,
    pub object: Option<Text>,
    pub meta: Option<Text>,
    pub sort_key: Text,
    pub level: ReplicaLevel,
    pub deleted: bool,
    pub conflicted: bool,
    pub conflict_object: Option<Text>,
    pub sources: Map<Text, BindingView>,
}

impl View for ReplicaHubItem {
    type V = HubItemView;

    open spec fn view(&self) -> HubItemView {
        HubItemView {
            flags: self.flags@,
            object: self.object.deep_view(),
            meta: self.meta.deep_view(),
            sort_key: self.sort_key@,
            level: self.level,
            deleted: self.deleted,
            conflicted: self.conflicted,
            conflict_object: self.conflict_object.deep_view(),
            sources: self.sources@,
        }
    }
}

impl DeepView for ReplicaHubItem {
    type V = HubItemView;

    open spec fn deep_view(&self) -> HubItemView {
        self.view()
    }
}

impl Clone for ReplicaHubItem {
    fn clone(&self) -> (r: Self)
        ensures
            r@ == self@,
    {
        ReplicaHubItem {
            flags: self.flags.clone(),
            object: self.object.copied(),
            meta: self.meta.copied(),
            sort_key: self.sort_key.clone(),
            level: self.level,
            deleted: self.deleted,
            conflicted: self.conflicted,
            conflict_object: self.conflict_object.copied(),
            sources: self.sources.clone(),
        }
    }
}

impl ReplicaValue for ReplicaHubItem {
    fn copied(&self) -> (r: Self) {
        self.clone()
    }
}

/// The multi-source hub: logical items keyed by link id.
#[derive(Debug, Eq, PartialEq)]
pub struct ReplicaHub {
    /// The shared items, keyed by their cross-source link id.
    pub items: ReplicaMap<ReplicaLinkId, ReplicaHubItem>,
    /// How a cross-source content conflict is resolved.
    pub conflict: ReplicaHubConflict,
}

/// What a [`ReplicaHub`] stands for.
#[verifier::ext_equal]
pub struct HubView {
    pub items: Map<Text, HubItemView>,
    pub conflict: ReplicaHubConflict,
}

impl View for ReplicaHub {
    type V = HubView;

    open spec fn view(&self) -> HubView {
        HubView { items: self.items@, conflict: self.conflict }
    }
}

impl Clone for ReplicaHub {
    fn clone(&self) -> (r: Self)
        ensures
            r@ == self@,
    {
        ReplicaHub { items: self.items.clone(), conflict: self.conflict }
    }
}

impl Default for ReplicaHub {
    fn default() -> (r: Self)
        ensures
            r@ == (HubView { items: Map::empty(), conflict: ReplicaHubConflict::Manual }),
    {
        ReplicaHub { items: ReplicaMap::new(), conflict: ReplicaHubConflict::Manual }
    }
}

/// The detail level an item can honestly claim.
pub open spec fn stored_level(item: HubItemView) -> ReplicaLevel {
    if item.object is None && item.level is Full {
        ReplicaLevel::Meta
    } else {
        item.level
    }
}

/// The shared half of a projection, the same for every source.
pub open spec fn projected(
    item: HubItemView,
    collection: Text,
    link: Text,
    handle: Text,
) -> PlacementView {
    PlacementView {
        collection,
        handle,
        link_id: Some(link),
        object: item.object,
        level: stored_level(item),
        meta: item.meta,
        sort_key: item.sort_key,
        flags: item.flags,
        status: ReplicaStatus::Clean,
        conflict_revision: None,
        conflict_object: None,
        base: None,
        origin: None,
        ambiguous_handles: Seq::empty(),
    }
}

/// Whether a source is in sync with the shared content.
pub open spec fn in_sync(item: HubItemView, binding: BindingView) -> bool {
    binding.base is Some && binding.base->0.flags == item.flags && binding.base->0.object
        == item.object
}

/// The placement of an item its source holds. An unresolved conflict
/// outranks the base comparison: read as dirty, it would re-derive the push
/// the merge already rejected.
pub open spec fn bound(
    item: HubItemView,
    collection: Text,
    link: Text,
    binding: BindingView,
) -> PlacementView {
    PlacementView {
        status: if binding.conflicted {
            ReplicaStatus::Conflict
        } else if in_sync(item, binding) {
            ReplicaStatus::Clean
        } else {
            ReplicaStatus::Dirty
        },
        conflict_revision: binding.conflict_revision,
        conflict_object: binding.conflict_object,
        base: binding.base,
        ..projected(item, collection, link, binding.handle)
    }
}

/// The tombstone of an item deleted elsewhere but still held by its source.
pub open spec fn tombstone(
    item: HubItemView,
    collection: Text,
    link: Text,
    binding: BindingView,
) -> PlacementView {
    PlacementView {
        status: ReplicaStatus::Tombstone,
        base: binding.base,
        ..projected(item, collection, link, binding.handle)
    }
}

/// The create of an item missing on a source, staged only where the body is
/// there so it never triggers a fetch.
pub open spec fn created(item: HubItemView, collection: Text, link: Text) -> Option<PlacementView> {
    if item.object is Some {
        Some(
            PlacementView {
                status: ReplicaStatus::Created,
                level: ReplicaLevel::Full,
                ..projected(item, collection, link, link + "\u{1}hub"@)
            },
        )
    } else {
        None
    }
}

/// What an item projects for a source.
pub open spec fn project_item(
    item: HubItemView,
    collection: Text,
    source: Text,
    link: Text,
) -> Option<PlacementView> {
    if item.sources.contains_key(source) {
        let binding = item.sources[source];
        if item.deleted {
            Some(tombstone(item, collection, link, binding))
        } else {
            Some(bound(item, collection, link, binding))
        }
    } else if item.deleted {
        None
    } else {
        created(item, collection, link)
    }
}

/// What the items under the links given project for a source, in that order.
pub open spec fn project_items(
    items: Map<Text, HubItemView>,
    collection: Text,
    source: Text,
    links: Seq<Text>,
) -> Seq<PlacementView>
    decreases links.len(),
{
    if links.len() == 0 {
        Seq::empty()
    } else {
        let before = project_items(items, collection, source, links.drop_last());
        match project_item(items[links.last()], collection, source, links.last()) {
            Some(placement) => before.push(placement),
            None => before,
        }
    }
}

/// The item a placement starts.
pub open spec fn started(placement: PlacementView) -> HubItemView {
    HubItemView {
        flags: placement.flags,
        object: placement.object,
        meta: placement.meta,
        sort_key: placement.sort_key,
        level: placement.level,
        deleted: false,
        conflicted: false,
        conflict_object: None,
        sources: Map::empty(),
    }
}

/// The binding an upsert leaves for its source. Any status but a conflict
/// clears a conflict it had.
pub open spec fn binding_of(
    placement: PlacementView,
    shared_object: Option<Text>,
) -> BindingView {
    let conflicted = placement.status is Conflict;
    BindingView {
        handle: placement.handle,
        base: placement.base,
        conflicted,
        conflict_revision: if conflicted {
            placement.conflict_revision
        } else {
            None
        },
        conflict_object: if conflicted {
            placement.conflict_object
        } else {
            None
        },
        shared_object,
    }
}

/// The body a source last synced with its own remote.
pub open spec fn synced_object(item: HubItemView, source: Text) -> Option<Text> {
    if item.sources.contains_key(source) && item.sources[source].base is Some {
        item.sources[source].base->0.object
    } else {
        None
    }
}

/// The shared body a source last reconciled against, where it has.
pub open spec fn shared_object(item: HubItemView, source: Text) -> Option<Text> {
    if item.sources.contains_key(source) {
        item.sources[source].shared_object
    } else {
        None
    }
}

/// The shared body a source last agreed with: the one it reconciled against,
/// or its synced one until it has.
pub open spec fn agreed_object(item: HubItemView, source: Text) -> Option<Text> {
    if shared_object(item, source) is Some {
        shared_object(item, source)
    } else {
        synced_object(item, source)
    }
}

/// Whether a source and another both edited the body since they agreed.
pub open spec fn diverged(item: HubItemView, source: Text, incoming: Option<Text>) -> bool {
    incoming != synced_object(item, source) && item.object != agreed_object(item, source)
        && incoming != item.object && incoming is Some && item.object is Some
}

/// The body an item holds after an upsert: a fast-forward adopts the
/// incoming one, a divergence resolves by policy, and anything else leaves
/// the shared one for the next projection to push.
pub open spec fn folded(
    item: HubItemView,
    source: Text,
    incoming: Option<Text>,
    policy: ReplicaHubConflict,
) -> HubItemView {
    if diverged(item, source, incoming) {
        match policy {
            ReplicaHubConflict::Manual => HubItemView {
                conflicted: true,
                conflict_object: incoming,
                ..item
            },
            ReplicaHubConflict::PreferIncoming => HubItemView {
                object: incoming,
                conflicted: false,
                conflict_object: None,
                ..item
            },
            ReplicaHubConflict::PreferExisting => HubItemView {
                conflicted: false,
                conflict_object: None,
                ..item
            },
        }
    } else if incoming != synced_object(item, source) && item.object == agreed_object(item, source)
        && incoming != item.object {
        HubItemView { object: incoming, conflicted: false, conflict_object: None, ..item }
    } else {
        item
    }
}

/// An item after a delete its source staged: the delete propagates, the
/// content and the agreement stay.
pub open spec fn staged_delete(
    item: HubItemView,
    source: Text,
    placement: PlacementView,
) -> HubItemView {
    HubItemView {
        deleted: true,
        sources: item.sources.insert(source, binding_of(placement, shared_object(item, source))),
        ..item
    }
}

/// An item after a live upsert: a delete in flight is undone, markers and
/// sort key are adopted where the source knows them, the summary where it
/// has one, and the level rises to the highest reached that is true.
pub open spec fn updated(
    item: HubItemView,
    source: Text,
    placement: PlacementView,
    policy: ReplicaHubConflict,
) -> HubItemView {
    let item = HubItemView {
        deleted: false,
        flags: if placement.flags is Unknown {
            item.flags
        } else {
            placement.flags
        },
        meta: if placement.meta is Some {
            placement.meta
        } else {
            item.meta
        },
        sort_key: if placement.sort_key.len() == 0 {
            item.sort_key
        } else {
            placement.sort_key
        },
        level: higher(item.level, placement.level),
        ..item
    };
    let item = folded(item, source, placement.object, policy);
    HubItemView {
        level: stored_level(item),
        sources: item.sources.insert(source, binding_of(placement, item.object)),
        ..item
    }
}

/// A hub after one upsert of a source. An unlinked placement cannot be
/// shared yet.
pub open spec fn upserted(hub: HubView, source: Text, placement: PlacementView) -> HubView {
    match placement.link_id {
        None => hub,
        Some(link) => {
            let item = if hub.items.contains_key(link) {
                hub.items[link]
            } else {
                started(placement)
            };
            let item = if placement.status is Tombstone {
                staged_delete(item, source, placement)
            } else {
                updated(item, source, placement, hub.conflict)
            };
            HubView { items: hub.items.insert(link, item), ..hub }
        },
    }
}

/// An item after a source dropped a row: its binding goes where the row is
/// the one it binds, and a genuine delete propagates.
pub open spec fn dropped(
    item: HubItemView,
    source: Text,
    handle: Text,
    reason: ReplicaDropReason,
) -> HubItemView {
    if item.sources.contains_key(source) && item.sources[source].handle == handle {
        HubItemView {
            deleted: item.deleted || reason is Deleted,
            sources: item.sources.remove(source),
            ..item
        }
    } else {
        item
    }
}

/// A hub after a source dropped a row.
pub open spec fn dropped_all(
    hub: HubView,
    source: Text,
    handle: Text,
    reason: ReplicaDropReason,
) -> HubView {
    HubView {
        items: Map::new(
            |link: Text| hub.items.contains_key(link),
            |link: Text| dropped(hub.items[link], source, handle, reason),
        ),
        ..hub
    }
}

/// A hub after one write of a source. Stored objects and checkpoints are the
/// wrapping storage's concern.
pub open spec fn absorbed_one(hub: HubView, source: Text, op: WriteOpView) -> HubView {
    match op {
        WriteOpView::UpsertPlacement(placement) => upserted(hub, source, placement),
        WriteOpView::DropPlacement { handle, reason, .. } => dropped_all(
            hub,
            source,
            handle,
            reason,
        ),
        _ => hub,
    }
}

/// A hub after the writes of a source, in order.
pub open spec fn absorbed_all(hub: HubView, source: Text, ops: Seq<WriteOpView>) -> HubView
    decreases ops.len(),
{
    if ops.len() == 0 {
        hub
    } else {
        absorbed_one(absorbed_all(hub, source, ops.drop_last()), source, ops.last())
    }
}

/// A hub without the items no source holds.
pub open spec fn pruned(hub: HubView) -> HubView {
    HubView {
        items: Map::new(
            |link: Text|
                hub.items.contains_key(link) && hub.items[link].sources != Map::<
                    Text,
                    BindingView,
                >::empty(),
            |link: Text| hub.items[link],
        ),
        ..hub
    }
}

/// A hub after a source's sync writes.
pub open spec fn absorbed(hub: HubView, source: Text, ops: Seq<WriteOpView>) -> HubView {
    pruned(absorbed_all(hub, source, ops))
}

impl ReplicaHubItem {
    /// The detail level the item can honestly claim: [`Full`] means a
    /// stored body, so an item holding none reads one rung down however
    /// far a source got.
    ///
    /// [`level`](Self::level) is the high-water mark across sources, and
    /// only [`object`](Self::object) says whether the body is there.
    /// Reading the mark as the fact strands an item a content change
    /// refreshed, an upgrade skipping whatever reads as [`Full`].
    ///
    /// [`Full`]: ReplicaLevel::Full
    pub fn stored_level(&self) -> (r: ReplicaLevel)
        ensures
            r == stored_level(self@),
    {
        if self.object.is_none() && self.level == ReplicaLevel::Full {
            ReplicaLevel::Meta
        } else {
            self.level
        }
    }

    /// The placement this item projects into `collection` under `handle`.
    ///
    /// The shared half of a projection, the same for every source: the
    /// content the hub holds, at the level it can honestly claim. What a
    /// binding decides (status, base, conflict revision) is settled by
    /// the caller.
    fn project(
        &self,
        collection: &ReplicaCollectionId,
        link: &ReplicaLinkId,
        handle: ReplicaHandle,
    ) -> (r: ReplicaPlacement)
        ensures
            r@ == projected(self@, collection@, link@, handle@),
    {
        let r = ReplicaPlacement {
            collection: collection.clone(),
            handle,
            link_id: Some(link.clone()),
            object: self.object.copied(),
            level: self.stored_level(),
            meta: self.meta.copied(),
            sort_key: self.sort_key.clone(),
            flags: self.flags.clone(),
            status: ReplicaStatus::Clean,
            conflict_revision: None,
            conflict_object: None,
            base: None,
            origin: None,
            ambiguous_handles: Vec::new(),
        };
        assert(r@.ambiguous_handles =~= Seq::<Text>::empty());
        r
    }

    /// The placement for an item this source already holds.
    fn bound_placement(
        &self,
        collection: &ReplicaCollectionId,
        link: &ReplicaLinkId,
        binding: &ReplicaSourceBinding,
    ) -> (r: ReplicaPlacement)
        ensures
            r@ == bound(self@, collection@, link@, binding@),
    {
        let in_sync = match &binding.base {
            Some(base) => base.flags.same(&self.flags) && base.object.same(&self.object),
            None => false,
        };
        let mut placement = self.project(collection, link, binding.handle.clone());
        placement.status =
        if binding.conflicted {
            ReplicaStatus::Conflict
        } else if in_sync {
            ReplicaStatus::Clean
        } else {
            ReplicaStatus::Dirty
        };
        placement.conflict_revision = binding.conflict_revision.copied();
        placement.conflict_object = binding.conflict_object.copied();
        placement.base = binding.base.copied();
        placement
    }

    /// A `Tombstone` for an item deleted elsewhere but still held here,
    /// so the source's next sync pushes a `Remove`. The content is kept
    /// so edit-beats-delete can still resurrect it if the source's
    /// server changed it meanwhile.
    fn tombstone_placement(
        &self,
        collection: &ReplicaCollectionId,
        link: &ReplicaLinkId,
        binding: &ReplicaSourceBinding,
    ) -> (r: ReplicaPlacement)
        ensures
            r@ == tombstone(self@, collection@, link@, binding@),
    {
        let mut placement = self.project(collection, link, binding.handle.clone());
        placement.status = ReplicaStatus::Tombstone;
        placement.base = binding.base.copied();
        placement
    }

    /// A `Created` append for an item missing on this source, staged
    /// only when the body is already hydrated so it never triggers a
    /// fetch.
    fn created_placement(&self, collection: &ReplicaCollectionId, link: &ReplicaLinkId) -> (r:
        Option<ReplicaPlacement>)
        ensures
            r.deep_view() == created(self@, collection@, link@),
    {
        if self.object.is_none() {
            return None;
        }
        let mut handle = link.0.clone();
        handle.append("\u{1}hub");
        let mut placement = self.project(collection, link, ReplicaHandle(handle));
        placement.status = ReplicaStatus::Created;
        placement.level = ReplicaLevel::Full;
        Some(placement)
    }

    /// What the item projects for `source`.
    fn project_for(
        &self,
        collection: &ReplicaCollectionId,
        source: &ReplicaSourceId,
        link: &ReplicaLinkId,
    ) -> (r: Option<ReplicaPlacement>)
        ensures
            r.deep_view() == project_item(self@, collection@, source@, link@),
    {
        match self.sources.get(source) {
            Some(binding) => {
                if self.deleted {
                    Some(self.tombstone_placement(collection, link, binding))
                } else {
                    Some(self.bound_placement(collection, link, binding))
                }
            },
            None => {
                if self.deleted {
                    None
                } else {
                    self.created_placement(collection, link)
                }
            },
        }
    }

    /// The binding an upsert leaves for its source: its handle, its two
    /// bases (the one it last synced with its remote and the shared body
    /// it last reconciled against), plus whether this source's own sync
    /// is stuck on a conflict.
    ///
    /// Recording the conflict is what makes the round trip faithful: the
    /// merge leaves an unresolved conflict alone, so a projection
    /// reporting it as `Dirty` would re-derive the rejected push every
    /// run. Any other status clears it, which is how a resolving edit
    /// ends the conflict without a dedicated call.
    fn binding_of(placement: &ReplicaPlacement, shared_object: Option<ReplicaHash>) -> (r:
        ReplicaSourceBinding)
        ensures
            r@ == binding_of(placement@, shared_object.deep_view()),
    {
        let conflicted = placement.status == ReplicaStatus::Conflict;
        ReplicaSourceBinding {
            handle: placement.handle.clone(),
            base: placement.base.copied(),
            conflicted,
            conflict_revision: if conflicted {
                placement.conflict_revision.copied()
            } else {
                None
            },
            conflict_object: if conflicted {
                placement.conflict_object.copied()
            } else {
                None
            },
            shared_object,
        }
    }

    fn shared_with(&self, source: &ReplicaSourceId) -> (r: Option<ReplicaHash>)
        ensures
            r.deep_view() == shared_object(self@, source@),
    {
        match self.sources.get(source) {
            Some(binding) => binding.shared_object.copied(),
            None => None,
        }
    }

    fn synced_with(&self, source: &ReplicaSourceId) -> (r: Option<ReplicaHash>)
        ensures
            r.deep_view() == synced_object(self@, source@),
    {
        match self.sources.get(source) {
            Some(binding) => match &binding.base {
                Some(base) => base.object.copied(),
                None => None,
            },
            None => None,
        }
    }

    /// Reconciles the shared body against an incoming upsert. A clean
    /// fast-forward adopts the body; a divergence resolves by policy.
    ///
    /// Each axis is measured against its own base. The source changed
    /// its body when the upsert differs from what it last synced with
    /// its own remote, and another source moved the shared body when the
    /// item differs from what this source last reconciled against. A
    /// source is therefore never in conflict with a body it folded in
    /// itself, however far behind its remote it is.
    fn reconcile_content(
        &mut self,
        source: &ReplicaSourceId,
        incoming: &Option<ReplicaHash>,
        policy: ReplicaHubConflict,
    )
        ensures
            final(self)@ == folded(old(self)@, source@, incoming.deep_view(), policy),
    {
        let prev = self.synced_with(source);
        let shared = self.shared_with(source);
        let agreed = if shared.is_some() {
            shared
        } else {
            prev.copied()
        };
        let source_edited = !incoming.same(&prev);
        let hub_moved = !self.object.same(&agreed);
        let body_changed = !incoming.same(&self.object);
        if source_edited && hub_moved && body_changed && incoming.is_some()
            && self.object.is_some() {
            match policy {
                ReplicaHubConflict::Manual => {
                    self.conflicted = true;
                    self.conflict_object = incoming.copied();
                },
                ReplicaHubConflict::PreferIncoming => {
                    self.object = incoming.copied();
                    self.conflicted = false;
                    self.conflict_object = None;
                },
                ReplicaHubConflict::PreferExisting => {
                    self.conflicted = false;
                    self.conflict_object = None;
                },
            }
        } else if source_edited && !hub_moved && body_changed {
            self.object = incoming.copied();
            self.conflicted = false;
            self.conflict_object = None;
        }
    }

    /// Takes a delete its source staged up.
    fn absorb_tombstone(&mut self, source: &ReplicaSourceId, placement: &ReplicaPlacement)
        ensures
            final(self)@ == staged_delete(old(self)@, source@, placement@),
    {
        let agreed = self.shared_with(source);
        self.deleted = true;
        self.sources.insert(source.clone(), Self::binding_of(placement, agreed));
    }

    /// Takes a live upsert up.
    fn absorb_live(
        &mut self,
        source: &ReplicaSourceId,
        placement: &ReplicaPlacement,
        policy: ReplicaHubConflict,
    )
        ensures
            final(self)@ == updated(old(self)@, source@, placement@, policy),
    {
        self.deleted = false;
        // an unknown flag set does not erase a known one: a source that has
        // only probed an item holds no opinion about its markers
        if !placement.flags.is_unknown() {
            self.flags = placement.flags.clone();
        }
        if placement.meta.is_some() {
            self.meta = placement.meta.copied();
        }
        // nor does a source that has not derived a key un-sort an item
        // another source already placed
        if !placement.sort_key.is_unknown() {
            self.sort_key = placement.sort_key.clone();
        }
        if self.level.is_below(placement.level) {
            self.level = placement.level;
        }
        self.reconcile_content(source, &placement.object, policy);
        self.level = self.stored_level();
        // the reconcile has settled the shared body, so this source has now
        // agreed with whatever it left, adopted or not
        let agreed = self.object.copied();
        self.sources.insert(source.clone(), Self::binding_of(placement, agreed));
    }

    /// Takes the drop of a row up, where the item is bound to it.
    fn absorb_row_drop(
        &mut self,
        source: &ReplicaSourceId,
        handle: &ReplicaHandle,
        reason: ReplicaDropReason,
    )
        ensures
            final(self)@ == dropped(old(self)@, source@, handle@, reason),
    {
        let bound_here = match self.sources.get(source) {
            Some(binding) => binding.handle.same(handle),
            None => false,
        };
        if bound_here {
            // only a genuine delete propagates: a superseded row is a handle
            // the same batch replaces
            if reason == ReplicaDropReason::Deleted {
                self.deleted = true;
            }
            self.sources.remove(source);
        }
    }
}

impl ReplicaHub {
    /// Projects the per-source placements a source's `load` should return.
    ///
    /// Each item bound to `source` yields a placement at the hub's
    /// shared content but the source's own base, so a hub change the
    /// source has not seen reads as dirty and the engine pushes it. Each
    /// item the source lacks, whose body the hub already holds, yields a
    /// `Created` append. The level is never raised, so a two-source sync
    /// of in-agreement items fetches zero bodies, and the projected
    /// [`stored_level`](ReplicaHubItem::stored_level) makes an item whose
    /// body a content change dropped fetch again.
    pub fn project(&self, collection: &ReplicaCollectionId, source: &ReplicaSourceId) -> (r: Vec<
        ReplicaPlacement,
    >)
        ensures
            r.deep_view() == project_items(
                self@.items,
                collection@,
                source@,
                ascending(self@.items.dom()),
            ),
            self@.items.dom().finite(),
    {
        let mut out: Vec<ReplicaPlacement> = Vec::new();
        let ghost q = ascending(self@.items.dom());
        let n = self.items.len();
        proof {
            lemma_ascending(self@.items.dom());
        }
        let mut i: usize = 0;
        assert(out.deep_view() =~= project_items(
            self@.items,
            collection@,
            source@,
            q.take(0),
        ));
        while i < n
            invariant
                n == self.items@.len(),
                n == q.len(),
                i <= n,
                q == ascending(self.items@.dom()),
                out.deep_view() == project_items(
                    self.items@,
                    collection@,
                    source@,
                    q.take(i as int),
                ),
            decreases n - i,
        {
            proof {
                assert(q.take(i + 1).drop_last() =~= q.take(i as int));
                assert(q.take(i + 1).last() == q[i as int]);
            }
            let item = self.items.value_at(i);
            if let Some(placement) = item.project_for(collection, source, self.items.key_at(i)) {
                push(&mut out, placement);
            }
            i += 1;
        }
        assert(q.take(n as int) =~= q);
        out
    }

    /// Folds a source's sync writes back into the hub: an upsert adopts
    /// the reconciled content as the shared content and refreshes that
    /// source's binding, a drop removes the binding. `StoreObject` and
    /// `SetCheckpoint` are the wrapping storage's concern.
    pub fn absorb(&mut self, source: &ReplicaSourceId, writes: &[ReplicaWriteOp])
        ensures
            final(self)@ == absorbed(old(self)@, source@, writes.deep_view()),
    {
        let ghost start = self@;
        let ghost all = writes.deep_view();
        let n = writes.len();
        let mut i: usize = 0;
        assert(all.take(0) =~= Seq::empty());
        while i < n
            invariant
                n == writes@.len(),
                i <= n,
                all == writes.deep_view(),
                all.len() == n,
                self@ == absorbed_all(start, source@, all.take(i as int)),
            decreases n - i,
        {
            proof {
                assert(all.take(i + 1).drop_last() =~= all.take(i as int));
                assert(all.take(i + 1).last() == writes@[i as int]@);
            }
            match &writes[i] {
                ReplicaWriteOp::UpsertPlacement(placement) => {
                    self.absorb_upsert(source, placement);
                },
                ReplicaWriteOp::DropPlacement { handle, reason, .. } => {
                    self.absorb_drop(source, handle, *reason);
                },
                ReplicaWriteOp::StoreObject { .. } => {},
                ReplicaWriteOp::SetCheckpoint { .. } => {},
            }
            i += 1;
        }
        assert(all.take(n as int) =~= all);
        self.prune();
    }

    fn absorb_upsert(&mut self, source: &ReplicaSourceId, placement: &ReplicaPlacement)
        ensures
            final(self)@ == upserted(old(self)@, source@, placement@),
    {
        let ghost before = self@;
        // an unlinked placement cannot be shared across sources yet; it is
        // hubbed once a Meta fetch resolves its link id
        let link = match &placement.link_id {
            Some(link) => link.clone(),
            None => {
                return;
            },
        };
        let ghost text = link@;
        let mut item = match self.items.remove(&link) {
            Some(item) => item,
            None => ReplicaHubItem {
                flags: placement.flags.clone(),
                object: placement.object.copied(),
                meta: placement.meta.copied(),
                sort_key: placement.sort_key.clone(),
                level: placement.level,
                deleted: false,
                conflicted: false,
                conflict_object: None,
                sources: ReplicaMap::new(),
            },
        };
        if placement.status == ReplicaStatus::Tombstone {
            item.absorb_tombstone(source, placement);
        } else {
            item.absorb_live(source, placement, self.conflict);
        }
        let ghost after = item@;
        self.items.insert(link, item);
        assert(self@.items =~= before.items.insert(text, after));
    }

    fn absorb_drop(
        &mut self,
        source: &ReplicaSourceId,
        handle: &ReplicaHandle,
        reason: ReplicaDropReason,
    )
        ensures
            final(self)@ == dropped_all(old(self)@, source@, handle@, reason),
    {
        let ghost before = self.items@;
        let ghost q = ascending(before.dom());
        let n = self.items.len();
        proof {
            lemma_ascending(before.dom());
            lemma_ascending_distinct(q);
            assert forall|j: int| 0 <= j < q.len() implies before.contains_key(#[trigger] q[j]) by {
                assert(q.contains(q[j]));
            }
        }
        let mut i: usize = 0;
        while i < n
            invariant
                n == q.len(),
                n == self.items@.len(),
                i <= n,
                q == ascending(before.dom()),
                self.items@.dom() == before.dom(),
                self@.conflict == old(self)@.conflict,
                forall|j: int, k: int| 0 <= j < k < q.len() ==> q[j] != q[k],
                forall|j: int| 0 <= j < q.len() ==> before.contains_key(#[trigger] q[j]),
                forall|j: int|
                    0 <= j < i ==> self.items@[#[trigger] q[j]] == dropped(
                        before[q[j]],
                        source@,
                        handle@,
                        reason,
                    ),
                forall|j: int| i <= j < n ==> self.items@[#[trigger] q[j]] == before[q[j]],
            decreases n - i,
        {
            self.items.value_mut(i).absorb_row_drop(source, handle, reason);
            assert(self.items@.dom() =~= before.dom());
            i += 1;
        }
        proof {
            let after = dropped_all(old(self)@, source@, handle@, reason).items;
            assert forall|l: Text| before.contains_key(l) implies #[trigger] self.items@[l]
                == after[l] by {
                assert(q.contains(l));
                let j = choose|j: int| 0 <= j < q.len() && q[j] == l;
                assert(self.items@[q[j]] == dropped(before[q[j]], source@, handle@, reason));
            }
            assert(self.items@ =~= after);
        }
    }

    /// Forgets the items no source holds.
    fn prune(&mut self)
        ensures
            final(self)@ == pruned(old(self)@),
    {
        let ghost before = self.items@;
        let ghost q = ascending(before.dom());
        let mut i = self.items.len();
        proof {
            lemma_ascending(before.dom());
            lemma_ascending_distinct(q);
            assert forall|j: int| 0 <= j < q.len() implies before.contains_key(#[trigger] q[j]) by {
                assert(q.contains(q[j]));
            }
        }
        while i > 0
            invariant
                i <= q.len(),
                i <= self.items@.dom().len(),
                self.items@.len() == self.items@.dom().len(),
                self.items@.dom().finite(),
                q == ascending(before.dom()),
                self@.conflict == old(self)@.conflict,
                forall|j: int, k: int| 0 <= j < k < q.len() ==> q[j] != q[k],
                forall|j: int| 0 <= j < q.len() ==> before.contains_key(#[trigger] q[j]),
                forall|j: int|
                    0 <= j < i ==> #[trigger] ascending(self.items@.dom())[j] == q[j],
                forall|j: int|
                    0 <= j < q.len() ==> (self.items@.contains_key(#[trigger] q[j]) <==> (j < i
                        || before[q[j]].sources != Map::<Text, BindingView>::empty())),
                forall|l: Text| #[trigger]
                    self.items@.contains_key(l) ==> before.contains_key(l) && self.items@[l]
                        == before[l],
            decreases i,
        {
            i -= 1;
            let ghost (dom, at) = (self.items@.dom(), q[i as int]);
            assert(ascending(dom)[i as int] == at);
            if self.items.value_at(i).sources.is_empty() {
                proof {
                    lemma_ascending_remove(dom, i as int);
                }
                self.items.take_at(i);
                let left = self.items.len();
                proof {
                    assert(self.items@.dom() =~= dom.remove(at));
                    assert forall|j: int| 0 <= j < i implies #[trigger] ascending(
                        self.items@.dom(),
                    )[j] == q[j] by {
                        assert(ascending(dom)[j] == q[j]);
                    }
                }
            }
        }
        proof {
            let after = pruned(old(self)@).items;
            assert forall|l: Text| #[trigger] self.items@.contains_key(l) <==> after.contains_key(
                l,
            ) by {
                if before.contains_key(l) {
                    assert(q.contains(l));
                    let j = choose|j: int| 0 <= j < q.len() && q[j] == l;
                    assert(self.items@.contains_key(q[j]) <==> before[q[j]].sources != Map::<
                        Text,
                        BindingView,
                    >::empty());
                }
            }
            assert(self.items@ =~= after);
        }
    }
}

} // verus!
