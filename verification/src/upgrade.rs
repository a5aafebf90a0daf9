//! I/O-free coroutine to raise placements to a higher detail level.
//!
//! A pure pull, never a merge. It loads the targeted placements, then
//! for [`ReplicaTier::Full`] resolves their link ids against the object
//! store first: a body already stored under another collection is linked
//! with no network round-trip. One body is therefore stored for an item
//! appearing in several collections, which is what backs the unified
//! across-collections view.

use vstd::prelude::*;

use crate::change::{ReplicaWriteOp, WriteOpView};
use crate::collection::ReplicaCollectionId;
use crate::coroutine::{
    answers, refusal, refuse, step_view, ArgView, ReplicaArg, ReplicaArgError, ReplicaCoroutine,
    ReplicaCoroutineState, ReplicaYield, StepView, YieldView,
};
use crate::object::{ObjectView, ReplicaHash, ReplicaObject};
use crate::order::{ascending, lemma_ascending, Text};
use crate::placement::{
    higher, rung, BaseView, PlacementView, ReplicaHandle, ReplicaLevel, ReplicaLinkId,
    ReplicaPlacement, ReplicaStatus,
};
use crate::remote::{
    FetchedBodyView, FetchedItemView, ReplicaFetchedBody, ReplicaFetchedItem, ReplicaTier,
};
use crate::sorted::ReplicaMap;
use crate::storage::{LoadScopeView, ReplicaLoadScope};
use crate::sync::join::{by_handle, index_placements};
use crate::value::{holds, push, take, ReplicaSame, ReplicaValue};

verus! {

/// What an upgrade did.
#[derive(Clone, Copy, Debug, Eq, PartialEq, Structural)]
pub struct ReplicaUpgradeReport {
    /// Placements raised to the requested level.
    pub upgraded: usize,
    /// Bodies fetched from the remote.
    pub fetched: usize,
    /// Bodies linked from the object store without a fetch.
    pub deduped: usize,
}

/// What a [`ReplicaUpgradeReport`] stands for.
#[verifier::ext_equal]
pub struct UpgradeReportView {
    pub upgraded: nat,
    pub fetched: nat,
    pub deduped: nat,
}

impl DeepView for ReplicaUpgradeReport {
    type V = UpgradeReportView;

    open spec fn deep_view(&self) -> UpgradeReportView {
        UpgradeReportView {
            upgraded: self.upgraded as nat,
            fetched: self.fetched as nat,
            deduped: self.deduped as nat,
        }
    }
}

/// A report of nothing done.
pub open spec fn empty_report() -> UpgradeReportView {
    UpgradeReportView { upgraded: 0, fetched: 0, deduped: 0 }
}

impl Default for ReplicaUpgradeReport {
    fn default() -> (r: Self)
        ensures
            r.deep_view() == empty_report(),
    {
        ReplicaUpgradeReport { upgraded: 0, fetched: 0, deduped: 0 }
    }
}

/// Where an upgrade stands.
#[derive(Clone, Copy, Debug, Eq, PartialEq, Structural)]
pub enum UpgradePhase {
    /// Nothing has happened yet.
    Start,
    /// The targeted placements are being loaded.
    PendingLoad,
    /// Their link ids are being looked up in the object store.
    PendingLookup,
    /// What the store did not hold is being fetched.
    PendingFetch,
    /// The holders of the identities fetched are being loaded.
    PendingLinkCheck,
    /// The result is being stored.
    PendingWrite,
    /// The run is over.
    Done,
}

/// What a [`ReplicaUpgrade`] stands for.
#[verifier::ext_equal]
pub struct UpgradeView {
    pub collection: Text,
    pub handles: Seq<Text>,
    pub tier: ReplicaTier,
    pub phase: UpgradePhase,
    /// The placements known so far, by handle.
    pub placements: Map<Text, PlacementView>,
    /// The items fetched, until they are applied.
    pub fetched: Seq<FetchedItemView>,
    /// The writes staged so far.
    pub ops: Seq<WriteOpView>,
    pub report: UpgradeReportView,
}

/// An upgrade that has not started.
pub open spec fn starting(collection: Text, handles: Seq<Text>, tier: ReplicaTier) -> UpgradeView {
    UpgradeView {
        collection,
        handles,
        tier,
        phase: UpgradePhase::Start,
        placements: Map::empty(),
        fetched: Seq::empty(),
        ops: Seq::empty(),
        report: empty_report(),
    }
}

/// Whether a placement still needs work for a tier. The level is a claim and
/// the payload is the fact, so a row reading as high enough while holding
/// nothing needs it too.
pub open spec fn lacks(tier: ReplicaTier, p: PlacementView) -> bool {
    match tier {
        ReplicaTier::Meta => rung(p.level) < rung(ReplicaLevel::Meta) || p.meta is None,
        ReplicaTier::Full => rung(p.level) < rung(ReplicaLevel::Full) || p.object is None,
    }
}

/// The requested handles that still need work, in the order requested.
pub open spec fn pending(
    tier: ReplicaTier,
    placements: Map<Text, PlacementView>,
    handles: Seq<Text>,
) -> Seq<Text>
    decreases handles.len(),
{
    if handles.len() == 0 {
        Seq::empty()
    } else {
        let before = pending(tier, placements, handles.drop_last());
        let handle = handles.last();
        if placements.contains_key(handle) && lacks(tier, placements[handle]) {
            before.push(handle)
        } else {
            before
        }
    }
}

/// Whether a placement's content is mutable, which the last-synced revision
/// is the mark of: only a source rewriting a body in place has one.
///
/// Such a placement is fetched rather than linked from the store: the link
/// id says two copies are the same item, not that they hold the same bytes.
pub open spec fn is_mutable(p: PlacementView) -> bool {
    p.base is Some && p.base->0.revision is Some
}

/// The identity under which the store may already hold a placement's body.
pub open spec fn shared_link(p: PlacementView) -> Option<Text> {
    if is_mutable(p) {
        None
    } else {
        p.link_id
    }
}

/// The identities to look up for the handles given.
pub open spec fn lookups(placements: Map<Text, PlacementView>, handles: Seq<Text>) -> Seq<Text>
    decreases handles.len(),
{
    if handles.len() == 0 {
        Seq::empty()
    } else {
        let before = lookups(placements, handles.drop_last());
        let handle = handles.last();
        if placements.contains_key(handle) {
            match shared_link(placements[handle]) {
                Some(link) => before.push(link),
                None => before,
            }
        } else {
            before
        }
    }
}

/// The stored body a placement can be linked to.
pub open spec fn hit(known: Map<Text, Text>, p: PlacementView) -> Option<Text> {
    match shared_link(p) {
        Some(link) => if known.contains_key(link) {
            Some(known[link])
        } else {
            None
        },
        None => None,
    }
}

/// A placement linked to a stored body. The base moves with it: a body
/// linked from the store is the item's synced content, and a base left
/// behind would read as a local edit.
pub open spec fn linked(p: PlacementView, hash: Text) -> PlacementView {
    PlacementView {
        object: Some(hash),
        level: ReplicaLevel::Full,
        base: match p.base {
            Some(base) => Some(BaseView { object: Some(hash), ..base }),
            None => None,
        },
        ..p
    }
}

/// The writes linking what the store holds, for the handles given.
pub open spec fn link_writes(
    placements: Map<Text, PlacementView>,
    known: Map<Text, Text>,
    handles: Seq<Text>,
) -> Seq<WriteOpView>
    decreases handles.len(),
{
    if handles.len() == 0 {
        Seq::empty()
    } else {
        let before = link_writes(placements, known, handles.drop_last());
        let p = placements[handles.last()];
        match hit(known, p) {
            Some(hash) => before.push(WriteOpView::UpsertPlacement(linked(p, hash))),
            None => before,
        }
    }
}

/// The handles whose body the store does not hold.
pub open spec fn misses(
    placements: Map<Text, PlacementView>,
    known: Map<Text, Text>,
    handles: Seq<Text>,
) -> Seq<Text>
    decreases handles.len(),
{
    if handles.len() == 0 {
        Seq::empty()
    } else {
        let before = misses(placements, known, handles.drop_last());
        match hit(known, placements[handles.last()]) {
            Some(_) => before,
            None => before.push(handles.last()),
        }
    }
}

/// The identities a fetch would newly establish.
pub open spec fn fresh_links(
    placements: Map<Text, PlacementView>,
    items: Seq<FetchedItemView>,
) -> Seq<Text>
    decreases items.len(),
{
    if items.len() == 0 {
        Seq::empty()
    } else {
        let before = fresh_links(placements, items.drop_last());
        let item = items.last();
        if placements.contains_key(item.handle) && placements[item.handle].link_id is None {
            before.push(item.link_id)
        } else {
            before
        }
    }
}

/// More placements made known, none replacing one already known.
pub open spec fn widened(
    placements: Map<Text, PlacementView>,
    loaded: Seq<PlacementView>,
) -> Map<Text, PlacementView>
    decreases loaded.len(),
{
    if loaded.len() == 0 {
        placements
    } else {
        let before = widened(placements, loaded.drop_last());
        if before.contains_key(loaded.last().handle) {
            before
        } else {
            before.insert(loaded.last().handle, loaded.last())
        }
    }
}

/// Who holds each identity among the handles given.
pub open spec fn holders(placements: Map<Text, PlacementView>, handles: Seq<Text>) -> Map<
    Text,
    Text,
>
    decreases handles.len(),
{
    if handles.len() == 0 {
        Map::empty()
    } else {
        let before = holders(placements, handles.drop_last());
        let p = placements[handles.last()];
        match p.link_id {
            Some(link) => before.insert(link, p.handle),
            None => before,
        }
    }
}

/// Fetched items being applied: who holds each identity, which handles each
/// holder lost, and the writes staged.
#[verifier::ext_equal]
pub struct Applied {
    pub claimed: Map<Text, Text>,
    pub lost: Map<Text, Seq<Text>>,
    pub ops: Seq<WriteOpView>,
    /// The placements raised to the requested level.
    pub raised: nat,
    /// The bodies fetched.
    pub bodies: nat,
}

/// The handles a holder lost.
pub open spec fn lost_by(lost: Map<Text, Seq<Text>>, holder: Text) -> Seq<Text> {
    if lost.contains_key(holder) {
        lost[holder]
    } else {
        Seq::empty()
    }
}

/// The object a fetched body is.
pub open spec fn object_of(body: FetchedBodyView) -> ObjectView {
    match body {
        FetchedBodyView::Inline { hash, bytes } => ObjectView { hash, size: bytes.len() as usize },
        FetchedBodyView::Persisted { hash, size } => ObjectView { hash, size },
    }
}

/// The write storing a fetched body; one the consumer already streamed into
/// its blob store carries no bytes.
pub open spec fn store_write(body: FetchedBodyView) -> WriteOpView {
    WriteOpView::StoreObject {
        object: object_of(body),
        body: match body {
            FetchedBodyView::Inline { bytes, .. } => Some(bytes),
            FetchedBodyView::Persisted { .. } => None,
        },
    }
}

/// A placement raised by a fetch to the meta level, or left above it.
pub open spec fn raised_meta(
    p: PlacementView,
    link_id: Option<Text>,
    item: FetchedItemView,
) -> PlacementView {
    PlacementView {
        link_id,
        meta: Some(item.meta),
        sort_key: item.sort_key,
        level: higher(p.level, ReplicaLevel::Meta),
        ..p
    }
}

/// A placement raised by a fetch to the full level. The stored object is the
/// remote content as of the fetch, so the base records both it and the
/// revision.
pub open spec fn raised_full(
    p: PlacementView,
    link_id: Option<Text>,
    item: FetchedItemView,
    hash: Text,
) -> PlacementView {
    PlacementView {
        link_id,
        meta: Some(item.meta),
        sort_key: item.sort_key,
        object: Some(hash),
        level: ReplicaLevel::Full,
        base: match p.base {
            Some(base) => Some(
                BaseView { revision: item.revision, object: Some(hash), ..base },
            ),
            None => None,
        },
        ..p
    }
}

/// The writes a fetched item stages for its placement.
pub open spec fn item_writes(
    tier: ReplicaTier,
    p: PlacementView,
    link_id: Option<Text>,
    item: FetchedItemView,
) -> Seq<WriteOpView> {
    match (tier, item.body) {
        (ReplicaTier::Full, Some(body)) => seq![
            store_write(body),
            WriteOpView::UpsertPlacement(raised_full(p, link_id, item, object_of(body).hash)),
        ],
        (_, _) => seq![WriteOpView::UpsertPlacement(raised_meta(p, link_id, item))],
    }
}

/// Whether a fetched item raises its placement to the requested level.
pub open spec fn raises(tier: ReplicaTier, item: FetchedItemView) -> bool {
    tier is Meta || item.body is Some
}

/// Whether a fetched item brings a body to store.
pub open spec fn brings_body(tier: ReplicaTier, item: FetchedItemView) -> bool {
    tier is Full && item.body is Some
}

/// What a count gains.
pub open spec fn one_if(more: bool) -> nat {
    if more {
        1
    } else {
        0
    }
}

/// One fetched item applied. A fetch establishes the link only for an item
/// not linked yet, and never a link another placement holds: the losing
/// handle is recorded on the holder instead.
pub open spec fn apply(
    tier: ReplicaTier,
    placements: Map<Text, PlacementView>,
    acc: Applied,
    item: FetchedItemView,
) -> Applied {
    if !placements.contains_key(item.handle) {
        acc
    } else {
        let p = placements[item.handle];
        if p.link_id is Some {
            Applied {
                ops: acc.ops + item_writes(tier, p, p.link_id, item),
                raised: acc.raised + one_if(raises(tier, item)),
                bodies: acc.bodies + one_if(brings_body(tier, item)),
                ..acc
            }
        } else if acc.claimed.contains_key(item.link_id) {
            let holder = acc.claimed[item.link_id];
            Applied {
                lost: acc.lost.insert(holder, lost_by(acc.lost, holder).push(item.handle)),
                ops: acc.ops + item_writes(tier, p, None, item),
                raised: acc.raised + one_if(raises(tier, item)),
                bodies: acc.bodies + one_if(brings_body(tier, item)),
                ..acc
            }
        } else {
            Applied {
                claimed: acc.claimed.insert(item.link_id, item.handle),
                ops: acc.ops + item_writes(tier, p, Some(item.link_id), item),
                raised: acc.raised + one_if(raises(tier, item)),
                bodies: acc.bodies + one_if(brings_body(tier, item)),
                ..acc
            }
        }
    }
}

/// Fetched items applied, in the order fetched.
pub open spec fn applied(
    tier: ReplicaTier,
    placements: Map<Text, PlacementView>,
    start: Applied,
    items: Seq<FetchedItemView>,
) -> Applied
    decreases items.len(),
{
    if items.len() == 0 {
        start
    } else {
        apply(
            tier,
            placements,
            applied(tier, placements, start, items.drop_last()),
            items.last(),
        )
    }
}

/// The handles recorded once more are lost, none twice.
pub open spec fn recorded(handles: Seq<Text>, lost: Seq<Text>) -> Seq<Text>
    decreases lost.len(),
{
    if lost.len() == 0 {
        handles
    } else {
        let before = recorded(handles, lost.drop_last());
        if before.contains(lost.last()) {
            before
        } else {
            before.push(lost.last())
        }
    }
}

/// A placement frozen on the identity axis: it holds an identity its source
/// reports under `lost` too.
pub open spec fn frozen(p: PlacementView, lost: Seq<Text>) -> PlacementView {
    PlacementView {
        ambiguous_handles: recorded(p.ambiguous_handles, lost),
        status: ReplicaStatus::Ambiguous,
        ..p
    }
}

/// Whether a write stages the placement of a handle.
pub open spec fn stages(op: WriteOpView, handle: Text) -> bool {
    op is UpsertPlacement && op->UpsertPlacement_0.handle == handle
}

/// The first write from `i` on that stages the placement of a handle.
pub open spec fn staged_from(ops: Seq<WriteOpView>, handle: Text, i: int) -> Option<int>
    decreases ops.len() - i,
{
    if i < 0 || i >= ops.len() {
        None
    } else if stages(ops[i], handle) {
        Some(i)
    } else {
        staged_from(ops, handle, i + 1)
    }
}

/// One holder frozen: what the batch already stages for it is patched, so a
/// holder fetched in the same batch keeps its new body; else its placement
/// is staged.
pub open spec fn freeze(
    placements: Map<Text, PlacementView>,
    ops: Seq<WriteOpView>,
    holder: Text,
    lost: Seq<Text>,
) -> Seq<WriteOpView> {
    match staged_from(ops, holder, 0) {
        Some(i) => ops.update(
            i,
            WriteOpView::UpsertPlacement(frozen(ops[i]->UpsertPlacement_0, lost)),
        ),
        None => if placements.contains_key(holder) {
            ops.push(WriteOpView::UpsertPlacement(frozen(placements[holder], lost)))
        } else {
            ops
        },
    }
}

/// The holders given frozen, one after the other.
pub open spec fn freezes(
    placements: Map<Text, PlacementView>,
    ops: Seq<WriteOpView>,
    lost: Map<Text, Seq<Text>>,
    handles: Seq<Text>,
) -> Seq<WriteOpView>
    decreases handles.len(),
{
    if handles.len() == 0 {
        ops
    } else {
        let before = freezes(placements, ops, lost, handles.drop_last());
        freeze(placements, before, handles.last(), lost[handles.last()])
    }
}

/// What a step of an upgrade hands back.
pub type UpgradeStep = StepView<UpgradeReportView, ReplicaArgError>;

/// The staged writes handed over for storage.
pub open spec fn storing(s: UpgradeView) -> (UpgradeView, UpgradeStep) {
    (
        UpgradeView { phase: UpgradePhase::PendingWrite, ops: Seq::empty(), ..s },
        StepView::Yielded(YieldView::WantsWrite(s.ops)),
    )
}

/// What the fetched items make of the placements known.
pub open spec fn outcome(s: UpgradeView) -> Applied {
    applied(
        s.tier,
        s.placements,
        Applied {
            claimed: holders(s.placements, ascending(s.placements.dom())),
            lost: Map::empty(),
            ops: s.ops,
            raised: 0,
            bodies: 0,
        },
        s.fetched,
    )
}

/// The fetched items applied, the holders that lost handles frozen, and the
/// result handed over for storage.
pub open spec fn written(s: UpgradeView) -> (UpgradeView, UpgradeStep) {
    let done = outcome(s);
    storing(
        UpgradeView {
            fetched: Seq::empty(),
            ops: freezes(s.placements, done.ops, done.lost, ascending(done.lost.dom())),
            report: UpgradeReportView {
                upgraded: s.report.upgraded + done.raised,
                fetched: s.report.fetched + done.bodies,
                ..s.report
            },
            ..s
        },
    )
}

/// The handles given fetched at the requested tier.
pub open spec fn fetching(s: UpgradeView, handles: Seq<Text>) -> (UpgradeView, UpgradeStep) {
    (
        UpgradeView { phase: UpgradePhase::PendingFetch, ..s },
        StepView::Yielded(
            YieldView::WantsFetch { collection: s.collection, handles, tier: s.tier },
        ),
    )
}

/// The load taken up: done where nothing needs work, else looked up or
/// fetched.
pub open spec fn loaded_step(s: UpgradeView) -> (UpgradeView, UpgradeStep) {
    let todo = pending(s.tier, s.placements, s.handles);
    let links = lookups(s.placements, todo);
    if todo.len() == 0 {
        (UpgradeView { phase: UpgradePhase::Done, ..s }, StepView::Done(s.report))
    } else if s.tier is Meta || links.len() == 0 {
        fetching(s, todo)
    } else {
        (
            UpgradeView { phase: UpgradePhase::PendingLookup, ..s },
            StepView::Yielded(YieldView::WantsLookupObject(links)),
        )
    }
}

/// The lookup taken up: what the store holds is linked, the rest fetched.
pub open spec fn known_step(s: UpgradeView, known: Map<Text, Text>) -> (UpgradeView, UpgradeStep) {
    let todo = pending(s.tier, s.placements, s.handles);
    let writes = link_writes(s.placements, known, todo);
    let rest = misses(s.placements, known, todo);
    let s = UpgradeView {
        ops: s.ops + writes,
        report: UpgradeReportView {
            upgraded: s.report.upgraded + writes.len(),
            deduped: s.report.deduped + writes.len(),
            ..s.report
        },
        ..s
    };
    if rest.len() == 0 {
        storing(s)
    } else {
        fetching(s, rest)
    }
}

/// The fetch taken up. An identity it would newly establish is checked
/// against every placement that could already hold it, not just the ones
/// being upgraded: a batch hydrating only the second copy would otherwise
/// link it and destroy the evidence.
pub open spec fn fetched_step(s: UpgradeView, items: Seq<FetchedItemView>) -> (
    UpgradeView,
    UpgradeStep,
) {
    let s = UpgradeView { fetched: items, ..s };
    let links = fresh_links(s.placements, items);
    if links.len() == 0 {
        written(s)
    } else {
        (
            UpgradeView { phase: UpgradePhase::PendingLinkCheck, ..s },
            StepView::Yielded(
                YieldView::WantsLoad {
                    collection: s.collection,
                    scope: LoadScopeView::Links(links),
                },
            ),
        )
    }
}

/// What resuming an upgrade with `arg` does.
pub open spec fn upgrade_step(s: UpgradeView, arg: Option<ArgView>) -> (UpgradeView, UpgradeStep) {
    match (s.phase, arg) {
        (UpgradePhase::Start, None) => (
            UpgradeView { phase: UpgradePhase::PendingLoad, ..s },
            StepView::Yielded(
                YieldView::WantsLoad {
                    collection: s.collection,
                    scope: LoadScopeView::Handles(s.handles),
                },
            ),
        ),
        (UpgradePhase::PendingLoad, Some(ArgView::Load(loaded))) => loaded_step(
            UpgradeView { placements: by_handle(loaded.placements), ..s },
        ),
        (UpgradePhase::PendingLookup, Some(ArgView::LookupObject(known))) => known_step(s, known),
        (UpgradePhase::PendingFetch, Some(ArgView::Fetch(items))) => fetched_step(s, items),
        (UpgradePhase::PendingLinkCheck, Some(ArgView::Load(loaded))) => written(
            UpgradeView { placements: widened(s.placements, loaded.placements), ..s },
        ),
        (UpgradePhase::PendingWrite, Some(ArgView::Write)) => (
            UpgradeView { phase: UpgradePhase::Done, ..s },
            StepView::Done(s.report),
        ),
        (_, _) => (s, StepView::Failed(refusal(arg))),
    }
}

/// What every state of an upgrade keeps: until the result is stored, every
/// placement counted as raised has its write staged.
pub open spec fn upgrade_wf(s: UpgradeView) -> bool {
    &&& s.report.fetched + s.report.deduped <= s.report.upgraded
    &&& !(s.phase is PendingWrite || s.phase is Done) ==> s.report.upgraded <= s.ops.len()
}

/// How far an upgrade still is from its end.
pub open spec fn upgrade_rank(s: UpgradeView) -> (nat, nat) {
    match s.phase {
        UpgradePhase::Start => (6, 0),
        UpgradePhase::PendingLoad => (5, 0),
        UpgradePhase::PendingLookup => (4, 0),
        UpgradePhase::PendingFetch => (3, 0),
        UpgradePhase::PendingLinkCheck => (2, 0),
        UpgradePhase::PendingWrite => (1, 0),
        UpgradePhase::Done => (0, 0),
    }
}

/// I/O-free UPGRADE coroutine.
pub struct ReplicaUpgrade {
    collection: ReplicaCollectionId,
    handles: Vec<ReplicaHandle>,
    tier: ReplicaTier,
    phase: UpgradePhase,
    placements: ReplicaMap<ReplicaHandle, ReplicaPlacement>,
    /// Fetched items held between the fetch and the identity check.
    fetched: Vec<ReplicaFetchedItem>,
    ops: Vec<ReplicaWriteOp>,
    report: ReplicaUpgradeReport,
}

impl View for ReplicaUpgrade {
    type V = UpgradeView;

    closed spec fn view(&self) -> UpgradeView {
        UpgradeView {
            collection: self.collection@,
            handles: self.handles.deep_view(),
            tier: self.tier,
            phase: self.phase,
            placements: self.placements@,
            fetched: self.fetched.deep_view(),
            ops: self.ops.deep_view(),
            report: self.report.deep_view(),
        }
    }
}

type UpgradeState = ReplicaCoroutineState<
    ReplicaYield,
    Result<ReplicaUpgradeReport, ReplicaArgError>,
>;

fn is_lacking(tier: ReplicaTier, p: &ReplicaPlacement) -> (r: bool)
    ensures
        r == lacks(tier, p@),
{
    match tier {
        ReplicaTier::Meta => p.level.is_below(ReplicaLevel::Meta) || p.meta.is_none(),
        ReplicaTier::Full => p.level.is_below(ReplicaLevel::Full) || p.object.is_none(),
    }
}

/// The link id under which the store may already hold a placement's body.
fn link_to_share(p: &ReplicaPlacement) -> (r: Option<&ReplicaLinkId>)
    ensures
        match r {
            Some(link) => shared_link(p@) == Some(link@),
            None => shared_link(p@) is None,
        },
{
    let mutable = match &p.base {
        Some(base) => base.revision.is_some(),
        None => false,
    };
    if mutable {
        None
    } else {
        p.link_id.as_ref()
    }
}

fn link_to(p: &ReplicaPlacement, hash: ReplicaHash) -> (r: ReplicaPlacement)
    ensures
        r@ == linked(p@, hash@),
{
    let mut patched = p.clone();
    patched.base = match &p.base {
        Some(base) => {
            let mut base = base.clone();
            base.object = Some(hash.clone());
            Some(base)
        },
        None => None,
    };
    patched.object = Some(hash);
    patched.level = ReplicaLevel::Full;
    patched
}

/// Stages the writes of one fetched item.
fn stage_item(
    tier: ReplicaTier,
    p: &ReplicaPlacement,
    link_id: Option<ReplicaLinkId>,
    item: ReplicaFetchedItem,
    ops: &mut Vec<ReplicaWriteOp>,
)
    ensures
        final(ops).deep_view() == old(ops).deep_view() + item_writes(
            tier,
            p@,
            link_id.deep_view(),
            item@,
        ),
        final(ops)@.len() > old(ops)@.len(),
{
    let ghost (before, link, fetched) = (ops.deep_view(), link_id.deep_view(), item@);
    let ReplicaFetchedItem { meta, sort_key, body, revision, .. } = item;
    let mut patched = p.clone();
    patched.link_id = link_id;
    patched.meta = Some(meta);
    // unlike the link id, the key is refreshed on every tier: it is a
    // projection of the content, not an identity
    patched.sort_key = sort_key;
    match (tier, body) {
        (ReplicaTier::Full, Some(body)) => {
            let ghost stored = body@;
            let (object, bytes) = match body {
                ReplicaFetchedBody::Inline { hash, bytes } => (
                    ReplicaObject { hash, size: bytes.len() },
                    Some(bytes),
                ),
                ReplicaFetchedBody::Persisted { hash, size } => (
                    ReplicaObject { hash, size },
                    None,
                ),
            };
            let hash = object.hash.clone();
            patched.base = match &p.base {
                Some(base) => {
                    let mut base = base.clone();
                    base.revision = revision;
                    base.object = Some(hash.clone());
                    Some(base)
                },
                None => None,
            };
            patched.object = Some(hash);
            patched.level = ReplicaLevel::Full;
            let ghost raised = patched@;
            push(ops, ReplicaWriteOp::StoreObject { object, body: bytes });
            push(ops, ReplicaWriteOp::UpsertPlacement(patched));
            assert(ops.deep_view() =~= before + item_writes(tier, p@, link, fetched));
        },
        (_, _) => {
            if p.level.is_below(ReplicaLevel::Meta) {
                patched.level = ReplicaLevel::Meta;
            }
            push(ops, ReplicaWriteOp::UpsertPlacement(patched));
            assert(ops.deep_view() =~= before + item_writes(tier, p@, link, fetched));
        },
    }
}

/// Freezes a placement on the identity axis: it holds an identity the
/// source reports under `lost` too, so which copy a change refers to
/// cannot be decided and the engine derives nothing for it.
fn mark_ambiguous(placement: &mut ReplicaPlacement, lost: &Vec<ReplicaHandle>)
    ensures
        final(placement)@ == frozen(old(placement)@, lost.deep_view()),
{
    let ghost start = placement@;
    let ghost all = lost.deep_view();
    let n = lost.len();
    let mut i: usize = 0;
    assert(all.take(0) =~= Seq::empty());
    while i < n
        invariant
            n == lost@.len(),
            i <= n,
            all == lost.deep_view(),
            placement@ == (PlacementView {
                ambiguous_handles: recorded(start.ambiguous_handles, all.take(i as int)),
                ..start
            }),
        decreases n - i,
    {
        proof {
            assert(all.take(i + 1).drop_last() =~= all.take(i as int));
            assert(all.take(i + 1).last() == lost@[i as int]@);
        }
        if !holds(&placement.ambiguous_handles, &lost[i]) {
            push(&mut placement.ambiguous_handles, lost[i].clone());
        }
        i += 1;
    }
    assert(all.take(n as int) =~= all);
    placement.status = ReplicaStatus::Ambiguous;
}

impl ReplicaUpgrade {
    /// Creates a coroutine that raises `handles` in `collection` to
    /// `tier`.
    pub fn new(
        collection: impl Into<ReplicaCollectionId>,
        handles: Vec<ReplicaHandle>,
        tier: ReplicaTier,
    ) -> (r: Self)
        ensures
            upgrade_wf(r@),
            exists|id: ReplicaCollectionId| #[trigger]
                call_ensures(Into::<ReplicaCollectionId>::into, (collection,), id) && r@
                    == starting(id@, handles.deep_view(), tier),
    {
        let collection = collection.into();
        let r = ReplicaUpgrade {
            collection,
            handles,
            tier,
            phase: UpgradePhase::Start,
            placements: ReplicaMap::new(),
            fetched: Vec::new(),
            ops: Vec::new(),
            report: ReplicaUpgradeReport::default(),
        };
        assert(r@ =~= starting(r.collection@, handles.deep_view(), tier));
        r
    }

    /// Requested handles that still need work for the target tier.
    fn pending_handles(&self) -> (r: Vec<ReplicaHandle>)
        ensures
            r.deep_view() == pending(self@.tier, self@.placements, self@.handles),
    {
        let ghost all = self.handles.deep_view();
        let mut out: Vec<ReplicaHandle> = Vec::new();
        let n = self.handles.len();
        let mut i: usize = 0;
        assert(out.deep_view() =~= pending(self.tier, self.placements@, all.take(0)));
        while i < n
            invariant
                n == self.handles@.len(),
                i <= n,
                all == self.handles.deep_view(),
                out.deep_view() == pending(self.tier, self.placements@, all.take(i as int)),
            decreases n - i,
        {
            let handle = &self.handles[i];
            proof {
                assert(all.take(i + 1).drop_last() =~= all.take(i as int));
                assert(all.take(i + 1).last() == handle@);
            }
            if let Some(placement) = self.placements.get(handle) {
                if is_lacking(self.tier, placement) {
                    push(&mut out, handle.clone());
                }
            }
            i += 1;
        }
        assert(all.take(n as int) =~= all);
        out
    }

    /// The link ids to look up for `handles`.
    fn links_of(&self, handles: &Vec<ReplicaHandle>) -> (r: Vec<ReplicaLinkId>)
        ensures
            r.deep_view() == lookups(self@.placements, handles.deep_view()),
    {
        let ghost all = handles.deep_view();
        let mut out: Vec<ReplicaLinkId> = Vec::new();
        let n = handles.len();
        let mut i: usize = 0;
        assert(out.deep_view() =~= lookups(self.placements@, all.take(0)));
        while i < n
            invariant
                n == handles@.len(),
                i <= n,
                all == handles.deep_view(),
                out.deep_view() == lookups(self.placements@, all.take(i as int)),
            decreases n - i,
        {
            proof {
                assert(all.take(i + 1).drop_last() =~= all.take(i as int));
                assert(all.take(i + 1).last() == handles@[i as int]@);
            }
            if let Some(placement) = self.placements.get(&handles[i]) {
                if let Some(link) = link_to_share(placement) {
                    push(&mut out, link.clone());
                }
            }
            i += 1;
        }
        assert(all.take(n as int) =~= all);
        out
    }

    /// Yields the fetch of `handles` at the requested tier.
    fn fetch(&mut self, handles: Vec<ReplicaHandle>) -> (r: UpgradeState)
        ensures
            (final(self)@, step_view(r)) == fetching(old(self)@, handles.deep_view()),
            r is Yielded,
    {
        self.phase = UpgradePhase::PendingFetch;
        ReplicaCoroutineState::Yielded(
            ReplicaYield::WantsFetch {
                collection: self.collection.clone(),
                handles,
                tier: self.tier,
            },
        )
    }

    /// Yields the write of what is staged.
    fn store(&mut self) -> (r: UpgradeState)
        ensures
            (final(self)@, step_view(r)) == storing(old(self)@),
            r is Yielded,
    {
        self.phase = UpgradePhase::PendingWrite;
        let ops = take(&mut self.ops);
        ReplicaCoroutineState::Yielded(ReplicaYield::WantsWrite(ops))
    }

    /// Takes a load up.
    fn load_step(&mut self) -> (r: UpgradeState)
        ensures
            (final(self)@, step_view(r)) == loaded_step(old(self)@),
    {
        let pending = self.pending_handles();
        if pending.len() == 0 {
            self.phase = UpgradePhase::Done;
            return ReplicaCoroutineState::Complete(Ok(self.report));
        }
        if self.tier == ReplicaTier::Meta {
            return self.fetch(pending);
        }
        let links = self.links_of(&pending);
        if links.len() == 0 {
            return self.fetch(pending);
        }
        self.phase = UpgradePhase::PendingLookup;
        ReplicaCoroutineState::Yielded(ReplicaYield::WantsLookupObject(links))
    }

    /// Takes a lookup up: links what the store holds, fetches the rest.
    fn lookup_step(&mut self, known: ReplicaMap<ReplicaLinkId, ReplicaHash>) -> (r: UpgradeState)
        requires
            upgrade_wf(old(self)@),
            old(self)@.phase is PendingLookup,
        ensures
            (final(self)@, step_view(r)) == known_step(old(self)@, known@),
            upgrade_wf(final(self)@),
            r is Yielded,
    {
        let ghost start = self@;
        let pending = self.pending_handles();
        let ghost all = pending.deep_view();
        let mut to_fetch: Vec<ReplicaHandle> = Vec::new();
        let n = pending.len();
        let mut i: usize = 0;
        proof {
            lemma_pending_known(start.tier, start.placements, start.handles);
            assert(self@.ops =~= start.ops + link_writes(start.placements, known@, all.take(0)));
            assert(to_fetch.deep_view() =~= misses(start.placements, known@, all.take(0)));
        }
        while i < n
            invariant
                n == pending@.len(),
                i <= n,
                all == pending.deep_view(),
                upgrade_wf(self@),
                forall|j: int| 0 <= j < n ==> start.placements.contains_key(#[trigger] all[j]),
                start.phase is PendingLookup,
                ({
                    let writes = link_writes(start.placements, known@, all.take(i as int));
                    self@ == (UpgradeView {
                        ops: start.ops + writes,
                        report: UpgradeReportView {
                            upgraded: start.report.upgraded + writes.len(),
                            deduped: start.report.deduped + writes.len(),
                            ..start.report
                        },
                        ..start
                    })
                }),
                to_fetch.deep_view() == misses(start.placements, known@, all.take(i as int)),
            decreases n - i,
        {
            let handle = &pending[i];
            let ghost before = link_writes(start.placements, known@, all.take(i as int));
            proof {
                assert(all.take(i + 1).drop_last() =~= all.take(i as int));
                assert(all.take(i + 1).last() == all[i as int]);
                assert(start.placements.contains_key(all[i as int]));
            }
            let hit = match self.placements.get(handle) {
                Some(placement) => match link_to_share(placement) {
                    Some(link) => match known.get(link) {
                        Some(hash) => Some(link_to(placement, hash.clone())),
                        None => None,
                    },
                    None => None,
                },
                None => None,
            };
            match hit {
                Some(patched) => {
                    push(&mut self.ops, ReplicaWriteOp::UpsertPlacement(patched));
                    let staged = self.ops.len();
                    assert(staged == self.ops.deep_view().len());
                    self.report.upgraded += 1;
                    self.report.deduped += 1;
                    assert(self@.ops =~= start.ops + link_writes(
                        start.placements,
                        known@,
                        all.take(i + 1),
                    ));
                },
                None => {
                    push(&mut to_fetch, handle.clone());
                },
            }
            i += 1;
        }
        assert(all.take(n as int) =~= all);
        if to_fetch.len() == 0 {
            self.store()
        } else {
            self.fetch(to_fetch)
        }
    }
}

/// A handle that needs work has a placement.
proof fn lemma_pending_known(
    tier: ReplicaTier,
    placements: Map<Text, PlacementView>,
    handles: Seq<Text>,
)
    ensures
        ({
            let q = pending(tier, placements, handles);
            forall|j: int| 0 <= j < q.len() ==> placements.contains_key(#[trigger] q[j])
        }),
    decreases handles.len(),
{
    if handles.len() > 0 {
        lemma_pending_known(tier, placements, handles.drop_last());
        let before = pending(tier, placements, handles.drop_last());
        let q = pending(tier, placements, handles);
        assert forall|j: int| 0 <= j < q.len() implies placements.contains_key(
            #[trigger] q[j],
        ) by {
            if j < before.len() {
                assert(q[j] == before[j]);
            }
        }
    }
}

/// The identities `items` would newly establish.
fn fresh_link_ids(
    placements: &ReplicaMap<ReplicaHandle, ReplicaPlacement>,
    items: &Vec<ReplicaFetchedItem>,
) -> (r: Vec<ReplicaLinkId>)
    ensures
        r.deep_view() == fresh_links(placements@, items.deep_view()),
{
    let ghost all = items.deep_view();
    let mut out: Vec<ReplicaLinkId> = Vec::new();
    let n = items.len();
    let mut i: usize = 0;
    assert(out.deep_view() =~= fresh_links(placements@, all.take(0)));
    while i < n
        invariant
            n == items@.len(),
            i <= n,
            all == items.deep_view(),
            out.deep_view() == fresh_links(placements@, all.take(i as int)),
        decreases n - i,
    {
        let item = &items[i];
        proof {
            assert(all.take(i + 1).drop_last() =~= all.take(i as int));
            assert(all.take(i + 1).last() == item@);
        }
        if let Some(placement) = placements.get(&item.handle) {
            if placement.link_id.is_none() {
                push(&mut out, item.link_id.clone());
            }
        }
        i += 1;
    }
    assert(all.take(n as int) =~= all);
    out
}

/// Makes more placements known, none replacing one already known.
fn widen(
    placements: &mut ReplicaMap<ReplicaHandle, ReplicaPlacement>,
    loaded: Vec<ReplicaPlacement>,
)
    ensures
        final(placements)@ == widened(old(placements)@, loaded.deep_view()),
{
    let ghost start = placements@;
    let ghost all = loaded.deep_view();
    assert(all.take(0) =~= Seq::empty());
    for placement in it: loaded.into_iter()
        invariant
            all == loaded.deep_view(),
            it.seq() == loaded@,
            placements@ == widened(start, all.take(it.index() as int)),
    {
        proof {
            let i = it.index() as int;
            assert(all.take(i + 1).drop_last() =~= all.take(i));
            assert(all.take(i + 1).last() == placement@);
        }
        if !placements.contains_key(&placement.handle) {
            placements.insert(placement.handle.clone(), placement);
        }
    }
    assert(all.take(all.len() as int) =~= all);
}

/// Who holds each identity.
fn claims(placements: &ReplicaMap<ReplicaHandle, ReplicaPlacement>) -> (r: ReplicaMap<
    ReplicaLinkId,
    ReplicaHandle,
>)
    ensures
        r@ == holders(placements@, ascending(placements@.dom())),
{
    let ghost q = ascending(placements@.dom());
    let mut claimed: ReplicaMap<ReplicaLinkId, ReplicaHandle> = ReplicaMap::new();
    let n = placements.len();
    proof {
        lemma_ascending(placements@.dom());
    }
    let mut i: usize = 0;
    assert(q.take(0) =~= Seq::empty());
    while i < n
        invariant
            n == placements@.len(),
            n == q.len(),
            i <= n,
            q == ascending(placements@.dom()),
            claimed@ == holders(placements@, q.take(i as int)),
        decreases n - i,
    {
        let placement = placements.value_at(i);
        proof {
            assert(q.take(i + 1).drop_last() =~= q.take(i as int));
            assert(q.take(i + 1).last() == q[i as int]);
        }
        if let Some(link) = &placement.link_id {
            claimed.insert(link.clone(), placement.handle.clone());
        }
        i += 1;
    }
    assert(q.take(n as int) =~= q);
    claimed
}

/// Records that `holder` lost `handle`.
fn lose(
    lost: &mut ReplicaMap<ReplicaHandle, Vec<ReplicaHandle>>,
    holder: ReplicaHandle,
    handle: ReplicaHandle,
)
    ensures
        final(lost)@ == old(lost)@.insert(
            holder@,
            lost_by(old(lost)@, holder@).push(handle@),
        ),
{
    let mut handles: Vec<ReplicaHandle> = match lost.get(&holder) {
        Some(handles) => handles.copied(),
        None => Vec::new(),
    };
    assert(handles.deep_view() =~= lost_by(lost@, holder@));
    push(&mut handles, handle);
    lost.insert(holder, handles);
}

/// Where the batch stages the placement of `handle`.
fn find_staged(ops: &Vec<ReplicaWriteOp>, handle: &ReplicaHandle) -> (r: Option<usize>)
    ensures
        match r {
            Some(i) => staged_from(ops.deep_view(), handle@, 0) == Some(i as int) && i < ops@.len()
                && stages(ops.deep_view()[i as int], handle@),
            None => staged_from(ops.deep_view(), handle@, 0) is None,
        },
{
    let ghost all = ops.deep_view();
    let n = ops.len();
    let mut i: usize = 0;
    while i < n
        invariant
            n == ops@.len(),
            i <= n,
            all == ops.deep_view(),
            staged_from(all, handle@, 0) == staged_from(all, handle@, i as int),
        decreases n - i,
    {
        assert(all[i as int] == ops@[i as int]@);
        if let ReplicaWriteOp::UpsertPlacement(placement) = &ops[i] {
            if placement.handle.same(handle) {
                return Some(i);
            }
        }
        i += 1;
    }
    None
}

impl ReplicaUpgrade {
    /// Records each losing handle on the placement holding its identity,
    /// which is what freezes it: a placement carrying ambiguous handles
    /// reads as [`ReplicaStatus::Ambiguous`] and derives nothing.
    ///
    /// The record has to make the freeze sticky: the second copy appears
    /// in exactly one enumeration, and an incremental one never mentions
    /// it again.
    fn freeze(&mut self, lost: &ReplicaMap<ReplicaHandle, Vec<ReplicaHandle>>)
        ensures
            final(self)@ == (UpgradeView {
                ops: freezes(
                    old(self)@.placements,
                    old(self)@.ops,
                    lost@,
                    ascending(lost@.dom()),
                ),
                ..old(self)@
            }),
            final(self)@.ops.len() >= old(self)@.ops.len(),
    {
        let ghost start = self@;
        let ghost q = ascending(lost@.dom());
        let n = lost.len();
        proof {
            lemma_ascending(lost@.dom());
        }
        let mut i: usize = 0;
        assert(q.take(0) =~= Seq::empty());
        while i < n
            invariant
                n == lost@.len(),
                n == q.len(),
                i <= n,
                q == ascending(lost@.dom()),
                self@ == (UpgradeView {
                    ops: freezes(start.placements, start.ops, lost@, q.take(i as int)),
                    ..start
                }),
                self@.ops.len() >= start.ops.len(),
            decreases n - i,
        {
            let ghost before = self@;
            let holder = lost.key_at(i);
            let handles = lost.value_at(i);
            proof {
                assert(q.take(i + 1).drop_last() =~= q.take(i as int));
                assert(q.take(i + 1).last() == q[i as int]);
            }
            match find_staged(&self.ops, holder) {
                Some(at) => {
                    if let ReplicaWriteOp::UpsertPlacement(placement) = &self.ops[at] {
                        let mut patched = placement.clone();
                        mark_ambiguous(&mut patched, handles);
                        let op = ReplicaWriteOp::UpsertPlacement(patched);
                        self.ops[at] = op;
                        assert(self.ops.deep_view() =~= before.ops.update(at as int, op@));
                    }
                },
                None => {
                    if let Some(placement) = self.placements.get(holder) {
                        let mut patched = placement.clone();
                        mark_ambiguous(&mut patched, handles);
                        push(&mut self.ops, ReplicaWriteOp::UpsertPlacement(patched));
                    }
                },
            }
            i += 1;
        }
        assert(q.take(n as int) =~= q);
    }

    /// Applies the fetched items and yields the write batch.
    fn write_fetched(&mut self) -> (r: UpgradeState)
        requires
            upgrade_wf(old(self)@),
            !(old(self)@.phase is PendingWrite || old(self)@.phase is Done),
        ensures
            (final(self)@, step_view(r)) == written(old(self)@),
            upgrade_wf(final(self)@),
            r is Yielded,
    {
        let ghost start = self@;
        // who holds each identity, extended as this batch resolves more: both
        // copies of a duplicate are commonly fetched together and neither is
        // linked yet
        let mut claimed = claims(&self.placements);
        let mut lost: ReplicaMap<ReplicaHandle, Vec<ReplicaHandle>> = ReplicaMap::new();
        let fetched = take(&mut self.fetched);
        let ghost all = fetched.deep_view();
        let ghost seed = Applied {
            claimed: claimed@,
            lost: Map::empty(),
            ops: start.ops,
            raised: 0,
            bodies: 0,
        };
        let n = fetched.len();
        let mut raised: usize = 0;
        let mut bodies: usize = 0;
        assert(all.take(0) =~= Seq::empty());
        for item in it: fetched.into_iter()
            invariant
                n == fetched@.len(),
                all == fetched.deep_view(),
                it.seq() == fetched@,
                bodies <= raised <= it.index() <= n,
                start.report.upgraded + raised <= self@.ops.len(),
                ({
                    let acc = applied(
                        start.tier,
                        start.placements,
                        seed,
                        all.take(it.index() as int),
                    );
                    &&& acc.claimed == claimed@
                    &&& acc.lost == lost@
                    &&& acc.raised == raised
                    &&& acc.bodies == bodies
                    &&& self@ == (UpgradeView { fetched: Seq::empty(), ops: acc.ops, ..start })
                }),
        {
            proof {
                let i = it.index() as int;
                assert(all.take(i + 1).drop_last() =~= all.take(i));
                assert(all.take(i + 1).last() == item@);
            }
            if let Some(placement) = self.placements.get(&item.handle) {
                let link = if placement.link_id.is_some() {
                    placement.link_id.copied()
                } else {
                    match claimed.get(&item.link_id) {
                        Some(holder) => {
                            lose(&mut lost, holder.clone(), item.handle.clone());
                            None
                        },
                        None => {
                            claimed.insert(item.link_id.clone(), item.handle.clone());
                            Some(item.link_id.clone())
                        },
                    }
                };
                let full = self.tier == ReplicaTier::Full;
                let body = item.body.is_some();
                stage_item(self.tier, placement, link, item, &mut self.ops);
                if body || !full {
                    raised += 1;
                }
                if body && full {
                    bodies += 1;
                }
            }
        }
        assert(all.take(n as int) =~= all);
        self.freeze(&lost);
        let staged = self.ops.len();
        assert(staged == self.ops.deep_view().len());
        self.report.upgraded += raised;
        self.report.fetched += bodies;
        self.store()
    }
}

impl ReplicaCoroutine for ReplicaUpgrade {
    type Yield = ReplicaYield;

    type Return = Result<ReplicaUpgradeReport, ReplicaArgError>;

    open spec fn wf(&self) -> bool {
        upgrade_wf(self@)
    }

    open spec fn rank(&self) -> (nat, nat) {
        upgrade_rank(self@)
    }

    open spec fn steps(
        before: Self,
        arg: Option<ReplicaArg>,
        after: Self,
        out: ReplicaCoroutineState<ReplicaYield, Result<ReplicaUpgradeReport, ReplicaArgError>>,
    ) -> bool {
        (after@, step_view(out)) == upgrade_step(before@, arg.deep_view())
    }

    fn resume(&mut self, arg: Option<ReplicaArg>) -> (r: ReplicaCoroutineState<
        ReplicaYield,
        Result<ReplicaUpgradeReport, ReplicaArgError>,
    >)
        ensures
            (final(self)@, step_view(r)) == upgrade_step(old(self)@, arg.deep_view()),
    {
        match (self.phase, arg) {
            (UpgradePhase::Start, None) => {
                self.phase = UpgradePhase::PendingLoad;
                ReplicaCoroutineState::Yielded(
                    ReplicaYield::WantsLoad {
                        collection: self.collection.clone(),
                        scope: ReplicaLoadScope::Handles(self.handles.copied()),
                    },
                )
            },
            (UpgradePhase::PendingLoad, Some(ReplicaArg::Load(loaded))) => {
                self.placements = index_placements(loaded.placements);
                self.load_step()
            },
            (UpgradePhase::PendingLookup, Some(ReplicaArg::LookupObject(known))) => {
                self.lookup_step(known)
            },
            (UpgradePhase::PendingFetch, Some(ReplicaArg::Fetch(items))) => {
                let fresh = fresh_link_ids(&self.placements, &items);
                self.fetched = items;
                if fresh.len() == 0 {
                    return self.write_fetched();
                }
                self.phase = UpgradePhase::PendingLinkCheck;
                ReplicaCoroutineState::Yielded(
                    ReplicaYield::WantsLoad {
                        collection: self.collection.clone(),
                        scope: ReplicaLoadScope::Links(fresh),
                    },
                )
            },
            (UpgradePhase::PendingLinkCheck, Some(ReplicaArg::Load(loaded))) => {
                // holders the upgrade batch never named, made known so the
                // identity check sees the whole picture
                widen(&mut self.placements, loaded.placements);
                self.write_fetched()
            },
            (UpgradePhase::PendingWrite, Some(ReplicaArg::Write)) => {
                self.phase = UpgradePhase::Done;
                ReplicaCoroutineState::Complete(Ok(self.report))
            },
            (_, arg) => ReplicaCoroutineState::Complete(Err(refuse(&arg))),
        }
    }
}

/// The reply a state waits for.
pub open spec fn upgrade_awaits(phase: UpgradePhase, arg: Option<ArgView>) -> bool {
    match phase {
        UpgradePhase::Start => arg is None,
        UpgradePhase::PendingLoad => arg matches Some(ArgView::Load(_)),
        UpgradePhase::PendingLookup => arg matches Some(ArgView::LookupObject(_)),
        UpgradePhase::PendingFetch => arg matches Some(ArgView::Fetch(_)),
        UpgradePhase::PendingLinkCheck => arg matches Some(ArgView::Load(_)),
        UpgradePhase::PendingWrite => arg matches Some(ArgView::Write),
        UpgradePhase::Done => false,
    }
}

/// A driver that answers every yield with its kind of reply never breaks the
/// contract: the reply awaited is never refused, and every answer to what is
/// asked for next is one awaited.
pub proof fn lemma_upgrade_answered(s: UpgradeView, arg: Option<ArgView>)
    requires
        upgrade_awaits(s.phase, arg),
    ensures
        !(upgrade_step(s, arg).1 is Failed),
        upgrade_step(s, arg).1 matches StepView::Yielded(wanted) ==> forall|reply: ArgView|
            answers(wanted, reply) ==> #[trigger] upgrade_awaits(
                upgrade_step(s, arg).0.phase,
                Some(reply),
            ),
{
}

} // verus!
