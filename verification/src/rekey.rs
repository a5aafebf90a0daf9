//! I/O-free coroutine to rebuild a collection after a handle-space
//! change, carrying local state over by link id.
//!
//! A protocol may invalidate every handle at once (an IMAP UIDVALIDITY
//! bump renumbers all UIDs). A plain full sync recovers the spine but
//! reads every old handle as deleted upstream, dropping cached bodies
//! and pending local changes with them. This verb enumerates the new
//! spine, resolves the new link ids at the meta tier, and carries every
//! old placement over to the new handle of the same logical item: the
//! cache (level, summary, body) survives without a refetch, flag deltas
//! re-derive against the new base, tombstones keep their pending remove
//! (and move destination), and staged edits keep their body. A staged
//! edit whose item found no new home survives as a pending create (the
//! same edit-beats-delete rule the sync applies); any other pending
//! state that cannot be matched is dropped and counted. Pending creates
//! are local staging, not spine, and are left untouched.
//!
//! The carried base adopts the new observed revision, so a carried edit
//! pushes last-writer-wins on its first sync: the old revision chain is
//! gone with the old handles, and there is no base revision to gate on.

use vstd::prelude::*;

use crate::change::{ReplicaDropReason, ReplicaWriteOp, WriteOpView};
use crate::collection::{ReplicaCheckpoint, ReplicaCollectionId};
use crate::coroutine::{
    answers, refusal, refuse, step_view, ArgView, ReplicaArg, ReplicaArgError, ReplicaCoroutine,
    ReplicaCoroutineState, ReplicaYield, StepView, YieldView,
};
use crate::order::Text;
use crate::placement::{
    merged_flags, staged_edit, BaseView, FlagsView, PlacementView, ReplicaBase, ReplicaFlags,
    ReplicaHandle, ReplicaLevel, ReplicaLinkId, ReplicaMeta, ReplicaPlacement, ReplicaSortKey,
    ReplicaStatus,
};
use crate::remote::{
    FetchedItemView, RemoteItemView, ReplicaFetchedItem, ReplicaRemoteItem, ReplicaTier,
};
use crate::sorted::{ReplicaMap, ReplicaSet};
use crate::storage::{LoadScopeView, ReplicaLoadScope};
use crate::sync::reconcile::{base_object, resurrected};
use crate::value::{push, take, ReplicaSame, ReplicaValue};

verus! {

/// What a rekey did.
#[derive(Clone, Copy, Debug, Eq, PartialEq, Structural)]
pub struct ReplicaRekeyReport {
    /// Old placements carried over to their new handle.
    pub rekeyed: usize,
    /// New members with no old placement to carry, pulled fresh.
    pub pulled: usize,
    /// Old placements with pending local state that could not be matched
    /// (no link id resolved before the handle-space change, or the item
    /// is gone from the new spine) and were dropped with it.
    pub dropped: usize,
}

/// What a [`ReplicaRekeyReport`] stands for.
#[verifier::ext_equal]
pub struct RekeyReportView {
    pub rekeyed: nat,
    pub pulled: nat,
    pub dropped: nat,
}

impl DeepView for ReplicaRekeyReport {
    type V = RekeyReportView;

    open spec fn deep_view(&self) -> RekeyReportView {
        RekeyReportView {
            rekeyed: self.rekeyed as nat,
            pulled: self.pulled as nat,
            dropped: self.dropped as nat,
        }
    }
}

/// A report of nothing done.
pub open spec fn empty_report() -> RekeyReportView {
    RekeyReportView { rekeyed: 0, pulled: 0, dropped: 0 }
}

impl Default for ReplicaRekeyReport {
    fn default() -> (r: Self)
        ensures
            r.deep_view() == empty_report(),
    {
        ReplicaRekeyReport { rekeyed: 0, pulled: 0, dropped: 0 }
    }
}

/// Failure causes during a REKEY flow.
#[derive(Clone, Copy, Debug, Eq, PartialEq, Structural)]
pub enum ReplicaRekeyError {
    /// The driver fed back an arg that does not match the pending yield.
    UnexpectedArg,
    /// The driver resumed without the arg the pending yield required.
    MissingArg,
}

impl DeepView for ReplicaRekeyError {
    type V = ReplicaRekeyError;

    open spec fn deep_view(&self) -> ReplicaRekeyError {
        *self
    }
}

/// The sentence a failed rekey is reported with.
pub open spec fn rekey_error_message(error: ReplicaRekeyError) -> Text {
    match error {
        ReplicaRekeyError::UnexpectedArg => "Replica REKEY failed: unexpected coroutine arg"@,
        ReplicaRekeyError::MissingArg => "Replica REKEY failed: missing coroutine arg"@,
    }
}

impl ReplicaRekeyError {
    /// The failure as a sentence.
    pub fn message(&self) -> (r: String)
        ensures
            r@ == rekey_error_message(*self),
    {
        match self {
            ReplicaRekeyError::UnexpectedArg => {
                "Replica REKEY failed: unexpected coroutine arg".to_owned()
            },
            ReplicaRekeyError::MissingArg => {
                "Replica REKEY failed: missing coroutine arg".to_owned()
            },
        }
    }
}

/// A broken coroutine contract as a failure of this verb.
pub open spec fn rekey_refusal(arg: Option<ArgView>) -> ReplicaRekeyError {
    match refusal(arg) {
        ReplicaArgError::UnexpectedArg => ReplicaRekeyError::UnexpectedArg,
        ReplicaArgError::MissingArg => ReplicaRekeyError::MissingArg,
    }
}

/// What the meta fetch resolved of a new member.
pub struct Resolved {
    pub link_id: ReplicaLinkId,
    pub meta: ReplicaMeta,
    pub sort_key: ReplicaSortKey,
}

/// What a [`Resolved`] stands for.
#[verifier::ext_equal]
pub struct ResolvedView {
    pub link_id: Text,
    pub meta: Text,
    pub sort_key: Text,
}

impl View for Resolved {
    type V = ResolvedView;

    open spec fn view(&self) -> ResolvedView {
        ResolvedView { link_id: self.link_id@, meta: self.meta@, sort_key: self.sort_key@ }
    }
}

impl DeepView for Resolved {
    type V = ResolvedView;

    open spec fn deep_view(&self) -> ResolvedView {
        self.view()
    }
}

/// What the meta fetch resolved, by handle. A handle fetched twice means its
/// last item.
pub open spec fn resolutions(items: Seq<FetchedItemView>) -> Map<Text, ResolvedView>
    decreases items.len(),
{
    if items.len() == 0 {
        Map::empty()
    } else {
        let item = items.last();
        resolutions(items.drop_last()).insert(
            item.handle,
            ResolvedView { link_id: item.link_id, meta: item.meta, sort_key: item.sort_key },
        )
    }
}

/// The old placements that are spine. Pending creates are local staging and
/// are left untouched.
pub open spec fn spine(old: Seq<PlacementView>) -> Seq<PlacementView>
    decreases old.len(),
{
    if old.len() == 0 {
        Seq::empty()
    } else {
        let before = spine(old.drop_last());
        if old.last().status is Created {
            before
        } else {
            before.push(old.last())
        }
    }
}

/// The old placements by identity. An identity held twice means its last
/// holder.
pub open spec fn by_link(old: Seq<PlacementView>) -> Map<Text, PlacementView>
    decreases old.len(),
{
    if old.len() == 0 {
        Map::empty()
    } else {
        let before = by_link(old.drop_last());
        match old.last().link_id {
            Some(link) => before.insert(link, old.last()),
            None => before,
        }
    }
}

/// The drops of the old spine. Nothing here is a delete: every row is either
/// rewritten under its new handle or lost with a handle space the server has
/// already discarded.
pub open spec fn spine_drops(collection: Text, old: Seq<PlacementView>) -> Seq<WriteOpView> {
    Seq::new(
        old.len(),
        |i: int|
            WriteOpView::DropPlacement {
                collection,
                handle: old[i].handle,
                reason: ReplicaDropReason::Superseded,
            },
    )
}

/// How a carried placement relates to its new base.
pub open spec fn carried_status(
    old: PlacementView,
    flags: FlagsView,
    item: RemoteItemView,
) -> ReplicaStatus {
    match old.status {
        ReplicaStatus::Tombstone => ReplicaStatus::Tombstone,
        ReplicaStatus::Conflict => ReplicaStatus::Conflict,
        // renumbering the copies does not merge them: the source still holds
        // the identity twice, so the freeze carries over
        ReplicaStatus::Ambiguous => ReplicaStatus::Ambiguous,
        _ => if (old.status is Dirty && staged_edit(old) is Some) || flags != item.flags {
            ReplicaStatus::Dirty
        } else {
            ReplicaStatus::Clean
        },
    }
}

/// The base flags of a placement, none where it has no base.
pub open spec fn base_flags(old: PlacementView) -> FlagsView {
    match old.base {
        Some(base) => base.flags,
        None => FlagsView::Known(Set::empty()),
    }
}

/// An old placement carried onto its new handle: the cache survives, the
/// flag delta re-derives against the new base, pending statuses stay
/// pending.
pub open spec fn carried(
    collection: Text,
    old: PlacementView,
    item: RemoteItemView,
    resolved: ResolvedView,
) -> PlacementView {
    let flags = merged_flags(base_flags(old), old.flags, item.flags);
    let status = carried_status(old, flags, item);
    PlacementView {
        collection,
        handle: item.handle,
        link_id: old.link_id,
        object: old.object,
        level: old.level,
        meta: Some(resolved.meta),
        sort_key: resolved.sort_key,
        flags,
        status,
        conflict_revision: if status is Conflict {
            item.revision
        } else {
            None
        },
        conflict_object: None,
        base: Some(
            BaseView { flags: item.flags, revision: item.revision, object: base_object(old) },
        ),
        origin: old.origin,
        ambiguous_handles: old.ambiguous_handles,
    }
}

/// A new member with no old counterpart, enriched with what the meta fetch
/// resolved.
pub open spec fn fresh_member(
    collection: Text,
    item: RemoteItemView,
    resolved: Option<ResolvedView>,
) -> PlacementView {
    PlacementView {
        collection,
        handle: item.handle,
        link_id: match resolved {
            Some(resolved) => Some(resolved.link_id),
            None => None,
        },
        object: None,
        level: if resolved is Some {
            ReplicaLevel::Meta
        } else {
            ReplicaLevel::Probed
        },
        meta: match resolved {
            Some(resolved) => Some(resolved.meta),
            None => None,
        },
        sort_key: match resolved {
            Some(resolved) => resolved.sort_key,
            None => Seq::empty(),
        },
        flags: item.flags,
        status: ReplicaStatus::Clean,
        conflict_revision: None,
        conflict_object: None,
        base: Some(BaseView { flags: item.flags, revision: item.revision, object: None }),
        origin: None,
        ambiguous_handles: Seq::empty(),
    }
}

/// A rebuild in the making: the old placements still to be claimed, the old
/// handles carried over, the writes and the counts.
#[verifier::ext_equal]
pub struct Rebuilt {
    pub unclaimed: Map<Text, PlacementView>,
    pub carried: Set<Text>,
    pub writes: Seq<WriteOpView>,
    pub rekeyed: nat,
    pub pulled: nat,
}

/// What was resolved of a handle.
pub open spec fn resolved_of(links: Map<Text, ResolvedView>, handle: Text) -> Option<ResolvedView> {
    if links.contains_key(handle) {
        Some(links[handle])
    } else {
        None
    }
}

/// One new member placed: carried over from the old placement of the same
/// identity, or fresh.
pub open spec fn place(
    collection: Text,
    links: Map<Text, ResolvedView>,
    acc: Rebuilt,
    item: RemoteItemView,
) -> Rebuilt {
    match resolved_of(links, item.handle) {
        Some(resolved) if acc.unclaimed.contains_key(resolved.link_id) => {
            let old = acc.unclaimed[resolved.link_id];
            Rebuilt {
                unclaimed: acc.unclaimed.remove(resolved.link_id),
                carried: acc.carried.insert(old.handle),
                writes: acc.writes.push(
                    WriteOpView::UpsertPlacement(carried(collection, old, item, resolved)),
                ),
                rekeyed: acc.rekeyed + 1,
                ..acc
            }
        },
        resolved => Rebuilt {
            writes: acc.writes.push(
                WriteOpView::UpsertPlacement(fresh_member(collection, item, resolved)),
            ),
            pulled: acc.pulled + 1,
            ..acc
        },
    }
}

/// The new members placed, in the order listed.
pub open spec fn placed(
    collection: Text,
    links: Map<Text, ResolvedView>,
    start: Rebuilt,
    items: Seq<RemoteItemView>,
) -> Rebuilt
    decreases items.len(),
{
    if items.len() == 0 {
        start
    } else {
        place(
            collection,
            links,
            placed(collection, links, start, items.drop_last()),
            items.last(),
        )
    }
}

/// Whether an old placement holds a staged edit.
pub open spec fn holds_edit(old: PlacementView) -> bool {
    (old.status is Dirty || old.status is Conflict) && staged_edit(old) is Some
}

/// One old placement rescued: a staged edit that found no new home survives
/// as a pending create.
pub open spec fn rescue(acc: Rebuilt, old: PlacementView) -> Rebuilt {
    if !acc.carried.contains(old.handle) && holds_edit(old) {
        Rebuilt {
            carried: acc.carried.insert(old.handle),
            writes: acc.writes.push(WriteOpView::UpsertPlacement(resurrected(old))),
            rekeyed: acc.rekeyed + 1,
            ..acc
        }
    } else {
        acc
    }
}

/// The old placements rescued, in the order loaded.
pub open spec fn rescued(start: Rebuilt, old: Seq<PlacementView>) -> Rebuilt
    decreases old.len(),
{
    if old.len() == 0 {
        start
    } else {
        rescue(rescued(start, old.drop_last()), old.last())
    }
}

/// How many old placements had pending state that was not carried over.
pub open spec fn lost_count(carried: Set<Text>, old: Seq<PlacementView>) -> nat
    decreases old.len(),
{
    if old.len() == 0 {
        0
    } else {
        let before = lost_count(carried, old.drop_last());
        if !(old.last().status is Clean) && !carried.contains(old.last().handle) {
            before + 1
        } else {
            before
        }
    }
}

/// The rebuild before its checkpoint: the old spine dropped, then one
/// placement per new member, then the edits that found no new home.
pub open spec fn rebuilt(
    collection: Text,
    old: Seq<PlacementView>,
    items: Seq<RemoteItemView>,
    links: Map<Text, ResolvedView>,
) -> Rebuilt {
    rescued(
        placed(
            collection,
            links,
            Rebuilt {
                unclaimed: by_link(spine(old)),
                carried: Set::empty(),
                writes: spine_drops(collection, spine(old)),
                rekeyed: 0,
                pulled: 0,
            },
            items,
        ),
        spine(old),
    )
}

/// The writes of a rebuild.
pub open spec fn rebuild_writes(
    collection: Text,
    old: Seq<PlacementView>,
    items: Seq<RemoteItemView>,
    links: Map<Text, ResolvedView>,
    checkpoint: Seq<u8>,
) -> Seq<WriteOpView> {
    rebuilt(collection, old, items, links).writes.push(
        WriteOpView::SetCheckpoint { collection, checkpoint },
    )
}

/// What a rebuild reports.
pub open spec fn rebuild_report(
    collection: Text,
    old: Seq<PlacementView>,
    items: Seq<RemoteItemView>,
    links: Map<Text, ResolvedView>,
) -> RekeyReportView {
    let done = rebuilt(collection, old, items, links);
    RekeyReportView {
        rekeyed: done.rekeyed,
        pulled: done.pulled,
        dropped: lost_count(done.carried, spine(old)),
    }
}

/// Where a rekey stands.
#[derive(Clone, Copy, Debug, Eq, PartialEq, Structural)]
pub enum RekeyPhase {
    /// Nothing has happened yet.
    Start,
    /// The local state is being loaded.
    PendingLoad,
    /// The new handle space is being enumerated.
    PendingEnumerate,
    /// The new link ids are being resolved.
    PendingFetch,
    /// The rebuild is being stored.
    PendingWrite,
}

/// What a [`ReplicaRekey`] stands for.
#[verifier::ext_equal]
pub struct RekeyView {
    pub collection: Text,
    pub phase: RekeyPhase,
    /// The placements loaded, until the rebuild.
    pub old: Seq<PlacementView>,
    /// The new members, until the rebuild.
    pub items: Seq<RemoteItemView>,
    /// The new checkpoint, until the rebuild.
    pub checkpoint: Option<Seq<u8>>,
    pub report: RekeyReportView,
}

/// A rekey that has not started.
pub open spec fn starting(collection: Text) -> RekeyView {
    RekeyView {
        collection,
        phase: RekeyPhase::Start,
        old: Seq::empty(),
        items: Seq::empty(),
        checkpoint: None,
        report: empty_report(),
    }
}

/// What a step of a rekey hands back.
pub type RekeyStep = StepView<RekeyReportView, ReplicaRekeyError>;

/// The rebuild handed over for storage.
pub open spec fn rebuilding(s: RekeyView, links: Map<Text, ResolvedView>) -> (
    RekeyView,
    RekeyStep,
) {
    (
        RekeyView {
            phase: RekeyPhase::PendingWrite,
            old: Seq::empty(),
            items: Seq::empty(),
            checkpoint: None,
            report: rebuild_report(s.collection, s.old, s.items, links),
            ..s
        },
        StepView::Yielded(
            YieldView::WantsWrite(
                rebuild_writes(s.collection, s.old, s.items, links, s.checkpoint->0),
            ),
        ),
    )
}

/// Whether any old placement has a link id to match by.
pub open spec fn any_linked(old: Seq<PlacementView>) -> bool {
    exists|i: int| 0 <= i < old.len() && (#[trigger] old[i]).link_id is Some
}

/// The handles of the items listed.
pub open spec fn handles_of(items: Seq<RemoteItemView>) -> Seq<Text> {
    Seq::new(items.len(), |i: int| items[i].handle)
}

/// What resuming a rekey with `arg` does.
pub open spec fn rekey_step(s: RekeyView, arg: Option<ArgView>) -> (RekeyView, RekeyStep) {
    match (s.phase, arg) {
        (RekeyPhase::Start, None) => (
            RekeyView { phase: RekeyPhase::PendingLoad, ..s },
            StepView::Yielded(
                YieldView::WantsLoad { collection: s.collection, scope: LoadScopeView::All },
            ),
        ),
        (RekeyPhase::PendingLoad, Some(ArgView::Load(loaded))) => (
            RekeyView { phase: RekeyPhase::PendingEnumerate, old: loaded.placements, ..s },
            StepView::Yielded(
                YieldView::WantsEnumerate { collection: s.collection, cursor: None },
            ),
        ),
        (RekeyPhase::PendingEnumerate, Some(ArgView::Enumerate(snapshot))) => {
            let s = RekeyView {
                items: snapshot.items,
                checkpoint: Some(snapshot.checkpoint),
                ..s
            };
            // without a single resolved link id there is nothing to match
            // against: the spine is rebuilt without a fetch
            if any_linked(s.old) {
                (
                    RekeyView { phase: RekeyPhase::PendingFetch, ..s },
                    StepView::Yielded(
                        YieldView::WantsFetch {
                            collection: s.collection,
                            handles: handles_of(s.items),
                            tier: ReplicaTier::Meta,
                        },
                    ),
                )
            } else {
                rebuilding(s, Map::empty())
            }
        },
        (RekeyPhase::PendingFetch, Some(ArgView::Fetch(items))) => rebuilding(
            s,
            resolutions(items),
        ),
        (RekeyPhase::PendingWrite, Some(ArgView::Write)) => (s, StepView::Done(s.report)),
        (_, _) => (s, StepView::Failed(rekey_refusal(arg))),
    }
}

/// What every state of a rekey keeps: a checkpoint is known while the
/// rebuild still needs one.
pub open spec fn rekey_wf(s: RekeyView) -> bool {
    s.phase is PendingFetch ==> s.checkpoint is Some
}

/// How far a rekey still is from its end.
pub open spec fn rekey_rank(s: RekeyView) -> (nat, nat) {
    match s.phase {
        RekeyPhase::Start => (4, 0),
        RekeyPhase::PendingLoad => (3, 0),
        RekeyPhase::PendingEnumerate => (2, 0),
        RekeyPhase::PendingFetch => (1, 0),
        RekeyPhase::PendingWrite => (0, 0),
    }
}

/// I/O-free REKEY coroutine.
pub struct ReplicaRekey {
    collection: ReplicaCollectionId,
    phase: RekeyPhase,
    old: Vec<ReplicaPlacement>,
    items: Vec<ReplicaRemoteItem>,
    checkpoint: Option<ReplicaCheckpoint>,
    report: ReplicaRekeyReport,
}

impl View for ReplicaRekey {
    type V = RekeyView;

    closed spec fn view(&self) -> RekeyView {
        RekeyView {
            collection: self.collection@,
            phase: self.phase,
            old: self.old.deep_view(),
            items: self.items.deep_view(),
            checkpoint: self.checkpoint.deep_view(),
            report: self.report.deep_view(),
        }
    }
}

type RekeyState = ReplicaCoroutineState<
    ReplicaYield,
    Result<ReplicaRekeyReport, ReplicaRekeyError>,
>;

/// The old placements that are spine.
fn spine_of(old: Vec<ReplicaPlacement>) -> (r: Vec<ReplicaPlacement>)
    ensures
        r.deep_view() == spine(old.deep_view()),
{
    let ghost all = old.deep_view();
    let mut out: Vec<ReplicaPlacement> = Vec::new();
    assert(out.deep_view() =~= spine(all.take(0)));
    for placement in it: old.into_iter()
        invariant
            all == old.deep_view(),
            it.seq() == old@,
            out.deep_view() == spine(all.take(it.index() as int)),
    {
        proof {
            let i = it.index() as int;
            assert(all.take(i + 1).drop_last() =~= all.take(i));
            assert(all.take(i + 1).last() == placement@);
        }
        if placement.status != ReplicaStatus::Created {
            push(&mut out, placement);
        }
    }
    assert(all.take(all.len() as int) =~= all);
    out
}

/// The old placements by identity.
fn index_links(old: &Vec<ReplicaPlacement>) -> (r: ReplicaMap<ReplicaLinkId, ReplicaPlacement>)
    ensures
        r@ == by_link(old.deep_view()),
{
    let ghost all = old.deep_view();
    let mut map: ReplicaMap<ReplicaLinkId, ReplicaPlacement> = ReplicaMap::new();
    let n = old.len();
    let mut i: usize = 0;
    assert(all.take(0) =~= Seq::empty());
    while i < n
        invariant
            n == old@.len(),
            i <= n,
            all == old.deep_view(),
            map@ == by_link(all.take(i as int)),
        decreases n - i,
    {
        proof {
            assert(all.take(i + 1).drop_last() =~= all.take(i as int));
            assert(all.take(i + 1).last() == old@[i as int]@);
        }
        if let Some(link) = &old[i].link_id {
            map.insert(link.clone(), old[i].clone());
        }
        i += 1;
    }
    assert(all.take(n as int) =~= all);
    map
}

/// What the meta fetch resolved, by handle.
fn index_resolutions(items: Vec<ReplicaFetchedItem>) -> (r: ReplicaMap<ReplicaHandle, Resolved>)
    ensures
        r@ == resolutions(items.deep_view()),
{
    let ghost all = items.deep_view();
    let mut map: ReplicaMap<ReplicaHandle, Resolved> = ReplicaMap::new();
    assert(all.take(0) =~= Seq::empty());
    for item in it: items.into_iter()
        invariant
            all == items.deep_view(),
            it.seq() == items@,
            map@ == resolutions(all.take(it.index() as int)),
    {
        proof {
            let i = it.index() as int;
            assert(all.take(i + 1).drop_last() =~= all.take(i));
            assert(all.take(i + 1).last() == item@);
        }
        let ReplicaFetchedItem { handle, link_id, meta, sort_key, .. } = item;
        map.insert(handle, Resolved { link_id, meta, sort_key });
    }
    assert(all.take(all.len() as int) =~= all);
    map
}

/// The drops of the old spine.
fn drop_spine(collection: &ReplicaCollectionId, old: &Vec<ReplicaPlacement>) -> (r: Vec<
    ReplicaWriteOp,
>)
    ensures
        r.deep_view() == spine_drops(collection@, old.deep_view()),
{
    let mut out: Vec<ReplicaWriteOp> = Vec::new();
    let n = old.len();
    let mut i: usize = 0;
    while i < n
        invariant
            n == old@.len(),
            i <= n,
            out.deep_view().len() == i,
            forall|j: int|
                0 <= j < i ==> #[trigger] out.deep_view()[j] == spine_drops(
                    collection@,
                    old.deep_view(),
                )[j],
        decreases n - i,
    {
        push(
            &mut out,
            ReplicaWriteOp::DropPlacement {
                collection: collection.clone(),
                handle: old[i].handle.clone(),
                reason: ReplicaDropReason::Superseded,
            },
        );
        i += 1;
    }
    assert(out.deep_view() =~= spine_drops(collection@, old.deep_view()));
    out
}

/// Whether an old placement holds a staged edit.
fn is_holding_edit(old: &ReplicaPlacement) -> (r: bool)
    ensures
        r == holds_edit(old@),
{
    (old.status == ReplicaStatus::Dirty || old.status == ReplicaStatus::Conflict)
        && old.staged_edit().is_some()
}

/// How many old placements had pending state that was not carried over.
fn count_lost(over: &ReplicaSet<ReplicaHandle>, old: &Vec<ReplicaPlacement>) -> (r: usize)
    ensures
        r == lost_count(over@, old.deep_view()),
{
    let ghost all = old.deep_view();
    let mut count: usize = 0;
    let n = old.len();
    let mut i: usize = 0;
    while i < n
        invariant
            n == old@.len(),
            i <= n,
            count <= i,
            all == old.deep_view(),
            count == lost_count(over@, all.take(i as int)),
        decreases n - i,
    {
        proof {
            assert(all.take(i + 1).drop_last() =~= all.take(i as int));
            assert(all.take(i + 1).last() == old@[i as int]@);
        }
        if old[i].status != ReplicaStatus::Clean && !over.contains(&old[i].handle) {
            count += 1;
        }
        i += 1;
    }
    assert(all.take(n as int) =~= all);
    count
}

/// Whether any old placement has a link id to match by.
fn has_links(old: &Vec<ReplicaPlacement>) -> (r: bool)
    ensures
        r == any_linked(old.deep_view()),
{
    let ghost all = old.deep_view();
    let n = old.len();
    let mut i: usize = 0;
    while i < n
        invariant
            n == old@.len(),
            i <= n,
            all == old.deep_view(),
            forall|j: int| 0 <= j < i ==> (#[trigger] all[j]).link_id is None,
        decreases n - i,
    {
        assert(all[i as int] == old@[i as int]@);
        if old[i].link_id.is_some() {
            return true;
        }
        i += 1;
    }
    false
}

/// The handles of the items listed.
fn item_handles(items: &Vec<ReplicaRemoteItem>) -> (r: Vec<ReplicaHandle>)
    ensures
        r.deep_view() == handles_of(items.deep_view()),
{
    let mut out: Vec<ReplicaHandle> = Vec::new();
    let n = items.len();
    let mut i: usize = 0;
    while i < n
        invariant
            n == items@.len(),
            i <= n,
            out.deep_view().len() == i,
            forall|j: int|
                0 <= j < i ==> #[trigger] out.deep_view()[j] == items.deep_view()[j].handle,
        decreases n - i,
    {
        push(&mut out, items[i].handle.clone());
        i += 1;
    }
    assert(out.deep_view() =~= handles_of(items.deep_view()));
    out
}

impl ReplicaRekey {
    /// Creates a coroutine that rebuilds `collection` onto its new
    /// handle space.
    pub fn new(collection: impl Into<ReplicaCollectionId>) -> (r: Self)
        ensures
            rekey_wf(r@),
            exists|id: ReplicaCollectionId| #[trigger]
                call_ensures(Into::<ReplicaCollectionId>::into, (collection,), id) && r@
                    == starting(id@),
    {
        let collection = collection.into();
        let r = ReplicaRekey {
            collection,
            phase: RekeyPhase::Start,
            old: Vec::new(),
            items: Vec::new(),
            checkpoint: None,
            report: ReplicaRekeyReport::default(),
        };
        assert(r@ =~= starting(r.collection@));
        r
    }

    /// Carries an old placement onto the new handle: the cache survives,
    /// the flag delta re-derives against the new base, pending statuses
    /// stay pending.
    fn carry(
        &self,
        old: ReplicaPlacement,
        item: &ReplicaRemoteItem,
        resolved: &Resolved,
    ) -> (r: ReplicaPlacement)
        ensures
            r@ == carried(self@.collection, old@, item@, resolved@),
    {
        let base = match &old.base {
            Some(base) => base.flags.clone(),
            None => ReplicaFlags::default(),
        };
        let flags = ReplicaFlags::merge(&base, &old.flags, &item.flags);
        let status = match old.status {
            ReplicaStatus::Tombstone => ReplicaStatus::Tombstone,
            ReplicaStatus::Conflict => ReplicaStatus::Conflict,
            ReplicaStatus::Ambiguous => ReplicaStatus::Ambiguous,
            _ => {
                let edited = old.status == ReplicaStatus::Dirty && old.staged_edit().is_some();
                if edited || !flags.same(&item.flags) {
                    ReplicaStatus::Dirty
                } else {
                    ReplicaStatus::Clean
                }
            },
        };
        let conflict_revision = if status == ReplicaStatus::Conflict {
            item.revision.copied()
        } else {
            None
        };
        let object = match &old.base {
            Some(base) => base.object.copied(),
            None => None,
        };
        ReplicaPlacement {
            collection: self.collection.clone(),
            handle: item.handle.clone(),
            link_id: old.link_id,
            object: old.object,
            level: old.level,
            meta: Some(resolved.meta.clone()),
            sort_key: resolved.sort_key.clone(),
            flags,
            status,
            conflict_revision,
            conflict_object: None,
            base: Some(
                ReplicaBase {
                    flags: item.flags.clone(),
                    revision: item.revision.copied(),
                    object,
                },
            ),
            origin: old.origin,
            ambiguous_handles: old.ambiguous_handles,
        }
    }

    /// A fresh placement for a new member with no old counterpart,
    /// enriched with the link id and summary the meta fetch resolved.
    fn fresh(&self, item: &ReplicaRemoteItem, resolved: Option<&Resolved>) -> (r: ReplicaPlacement)
        ensures
            r@ == fresh_member(
                self@.collection,
                item@,
                match resolved {
                    Some(resolved) => Some(resolved@),
                    None => None,
                },
            ),
    {
        let (link_id, meta, sort_key, level) = match resolved {
            Some(resolved) => (
                Some(resolved.link_id.clone()),
                Some(resolved.meta.clone()),
                resolved.sort_key.clone(),
                ReplicaLevel::Meta,
            ),
            None => (None, None, ReplicaSortKey::default(), ReplicaLevel::Probed),
        };
        let r = ReplicaPlacement {
            collection: self.collection.clone(),
            handle: item.handle.clone(),
            link_id,
            object: None,
            level,
            meta,
            sort_key,
            flags: item.flags.clone(),
            status: ReplicaStatus::Clean,
            conflict_revision: None,
            conflict_object: None,
            base: Some(
                ReplicaBase {
                    flags: item.flags.clone(),
                    revision: item.revision.copied(),
                    object: None,
                },
            ),
            origin: None,
            ambiguous_handles: Vec::new(),
        };
        assert(r@.ambiguous_handles =~= Seq::<Text>::empty());
        r
    }

    /// Builds the write batch: drop the old spine, then upsert one
    /// placement per new member, carried over by link id when an old
    /// placement resolves to the same logical item.
    fn rebuild(&mut self, links: &ReplicaMap<ReplicaHandle, Resolved>) -> (r: RekeyState)
        requires
            old(self)@.checkpoint is Some,
        ensures
            (final(self)@, step_view(r)) == rebuilding(old(self)@, links@),
            r is Yielded,
    {
        let ghost start = self@;
        let loaded = take(&mut self.old);
        let old = spine_of(loaded);
        let items = take(&mut self.items);
        let mut unclaimed = index_links(&old);
        let mut over: ReplicaSet<ReplicaHandle> = ReplicaSet::new();
        let mut writes = drop_spine(&self.collection, &old);
        let ghost seed = Rebuilt {
            unclaimed: unclaimed@,
            carried: Set::empty(),
            writes: writes.deep_view(),
            rekeyed: 0,
            pulled: 0,
        };
        let mut rekeyed: usize = 0;
        let mut pulled: usize = 0;
        let ghost all = items.deep_view();
        let n = items.len();
        let mut i: usize = 0;
        assert(all.take(0) =~= Seq::empty());
        while i < n
            invariant
                n == items@.len(),
                i <= n,
                all == items.deep_view(),
                self@.collection == start.collection,
                self@.checkpoint == start.checkpoint,
                self@.old =~= Seq::<PlacementView>::empty(),
                self@.items =~= Seq::<RemoteItemView>::empty(),
                rekeyed + pulled <= i,
                rekeyed + pulled <= writes@.len(),
                ({
                    let acc = placed(start.collection, links@, seed, all.take(i as int));
                    &&& acc.unclaimed == unclaimed@
                    &&& acc.carried == over@
                    &&& acc.writes == writes.deep_view()
                    &&& acc.rekeyed == rekeyed
                    &&& acc.pulled == pulled
                }),
            decreases n - i,
        {
            let item = &items[i];
            proof {
                assert(all.take(i + 1).drop_last() =~= all.take(i as int));
                assert(all.take(i + 1).last() == item@);
            }
            let resolved = links.get(&item.handle);
            let claimed = match resolved {
                Some(resolved) => unclaimed.remove(&resolved.link_id),
                None => None,
            };
            let placement = match (claimed, resolved) {
                (Some(old), Some(resolved)) => {
                    over.insert(old.handle.clone());
                    rekeyed += 1;
                    self.carry(old, item, resolved)
                },
                (_, _) => {
                    proof {
                        if let Some(resolved) = resolved {
                            assert(unclaimed@.remove(resolved.link_id@) =~= unclaimed@);
                        }
                    }
                    pulled += 1;
                    self.fresh(item, resolved)
                },
            };
            push(&mut writes, ReplicaWriteOp::UpsertPlacement(placement));
            i += 1;
        }
        assert(all.take(n as int) =~= all);
        let ghost middle = placed(start.collection, links@, seed, all);
        let ghost rows = old.deep_view();
        let m = old.len();
        i = 0;
        assert(rows.take(0) =~= Seq::empty());
        while i < m
            invariant
                m == old@.len(),
                i <= m,
                rows == old.deep_view(),
                rekeyed + pulled <= writes@.len(),
                ({
                    let acc = rescued(middle, rows.take(i as int));
                    &&& acc.carried == over@
                    &&& acc.writes == writes.deep_view()
                    &&& acc.rekeyed == rekeyed
                    &&& acc.pulled == pulled
                }),
            decreases m - i,
        {
            let placement = &old[i];
            proof {
                assert(rows.take(i + 1).drop_last() =~= rows.take(i as int));
                assert(rows.take(i + 1).last() == placement@);
            }
            if !over.contains(&placement.handle) && is_holding_edit(placement) {
                // edit beats delete, as where a remote delete races a local
                // edit
                let mut kept = placement.clone();
                kept.status = ReplicaStatus::Created;
                kept.conflict_revision = None;
                kept.conflict_object = None;
                kept.base = None;
                kept.origin = None;
                push(&mut writes, ReplicaWriteOp::UpsertPlacement(kept));
                over.insert(placement.handle.clone());
                let staged = writes.len();
                assert(rekeyed < staged);
                rekeyed += 1;
            }
            i += 1;
        }
        assert(rows.take(m as int) =~= rows);
        let dropped = count_lost(&over, &old);
        self.report = ReplicaRekeyReport { rekeyed, pulled, dropped };
        self.phase = RekeyPhase::PendingWrite;
        if let Some(checkpoint) = self.checkpoint.take() {
            push(
                &mut writes,
                ReplicaWriteOp::SetCheckpoint { collection: self.collection.clone(), checkpoint },
            );
        }
        ReplicaCoroutineState::Yielded(ReplicaYield::WantsWrite(writes))
    }
}

impl ReplicaCoroutine for ReplicaRekey {
    type Yield = ReplicaYield;

    type Return = Result<ReplicaRekeyReport, ReplicaRekeyError>;

    open spec fn wf(&self) -> bool {
        rekey_wf(self@)
    }

    open spec fn rank(&self) -> (nat, nat) {
        rekey_rank(self@)
    }

    open spec fn steps(
        before: Self,
        arg: Option<ReplicaArg>,
        after: Self,
        out: ReplicaCoroutineState<ReplicaYield, Result<ReplicaRekeyReport, ReplicaRekeyError>>,
    ) -> bool {
        (after@, step_view(out)) == rekey_step(before@, arg.deep_view())
    }

    fn resume(&mut self, arg: Option<ReplicaArg>) -> (r: ReplicaCoroutineState<
        ReplicaYield,
        Result<ReplicaRekeyReport, ReplicaRekeyError>,
    >)
        ensures
            (final(self)@, step_view(r)) == rekey_step(old(self)@, arg.deep_view()),
    {
        match (self.phase, arg) {
            (RekeyPhase::Start, None) => {
                self.phase = RekeyPhase::PendingLoad;
                ReplicaCoroutineState::Yielded(
                    ReplicaYield::WantsLoad {
                        collection: self.collection.clone(),
                        scope: ReplicaLoadScope::All,
                    },
                )
            },
            (RekeyPhase::PendingLoad, Some(ReplicaArg::Load(loaded))) => {
                self.old = loaded.placements;
                self.phase = RekeyPhase::PendingEnumerate;
                ReplicaCoroutineState::Yielded(
                    ReplicaYield::WantsEnumerate {
                        collection: self.collection.clone(),
                        cursor: None,
                    },
                )
            },
            (RekeyPhase::PendingEnumerate, Some(ReplicaArg::Enumerate(snapshot))) => {
                self.items = snapshot.items;
                self.checkpoint = Some(snapshot.checkpoint);
                if !has_links(&self.old) {
                    let links: ReplicaMap<ReplicaHandle, Resolved> = ReplicaMap::new();
                    return self.rebuild(&links);
                }
                self.phase = RekeyPhase::PendingFetch;
                ReplicaCoroutineState::Yielded(
                    ReplicaYield::WantsFetch {
                        collection: self.collection.clone(),
                        handles: item_handles(&self.items),
                        tier: ReplicaTier::Meta,
                    },
                )
            },
            (RekeyPhase::PendingFetch, Some(ReplicaArg::Fetch(fetched))) => {
                let links = index_resolutions(fetched);
                self.rebuild(&links)
            },
            (RekeyPhase::PendingWrite, Some(ReplicaArg::Write)) => {
                ReplicaCoroutineState::Complete(Ok(self.report))
            },
            (_, arg) => {
                let error = match refuse(&arg) {
                    ReplicaArgError::UnexpectedArg => ReplicaRekeyError::UnexpectedArg,
                    ReplicaArgError::MissingArg => ReplicaRekeyError::MissingArg,
                };
                ReplicaCoroutineState::Complete(Err(error))
            },
        }
    }
}

/// The reply a state waits for.
pub open spec fn rekey_awaits(phase: RekeyPhase, arg: Option<ArgView>) -> bool {
    match phase {
        RekeyPhase::Start => arg is None,
        RekeyPhase::PendingLoad => arg matches Some(ArgView::Load(_)),
        RekeyPhase::PendingEnumerate => arg matches Some(ArgView::Enumerate(_)),
        RekeyPhase::PendingFetch => arg matches Some(ArgView::Fetch(_)),
        RekeyPhase::PendingWrite => arg matches Some(ArgView::Write),
    }
}

/// A driver that answers every yield with its kind of reply never breaks the
/// contract: the reply awaited is never refused, and every answer to what is
/// asked for next is one awaited.
pub proof fn lemma_rekey_answered(s: RekeyView, arg: Option<ArgView>)
    requires
        rekey_awaits(s.phase, arg),
    ensures
        !(rekey_step(s, arg).1 is Failed),
        rekey_step(s, arg).1 matches StepView::Yielded(wanted) ==> forall|reply: ArgView|
            answers(wanted, reply) ==> #[trigger] rekey_awaits(
                rekey_step(s, arg).0.phase,
                Some(reply),
            ),
{
}

} // verus!
