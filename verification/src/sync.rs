//! I/O-free coroutine to reconcile a collection with its remote.
//!
//! Loads local state, enumerates the remote delta, then three-way
//! merges local, base and remote per placement: local-won changes are
//! pushed, remote-won ones pulled. Flags merge element-wise and never
//! conflict; only divergent content edits are kept as a conflict. The
//! merge compares per-placement identities (flags and a content
//! revision), never raw bytes: the complete probed spine plus the
//! per-placement base, not a missing body, is what tells deleted from
//! not-cached.
//!
//! An edit beats a delete in both directions: a remote update
//! resurrects a local tombstone, and a local staged edit survives a
//! remote delete as a pending create. Mutable-content backends carry
//! their edits in the content revision, immutable ones only flag and
//! membership changes; the merge shape is the same either way.
//!
//! [`reconcile`] decides one handle, [`join`] pairs the two sides up,
//! [`thaw`] releases frozen placements, and this module runs them: merge
//! in bounded write batches, push in bounded chunks, record each chunk
//! before the next goes out, and checkpoint last.

use vstd::prelude::*;

pub mod join;
pub mod options;
pub mod reconcile;
pub mod thaw;

pub use self::options::{
    ReplicaConflictPolicy, ReplicaDeletePolicy, ReplicaEvent, ReplicaPushRights,
    ReplicaSyncOptions, ReplicaSyncReport,
};

use self::join::{
    by_handle, candidates, index_placements, list_items, listed, set_of, Merge, MergeView,
};
use self::options::{empty_report, EventView, SyncReportView};
use self::reconcile::{
    merge, merged, rebase, rebased, CandidateView, Decision, DecisionView, Hold, HoldView,
};
use self::thaw::{thaw, thaw_writes, thawed_all, Seen};
use crate::change::{
    keyed, target, ChangeView, ReplicaChange, ReplicaDropReason, ReplicaWriteOp, WriteOpView,
};
use crate::collection::{ReplicaCheckpoint, ReplicaCollectionId};
use crate::coroutine::{
    answers, refusal, refuse, step_view, ArgView, ReplicaArg, ReplicaArgError, ReplicaCoroutine,
    ReplicaCoroutineState, ReplicaYield, StepView, YieldView,
};
use crate::order::{ascending, lemma_take_more, Text};
use crate::placement::{
    BaseView, FlagsView, PlacementView, ReplicaBase, ReplicaFlags, ReplicaHandle,
    ReplicaPlacement, ReplicaStatus,
};
use crate::remote::{
    PushResultView, RemoteSnapshotView, ReplicaPushOutcome, ReplicaPushResult,
    ReplicaRemoteSnapshot,
};
use crate::sorted::{ReplicaMap, ReplicaSet};
use crate::storage::{LoadScopeView, ReplicaLoadScope, ReplicaLoaded};
use crate::value::{append, holds, push, take, ReplicaSame, ReplicaValue};

verus! {

/// Where a sync stands.
#[derive(Clone, Copy, Debug, Eq, PartialEq, Structural)]
pub enum SyncPhase {
    /// Nothing has happened yet.
    Start,
    /// The local state is being loaded.
    PendingLoad,
    /// The remote is being enumerated.
    PendingEnumerate,
    /// A batch of merge writes is being stored, with more to merge.
    Merging,
    /// A chunk of changes is being pushed.
    PendingPush,
    /// A batch recording what was pushed is being stored.
    PendingWrite,
    /// The run is over.
    Done,
}

/// What a [`ReplicaSync`] stands for.
#[verifier::ext_equal]
pub struct SyncView {
    pub collection: Text,
    pub opts: ReplicaSyncOptions,
    pub phase: SyncPhase,
    /// The placements loaded, until the merge takes them.
    pub local: Map<Text, PlacementView>,
    /// The merge in progress.
    pub merging: Option<MergeView>,
    /// The writes no batch has taken yet.
    pub writes: Seq<WriteOpView>,
    /// The changes no chunk has taken yet, in derivation order.
    pub pushes: Seq<ChangeView>,
    /// The handles of the chunk awaiting its outcome.
    pub in_flight: Seq<Text>,
    /// The checkpoint to end the last batch with.
    pub next_checkpoint: Option<Seq<u8>>,
    /// The flag pushes awaiting their outcome.
    pub flag_pushes: Map<Text, PlacementView>,
    /// The content pushes awaiting their outcome.
    pub content_pushes: Map<Text, PlacementView>,
    /// The deletes awaiting their outcome.
    pub drops: Set<Text>,
    /// The creates awaiting their outcome.
    pub creates: Map<Text, PlacementView>,
    pub report: SyncReportView,
}

/// A sync that has not started.
pub open spec fn starting(collection: Text, opts: ReplicaSyncOptions) -> SyncView {
    SyncView {
        collection,
        opts,
        phase: SyncPhase::Start,
        local: Map::empty(),
        merging: None,
        writes: Seq::empty(),
        pushes: Seq::empty(),
        in_flight: Seq::empty(),
        next_checkpoint: None,
        flag_pushes: Map::empty(),
        content_pushes: Map::empty(),
        drops: Set::empty(),
        creates: Map::empty(),
        report: empty_report(),
    }
}

/// The batch of the writes so far, ended by the checkpoint once no chunk is
/// left to push.
pub open spec fn batch(s: SyncView) -> Seq<WriteOpView> {
    if s.pushes.len() == 0 && s.next_checkpoint is Some {
        s.writes.push(
            WriteOpView::SetCheckpoint {
                collection: s.collection,
                checkpoint: s.next_checkpoint->0,
            },
        )
    } else {
        s.writes
    }
}

/// The batch handed over for storage.
pub open spec fn storing(s: SyncView, phase: SyncPhase) -> (SyncView, SyncStep) {
    let after = SyncView {
        phase,
        writes: Seq::empty(),
        next_checkpoint: if s.pushes.len() == 0 {
            None
        } else {
            s.next_checkpoint
        },
        ..s
    };
    (after, StepView::Yielded(YieldView::WantsWrite(batch(s))))
}

/// What a step of a sync hands back.
pub type SyncStep = StepView<SyncReportView, ReplicaArgError>;

/// The members some changes act on.
pub open spec fn targets(changes: Seq<ChangeView>) -> Seq<Text> {
    Seq::new(changes.len(), |i: int| target(changes[i].kind))
}

/// How many changes the next chunk holds.
pub open spec fn chunk(s: SyncView) -> int {
    if s.pushes.len() < ReplicaSync::PUSH_CHUNK {
        s.pushes.len() as int
    } else {
        ReplicaSync::PUSH_CHUNK as int
    }
}

/// The next chunk pushed, or the last batch stored where there is none.
pub open spec fn sending(s: SyncView) -> (SyncView, SyncStep) {
    if s.pushes.len() == 0 {
        storing(s, SyncPhase::PendingWrite)
    } else {
        let changes = s.pushes.take(chunk(s));
        let after = SyncView {
            phase: SyncPhase::PendingPush,
            pushes: s.pushes.skip(chunk(s)),
            in_flight: targets(changes),
            ..s
        };
        (after, StepView::Yielded(YieldView::WantsPush { collection: s.collection, changes }))
    }
}

/// A decision taken up: its writes and its change queued, what its push
/// holds remembered, its counts and events reported.
pub open spec fn recorded(s: SyncView, d: DecisionView) -> SyncView {
    let s = SyncView {
        writes: s.writes + d.writes,
        report: SyncReportView {
            pulled: s.report.pulled + d.pulled,
            conflicts: s.report.conflicts + d.conflicts,
            refreshed: s.report.refreshed + d.refreshed,
            events: s.report.events + d.events,
            ..s.report
        },
        ..s
    };
    match d.change {
        Some(kind) => {
            let handle = target(kind);
            let s = SyncView { pushes: s.pushes.push(keyed(s.collection, kind)), ..s };
            match d.hold {
                HoldView::Nothing => s,
                HoldView::Flags(p) => SyncView { flag_pushes: s.flag_pushes.insert(handle, p), ..s },
                HoldView::Content(p) => SyncView {
                    content_pushes: s.content_pushes.insert(handle, p),
                    ..s
                },
                HoldView::Drop => SyncView { drops: s.drops.insert(handle), ..s },
                HoldView::Create(p) => SyncView { creates: s.creates.insert(handle, p), ..s },
            }
        },
        None => s,
    }
}

/// The next candidate merged.
#[verifier::opaque]
pub open spec fn advanced(s: SyncView) -> SyncView {
    let merge = s.merging->0;
    recorded(
        SyncView {
            merging: Some(MergeView { candidates: merge.candidates.drop_first(), ..merge }),
            ..s
        },
        merged(s.opts, s.collection, merge.candidates.first()),
    )
}

/// Candidates merged until the batch is full, or until they run out and the
/// run moves on to its pushes. The batch is cut between candidates, never
/// inside one: the writes one candidate derives are consistent only
/// together.
pub open spec fn merging_on(s: SyncView) -> (SyncView, SyncStep)
    decreases s.merging->0.candidates.len(),
{
    if s.merging->0.candidates.len() == 0 {
        sending(
            SyncView {
                merging: None,
                next_checkpoint: Some(s.merging->0.checkpoint),
                ..s
            },
        )
    } else {
        let next = advanced(s);
        proof {
            reveal(advanced);
        }
        if next.writes.len() >= ReplicaSync::WRITE_CHUNK {
            storing(next, SyncPhase::Merging)
        } else {
            merging_on(next)
        }
    }
}

/// What an enumeration shows of the handles placements record.
pub open spec fn seen(snapshot: RemoteSnapshotView) -> Seen {
    Seen {
        listed: listed(snapshot.items).dom(),
        vanished: snapshot.vanished.to_set(),
        complete: snapshot.complete,
    }
}

/// The merge opened over what the enumeration reported. Frozen placements it
/// releases are written first, then merged like any other.
pub open spec fn opened(s: SyncView, snapshot: RemoteSnapshotView) -> SyncView {
    let local = thawed_all(seen(snapshot), s.local);
    SyncView {
        local: Map::empty(),
        merging: Some(
            MergeView {
                candidates: candidates(local, snapshot),
                checkpoint: snapshot.checkpoint,
            },
        ),
        writes: s.writes + thaw_writes(seen(snapshot), s.local, ascending(s.local.dom())),
        ..s
    }
}

/// A write and the event of a push the remote accepted.
pub open spec fn confirmed(s: SyncView, writes: Seq<WriteOpView>, event: EventView) -> SyncView {
    SyncView {
        writes: s.writes + writes,
        report: SyncReportView { events: s.report.events.push(event), ..s.report },
        ..s
    }
}

/// An accepted content push rebased: the base pins the pushed body and the
/// revision the remote reported. The base flags stay, so a flag edit that
/// rode along still derives; a tombstone stays one, its move deriving next.
pub open spec fn content_rebased(local: PlacementView, revision: Option<Text>) -> PlacementView {
    let flags = match local.base {
        Some(base) => base.flags,
        None => FlagsView::Known(Set::empty()),
    };
    PlacementView {
        status: if local.status is Tombstone {
            ReplicaStatus::Tombstone
        } else if local.flags == flags {
            ReplicaStatus::Clean
        } else {
            ReplicaStatus::Dirty
        },
        base: Some(BaseView { flags, revision, object: local.object }),
        ..local
    }
}

/// An accepted create under its server-assigned handle, clean and based.
pub open spec fn placed(
    placeholder: PlacementView,
    handle: Text,
    revision: Option<Text>,
) -> PlacementView {
    PlacementView {
        handle,
        status: ReplicaStatus::Clean,
        origin: None,
        base: Some(
            BaseView { flags: placeholder.flags, revision, object: placeholder.object },
        ),
        ..placeholder
    }
}

/// A row dropped.
pub open spec fn dropping(
    collection: Text,
    handle: Text,
    reason: ReplicaDropReason,
) -> WriteOpView {
    WriteOpView::DropPlacement { collection, handle, reason }
}

/// An accepted flag push settled.
pub open spec fn flags_settled(s: SyncView, result: PushResultView) -> SyncView {
    let handle = result.handle;
    if s.flag_pushes.contains_key(handle) {
        let p = s.flag_pushes[handle];
        confirmed(
            SyncView { flag_pushes: s.flag_pushes.remove(handle), ..s },
            seq![WriteOpView::UpsertPlacement(rebased(p, p.flags))],
            EventView::FlagsChanged(handle),
        )
    } else {
        s
    }
}

/// An accepted content push settled.
pub open spec fn content_settled(s: SyncView, result: PushResultView) -> SyncView {
    let handle = result.handle;
    if s.content_pushes.contains_key(handle) {
        let p = s.content_pushes[handle];
        confirmed(
            SyncView { content_pushes: s.content_pushes.remove(handle), ..s },
            seq![WriteOpView::UpsertPlacement(content_rebased(p, result.revision))],
            EventView::ContentChanged(handle),
        )
    } else {
        s
    }
}

/// An accepted delete settled.
pub open spec fn drop_settled(s: SyncView, result: PushResultView) -> SyncView {
    let handle = result.handle;
    if s.drops.contains(handle) {
        confirmed(
            SyncView { drops: s.drops.remove(handle), ..s },
            seq![dropping(s.collection, handle, ReplicaDropReason::Deleted)],
            EventView::Vanished(handle),
        )
    } else {
        s
    }
}

/// An accepted create settled: rekeyed to the assigned handle, or dropped
/// where none was assigned, the next enumerate listing it by its real one.
pub open spec fn create_settled(s: SyncView, result: PushResultView) -> SyncView {
    let handle = result.handle;
    if s.creates.contains_key(handle) {
        let p = s.creates[handle];
        let drop = dropping(s.collection, p.handle, ReplicaDropReason::Superseded);
        let s = SyncView { creates: s.creates.remove(handle), ..s };
        match result.assigned {
            Some(assigned) => confirmed(
                s,
                seq![
                    drop,
                    WriteOpView::UpsertPlacement(placed(p, assigned, result.revision)),
                ],
                EventView::Created(assigned),
            ),
            None => confirmed(s, seq![drop], EventView::Created(handle)),
        }
    } else {
        s
    }
}

/// Whether a change of this run on `handle` has something held for its
/// outcome.
pub open spec fn held(s: SyncView, handle: Text) -> bool {
    s.flag_pushes.contains_key(handle) || s.content_pushes.contains_key(handle)
        || s.drops.contains(handle) || s.creates.contains_key(handle)
}

/// Whether a change on `handle` was pushed and awaits its outcome.
pub open spec fn awaits(s: SyncView, handle: Text) -> bool {
    s.in_flight.contains(handle) && held(s, handle)
}

/// The count after one more, up to the largest there is.
pub open spec fn counted(count: nat) -> nat {
    if count < usize::MAX {
        count + 1
    } else {
        count
    }
}

/// Whether some outcomes report the change on a handle rejected.
pub open spec fn rejects(results: Seq<PushResultView>, handle: Text) -> bool {
    exists|i: int|
        0 <= i < results.len() && (#[trigger] results[i]).handle == handle && results[i].outcome
            == ReplicaPushOutcome::Rejected
}

/// One push outcome settled, `again` being whether the same reply rejected
/// the change before. It counts only where the change was pushed and is not
/// settled yet, so a handle reported twice, or one nobody pushed, changes
/// nothing. A rejected one writes nothing and settles nothing: its placement
/// stays pending, for the next run or for an acceptance reported after all.
pub open spec fn settled(s: SyncView, result: PushResultView, again: bool) -> SyncView {
    if !awaits(s, result.handle) {
        s
    } else {
        match result.outcome {
            ReplicaPushOutcome::Accepted => {
                let after = create_settled(
                    drop_settled(content_settled(flags_settled(s, result), result), result),
                    result,
                );
                SyncView {
                    report: SyncReportView { pushed: after.report.pushed + 1, ..after.report },
                    ..after
                }
            },
            ReplicaPushOutcome::Rejected => if again {
                s
            } else {
                SyncView {
                    report: SyncReportView { rejected: counted(s.report.rejected), ..s.report },
                    ..s
                }
            },
        }
    }
}

/// Every push outcome settled, in the order reported.
pub open spec fn all_settled(s: SyncView, results: Seq<PushResultView>) -> SyncView
    decreases results.len(),
{
    if results.len() == 0 {
        s
    } else {
        let (before, last) = (results.drop_last(), results.last());
        settled(all_settled(s, before), last, rejects(before, last.handle))
    }
}

/// The chunk in flight forgotten: what it did not report on stays pending in
/// storage, and later chunks still wait for their own outcome.
pub open spec fn forgotten(s: SyncView) -> SyncView {
    let handles = s.in_flight.to_set();
    SyncView {
        in_flight: Seq::empty(),
        flag_pushes: s.flag_pushes.remove_keys(handles),
        content_pushes: s.content_pushes.remove_keys(handles),
        drops: s.drops.difference(handles),
        creates: s.creates.remove_keys(handles),
        ..s
    }
}

/// What resuming a sync with `arg` does.
pub open spec fn sync_step(s: SyncView, arg: Option<ArgView>) -> (SyncView, SyncStep) {
    match (s.phase, arg) {
        (SyncPhase::Start, None) => (
            SyncView { phase: SyncPhase::PendingLoad, ..s },
            StepView::Yielded(
                YieldView::WantsLoad { collection: s.collection, scope: LoadScopeView::All },
            ),
        ),
        (SyncPhase::PendingLoad, Some(ArgView::Load(loaded))) => (
            SyncView {
                phase: SyncPhase::PendingEnumerate,
                local: by_handle(loaded.placements),
                ..s
            },
            StepView::Yielded(
                YieldView::WantsEnumerate {
                    collection: s.collection,
                    cursor: if s.opts.full {
                        None
                    } else {
                        loaded.checkpoint
                    },
                },
            ),
        ),
        (SyncPhase::PendingEnumerate, Some(ArgView::Enumerate(snapshot))) => merging_on(
            opened(s, snapshot),
        ),
        (SyncPhase::Merging, Some(ArgView::Write)) => merging_on(s),
        (SyncPhase::PendingPush, Some(ArgView::Push(results))) => storing(
            forgotten(all_settled(s, results)),
            SyncPhase::PendingWrite,
        ),
        (SyncPhase::PendingWrite, Some(ArgView::Write)) => if s.pushes.len() > 0 {
            sending(s)
        } else {
            (
                SyncView { phase: SyncPhase::Done, report: empty_report(), ..s },
                StepView::Done(s.report),
            )
        },
        (_, _) => (s, StepView::Failed(refusal(arg))),
    }
}

/// I/O-free SYNC coroutine.
pub struct ReplicaSync {
    collection: ReplicaCollectionId,
    opts: ReplicaSyncOptions,
    phase: SyncPhase,
    local: ReplicaMap<ReplicaHandle, ReplicaPlacement>,
    /// The merge in progress, from the enumerate that opens it to the
    /// candidate that exhausts it.
    merging: Option<Merge>,
    writes: Vec<ReplicaWriteOp>,
    /// The changes the merge derived and no chunk has taken yet, in
    /// derivation order.
    pushes: Vec<ReplicaChange>,
    /// The handles of the chunk awaiting its outcome. Only these are
    /// forgotten when the outcomes land: a later chunk's are still
    /// waiting for their own.
    in_flight: Vec<ReplicaHandle>,
    /// The checkpoint the enumerate reported, held out of every
    /// intermediate write so it lands in the last one, once every chunk
    /// is recorded.
    next_checkpoint: Option<ReplicaCheckpoint>,
    /// Flag pushes awaiting their outcome: the local placement to
    /// rebase once the remote confirms. A rejected push leaves it dirty
    /// so the next sync retries.
    flag_pushes: ReplicaMap<ReplicaHandle, ReplicaPlacement>,
    /// Content pushes awaiting their outcome: the local placement whose
    /// base adopts the pushed body and reported revision. Kept apart
    /// from flag pushes so an accepted flag push on a conflicted
    /// placement is never misread as a resolved content push.
    content_pushes: ReplicaMap<ReplicaHandle, ReplicaPlacement>,
    /// Tombstone deletes awaiting their outcome: the placement is
    /// dropped only once the remote confirms. A rejected push keeps the
    /// tombstone, rather than dropping a member the server still has (a
    /// permanent desync under incremental sync).
    drops: ReplicaSet<ReplicaHandle>,
    /// Pending creates awaiting their outcome, keyed by provisional
    /// handle: the staged placement to rekey to the server-assigned
    /// handle. A rejected push keeps the placeholder for a retry.
    creates: ReplicaMap<ReplicaHandle, ReplicaPlacement>,
    report: ReplicaSyncReport,
}

impl View for ReplicaSync {
    type V = SyncView;

    closed spec fn view(&self) -> SyncView {
        SyncView {
            collection: self.collection@,
            opts: self.opts,
            phase: self.phase,
            local: self.local@,
            merging: self.merging.deep_view(),
            writes: self.writes.deep_view(),
            pushes: self.pushes.deep_view(),
            in_flight: self.in_flight.deep_view(),
            next_checkpoint: self.next_checkpoint.deep_view(),
            flag_pushes: self.flag_pushes@,
            content_pushes: self.content_pushes@,
            drops: self.drops@,
            creates: self.creates@,
            report: self.report@,
        }
    }
}

/// What every state of a sync keeps: nothing is counted that no event
/// reports, and a merge is in progress while one is awaited.
pub open spec fn sync_wf(s: SyncView) -> bool {
    &&& s.report.pulled + s.report.pushed + s.report.conflicts + s.report.refreshed
        <= s.report.events.len()
    &&& s.phase is Merging ==> s.merging is Some
}

/// How far a sync still is from its end.
pub open spec fn sync_rank(s: SyncView) -> (nat, nat) {
    match s.phase {
        SyncPhase::Start => (5, 0),
        SyncPhase::PendingLoad => (4, 0),
        SyncPhase::PendingEnumerate => (3, 0),
        SyncPhase::Merging => (2, s.merging->0.candidates.len()),
        SyncPhase::PendingPush => (1, 2 * s.pushes.len() + 1),
        SyncPhase::PendingWrite => (1, 2 * s.pushes.len()),
        SyncPhase::Done => (0, 0),
    }
}

impl ReplicaSync {
    /// How many changes one push chunk holds.
    ///
    /// A run records each chunk's outcomes before the next is pushed, so
    /// an interrupted run replays at most this many pushes. The bound is
    /// the engine's rather than a consumer option: what it bounds is a
    /// crash window, not throughput.
    pub const PUSH_CHUNK: usize = 64;

    /// How many storage writes one batch holds before the merge hands it
    /// over.
    ///
    /// A merge over a whole collection would otherwise hold a write per
    /// member until the last is resolved, so this bounds memory rather
    /// than a crash window: a lost batch costs a free re-merge, where a
    /// lost push costs a round trip. It is a floor, not a ceiling, and
    /// never cuts through the writes of one candidate.
    pub const WRITE_CHUNK: usize = 1024;

    /// Creates a coroutine that reconciles `collection`.
    pub fn new(collection: impl Into<ReplicaCollectionId>, opts: ReplicaSyncOptions) -> (r: Self)
        ensures
            sync_wf(r@),
            exists|id: ReplicaCollectionId| #[trigger]
                call_ensures(Into::<ReplicaCollectionId>::into, (collection,), id) && r@
                    == starting(id@, opts),
    {
        let collection = collection.into();
        let r = ReplicaSync {
            collection,
            opts,
            phase: SyncPhase::Start,
            local: ReplicaMap::new(),
            merging: None,
            writes: Vec::new(),
            pushes: Vec::new(),
            in_flight: Vec::new(),
            next_checkpoint: None,
            flag_pushes: ReplicaMap::new(),
            content_pushes: ReplicaMap::new(),
            drops: ReplicaSet::new(),
            creates: ReplicaMap::new(),
            report: ReplicaSyncReport::default(),
        };
        assert(r@ =~= starting(r.collection@, opts));
        r
    }

    /// Takes the writes accumulated so far, ending them with the checkpoint
    /// once every chunk has been serviced.
    ///
    /// The checkpoint lands in the last write of the run and stays the
    /// pre-push one, so the next delta enumeration re-lists the engine's
    /// own echo. An intermediate chunk must not carry it, or a crashed
    /// run would resume from a cursor claiming its unrecorded pushes
    /// were seen.
    fn batch(&mut self, phase: SyncPhase) -> (r: SyncState)
        ensures
            (final(self)@, step_view(r)) == storing(old(self)@, phase),
            r is Yielded,
    {
        self.phase = phase;
        let mut batch = take(&mut self.writes);
        if self.pushes.len() == 0 {
            if let Some(checkpoint) = self.next_checkpoint.take() {
                push(
                    &mut batch,
                    ReplicaWriteOp::SetCheckpoint {
                        collection: self.collection.clone(),
                        checkpoint,
                    },
                );
            }
        }
        ReplicaCoroutineState::Yielded(ReplicaYield::WantsWrite(batch))
    }

    /// Yields the next chunk of pushes, or the write recording the last one
    /// when there is no chunk left to send.
    fn step(&mut self) -> (r: SyncState)
        ensures
            (final(self)@, step_view(r)) == sending(old(self)@),
            r is Yielded,
    {
        if self.pushes.len() == 0 {
            return self.batch(SyncPhase::PendingWrite);
        }
        let ghost before = self.pushes.deep_view();
        let size: usize = if self.pushes.len() < Self::PUSH_CHUNK {
            self.pushes.len()
        } else {
            Self::PUSH_CHUNK
        };
        let mut changes = self.pushes.split_off(size);
        std::mem::swap(&mut changes, &mut self.pushes);
        self.in_flight = handles_of(&changes);
        self.phase = SyncPhase::PendingPush;
        proof {
            assert(changes.deep_view() =~= before.take(size as int));
            assert(self.pushes.deep_view() =~= before.skip(size as int));
        }
        ReplicaCoroutineState::Yielded(
            ReplicaYield::WantsPush { collection: self.collection.clone(), changes },
        )
    }

    /// Opens the three-way merge over what the enumerate reported.
    ///
    /// The join walks both sides in handle order, so an unordered snapshot
    /// is ordered rather than trusted. A handle listed twice collapses to
    /// its first item, which is all pairing it against a placement that
    /// exists once can mean.
    fn open_merge(&mut self, snapshot: ReplicaRemoteSnapshot)
        ensures
            final(self)@ == opened(old(self)@, snapshot@),
    {
        let ReplicaRemoteSnapshot { items, vanished, complete, checkpoint } = snapshot;
        let items = list_items(items);
        let vanished = set_of(&vanished);
        let mut local: ReplicaMap<ReplicaHandle, ReplicaPlacement> = ReplicaMap::new();
        std::mem::swap(&mut local, &mut self.local);
        let released = thaw(&mut local, &items, &vanished, complete);
        append(&mut self.writes, released);
        self.merging = Some(Merge::open(local, items, &vanished, complete, checkpoint));
    }

    /// Takes a decision up.
    fn record(&mut self, decision: Decision)
        requires
            sync_wf(old(self)@),
            decision@.pulled + decision@.conflicts + decision@.refreshed
                <= decision@.events.len(),
        ensures
            final(self)@ == recorded(old(self)@, decision@),
    {
        let Decision { writes, change, hold, events, pulled, conflicts, refreshed } = decision;
        append(&mut self.writes, writes);
        append(&mut self.report.events, events);
        let reported = self.report.events.len();
        assert(reported == self.report.events.deep_view().len());
        self.report.pulled += pulled;
        self.report.conflicts += conflicts;
        self.report.refreshed += refreshed;
        if let Some(kind) = change {
            let change = ReplicaChange::new(&self.collection, kind);
            let handle = change.handle().clone();
            push(&mut self.pushes, change);
            match hold {
                Hold::Nothing => {},
                Hold::Flags(placement) => {
                    self.flag_pushes.insert(handle, placement);
                },
                Hold::Content(placement) => {
                    self.content_pushes.insert(handle, placement);
                },
                Hold::Drop => {
                    self.drops.insert(handle);
                },
                Hold::Create(placement) => {
                    self.creates.insert(handle, placement);
                },
            }
        }
    }

    /// Merges the next candidate, reporting whether there was one.
    fn merge_next(&mut self) -> (r: bool)
        requires
            sync_wf(old(self)@),
            old(self)@.merging is Some,
        ensures
            r == (old(self)@.merging->0.candidates.len() > 0),
            r ==> {
                &&& final(self)@ == advanced(old(self)@)
                &&& sync_wf(final(self)@)
                &&& final(self)@.merging is Some
                &&& final(self)@.merging->0.candidates.len()
                    == old(self)@.merging->0.candidates.len() - 1
            },
            !r ==> final(self)@ == (SyncView {
                merging: None,
                next_checkpoint: Some(old(self)@.merging->0.checkpoint),
                ..old(self)@
            }),
    {
        let ghost before = self@;
        let mut merging = self.merging.take();
        let next = match &mut merging {
            Some(merging) => merging.next(),
            None => None,
        };
        match next {
            Some(candidate) => {
                self.merging = merging;
                proof {
                    reveal(advanced);
                    lemma_counted(before.opts, before.collection, candidate@);
                }
                let decision = merge(&self.opts, &self.collection, candidate);
                self.record(decision);
                true
            },
            None => {
                if let Some(merging) = merging {
                    self.next_checkpoint = Some(merging.close());
                }
                false
            },
        }
    }

    /// Merges candidates until the write batch is full, or until they run
    /// out and the run moves on to its pushes.
    fn merge_step(&mut self) -> (r: SyncState)
        requires
            sync_wf(old(self)@),
            old(self)@.merging is Some,
        ensures
            (final(self)@, step_view(r)) == merging_on(old(self)@),
            sync_wf(final(self)@),
            r is Yielded,
            final(self)@.phase is Merging ==> final(self)@.merging->0.candidates.len()
                < old(self)@.merging->0.candidates.len(),
            final(self)@.phase is Merging || final(self)@.phase is PendingPush
                || final(self)@.phase is PendingWrite,
    {
        let ghost start = self@;
        loop
            invariant
                start == old(self)@,
                sync_wf(self@),
                self@.merging is Some,
                self@.merging->0.candidates.len() <= start.merging->0.candidates.len(),
                merging_on(self@) == merging_on(start),
            decreases self@.merging->0.candidates.len(),
        {
            if !self.merge_next() {
                return self.step();
            }
            if self.writes.len() >= Self::WRITE_CHUNK {
                return self.batch(SyncPhase::Merging);
            }
        }
    }
}

/// What a step of a sync hands back.
type SyncState = ReplicaCoroutineState<ReplicaYield, Result<ReplicaSyncReport, ReplicaArgError>>;

fn handles_of(changes: &Vec<ReplicaChange>) -> (r: Vec<ReplicaHandle>)
    ensures
        r.deep_view() == targets(changes.deep_view()),
{
    let mut handles: Vec<ReplicaHandle> = Vec::new();
    let n = changes.len();
    let mut i: usize = 0;
    while i < n
        invariant
            n == changes@.len(),
            i <= n,
            handles.deep_view().len() == i,
            forall|j: int|
                0 <= j < i ==> #[trigger] handles.deep_view()[j] == target(changes.deep_view()[j].kind),
        decreases n - i,
    {
        push(&mut handles, changes[i].handle().clone());
        i += 1;
    }
    assert(handles.deep_view() =~= targets(changes.deep_view()));
    handles
}

/// Nothing a merge counts goes unreported: every count comes with an event.
pub proof fn lemma_counted(opts: ReplicaSyncOptions, collection: Text, candidate: CandidateView)
    ensures
        ({
            let d = merged(opts, collection, candidate);
            d.pulled + d.conflicts + d.refreshed <= d.events.len()
        }),
{
}

/// Rebases an accepted content push: the base pins the pushed body and the
/// revision the remote reported. The base flags are left as they were, so a
/// flag edit that rode along stays derivable and pushes on the next sync.
fn rebase_content(local: &ReplicaPlacement, revision: Option<String>) -> (r: ReplicaPlacement)
    ensures
        r@ == content_rebased(local@, revision.deep_view()),
{
    let flags = match &local.base {
        Some(base) => base.flags.clone(),
        None => ReplicaFlags::default(),
    };
    let mut updated = local.clone();
    // a tombstone stays one: its edit pushed ahead of the pending move,
    // which derives on the next sync
    updated.status =
    if local.status == ReplicaStatus::Tombstone {
        ReplicaStatus::Tombstone
    } else if local.flags.same(&flags) {
        ReplicaStatus::Clean
    } else {
        ReplicaStatus::Dirty
    };
    updated.base = Some(ReplicaBase { flags, revision, object: local.object.copied() });
    updated
}

/// Rekeys an accepted create: the same placement under the server-assigned
/// `handle`, clean and based, so the next enumerate reconciles it as already
/// in sync.
fn rekey_create(
    placeholder: ReplicaPlacement,
    handle: ReplicaHandle,
    revision: Option<String>,
) -> (r: ReplicaPlacement)
    ensures
        r@ == placed(placeholder@, handle@, revision.deep_view()),
{
    let mut placed = placeholder;
    placed.handle = handle;
    placed.status = ReplicaStatus::Clean;
    placed.origin = None;
    placed.base = Some(
        ReplicaBase { flags: placed.flags.clone(), revision, object: placed.object.copied() },
    );
    placed
}

impl ReplicaSync {
    /// Records a per-item event for the report.
    fn emit(&mut self, event: ReplicaEvent)
        ensures
            final(self)@ == confirmed(old(self)@, Seq::empty(), event@),
    {
        push(&mut self.report.events, event);
        assert(self@.writes =~= old(self)@.writes + Seq::empty());
    }

    /// Queues a write.
    fn write(&mut self, write: ReplicaWriteOp)
        ensures
            final(self)@ == (SyncView { writes: old(self)@.writes.push(write@), ..old(self)@ }),
    {
        push(&mut self.writes, write);
    }

    /// Queues the drop of a row.
    fn drop_row(&mut self, handle: ReplicaHandle, reason: ReplicaDropReason)
        ensures
            final(self)@ == (SyncView {
                writes: old(self)@.writes.push(
                    dropping(old(self)@.collection, handle@, reason),
                ),
                ..old(self)@
            }),
    {
        let collection = self.collection.clone();
        self.write(ReplicaWriteOp::DropPlacement { collection, handle, reason });
    }

    fn settle_flags(&mut self, result: &ReplicaPushResult)
        ensures
            final(self)@ == flags_settled(old(self)@, result@),
    {
        let ghost before = self@;
        match self.flag_pushes.remove(&result.handle) {
            Some(placement) => {
                let updated = rebase(&placement, &placement.flags);
                self.write(ReplicaWriteOp::UpsertPlacement(updated));
                self.emit(ReplicaEvent::FlagsChanged(result.handle.clone()));
                assert(self@ =~= flags_settled(before, result@));
            },
            None => {
                assert(self@ =~= before);
            },
        }
    }

    fn settle_content(&mut self, result: &ReplicaPushResult)
        ensures
            final(self)@ == content_settled(old(self)@, result@),
    {
        let ghost before = self@;
        match self.content_pushes.remove(&result.handle) {
            Some(placement) => {
                let updated = rebase_content(&placement, result.revision.copied());
                self.write(ReplicaWriteOp::UpsertPlacement(updated));
                self.emit(ReplicaEvent::ContentChanged(result.handle.clone()));
                assert(self@ =~= content_settled(before, result@));
            },
            None => {
                assert(self@ =~= before);
            },
        }
    }

    fn settle_drop(&mut self, result: &ReplicaPushResult)
        ensures
            final(self)@ == drop_settled(old(self)@, result@),
    {
        let ghost before = self@;
        if self.drops.remove(&result.handle) {
            self.drop_row(result.handle.clone(), ReplicaDropReason::Deleted);
            self.emit(ReplicaEvent::Vanished(result.handle.clone()));
            assert(self@ =~= drop_settled(before, result@));
        } else {
            assert(self@ =~= before);
        }
    }

    fn settle_create(&mut self, result: &ReplicaPushResult)
        ensures
            final(self)@ == create_settled(old(self)@, result@),
    {
        let ghost before = self@;
        match self.creates.remove(&result.handle) {
            Some(placeholder) => {
                self.drop_row(placeholder.handle.clone(), ReplicaDropReason::Superseded);
                let created = match &result.assigned {
                    Some(assigned) => {
                        let placed = rekey_create(
                            placeholder,
                            assigned.clone(),
                            result.revision.copied(),
                        );
                        self.write(ReplicaWriteOp::UpsertPlacement(placed));
                        assigned.clone()
                    },
                    None => result.handle.clone(),
                };
                self.emit(ReplicaEvent::Created(created));
                assert(self@ =~= create_settled(before, result@));
            },
            None => {
                assert(self@ =~= before);
            },
        }
    }

    /// Reports whether a change on `handle` was pushed and awaits its
    /// outcome.
    fn is_awaited(&self, handle: &ReplicaHandle) -> (r: bool)
        ensures
            r == awaits(self@, handle@),
    {
        holds(&self.in_flight, handle) && (self.flag_pushes.contains_key(handle)
            || self.content_pushes.contains_key(handle) || self.drops.contains(handle)
            || self.creates.contains_key(handle))
    }

    /// Settles one push outcome.
    fn settle(&mut self, result: &ReplicaPushResult, again: bool)
        requires
            sync_wf(old(self)@),
        ensures
            final(self)@ == settled(old(self)@, result@, again),
            sync_wf(final(self)@),
    {
        if !self.is_awaited(&result.handle) {
            return;
        }
        match result.outcome {
            ReplicaPushOutcome::Accepted => {
                self.settle_flags(result);
                self.settle_content(result);
                self.settle_drop(result);
                self.settle_create(result);
                let reported = self.report.events.len();
                assert(reported == self.report.events.deep_view().len());
                self.report.pushed += 1;
            },
            ReplicaPushOutcome::Rejected => {
                if !again && self.report.rejected < usize::MAX {
                    self.report.rejected += 1;
                }
            },
        }
    }

    /// Settles every push outcome.
    fn settle_all(&mut self, results: &Vec<ReplicaPushResult>)
        requires
            sync_wf(old(self)@),
        ensures
            final(self)@ == all_settled(old(self)@, results.deep_view()),
            sync_wf(final(self)@),
    {
        let ghost start = self@;
        let ghost all = results.deep_view();
        let mut refused: ReplicaSet<ReplicaHandle> = ReplicaSet::new();
        let n = results.len();
        let mut i: usize = 0;
        assert(all.take(0) =~= Seq::empty());
        while i < n
            invariant
                n == results@.len(),
                i <= n,
                all == results.deep_view(),
                sync_wf(self@),
                self@ == all_settled(start, all.take(i as int)),
                forall|h: Text| #[trigger]
                    refused@.contains(h) <==> rejects(all.take(i as int), h),
            decreases n - i,
        {
            let result = &results[i];
            proof {
                let (before, more) = (all.take(i as int), all.take(i + 1));
                assert(more.drop_last() =~= before);
                assert(more.last() == result@);
                lemma_rejects_more(before, result@);
                assert(more =~= before.push(result@));
            }
            self.settle(result, refused.contains(&result.handle));
            if result.outcome == ReplicaPushOutcome::Rejected {
                refused.insert(result.handle.clone());
            }
            i += 1;
        }
        assert(all.take(n as int) =~= all);
    }

    /// Forgets the chunk in flight.
    fn forget(&mut self)
        ensures
            final(self)@ == forgotten(old(self)@),
    {
        let ghost start = self@;
        let handles = take(&mut self.in_flight);
        let ghost all = handles.deep_view();
        let n = handles.len();
        let mut i: usize = 0;
        proof {
            let none = all.take(0).to_set();
            assert(none =~= Set::empty());
            assert(self@ =~= (SyncView {
                in_flight: Seq::empty(),
                flag_pushes: start.flag_pushes.remove_keys(none),
                content_pushes: start.content_pushes.remove_keys(none),
                drops: start.drops.difference(none),
                creates: start.creates.remove_keys(none),
                ..start
            }));
        }
        while i < n
            invariant
                n == handles@.len(),
                i <= n,
                all == handles.deep_view(),
                ({
                    let some = all.take(i as int).to_set();
                    self@ == (SyncView {
                        in_flight: Seq::empty(),
                        flag_pushes: start.flag_pushes.remove_keys(some),
                        content_pushes: start.content_pushes.remove_keys(some),
                        drops: start.drops.difference(some),
                        creates: start.creates.remove_keys(some),
                        ..start
                    })
                }),
            decreases n - i,
        {
            let handle = &handles[i];
            let ghost before = self@;
            self.flag_pushes.remove(handle);
            self.content_pushes.remove(handle);
            self.drops.remove(handle);
            self.creates.remove(handle);
            proof {
                let (some, more) = (all.take(i as int).to_set(), all.take(i + 1).to_set());
                lemma_take_more(all, i as int);
                assert forall|t: Text| #[trigger] more.contains(t) <==> some.contains(t) || t
                    == handle@ by {
                    assert(more.contains(t) <==> all.take(i + 1).contains(t));
                    assert(some.contains(t) <==> all.take(i as int).contains(t));
                }
                assert(more =~= some.insert(handle@));
                assert(self@.flag_pushes =~= start.flag_pushes.remove_keys(more));
                assert(self@.content_pushes =~= start.content_pushes.remove_keys(more));
                assert(self@.drops =~= start.drops.difference(more));
                assert(self@.creates =~= start.creates.remove_keys(more));
            }
            i += 1;
        }
        assert(all.take(n as int) =~= all);
    }
}

/// Which changes one more outcome leaves reported rejected.
pub proof fn lemma_rejects_more(results: Seq<PushResultView>, last: PushResultView)
    ensures
        forall|h: Text| #[trigger]
            rejects(results.push(last), h) <==> rejects(results, h) || (last.handle == h
                && last.outcome == ReplicaPushOutcome::Rejected),
{
    let all = results.push(last);
    assert forall|h: Text| #[trigger] rejects(all, h) <==> rejects(results, h) || (last.handle == h
        && last.outcome == ReplicaPushOutcome::Rejected) by {
        if rejects(results, h) {
            let i = choose|i: int|
                0 <= i < results.len() && (#[trigger] results[i]).handle == h && results[i].outcome
                    == ReplicaPushOutcome::Rejected;
            assert(all[i] == results[i]);
        }
        assert(all[results.len() as int] == last);
        if rejects(all, h) {
            let i = choose|i: int|
                0 <= i < all.len() && (#[trigger] all[i]).handle == h && all[i].outcome
                    == ReplicaPushOutcome::Rejected;
            if i < results.len() {
                assert(results[i] == all[i]);
            }
        }
    }
}

/// Settling outcomes leaves the changes still to push, and where the run
/// stands, as they were.
pub proof fn lemma_settled_keeps(s: SyncView, results: Seq<PushResultView>)
    ensures
        ({
            let after = all_settled(s, results);
            &&& after.collection == s.collection
            &&& after.opts == s.opts
            &&& after.phase == s.phase
            &&& after.local == s.local
            &&& after.merging == s.merging
            &&& after.pushes == s.pushes
            &&& after.in_flight == s.in_flight
            &&& after.next_checkpoint == s.next_checkpoint
        }),
    decreases results.len(),
{
    if results.len() > 0 {
        lemma_settled_keeps(s, results.drop_last());
    }
}

impl ReplicaCoroutine for ReplicaSync {
    type Yield = ReplicaYield;

    type Return = Result<ReplicaSyncReport, ReplicaArgError>;

    open spec fn wf(&self) -> bool {
        sync_wf(self@)
    }

    open spec fn rank(&self) -> (nat, nat) {
        sync_rank(self@)
    }

    open spec fn steps(
        before: Self,
        arg: Option<ReplicaArg>,
        after: Self,
        out: ReplicaCoroutineState<ReplicaYield, Result<ReplicaSyncReport, ReplicaArgError>>,
    ) -> bool {
        (after@, step_view(out)) == sync_step(before@, arg.deep_view())
    }

    fn resume(&mut self, arg: Option<ReplicaArg>) -> (r: ReplicaCoroutineState<
        ReplicaYield,
        Result<ReplicaSyncReport, ReplicaArgError>,
    >)
        ensures
            (final(self)@, step_view(r)) == sync_step(old(self)@, arg.deep_view()),
    {
        match (self.phase, arg) {
            (SyncPhase::Start, None) => {
                self.phase = SyncPhase::PendingLoad;
                ReplicaCoroutineState::Yielded(
                    ReplicaYield::WantsLoad {
                        collection: self.collection.clone(),
                        scope: ReplicaLoadScope::All,
                    },
                )
            },
            (SyncPhase::PendingLoad, Some(ReplicaArg::Load(loaded))) => {
                let ReplicaLoaded { placements, checkpoint } = loaded;
                self.local = index_placements(placements);
                self.phase = SyncPhase::PendingEnumerate;
                // a full sync ignores the checkpoint, so the enumerate yields
                // the whole remote and the merge reconciles the entire spine
                let cursor = if self.opts.full {
                    None
                } else {
                    checkpoint
                };
                ReplicaCoroutineState::Yielded(
                    ReplicaYield::WantsEnumerate { collection: self.collection.clone(), cursor },
                )
            },
            (SyncPhase::PendingEnumerate, Some(ReplicaArg::Enumerate(snapshot))) => {
                self.open_merge(snapshot);
                self.merge_step()
            },
            (SyncPhase::Merging, Some(ReplicaArg::Write)) => self.merge_step(),
            (SyncPhase::PendingPush, Some(ReplicaArg::Push(results))) => {
                proof {
                    lemma_settled_keeps(self@, results.deep_view());
                }
                self.settle_all(&results);
                self.forget();
                self.batch(SyncPhase::PendingWrite)
            },
            (SyncPhase::PendingWrite, Some(ReplicaArg::Write)) => {
                // the chunk this write recorded is safe from a replay, so the
                // next one goes out only now
                if self.pushes.len() > 0 {
                    return self.step();
                }
                // a completed coroutine stays completed, so resuming a
                // finished sync errors rather than handing back an empty
                // report a caller cannot tell from a run that did nothing
                self.phase = SyncPhase::Done;
                let mut report = ReplicaSyncReport::default();
                std::mem::swap(&mut report, &mut self.report);
                ReplicaCoroutineState::Complete(Ok(report))
            },
            (_, arg) => ReplicaCoroutineState::Complete(Err(refuse(&arg))),
        }
    }
}

/// How merging on ends its step: a batch or a chunk is handed over.
pub proof fn lemma_merging_on(s: SyncView)
    ensures
        ({
            let (after, out) = merging_on(s);
            match out {
                StepView::Yielded(YieldView::WantsWrite(_)) => after.phase is Merging
                    || after.phase is PendingWrite,
                StepView::Yielded(YieldView::WantsPush { .. }) => after.phase is PendingPush,
                _ => false,
            }
        }),
    decreases s.merging->0.candidates.len(),
{
    if s.merging->0.candidates.len() > 0 {
        reveal(advanced);
        if advanced(s).writes.len() < ReplicaSync::WRITE_CHUNK {
            lemma_merging_on(advanced(s));
        }
    }
}

/// The reply a state waits for.
pub open spec fn sync_awaits(phase: SyncPhase, arg: Option<ArgView>) -> bool {
    match phase {
        SyncPhase::Start => arg is None,
        SyncPhase::PendingLoad => arg matches Some(ArgView::Load(_)),
        SyncPhase::PendingEnumerate => arg matches Some(ArgView::Enumerate(_)),
        SyncPhase::Merging => arg matches Some(ArgView::Write),
        SyncPhase::PendingPush => arg matches Some(ArgView::Push(_)),
        SyncPhase::PendingWrite => arg matches Some(ArgView::Write),
        SyncPhase::Done => false,
    }
}

/// A driver that answers every yield with its kind of reply never breaks the
/// contract: the reply awaited is never refused, and every answer to what is
/// asked for next is one awaited.
pub proof fn lemma_sync_answered(s: SyncView, arg: Option<ArgView>)
    requires
        sync_awaits(s.phase, arg),
    ensures
        !(sync_step(s, arg).1 is Failed),
        sync_step(s, arg).1 matches StepView::Yielded(wanted) ==> forall|reply: ArgView|
            answers(wanted, reply) ==> #[trigger] sync_awaits(
                sync_step(s, arg).0.phase,
                Some(reply),
            ),
{
    match arg {
        Some(ArgView::Enumerate(snapshot)) => lemma_merging_on(opened(s, snapshot)),
        _ => lemma_merging_on(s),
    }
}

} // verus!
