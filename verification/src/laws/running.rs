//! A sync from its first step to its last: what every state keeps, when the
//! checkpoint is stored, and what an outcome may change.

use vstd::prelude::*;

use crate::change::{ChangeKindView, WriteOpView};
use crate::coroutine::{refusal, ArgView, StepView, YieldView};
use crate::laws::flags::{agreeing_sides_converge, an_unchanged_set_stays};
use crate::laws::joining::{
    a_listed_handle_means_its_first_item, a_load_is_filed, each_handle_is_decided_at_most_once,
    is_filed, is_in_order,
};
use crate::laws::merging::{
    a_change_is_about_its_candidate, an_unchanged_placement_is_left_alone, is_paired,
};
use crate::order::{ascending, lemma_less_asymmetric, lemma_less_irreflexive, less, Text};
use crate::placement::PlacementView;
use crate::remote::{PushResultView, RemoteItemView, RemoteSnapshotView, ReplicaPushOutcome};
use crate::sync::join::{candidates, joined, listed, narrowed};
use crate::sync::options::{ReplicaSyncOptions, SyncReportView};
use crate::sync::reconcile::{
    base_revision, edited, merged, nothing, pushes_flags, rebased, reconciled, revised, CandidateView,
};
use crate::sync::thaw::{thaw_writes, thawed_all, Seen};
use crate::sync::{
    advanced, all_settled, awaits, chunk, content_rebased, content_settled, counted,
    create_settled, drop_settled, flags_settled, forgotten, held, lemma_merging_on,
    lemma_rejects_more, lemma_settled_keeps, merging_on, opened, placed, rejects, seen, sending,
    settled, starting, storing, sync_awaits, sync_step, targets, ReplicaSync, SyncPhase, SyncStep, SyncView,
};

verus! {

/// Whether a batch holds no checkpoint.
pub open spec fn has_no_checkpoint(ops: Seq<WriteOpView>) -> bool {
    forall|i: int| 0 <= i < ops.len() ==> !(#[trigger] ops[i] is SetCheckpoint)
}

/// The handles of the changes not answered yet: the chunk in flight, then
/// the queue.
pub open spec fn unanswered(s: SyncView) -> Seq<Text> {
    s.in_flight + targets(s.pushes)
}

/// Whether no handle is named twice.
pub open spec fn names_once(handles: Seq<Text>) -> bool {
    forall|i: int, j: int| 0 <= i < j < handles.len() ==> #[trigger] handles[i] != #[trigger] handles[j]
}

/// Whether each handle awaits one outcome at most, and only of a change that
/// is not answered yet.
pub open spec fn holds_are_queued(s: SyncView) -> bool {
    &&& forall|h: Text| #[trigger] held(s, h) ==> unanswered(s).contains(h)
    &&& forall|h: Text| #[trigger]
        s.flag_pushes.contains_key(h) ==> !s.content_pushes.contains_key(h) && !s.drops.contains(h)
            && !s.creates.contains_key(h)
    &&& forall|h: Text| #[trigger]
        s.content_pushes.contains_key(h) ==> !s.drops.contains(h) && !s.creates.contains_key(h)
    &&& forall|h: Text| #[trigger] s.drops.contains(h) ==> !s.creates.contains_key(h)
}

/// Whether the candidates left are in order, are each about one handle, and
/// come after every handle a change was derived for.
pub open spec fn merge_is_ahead(s: SyncView) -> bool {
    s.merging matches Some(merge) ==> {
        &&& is_in_order(merge.candidates)
        &&& forall|i: int| 0 <= i < merge.candidates.len() ==> is_paired(#[trigger] merge.candidates[i])
        &&& forall|i: int, k: int|
            0 <= i < merge.candidates.len() && 0 <= k < unanswered(s).len() ==> less(
                #[trigger] unanswered(s)[k],
                (#[trigger] merge.candidates[i]).handle,
            )
    }
}

/// Whether the checkpoint is where the phase says: not known while anything
/// is left to merge, held while anything is left to push, stored after.
pub open spec fn checkpoint_is_last(s: SyncView) -> bool {
    match s.phase {
        SyncPhase::Start => s.merging is None && s.next_checkpoint is None,
        SyncPhase::PendingLoad => s.merging is None && s.next_checkpoint is None,
        SyncPhase::PendingEnumerate => s.merging is None && s.next_checkpoint is None,
        SyncPhase::Merging => s.merging is Some && s.next_checkpoint is None,
        SyncPhase::PendingPush => s.merging is None && s.next_checkpoint is Some,
        SyncPhase::PendingWrite => s.merging is None && (s.next_checkpoint is Some <==> s.pushes.len()
            > 0),
        SyncPhase::Done => s.merging is None && s.next_checkpoint is None && s.pushes.len() == 0,
    }
}

/// What every state of a run keeps.
pub open spec fn sync_inv(s: SyncView) -> bool {
    &&& has_no_checkpoint(s.writes)
    &&& is_filed(s.local)
    &&& names_once(unanswered(s))
    &&& holds_are_queued(s)
    &&& merge_is_ahead(s)
    &&& checkpoint_is_last(s)
    &&& !(s.phase is PendingPush) ==> s.in_flight.len() == 0
    &&& s.phase is Start || s.phase is PendingLoad || s.phase is PendingEnumerate
        ==> s.pushes.len() == 0 && s.writes.len() == 0
}

/// A run starts in such a state.
pub proof fn a_run_starts_sound(collection: Text, opts: ReplicaSyncOptions)
    ensures
        sync_inv(starting(collection, opts)),
{
}

/// What a state keeps between two candidates, or between two chunks.
pub open spec fn is_between(s: SyncView) -> bool {
    &&& has_no_checkpoint(s.writes)
    &&& is_filed(s.local)
    &&& names_once(unanswered(s))
    &&& holds_are_queued(s)
    &&& merge_is_ahead(s)
    &&& s.in_flight.len() == 0
}

/// Recording a decision about a handle after every one named so far.
pub proof fn lemma_advanced_keeps(s: SyncView)
    requires
        is_between(s),
        s.merging matches Some(merge) && merge.candidates.len() > 0,
    ensures
        is_between(advanced(s)),
        advanced(s).next_checkpoint == s.next_checkpoint,
        advanced(s).merging matches Some(merge) && merge.candidates
            == s.merging->0.candidates.drop_first(),
{
    reveal(advanced);
    let t = advanced(s);
    let (before, after) = (s.merging->0.candidates, t.merging->0.candidates);
    let c = before.first();
    assert(is_paired(before[0]));
    let d = merged(s.opts, s.collection, c);
    a_change_is_about_its_candidate(s.opts, s.collection, c);
    lemma_merged_has_no_checkpoint(s.opts, s.collection, c);
    assert forall|i: int| 0 <= i < t.writes.len() implies !(#[trigger] t.writes[i] is SetCheckpoint) by {
        if i < s.writes.len() {
            assert(t.writes[i] == s.writes[i]);
        } else {
            assert(t.writes[i] == d.writes[i - s.writes.len()]);
        }
    }
    let (u, v) = (unanswered(s), unanswered(t));
    if d.change is Some {
        assert(v =~= u.push(c.handle));
    } else {
        assert(v =~= u);
    }
    assert forall|k: int| 0 <= k < u.len() implies less(#[trigger] u[k], c.handle) by {
        assert(less(u[k], before[0].handle));
    }
    assert forall|i: int, j: int| 0 <= i < j < v.len() implies #[trigger] v[i] != #[trigger] v[j] by {
        if j == u.len() {
            lemma_less_asymmetric(u[i], c.handle);
        } else {
            assert(u[i] != u[j]);
        }
    }
    assert forall|h: Text| #[trigger] held(t, h) implies v.contains(h) by {
        if h == c.handle && d.change is Some {
            assert(v[u.len() as int] == h);
        } else {
            assert(held(s, h));
            let k = choose|k: int| 0 <= k < u.len() && u[k] == h;
            assert(v[k] == h);
        }
    }
    assert(!held(s, c.handle)) by {
        if held(s, c.handle) {
            let k = choose|k: int| 0 <= k < u.len() && u[k] == c.handle;
            lemma_less_irreflexive(c.handle);
        }
    }
    assert forall|i: int, k: int| 0 <= i < after.len() && 0 <= k < v.len() implies less(
        #[trigger] v[k],
        (#[trigger] after[i]).handle,
    ) by {
        assert(after[i] == before[i + 1]);
        if k < u.len() {
            assert(v[k] == u[k]);
            assert(less(u[k], before[i + 1].handle));
        } else {
            assert(less(before[0].handle, before[i + 1].handle));
        }
    }
    assert forall|i: int, j: int| 0 <= i < j < after.len() implies less(
        (#[trigger] after[i]).handle,
        (#[trigger] after[j]).handle,
    ) by {
        assert(less(before[i + 1].handle, before[j + 1].handle));
    }
    assert forall|i: int| 0 <= i < after.len() implies is_paired(#[trigger] after[i]) by {
        assert(is_paired(before[i + 1]));
    }
}

proof fn lemma_merged_has_no_checkpoint(
    opts: ReplicaSyncOptions,
    collection: Text,
    c: CandidateView,
)
    ensures
        has_no_checkpoint(merged(opts, collection, c).writes),
{
}

/// Pushing a chunk takes it off the queue, in order.
proof fn lemma_sending_keeps(s: SyncView)
    requires
        is_between(s),
        s.merging is None,
        s.next_checkpoint is Some,
    ensures
        sync_inv(sending(s).0),
{
    let t = sending(s).0;
    if s.pushes.len() > 0 {
        let (head, tail) = (s.pushes.take(chunk(s)), s.pushes.skip(chunk(s)));
        assert(unanswered(t) =~= unanswered(s)) by {
            assert(targets(head) + targets(tail) =~= targets(s.pushes));
        }
        assert forall|h: Text| #[trigger] held(t, h) implies unanswered(t).contains(h) by {
            assert(held(s, h));
        }
    } else {
        assert(unanswered(t) =~= unanswered(s));
        assert forall|h: Text| #[trigger] held(t, h) implies unanswered(t).contains(h) by {
            assert(held(s, h));
        }
    }
}

proof fn lemma_merging_on_keeps(s: SyncView)
    requires
        is_between(s),
        s.merging is Some,
        s.next_checkpoint is None,
    ensures
        sync_inv(merging_on(s).0),
    decreases s.merging->0.candidates.len(),
{
    if s.merging->0.candidates.len() == 0 {
        let t = SyncView {
            merging: None,
            next_checkpoint: Some(s.merging->0.checkpoint),
            ..s
        };
        assert(unanswered(t) =~= unanswered(s));
        assert forall|h: Text| #[trigger] held(t, h) implies unanswered(t).contains(h) by {
            assert(held(s, h));
        }
        lemma_sending_keeps(t);
    } else {
        lemma_advanced_keeps(s);
        let next = advanced(s);
        if next.writes.len() >= ReplicaSync::WRITE_CHUNK {
            let t = storing(next, SyncPhase::Merging).0;
            assert(unanswered(t) =~= unanswered(next));
            assert forall|h: Text| #[trigger] held(t, h) implies unanswered(t).contains(h) by {
                assert(held(next, h));
            }
        } else {
            lemma_merging_on_keeps(next);
        }
    }
}

proof fn lemma_thaw_has_no_checkpoint(
    seen: Seen,
    local: Map<Text, PlacementView>,
    handles: Seq<Text>,
)
    ensures
        has_no_checkpoint(thaw_writes(seen, local, handles)),
    decreases handles.len(),
{
    if handles.len() > 0 {
        lemma_thaw_has_no_checkpoint(seen, local, handles.drop_last());
    }
}

/// Both sides of every candidate are about its handle.
pub proof fn every_candidate_is_about_its_handle(
    local: Map<Text, PlacementView>,
    snapshot: RemoteSnapshotView,
)
    requires
        is_filed(local),
    ensures
        forall|i: int|
            0 <= i < candidates(local, snapshot).len() ==> is_paired(
                #[trigger] candidates(local, snapshot)[i],
            ),
{
    a_listed_handle_means_its_first_item(snapshot.items);
    let q = joined(local, listed(snapshot.items));
    lemma_narrowed_is_paired(snapshot.complete, snapshot.vanished.to_set(), q);
}

proof fn lemma_narrowed_is_paired(complete: bool, vanished: Set<Text>, q: Seq<CandidateView>)
    requires
        forall|i: int| 0 <= i < q.len() ==> is_paired(#[trigger] q[i]),
    ensures
        forall|i: int|
            0 <= i < narrowed(complete, vanished, q).len() ==> is_paired(
                #[trigger] narrowed(complete, vanished, q)[i],
            ),
    decreases q.len(),
{
    if q.len() > 0 {
        assert(is_paired(q[0]));
        assert forall|i: int| 0 <= i < q.drop_first().len() implies is_paired(
            #[trigger] q.drop_first()[i],
        ) by {
            assert(is_paired(q[i + 1]));
        }
        lemma_narrowed_is_paired(complete, vanished, q.drop_first());
        let (rest, out) = (
            narrowed(complete, vanished, q.drop_first()),
            narrowed(complete, vanished, q),
        );
        let shift = out.len() - rest.len();
        assert forall|i: int| 0 <= i < out.len() implies is_paired(#[trigger] out[i]) by {
            if i >= shift {
                assert(out[i] == rest[i - shift]);
            }
        }
    }
}

pub proof fn lemma_opened_keeps(s: SyncView, snapshot: RemoteSnapshotView)
    requires
        sync_inv(s),
        s.phase is PendingEnumerate,
    ensures
        is_between(opened(s, snapshot)),
{
    let t = opened(s, snapshot);
    let local = thawed_all(seen(snapshot), s.local);
    assert(local.dom() =~= s.local.dom());
    lemma_thaw_has_no_checkpoint(seen(snapshot), s.local, ascending(s.local.dom()));
    each_handle_is_decided_at_most_once(local, snapshot);
    every_candidate_is_about_its_handle(local, snapshot);
    assert(unanswered(t) =~= unanswered(s));
    assert forall|h: Text| #[trigger] held(t, h) implies unanswered(t).contains(h) by {
        assert(held(s, h));
    }
}

/// Settling only ever lets go of what awaits an outcome, and records no
/// checkpoint.
pub proof fn lemma_settling_lets_go(s: SyncView, results: Seq<PushResultView>)
    requires
        has_no_checkpoint(s.writes),
    ensures
        ({
            let t = all_settled(s, results);
            &&& has_no_checkpoint(t.writes)
            &&& forall|h: Text| #[trigger] t.flag_pushes.contains_key(h) ==> s.flag_pushes.contains_key(h)
            &&& forall|h: Text| #[trigger]
                t.content_pushes.contains_key(h) ==> s.content_pushes.contains_key(h)
            &&& forall|h: Text| #[trigger] t.drops.contains(h) ==> s.drops.contains(h)
            &&& forall|h: Text| #[trigger] t.creates.contains_key(h) ==> s.creates.contains_key(h)
        }),
    decreases results.len(),
{
    if results.len() > 0 {
        lemma_settling_lets_go(s, results.drop_last());
    }
}

/// Every step of a run keeps it.
pub proof fn a_step_keeps_a_run_sound(s: SyncView, arg: Option<ArgView>)
    requires
        sync_inv(s),
    ensures
        sync_inv(sync_step(s, arg).0),
{
    let t = sync_step(s, arg).0;
    match (s.phase, arg) {
        (SyncPhase::PendingLoad, Some(ArgView::Load(loaded))) => {
            a_load_is_filed(loaded.placements);
            lemma_same_queue(s, t);
        },
        (SyncPhase::PendingEnumerate, Some(ArgView::Enumerate(snapshot))) => {
            lemma_opened_keeps(s, snapshot);
            lemma_merging_on_keeps(opened(s, snapshot));
        },
        (SyncPhase::Merging, Some(ArgView::Write)) => {
            lemma_merging_on_keeps(s);
        },
        (SyncPhase::PendingPush, Some(ArgView::Push(results))) => {
            lemma_settled_keeps(s, results);
            lemma_settling_lets_go(s, results);
            lemma_forgotten_keeps(s, all_settled(s, results));
            lemma_same_queue(forgotten(all_settled(s, results)), t);
        },
        (SyncPhase::PendingWrite, Some(ArgView::Write)) => {
            if s.pushes.len() > 0 {
                lemma_sending_keeps(s);
            } else {
                lemma_same_queue(s, t);
            }
        },
        _ => {
            lemma_same_queue(s, t);
        },
    }
}

proof fn lemma_same_queue(s: SyncView, t: SyncView)
    requires
        holds_are_queued(s),
        t.pushes == s.pushes,
        t.in_flight == s.in_flight,
        t.flag_pushes == s.flag_pushes,
        t.content_pushes == s.content_pushes,
        t.drops == s.drops,
        t.creates == s.creates,
    ensures
        holds_are_queued(t),
        unanswered(t) == unanswered(s),
{
    assert forall|h: Text| #[trigger] held(t, h) implies unanswered(t).contains(h) by {
        assert(held(s, h));
    }
}

/// The chunk in flight leaves, and nothing it named is awaited any more.
proof fn lemma_forgotten_keeps(s: SyncView, t: SyncView)
    requires
        names_once(unanswered(s)),
        holds_are_queued(s),
        t.pushes == s.pushes,
        t.in_flight == s.in_flight,
        forall|h: Text| #[trigger] t.flag_pushes.contains_key(h) ==> s.flag_pushes.contains_key(h),
        forall|h: Text| #[trigger]
            t.content_pushes.contains_key(h) ==> s.content_pushes.contains_key(h),
        forall|h: Text| #[trigger] t.drops.contains(h) ==> s.drops.contains(h),
        forall|h: Text| #[trigger] t.creates.contains_key(h) ==> s.creates.contains_key(h),
    ensures
        names_once(unanswered(forgotten(t))),
        holds_are_queued(forgotten(t)),
{
    let f = forgotten(t);
    let (u, v) = (unanswered(s), unanswered(f));
    let n = s.in_flight.len();
    assert(v =~= u.skip(n as int));
    assert forall|i: int, j: int| 0 <= i < j < v.len() implies #[trigger] v[i] != #[trigger] v[j] by {
        assert(u[i + n] != u[j + n]);
    }
    assert forall|h: Text| #[trigger] held(f, h) implies v.contains(h) by {
        assert(held(s, h));
        let k = choose|k: int| 0 <= k < u.len() && u[k] == h;
        assert(!s.in_flight.to_set().contains(h));
        if k < n {
            assert(s.in_flight[k] == h);
        } else {
            assert(v[k - n] == h);
        }
    }
}

/// A batch that advances the checkpoint is the last of its run: everything
/// is merged, nothing is left to push, and nothing of the batch comes after
/// it. A run stopped earlier resumes from the checkpoint it started at.
pub proof fn the_checkpoint_is_stored_last(s: SyncView, arg: Option<ArgView>, i: int)
    requires
        sync_inv(s),
        sync_step(s, arg).1 matches StepView::Yielded(YieldView::WantsWrite(ops)) && 0 <= i
            < ops.len() && ops[i] is SetCheckpoint,
    ensures
        ({
            let (t, out) = sync_step(s, arg);
            let ops = out->Yielded_0->WantsWrite_0;
            &&& i == ops.len() - 1
            &&& t.phase is PendingWrite
            &&& t.merging is None
            &&& t.pushes.len() == 0
            &&& t.in_flight.len() == 0
            &&& t.next_checkpoint is None
        }),
{
    let t = sync_step(s, arg).0;
    a_step_keeps_a_run_sound(s, arg);
    match (s.phase, arg) {
        (SyncPhase::PendingEnumerate, Some(ArgView::Enumerate(snapshot))) => {
            lemma_opened_keeps(s, snapshot);
            lemma_merging_on_batch(opened(s, snapshot), i);
        },
        (SyncPhase::Merging, Some(ArgView::Write)) => {
            lemma_merging_on_batch(s, i);
        },
        (SyncPhase::PendingPush, Some(ArgView::Push(results))) => {
            lemma_settled_keeps(s, results);
            lemma_settling_lets_go(s, results);
        },
        _ => {},
    }
}

proof fn lemma_merging_on_batch(s: SyncView, i: int)
    requires
        is_between(s),
        s.merging is Some,
        s.next_checkpoint is None,
        merging_on(s).1 matches StepView::Yielded(YieldView::WantsWrite(ops)) && 0 <= i < ops.len()
            && ops[i] is SetCheckpoint,
    ensures
        ({
            let (t, out) = merging_on(s);
            &&& i == out->Yielded_0->WantsWrite_0.len() - 1
            &&& t.phase is PendingWrite
            &&& t.pushes.len() == 0
        }),
    decreases s.merging->0.candidates.len(),
{
    if s.merging->0.candidates.len() > 0 {
        lemma_advanced_keeps(s);
        if advanced(s).writes.len() < ReplicaSync::WRITE_CHUNK {
            lemma_merging_on_batch(advanced(s), i);
        }
    }
}

/// A run that reaches its end has stored its checkpoint: the last batch it
/// wrote ended with it.
pub proof fn a_finished_run_has_stored_its_checkpoint(s: SyncView, arg: Option<ArgView>)
    requires
        sync_inv(s),
    ensures
        ({
            let (t, out) = sync_step(s, arg);
            &&& out is Done ==> s.phase is PendingWrite && s.next_checkpoint is None
                && s.pushes.len() == 0
            &&& out matches StepView::Yielded(YieldView::WantsWrite(ops)) ==> {
                t.phase is PendingWrite && t.pushes.len() == 0 ==> ops.len() > 0 && ops.last()
                    is SetCheckpoint
            }
        }),
{
    match (s.phase, arg) {
        (SyncPhase::PendingEnumerate, Some(ArgView::Enumerate(snapshot))) => {
            lemma_opened_keeps(s, snapshot);
            lemma_last_batch(opened(s, snapshot));
            lemma_merging_on(opened(s, snapshot));
        },
        (SyncPhase::Merging, Some(ArgView::Write)) => {
            lemma_last_batch(s);
            lemma_merging_on(s);
        },
        (SyncPhase::PendingPush, Some(ArgView::Push(results))) => {
            lemma_settled_keeps(s, results);
        },
        _ => {},
    }
}

proof fn lemma_last_batch(s: SyncView)
    requires
        is_between(s),
        s.merging is Some,
        s.next_checkpoint is None,
    ensures
        ({
            let (t, out) = merging_on(s);
            out matches StepView::Yielded(YieldView::WantsWrite(ops)) ==> {
                t.phase is PendingWrite && t.pushes.len() == 0 ==> ops.len() > 0 && ops.last()
                    is SetCheckpoint
            }
        }),
    decreases s.merging->0.candidates.len(),
{
    if s.merging->0.candidates.len() > 0 {
        lemma_advanced_keeps(s);
        if advanced(s).writes.len() < ReplicaSync::WRITE_CHUNK {
            lemma_last_batch(advanced(s));
        }
    }
}

/// What is pushed at once: at least one change, no more than a chunk, and
/// none about a handle another change of the run is about.
pub proof fn a_chunk_is_bounded_and_names_each_handle_once(s: SyncView, arg: Option<ArgView>)
    requires
        sync_inv(s),
        sync_step(s, arg).1 matches StepView::Yielded(YieldView::WantsPush { .. }),
    ensures
        ({
            let (t, out) = sync_step(s, arg);
            let changes = out->Yielded_0->WantsPush_changes;
            &&& out->Yielded_0->WantsPush_collection == s.collection
            &&& 0 < changes.len() <= ReplicaSync::PUSH_CHUNK
            &&& changes.len() < ReplicaSync::PUSH_CHUNK ==> t.pushes.len() == 0
            &&& t.in_flight == targets(changes)
            &&& names_once(targets(changes) + targets(t.pushes))
        }),
{
    a_step_keeps_a_run_sound(s, arg);
    match (s.phase, arg) {
        (SyncPhase::PendingEnumerate, Some(ArgView::Enumerate(snapshot))) => {
            lemma_opened_keeps(s, snapshot);
            lemma_merging_on_chunk(opened(s, snapshot));
        },
        (SyncPhase::Merging, Some(ArgView::Write)) => {
            lemma_merging_on_chunk(s);
        },
        _ => {},
    }
}

proof fn lemma_merging_on_chunk(s: SyncView)
    requires
        s.merging is Some,
        merging_on(s).1 matches StepView::Yielded(YieldView::WantsPush { .. }),
    ensures
        ({
            let (t, out) = merging_on(s);
            let changes = out->Yielded_0->WantsPush_changes;
            &&& out->Yielded_0->WantsPush_collection == s.collection
            &&& 0 < changes.len() <= ReplicaSync::PUSH_CHUNK
            &&& changes.len() < ReplicaSync::PUSH_CHUNK ==> t.pushes.len() == 0
            &&& t.in_flight == targets(changes)
        }),
    decreases s.merging->0.candidates.len(),
{
    if s.merging->0.candidates.len() > 0 {
        reveal(advanced);
        if advanced(s).writes.len() < ReplicaSync::WRITE_CHUNK {
            lemma_merging_on_chunk(advanced(s));
        }
    }
}

/// The outcomes of a chunk are stored before anything else happens: an
/// interrupted run replays one chunk at most.
pub proof fn a_chunk_is_recorded_before_the_next(s: SyncView, results: Seq<PushResultView>)
    requires
        s.phase is PendingPush,
    ensures
        ({
            let (t, out) = sync_step(s, Some(ArgView::Push(results)));
            &&& out is Yielded
            &&& out->Yielded_0 is WantsWrite
            &&& t.phase is PendingWrite
            &&& t.pushes == s.pushes
            &&& t.in_flight.len() == 0
        }),
{
    lemma_settled_keeps(s, results);
}

/// A state that has counted other rejections.
pub open spec fn with_rejected(s: SyncView, rejected: nat) -> SyncView {
    SyncView { report: SyncReportView { rejected, ..s.report }, ..s }
}

/// A rejected push is counted, once, and nothing else: nothing is written,
/// nothing reported, and what is held for it stays.
pub proof fn a_rejected_push_is_only_counted(s: SyncView, result: PushResultView, again: bool)
    requires
        result.outcome == ReplicaPushOutcome::Rejected,
    ensures
        settled(s, result, again) == with_rejected(
            s,
            if awaits(s, result.handle) && !again {
                counted(s.report.rejected)
            } else {
                s.report.rejected
            },
        ),
{
}

/// An outcome for a handle nothing is awaited of changes nothing at all,
/// accepted or rejected: neither a handle nobody pushed nor one settled
/// before inflates a report.
pub proof fn an_unawaited_outcome_changes_nothing(
    s: SyncView,
    result: PushResultView,
    again: bool,
)
    requires
        !awaits(s, result.handle),
    ensures
        settled(s, result, again) == s,
{
}

/// An outcome counts once, however often it is reported: after an acceptance
/// nothing more is heard of the change, and a second rejection adds nothing
/// to the first.
pub proof fn an_outcome_reported_twice_counts_once(
    s: SyncView,
    results: Seq<PushResultView>,
    result: PushResultView,
    again: PushResultView,
)
    requires
        again.handle == result.handle,
        result.outcome == ReplicaPushOutcome::Accepted || again.outcome == result.outcome,
    ensures
        all_settled(s, results.push(result).push(again)) == all_settled(s, results.push(result)),
{
    let (once, twice) = (results.push(result), results.push(result).push(again));
    assert(once.drop_last() =~= results);
    assert(twice.drop_last() =~= once);
    assert(twice.last() == again);
    let t = all_settled(s, once);
    if result.outcome == ReplicaPushOutcome::Accepted {
        assert(!awaits(t, result.handle));
    } else {
        lemma_rejects_more(results, result);
    }
}

/// Recording an acceptance does not look at the rejections counted.
proof fn lemma_accepting_ignores_rejections(s: SyncView, result: PushResultView, rejected: nat)
    ensures
        flags_settled(with_rejected(s, rejected), result) == with_rejected(
            flags_settled(s, result),
            rejected,
        ),
        content_settled(with_rejected(s, rejected), result) == with_rejected(
            content_settled(s, result),
            rejected,
        ),
        drop_settled(with_rejected(s, rejected), result) == with_rejected(
            drop_settled(s, result),
            rejected,
        ),
        create_settled(with_rejected(s, rejected), result) == with_rejected(
            create_settled(s, result),
            rejected,
        ),
{
}

/// An acceptance counts whatever was reported before it: a change some
/// outcomes only rejected is still awaited, and one accepted after all is
/// recorded as if nothing had been said, and no longer awaited.
pub proof fn an_acceptance_after_a_rejection_counts(
    s: SyncView,
    results: Seq<PushResultView>,
    result: PushResultView,
)
    requires
        awaits(s, result.handle),
        result.outcome == ReplicaPushOutcome::Accepted,
        forall|i: int|
            0 <= i < results.len() ==> (#[trigger] results[i]).outcome
                == ReplicaPushOutcome::Rejected,
    ensures
        ({
            let t = all_settled(s, results.push(result));
            &&& t == with_rejected(
                settled(s, result, false),
                all_settled(s, results).report.rejected,
            )
            &&& t.report.pushed == s.report.pushed + 1
            &&& !awaits(t, result.handle)
        }),
{
    let all = results.push(result);
    assert(all.drop_last() =~= results);
    assert(all.last() == result);
    only_an_accepted_push_is_recorded(s, results);
    let n = all_settled(s, results).report.rejected;
    let s0 = with_rejected(s, n);
    assert(all_settled(s, results) == s0);
    let s1 = flags_settled(s, result);
    let s2 = content_settled(s1, result);
    let s3 = drop_settled(s2, result);
    lemma_accepting_ignores_rejections(s, result, n);
    lemma_accepting_ignores_rejections(s1, result, n);
    lemma_accepting_ignores_rejections(s2, result, n);
    lemma_accepting_ignores_rejections(s3, result, n);
    assert(awaits(s0, result.handle));
    assert(all_settled(s, all) == settled(s0, result, rejects(results, result.handle)));
}

/// Where the remote took nothing, nothing changes but the count of what it
/// rejected: nothing is written, and nothing counts as pushed.
pub proof fn only_an_accepted_push_is_recorded(s: SyncView, results: Seq<PushResultView>)
    requires
        forall|i: int|
            0 <= i < results.len() ==> (#[trigger] results[i]).outcome
                == ReplicaPushOutcome::Rejected,
    ensures
        all_settled(s, results) == with_rejected(s, all_settled(s, results).report.rejected),
    decreases results.len(),
{
    if results.len() > 0 {
        let before = results.drop_last();
        assert forall|i: int| 0 <= i < before.len() implies (#[trigger] before[i]).outcome
            == ReplicaPushOutcome::Rejected by {
            assert(before[i] == results[i]);
        }
        only_an_accepted_push_is_recorded(s, before);
    }
}

/// A push no outcome names is settled by none. It is forgotten with its
/// chunk, so that no later outcome is taken for its own, and its placement
/// stays pending in storage.
pub proof fn an_unreported_push_is_left_pending(
    s: SyncView,
    results: Seq<PushResultView>,
    handle: Text,
)
    requires
        s.in_flight.contains(handle),
        forall|i: int| 0 <= i < results.len() ==> (#[trigger] results[i]).handle != handle,
    ensures
        held(all_settled(s, results), handle) == held(s, handle),
        !held(forgotten(all_settled(s, results)), handle),
    decreases results.len(),
{
    lemma_settled_keeps(s, results);
    assert(s.in_flight.to_set().contains(handle));
    if results.len() > 0 {
        let before = results.drop_last();
        assert forall|i: int| 0 <= i < before.len() implies (#[trigger] before[i]).handle
            != handle by {
            assert(before[i] == results[i]);
        }
        assert(results[results.len() - 1].handle != handle);
        an_unreported_push_is_left_pending(s, before, handle);
    }
}

/// What nobody reported on is not counted, as pushed or as rejected:
/// outcomes that name no awaited push leave the report as it was, and
/// forgetting the chunk counts nothing.
pub proof fn an_unreported_push_is_not_counted(s: SyncView, results: Seq<PushResultView>)
    requires
        forall|i: int| 0 <= i < results.len() ==> !awaits(s, (#[trigger] results[i]).handle),
    ensures
        all_settled(s, results) == s,
        forgotten(all_settled(s, results)).report == s.report,
    decreases results.len(),
{
    if results.len() > 0 {
        let before = results.drop_last();
        assert forall|i: int| 0 <= i < before.len() implies !awaits(
            s,
            (#[trigger] before[i]).handle,
        ) by {
            assert(before[i] == results[i]);
        }
        an_unreported_push_is_not_counted(s, before);
        assert(!awaits(s, results[results.len() - 1].handle));
    }
}

/// A full run enumerates from nothing, whatever checkpoint is stored; any
/// other resumes from the stored one.
pub proof fn a_full_run_ignores_the_checkpoint(s: SyncView, arg: ArgView)
    requires
        s.phase is PendingLoad,
        arg is Load,
    ensures
        sync_step(s, Some(arg)).1 == (SyncStep::Yielded(
            YieldView::WantsEnumerate {
                collection: s.collection,
                cursor: if s.opts.full {
                    None
                } else {
                    arg->Load_0.checkpoint
                },
            },
        )),
{
}

/// A reply that is not the one awaited is refused and changes nothing, so a
/// driver that corrects itself goes on where it was.
pub proof fn a_reply_not_awaited_is_refused(s: SyncView, arg: Option<ArgView>)
    requires
        !sync_awaits(s.phase, arg),
    ensures
        sync_step(s, arg) == (s, SyncStep::Failed(refusal(arg))),
{
}

/// A finished run is over: it answers nothing but a refusal.
pub proof fn a_finished_run_stays_finished(s: SyncView, arg: Option<ArgView>)
    requires
        s.phase is Done,
    ensures
        sync_step(s, arg) == (s, SyncStep::Failed(refusal(arg))),
{
}

/// A flag push the remote took is in sync: merging what it leaves with the
/// flags pushed decides nothing more of the flags, and nothing at all where
/// no edit is staged.
pub proof fn an_accepted_flag_push_is_in_sync(
    opts: ReplicaSyncOptions,
    collection: Text,
    p: PlacementView,
    item: RemoteItemView,
)
    requires
        p.status is Clean || p.status is Dirty || p.status is Conflict,
        item.flags == p.flags,
        if p.status is Conflict {
            !revised(item, p.conflict_revision)
        } else {
            !revised(item, base_revision(p))
        },
        p.base is Some,
    ensures
        ({
            let d = merged(
                opts,
                collection,
                CandidateView {
                    handle: p.handle,
                    local: Some(rebased(p, p.flags)),
                    remote: Some(item),
                },
            );
            &&& d.writes.len() == 0
            &&& d.change matches Some(kind) ==> kind is Update && edited(p)
            &&& !edited(p) ==> d == nothing()
        }),
{
    let left = rebased(p, p.flags);
    agreeing_sides_converge(p.flags, p.flags);
    if !edited(p) {
        assert(reconciled(opts, collection, left, item) =~= nothing());
    }
}

/// A content push the remote took is in sync, at the revision it reported,
/// once the flags are.
pub proof fn an_accepted_content_push_is_in_sync(
    opts: ReplicaSyncOptions,
    collection: Text,
    p: PlacementView,
    item: RemoteItemView,
)
    requires
        !(p.status is Tombstone),
        p.base matches Some(base) && base.flags == p.flags,
        item.flags == p.flags,
    ensures
        merged(
            opts,
            collection,
            CandidateView {
                handle: p.handle,
                local: Some(content_rebased(p, item.revision)),
                remote: Some(item),
            },
        ) == nothing(),
{
    an_unchanged_placement_is_left_alone(
        opts,
        collection,
        CandidateView {
            handle: p.handle,
            local: Some(content_rebased(p, item.revision)),
            remote: Some(item),
        },
    );
}

/// A flag edit that rode along with a content push is pushed by the next
/// run: the content is settled, the flags are not.
pub proof fn a_flag_edit_outlives_a_content_push(
    opts: ReplicaSyncOptions,
    collection: Text,
    p: PlacementView,
    item: RemoteItemView,
)
    requires
        !(p.status is Tombstone),
        p.base matches Some(base) && base.flags == item.flags && base.flags != p.flags,
        p.flags is Known,
        pushes_flags(opts),
    ensures
        ({
            let left = content_rebased(p, item.revision);
            let d = merged(
                opts,
                collection,
                CandidateView { handle: p.handle, local: Some(left), remote: Some(item) },
            );
            &&& d.writes.len() == 0
            &&& d.change == Some(ChangeKindView::SetFlags { handle: p.handle, flags: p.flags })
        }),
{
    if item.flags is Known {
        an_unchanged_set_stays(item.flags, p.flags);
    }
}

/// A create the remote took is in sync under the handle it was assigned.
pub proof fn an_accepted_create_is_in_sync(
    opts: ReplicaSyncOptions,
    collection: Text,
    p: PlacementView,
    item: RemoteItemView,
)
    requires
        item.flags == p.flags,
    ensures
        merged(
            opts,
            collection,
            CandidateView {
                handle: item.handle,
                local: Some(placed(p, item.handle, item.revision)),
                remote: Some(item),
            },
        ) == nothing(),
{
    an_unchanged_placement_is_left_alone(
        opts,
        collection,
        CandidateView {
            handle: item.handle,
            local: Some(placed(p, item.handle, item.revision)),
            remote: Some(item),
        },
    );
}

/// What `n` candidates merged leave.
pub open spec fn advanced_by(s: SyncView, n: nat) -> SyncView
    decreases n,
{
    if n == 0 {
        s
    } else {
        advanced(advanced_by(s, (n - 1) as nat))
    }
}

/// A batch is cut between candidates: a merge step merges some whole number
/// of them, and hands over every write they derived together.
pub proof fn a_batch_never_cuts_through_a_candidate(s: SyncView) -> (n: nat)
    requires
        s.merging is Some,
    ensures
        n <= s.merging->0.candidates.len(),
        ({
            let t = advanced_by(s, n);
            merging_on(s) == if n < s.merging->0.candidates.len() || (n > 0 && t.writes.len()
                >= ReplicaSync::WRITE_CHUNK) {
                storing(t, SyncPhase::Merging)
            } else {
                sending(
                    SyncView {
                        merging: None,
                        next_checkpoint: Some(s.merging->0.checkpoint),
                        ..t
                    },
                )
            }
        }),
    decreases s.merging->0.candidates.len(),
{
    reveal(advanced);
    if s.merging->0.candidates.len() == 0 {
        0
    } else if advanced(s).writes.len() >= ReplicaSync::WRITE_CHUNK {
        assert(advanced_by(s, 1) == advanced(advanced_by(s, 0)));
        1
    } else {
        let next = advanced(s);
        let n = a_batch_never_cuts_through_a_candidate(next);
        lemma_advanced_by(s, n);
        n + 1
    }
}

proof fn lemma_advanced_by(s: SyncView, n: nat)
    ensures
        advanced_by(advanced(s), n) == advanced_by(s, n + 1),
    decreases n,
{
    if n > 0 {
        lemma_advanced_by(s, (n - 1) as nat);
    } else {
        assert(advanced_by(s, 1) == advanced(advanced_by(s, 0)));
    }
}

/// A collection in sync stays as it is: a run that decides nothing writes
/// the checkpoint alone and pushes nothing.
pub proof fn a_run_with_nothing_to_decide_only_advances_the_checkpoint(
    s: SyncView,
    snapshot: RemoteSnapshotView,
)
    requires
        sync_inv(s),
        s.phase is PendingEnumerate,
        ({
            let t = opened(s, snapshot);
            &&& t.writes.len() == 0
            &&& forall|i: int|
                0 <= i < t.merging->0.candidates.len() ==> merged(
                    s.opts,
                    s.collection,
                    #[trigger] t.merging->0.candidates[i],
                ) == nothing()
        }),
    ensures
        sync_step(s, Some(ArgView::Enumerate(snapshot))).1 == (SyncStep::Yielded(
            YieldView::WantsWrite(
                seq![
                    WriteOpView::SetCheckpoint {
                        collection: s.collection,
                        checkpoint: snapshot.checkpoint,
                    },
                ],
            ),
        )),
{
    lemma_nothing_to_merge(opened(s, snapshot));
}

proof fn lemma_nothing_to_merge(s: SyncView)
    requires
        s.merging is Some,
        s.writes.len() == 0,
        s.pushes.len() == 0,
        forall|i: int|
            0 <= i < s.merging->0.candidates.len() ==> merged(
                s.opts,
                s.collection,
                #[trigger] s.merging->0.candidates[i],
            ) == nothing(),
    ensures
        merging_on(s).1 == (SyncStep::Yielded(
            YieldView::WantsWrite(
                seq![
                    WriteOpView::SetCheckpoint {
                        collection: s.collection,
                        checkpoint: s.merging->0.checkpoint,
                    },
                ],
            ),
        )),
    decreases s.merging->0.candidates.len(),
{
    let left = s.merging->0.candidates;
    if left.len() > 0 {
        reveal(advanced);
        assert(merged(s.opts, s.collection, left[0]) == nothing());
        let next = advanced(s);
        assert forall|i: int| 0 <= i < next.merging->0.candidates.len() implies merged(
            next.opts,
            next.collection,
            #[trigger] next.merging->0.candidates[i],
        ) == nothing() by {
            assert(merged(s.opts, s.collection, left[i + 1]) == nothing());
        }
        lemma_nothing_to_merge(next);
    } else {
        assert(s.writes =~= Seq::empty());
    }
}

} // verus!
