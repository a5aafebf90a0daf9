//! A sync as a whole: what all its steps together write and push.

use vstd::prelude::*;

use crate::change::{ChangeView, WriteOpView};
use crate::coroutine::{ArgView, StepView, YieldView};
use crate::laws::running::{
    a_chunk_is_bounded_and_names_each_handle_once, a_step_keeps_a_run_sound, has_no_checkpoint,
    is_between, lemma_advanced_keeps, lemma_opened_keeps, lemma_settling_lets_go, sync_inv,
};
use crate::order::Text;
use crate::remote::RemoteSnapshotView;
use crate::sync::{
    advanced, all_settled, forgotten, lemma_merging_on, lemma_settled_keeps, merging_on, opened,
    sync_step, ReplicaSync, SyncPhase, SyncStep, SyncView,
};

verus! {

/// Where a sync stands after some replies.
pub open spec fn after(s: SyncView, args: Seq<ArgView>) -> SyncView
    decreases args.len(),
{
    if args.len() == 0 {
        s
    } else {
        sync_step(after(s, args.drop_last()), Some(args.last())).0
    }
}

/// What a sync hands back for the last of some replies.
pub open spec fn said(s: SyncView, args: Seq<ArgView>) -> SyncStep {
    sync_step(after(s, args.drop_last()), Some(args.last())).1
}

/// The batch a step hands over for storage, if any.
pub open spec fn written_by(out: SyncStep) -> Seq<WriteOpView> {
    match out {
        StepView::Yielded(YieldView::WantsWrite(ops)) => ops,
        _ => Seq::empty(),
    }
}

/// The changes a step pushes, if any.
pub open spec fn pushed_by(out: SyncStep) -> Seq<ChangeView> {
    match out {
        StepView::Yielded(YieldView::WantsPush { changes, .. }) => changes,
        _ => Seq::empty(),
    }
}

/// Every write a sync hands over for some replies, in order.
pub open spec fn wrote(s: SyncView, args: Seq<ArgView>) -> Seq<WriteOpView>
    decreases args.len(),
{
    if args.len() == 0 {
        Seq::empty()
    } else {
        wrote(s, args.drop_last()) + written_by(said(s, args))
    }
}

/// Whether some replies start with the enumeration a sync waits for.
pub open spec fn enumerates(s: SyncView, args: Seq<ArgView>, snapshot: RemoteSnapshotView) -> bool {
    &&& s.phase is PendingEnumerate
    &&& args.len() > 0
    &&& args[0] == ArgView::Enumerate(snapshot)
}

/// Whether writes end with the checkpoint and hold no other.
pub open spec fn ends_with_checkpoint(
    ops: Seq<WriteOpView>,
    collection: Text,
    checkpoint: Seq<u8>,
) -> bool {
    &&& ops.len() > 0
    &&& ops.last() == (WriteOpView::SetCheckpoint { collection, checkpoint })
    &&& has_no_checkpoint(ops.drop_last())
}

/// Where the checkpoint of a run is while its writes so far are `ops`.
pub open spec fn checkpoint_is_due(
    t: SyncView,
    ops: Seq<WriteOpView>,
    collection: Text,
    checkpoint: Seq<u8>,
) -> bool {
    &&& t.collection == collection
    &&& match t.phase {
        SyncPhase::Merging => t.merging->0.checkpoint == checkpoint && has_no_checkpoint(ops),
        SyncPhase::PendingPush => t.next_checkpoint == Some(checkpoint) && has_no_checkpoint(ops),
        SyncPhase::PendingWrite => if t.pushes.len() > 0 {
            t.next_checkpoint == Some(checkpoint) && has_no_checkpoint(ops)
        } else {
            ends_with_checkpoint(ops, collection, checkpoint)
        },
        SyncPhase::Done => ends_with_checkpoint(ops, collection, checkpoint),
        _ => false,
    }
}

proof fn lemma_merging_on_due(s: SyncView)
    requires
        is_between(s),
        s.merging is Some,
        s.next_checkpoint is None,
    ensures
        checkpoint_is_due(
            merging_on(s).0,
            written_by(merging_on(s).1),
            s.collection,
            s.merging->0.checkpoint,
        ),
    decreases s.merging->0.candidates.len(),
{
    if s.merging->0.candidates.len() > 0 {
        lemma_advanced_keeps(s);
        let next = advanced(s);
        assert(next.collection == s.collection && next.merging->0.checkpoint
            == s.merging->0.checkpoint) by {
            reveal(advanced);
        }
        if next.writes.len() < ReplicaSync::WRITE_CHUNK {
            lemma_merging_on_due(next);
        }
    } else if s.pushes.len() == 0 {
        let ops = written_by(merging_on(s).1);
        assert(ops.drop_last() =~= s.writes);
    }
}

proof fn lemma_no_checkpoint_more(a: Seq<WriteOpView>, b: Seq<WriteOpView>)
    requires
        has_no_checkpoint(a),
    ensures
        has_no_checkpoint(b) ==> has_no_checkpoint(a + b),
        forall|collection: Text, checkpoint: Seq<u8>| #[trigger]
            ends_with_checkpoint(b, collection, checkpoint) ==> ends_with_checkpoint(
                a + b,
                collection,
                checkpoint,
            ),
    decreases b.len(),
{
    if has_no_checkpoint(b) {
        assert forall|i: int| 0 <= i < (a + b).len() implies !(#[trigger] (a + b)[i]
            is SetCheckpoint) by {
            if i < a.len() {
                assert((a + b)[i] == a[i]);
            } else {
                assert((a + b)[i] == b[i - a.len()]);
            }
        }
    }
    assert forall|collection: Text, checkpoint: Seq<u8>| #[trigger]
        ends_with_checkpoint(b, collection, checkpoint) implies ends_with_checkpoint(
        a + b,
        collection,
        checkpoint,
    ) by {
        lemma_no_checkpoint_more(a, b.drop_last());
        assert((a + b).drop_last() =~= a + b.drop_last());
    }
}

proof fn lemma_due(s: SyncView, args: Seq<ArgView>, snapshot: RemoteSnapshotView)
    requires
        sync_inv(s),
        enumerates(s, args, snapshot),
    ensures
        sync_inv(after(s, args)),
        checkpoint_is_due(after(s, args), wrote(s, args), s.collection, snapshot.checkpoint),
    decreases args.len(),
{
    let before = args.drop_last();
    let (t, arg) = (after(s, before), args.last());
    if before.len() == 0 {
        assert(t == s);
        a_step_keeps_a_run_sound(s, Some(arg));
        lemma_opened_keeps(s, snapshot);
        lemma_merging_on_due(opened(s, snapshot));
        assert(wrote(s, args) =~= written_by(said(s, args)));
    } else {
        assert(before[0] == args[0]);
        lemma_due(s, before, snapshot);
        a_step_keeps_a_run_sound(t, Some(arg));
        let (ops, more) = (wrote(s, before), written_by(said(s, args)));
        match (t.phase, arg) {
            (SyncPhase::Merging, ArgView::Write) => {
                lemma_merging_on_due(t);
                lemma_no_checkpoint_more(ops, more);
            },
            (SyncPhase::PendingPush, ArgView::Push(results)) => {
                lemma_settled_keeps(t, results);
                lemma_settling_lets_go(t, results);
                let u = forgotten(all_settled(t, results));
                assert(u.pushes.len() == 0 ==> more.drop_last() =~= u.writes);
                lemma_no_checkpoint_more(ops, more);
            },
            (SyncPhase::PendingWrite, ArgView::Write) => {
                assert(ops + more =~= ops);
            },
            _ => {
                assert(ops + more =~= ops);
            },
        }
    }
}

/// A sync that ends has stored one checkpoint: the one its enumeration
/// reported, as the last write of all.
pub proof fn a_whole_sync_stores_its_checkpoint_once_and_last(
    s: SyncView,
    args: Seq<ArgView>,
    snapshot: RemoteSnapshotView,
)
    requires
        sync_inv(s),
        enumerates(s, args, snapshot),
        said(s, args) is Done,
    ensures
        ends_with_checkpoint(wrote(s, args), s.collection, snapshot.checkpoint),
{
    lemma_due(s, args, snapshot);
    let t = after(s, args.drop_last());
    if args.drop_last().len() > 0 {
        assert(args.drop_last()[0] == args[0]);
        lemma_due(s, args.drop_last(), snapshot);
    } else {
        lemma_merging_on(opened(s, snapshot));
    }
    match (t.phase, args.last()) {
        (SyncPhase::Merging, ArgView::Write) => {
            lemma_merging_on(t);
        },
        _ => {},
    }
}

/// Throughout a sync a chunk is bounded, and what follows it directly is the
/// batch that records it: no chunk is pushed before the one before it is
/// recorded.
pub proof fn every_chunk_is_bounded_and_recorded_at_once(
    s: SyncView,
    args: Seq<ArgView>,
    snapshot: RemoteSnapshotView,
    reply: ArgView,
)
    requires
        sync_inv(s),
        enumerates(s, args, snapshot),
        said(s, args) matches StepView::Yielded(YieldView::WantsPush { .. }),
    ensures
        0 < pushed_by(said(s, args)).len() <= ReplicaSync::PUSH_CHUNK,
        said(s, args.push(reply)) is Yielded ==> said(s, args.push(reply))->Yielded_0
            is WantsWrite,
{
    let t = after(s, args.drop_last());
    if args.drop_last().len() > 0 {
        assert(args.drop_last()[0] == args[0]);
        lemma_due(s, args.drop_last(), snapshot);
    }
    a_chunk_is_bounded_and_names_each_handle_once(t, Some(args.last()));
    assert(args.push(reply).drop_last() =~= args);
    match (t.phase, args.last()) {
        (SyncPhase::PendingEnumerate, ArgView::Enumerate(snapshot)) => {
            lemma_merging_on(opened(t, snapshot));
        },
        (SyncPhase::Merging, ArgView::Write) => {
            lemma_merging_on(t);
        },
        _ => {},
    }
    assert(after(s, args).phase is PendingPush);
}

} // verus!
