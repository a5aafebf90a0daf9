//! What a whole sync pushes and reports is what it decided, handle by
//! handle: nothing is left behind, added or taken out of order.

use vstd::prelude::*;

use crate::change::{change_key, ChangeView, WriteOpView};
use crate::coroutine::ArgView;
use crate::laws::running::{
    a_step_keeps_a_run_sound, is_between, lemma_advanced_keeps, lemma_opened_keeps, sync_inv,
};
use crate::laws::spanning::{after, enumerates, pushed_by, said, written_by, wrote};
use crate::order::Text;
use crate::remote::{PushResultView, RemoteSnapshotView};
use crate::sync::options::{EventView, ReplicaSyncOptions};
use crate::sync::reconcile::{merged, CandidateView};
use crate::sync::{
    advanced, all_settled, lemma_merging_on, lemma_settled_keeps, merging_on, opened, sync_step,
    ReplicaSync, SyncPhase, SyncView,
};

verus! {

/// The changes some candidates lead to, in order.
#[verifier::opaque]
pub open spec fn derived(
    opts: ReplicaSyncOptions,
    collection: Text,
    q: Seq<CandidateView>,
) -> Seq<ChangeView>
    decreases q.len(),
{
    if q.len() == 0 {
        Seq::empty()
    } else {
        let rest = derived(opts, collection, q.drop_first());
        match merged(opts, collection, q.first()).change {
            Some(kind) => seq![ChangeView { kind, key: change_key(collection, kind) }] + rest,
            None => rest,
        }
    }
}

/// What merging some candidates reports: placements pulled, conflicts marked,
/// bodies dropped, and events.
#[verifier::opaque]
pub open spec fn told(opts: ReplicaSyncOptions, collection: Text, q: Seq<CandidateView>) -> (
    nat,
    nat,
    nat,
    Seq<EventView>,
)
    decreases q.len(),
{
    if q.len() == 0 {
        (0, 0, 0, Seq::empty())
    } else {
        let d = merged(opts, collection, q.first());
        let rest = told(opts, collection, q.drop_first());
        (d.pulled + rest.0, d.conflicts + rest.1, d.refreshed + rest.2, d.events + rest.3)
    }
}

/// Every change a sync pushes for some replies, in order.
pub open spec fn pushed(s: SyncView, args: Seq<ArgView>) -> Seq<ChangeView>
    decreases args.len(),
{
    if args.len() == 0 {
        Seq::empty()
    } else {
        pushed(s, args.drop_last()) + pushed_by(said(s, args))
    }
}

/// The candidates a sync has still to merge.
pub open spec fn left_to_merge(t: SyncView) -> Seq<CandidateView> {
    match t.merging {
        Some(merge) => merge.candidates,
        None => Seq::empty(),
    }
}

/// The changes still to push and to derive.
pub open spec fn to_push(t: SyncView) -> Seq<ChangeView> {
    t.pushes + derived(t.opts, t.collection, left_to_merge(t))
}

/// Whether the counts of a report and those to come add up to the ones of
/// another.
pub open spec fn same_counts(s: SyncView, t: SyncView) -> bool {
    let (a, b) = (
        told(s.opts, s.collection, left_to_merge(s)),
        told(t.opts, t.collection, left_to_merge(t)),
    );
    &&& s.report.pulled + a.0 == t.report.pulled + b.0
    &&& s.report.conflicts + a.1 == t.report.conflicts + b.1
    &&& s.report.refreshed + a.2 == t.report.refreshed + b.2
}

/// The events reported, with those still to come of the merge.
pub open spec fn to_tell(t: SyncView) -> Seq<EventView> {
    t.report.events + told(t.opts, t.collection, left_to_merge(t)).3
}

/// A decision taken up loses nothing: its writes, its change and its events
/// come after those before it, and each of its counts is added.
pub proof fn a_decision_is_taken_up_whole(s: SyncView)
    requires
        s.merging matches Some(merge) && merge.candidates.len() > 0,
    ensures
        ({
            let t = advanced(s);
            let d = merged(s.opts, s.collection, s.merging->0.candidates.first());
            &&& t.writes == s.writes + d.writes
            &&& t.report.events == s.report.events + d.events
            &&& t.report.pulled == s.report.pulled + d.pulled
            &&& t.report.conflicts == s.report.conflicts + d.conflicts
            &&& t.report.refreshed == s.report.refreshed + d.refreshed
            &&& t.report.pushed == s.report.pushed
            &&& t.report.rejected == s.report.rejected
            &&& left_to_merge(t) == left_to_merge(s).drop_first()
            &&& t.opts == s.opts
            &&& t.collection == s.collection
            &&& to_push(t) == to_push(s)
            &&& same_counts(s, t)
            &&& to_tell(t) == to_tell(s)
        }),
{
    reveal(advanced);
    reveal(derived);
    reveal(told);
    let t = advanced(s);
    let q = s.merging->0.candidates;
    assert(left_to_merge(t) == q.drop_first());
    assert(to_tell(t) =~= to_tell(s));
    assert(to_push(t) =~= to_push(s));
}

proof fn lemma_merging_on_flows(s: SyncView)
    requires
        is_between(s),
        s.merging is Some,
        s.next_checkpoint is None,
    ensures
        ({
            let (t, out) = merging_on(s);
            &&& pushed_by(out) + to_push(t) == to_push(s)
            &&& same_counts(s, t)
            &&& to_tell(t) == to_tell(s)
            &&& t.opts == s.opts
            &&& t.collection == s.collection
            &&& t.phase is Merging || left_to_merge(t).len() == 0
        }),
    decreases s.merging->0.candidates.len(),
{
    let (t, out) = merging_on(s);
    if s.merging->0.candidates.len() == 0 {
        reveal(derived);
        reveal(told);
        assert(pushed_by(out) + to_push(t) =~= to_push(s));
        assert(to_tell(t) =~= to_tell(s));
    } else {
        lemma_advanced_keeps(s);
        a_decision_is_taken_up_whole(s);
        let next = advanced(s);
        if next.writes.len() >= ReplicaSync::WRITE_CHUNK {
            assert(to_push(t) =~= to_push(next));
            assert(pushed_by(out) + to_push(t) =~= to_push(s));
        } else {
            lemma_merging_on_flows(next);
        }
    }
}

proof fn lemma_settling_counts(s: SyncView, results: Seq<PushResultView>)
    ensures
        ({
            let t = all_settled(s, results);
            &&& t.report.pulled == s.report.pulled
            &&& t.report.conflicts == s.report.conflicts
            &&& t.report.refreshed == s.report.refreshed
            &&& s.report.events.is_prefix_of(t.report.events)
        }),
    decreases results.len(),
{
    let t = all_settled(s, results);
    if results.len() > 0 {
        lemma_settling_counts(s, results.drop_last());
        let u = all_settled(s, results.drop_last());
        assert(u.report.events.is_prefix_of(t.report.events));
    } else {
        assert(s.report.events =~= t.report.events.subrange(0, s.report.events.len() as int));
    }
}

/// Whether what a sync has pushed, counted and reported, and what it still
/// will, is what a merge as a whole leads to, `done` being what it pushed.
pub open spec fn flows(o: SyncView, t: SyncView, done: Seq<ChangeView>) -> bool {
    &&& done + to_push(t) == to_push(o)
    &&& !(t.phase is Done) ==> same_counts(o, t) && to_tell(o).is_prefix_of(to_tell(t))
    &&& t.phase is Merging ==> to_tell(t) == to_tell(o)
    &&& t.opts == o.opts
    &&& t.collection == o.collection
    &&& t.phase is Merging || left_to_merge(t).len() == 0
    &&& !(t.phase is Start || t.phase is PendingLoad || t.phase is PendingEnumerate)
    &&& t.phase is Done ==> t.pushes.len() == 0
}

proof fn lemma_prefix(a: Seq<EventView>, b: Seq<EventView>, c: Seq<EventView>)
    requires
        a.is_prefix_of(b),
        b.is_prefix_of(c),
    ensures
        a.is_prefix_of(c),
{
    assert(a =~= c.subrange(0, a.len() as int)) by {
        assert forall|i: int| 0 <= i < a.len() implies a[i] == c[i] by {
            assert(a[i] == b.subrange(0, a.len() as int)[i]);
            assert(b[i] == c.subrange(0, b.len() as int)[i]);
        }
    }
}

proof fn lemma_merge_flows(o: SyncView, t: SyncView, done: Seq<ChangeView>)
    requires
        flows(o, t, done) || (t == o && done.len() == 0),
        is_between(t),
        t.merging is Some,
        t.next_checkpoint is None,
        to_tell(t) == to_tell(o),
        !(t.phase is Done),
    ensures
        flows(o, merging_on(t).0, done + pushed_by(merging_on(t).1)),
{
    let (u, out) = merging_on(t);
    lemma_merging_on_flows(t);
    lemma_merging_on(t);
    lemma_more_flows(o, t, u, done, pushed_by(out));
}

proof fn lemma_more_flows(
    o: SyncView,
    t: SyncView,
    u: SyncView,
    done: Seq<ChangeView>,
    more: Seq<ChangeView>,
)
    requires
        flows(o, t, done) || (t == o && done.len() == 0),
        to_tell(t) == to_tell(o),
        more + to_push(u) == to_push(t),
        same_counts(t, u),
        to_tell(u) == to_tell(t),
        u.opts == t.opts,
        u.collection == t.collection,
        u.phase is Merging || left_to_merge(u).len() == 0,
        u.phase is Merging || u.phase is PendingPush || u.phase is PendingWrite,
        !(t.phase is Done),
    ensures
        flows(o, u, done + more),
{
    assert((done + more) + to_push(u) =~= done + (more + to_push(u)));
    if t == o {
        assert(done + to_push(t) =~= to_push(o));
    }
    assert(to_tell(u) =~= to_tell(u).subrange(0, to_tell(u).len() as int));
}

proof fn lemma_push_flows(
    o: SyncView,
    t: SyncView,
    done: Seq<ChangeView>,
    results: Seq<PushResultView>,
)
    requires
        flows(o, t, done),
        t.phase is PendingPush,
    ensures
        flows(o, sync_step(t, Some(ArgView::Push(results))).0, done),
{
    lemma_settled_keeps(t, results);
    lemma_settling_counts(t, results);
    let a = all_settled(t, results);
    let u = sync_step(t, Some(ArgView::Push(results))).0;
    let none = Seq::<EventView>::empty();
    reveal(told);
    assert(to_push(u) == to_push(t));
    assert(told(t.opts, t.collection, left_to_merge(t)).3 == none);
    assert(t.report.events + none =~= t.report.events);
    assert(u.report.events + none =~= u.report.events);
    lemma_prefix(to_tell(o), to_tell(t), to_tell(u));
}

proof fn lemma_write_flows(o: SyncView, t: SyncView, done: Seq<ChangeView>)
    requires
        flows(o, t, done),
        t.phase is PendingWrite,
    ensures
        ({
            let (u, out) = sync_step(t, Some(ArgView::Write));
            flows(o, u, done + pushed_by(out))
        }),
{
    let (u, out) = sync_step(t, Some(ArgView::Write));
    assert((done + pushed_by(out)) + to_push(u) =~= done + to_push(t));
}

proof fn lemma_flows(s: SyncView, args: Seq<ArgView>, snapshot: RemoteSnapshotView)
    requires
        sync_inv(s),
        enumerates(s, args, snapshot),
    ensures
        sync_inv(after(s, args)),
        flows(opened(s, snapshot), after(s, args), pushed(s, args)),
    decreases args.len(),
{
    let before = args.drop_last();
    let arg = args.last();
    let o = opened(s, snapshot);
    let none = Seq::<ChangeView>::empty();
    if args.len() == 1 {
        assert(before =~= Seq::empty());
        assert(after(s, before) == s);
        assert(pushed(s, before) == none);
        a_step_keeps_a_run_sound(s, Some(arg));
        lemma_opened_keeps(s, snapshot);
        lemma_merge_flows(o, o, none);
    } else {
        assert(before[0] == args[0]);
        lemma_flows(s, before, snapshot);
        let t = after(s, before);
        a_step_keeps_a_run_sound(t, Some(arg));
        let done = pushed(s, before);
        match (t.phase, arg) {
            (SyncPhase::Merging, ArgView::Write) => {
                lemma_merge_flows(o, t, done);
            },
            (SyncPhase::PendingPush, ArgView::Push(results)) => {
                lemma_push_flows(o, t, done, results);
                assert(pushed(s, args) =~= done);
            },
            (SyncPhase::PendingWrite, ArgView::Write) => {
                lemma_write_flows(o, t, done);
            },
            _ => {
                assert(pushed(s, args) =~= done);
            },
        }
    }
}

/// A sync that ends has pushed every change its merge derived, once, in the
/// order of the handles, under its key; it reports the counts of all it
/// decided, and every event of it, before those of the outcomes.
pub proof fn a_sync_pushes_and_tells_all_it_decides(
    s: SyncView,
    args: Seq<ArgView>,
    snapshot: RemoteSnapshotView,
)
    requires
        sync_inv(s),
        enumerates(s, args, snapshot),
        s.report.pulled == 0,
        s.report.conflicts == 0,
        s.report.refreshed == 0,
        s.report.events.len() == 0,
        said(s, args) is Done,
    ensures
        ({
            let q = left_to_merge(opened(s, snapshot));
            let all = told(s.opts, s.collection, q);
            let report = said(s, args)->Done_0;
            &&& pushed(s, args) == derived(s.opts, s.collection, q)
            &&& report.pulled == all.0
            &&& report.conflicts == all.1
            &&& report.refreshed == all.2
            &&& all.3.is_prefix_of(report.events)
        }),
{
    let before = args.drop_last();
    let q = left_to_merge(opened(s, snapshot));
    lemma_flows(s, args, snapshot);
    let (o, t, u) = (opened(s, snapshot), after(s, before), after(s, args));
    if before.len() > 0 {
        assert(before[0] == args[0]);
        lemma_flows(s, before, snapshot);
    } else {
        lemma_merging_on(o);
    }
    if t.phase is Merging {
        lemma_merging_on(t);
    }
    reveal(derived);
    reveal(told);
    let all = told(s.opts, s.collection, q);
    assert(o.pushes + derived(s.opts, s.collection, q) =~= derived(s.opts, s.collection, q));
    assert(o.report.events + all.3 =~= all.3);
    assert(t.report.events + Seq::<EventView>::empty() =~= t.report.events);
    assert(to_push(u) =~= Seq::<ChangeView>::empty());
    assert(pushed(s, args) + to_push(u) =~= pushed(s, args));
}

/// The writes some candidates lead to, in order.
#[verifier::opaque]
pub open spec fn decided(
    opts: ReplicaSyncOptions,
    collection: Text,
    q: Seq<CandidateView>,
) -> Seq<WriteOpView>
    decreases q.len(),
{
    if q.len() == 0 {
        Seq::empty()
    } else {
        merged(opts, collection, q.first()).writes + decided(opts, collection, q.drop_first())
    }
}

/// The writes still to store and to derive.
pub open spec fn to_write(t: SyncView) -> Seq<WriteOpView> {
    t.writes + decided(t.opts, t.collection, left_to_merge(t))
}

proof fn lemma_begins(
    a: Seq<WriteOpView>,
    b: Seq<WriteOpView>,
    c: Seq<WriteOpView>,
    done: Seq<WriteOpView>,
)
    requires
        a.is_prefix_of(done + b),
        b.is_prefix_of(c),
    ensures
        a.is_prefix_of(done + c),
{
    assert(a =~= (done + c).subrange(0, a.len() as int)) by {
        assert forall|i: int| 0 <= i < a.len() implies a[i] == (done + c)[i] by {
            assert(a[i] == (done + b).subrange(0, a.len() as int)[i]);
            if i >= done.len() {
                assert(b[i - done.len()] == c.subrange(0, b.len() as int)[i - done.len()]);
            }
        }
    }
}

proof fn lemma_begins_all(a: Seq<WriteOpView>, b: Seq<WriteOpView>)
    ensures
        a.is_prefix_of(a + b),
{
    assert(a =~= (a + b).subrange(0, a.len() as int));
}

proof fn lemma_merging_on_writes(s: SyncView)
    requires
        is_between(s),
        s.merging is Some,
        s.next_checkpoint is None,
    ensures
        ({
            let (t, out) = merging_on(s);
            &&& to_write(s).is_prefix_of(written_by(out) + to_write(t))
            &&& t.phase is PendingPush || (t.phase is Merging || t.phase is PendingWrite)
                && t.writes.len() == 0
        }),
    decreases s.merging->0.candidates.len(),
{
    let (t, out) = merging_on(s);
    reveal(decided);
    if s.merging->0.candidates.len() == 0 {
        assert(to_write(s) =~= s.writes);
        if s.pushes.len() == 0 {
            lemma_begins_all(s.writes, written_by(out).skip(s.writes.len() as int));
            assert(written_by(out) + to_write(t) =~= s.writes + written_by(out).skip(
                s.writes.len() as int,
            ));
        } else {
            assert(written_by(out) + to_write(t) =~= s.writes + Seq::<WriteOpView>::empty());
            lemma_begins_all(s.writes, Seq::<WriteOpView>::empty());
        }
    } else {
        lemma_advanced_keeps(s);
        a_decision_is_taken_up_whole(s);
        let next = advanced(s);
        assert(to_write(next) =~= to_write(s));
        if next.writes.len() >= ReplicaSync::WRITE_CHUNK {
            assert(written_by(out) + to_write(t) =~= to_write(next) + Seq::<WriteOpView>::empty());
            lemma_begins_all(to_write(next), Seq::<WriteOpView>::empty());
        } else {
            lemma_merging_on_writes(next);
        }
    }
}

proof fn lemma_settling_writes(s: SyncView, results: Seq<PushResultView>)
    ensures
        s.writes.is_prefix_of(all_settled(s, results).writes),
    decreases results.len(),
{
    let t = all_settled(s, results);
    if results.len() > 0 {
        lemma_settling_writes(s, results.drop_last());
        let u = all_settled(s, results.drop_last());
        assert(u.writes.is_prefix_of(t.writes));
        lemma_begins(s.writes, u.writes, t.writes, Seq::empty());
        assert(Seq::<WriteOpView>::empty() + u.writes =~= u.writes);
        assert(Seq::<WriteOpView>::empty() + t.writes =~= t.writes);
    } else {
        assert(s.writes =~= t.writes.subrange(0, s.writes.len() as int));
    }
}

proof fn lemma_writes_flow(s: SyncView, args: Seq<ArgView>, snapshot: RemoteSnapshotView)
    requires
        sync_inv(s),
        enumerates(s, args, snapshot),
    ensures
        to_write(opened(s, snapshot)).is_prefix_of(wrote(s, args) + to_write(after(s, args))),
        after(s, args).phase is PendingPush || after(s, args).writes.len() == 0,
    decreases args.len(),
{
    let before = args.drop_last();
    let arg = args.last();
    let o = opened(s, snapshot);
    let (t, u) = (after(s, before), after(s, args));
    let done = wrote(s, before);
    let more = written_by(said(s, args));
    lemma_flows(s, args, snapshot);
    if args.len() == 1 {
        assert(before =~= Seq::empty());
        assert(done =~= Seq::empty());
        lemma_opened_keeps(s, snapshot);
        lemma_merging_on_writes(o);
        assert(wrote(s, args) + to_write(u) =~= more + to_write(u));
    } else {
        assert(before[0] == args[0]);
        lemma_writes_flow(s, before, snapshot);
        lemma_flows(s, before, snapshot);
        reveal(decided);
        if t.phase is Merging {
            lemma_merging_on_writes(t);
        }
        assert(to_write(t).is_prefix_of(more + to_write(u))) by {
            match (t.phase, arg) {
                (SyncPhase::Merging, ArgView::Write) => {},
                (SyncPhase::PendingPush, ArgView::Push(results)) => {
                    lemma_settled_keeps(t, results);
                    lemma_settling_writes(t, results);
                    let a = all_settled(t, results);
                    assert(to_write(t) =~= t.writes);
                    let rest = more.skip(a.writes.len() as int);
                    assert(more =~= a.writes + rest);
                    lemma_begins_all(a.writes, rest);
                    lemma_begins(t.writes, a.writes, more, Seq::empty());
                    assert(Seq::<WriteOpView>::empty() + a.writes =~= a.writes);
                    assert(Seq::<WriteOpView>::empty() + more =~= more);
                    assert(more + to_write(u) =~= more);
                },
                (SyncPhase::PendingWrite, ArgView::Write) => {
                    assert(more + to_write(u) =~= to_write(t) + Seq::<WriteOpView>::empty());
                    lemma_begins_all(to_write(t), Seq::<WriteOpView>::empty());
                },
                _ => {
                    assert(more + to_write(u) =~= to_write(t) + Seq::<WriteOpView>::empty());
                    lemma_begins_all(to_write(t), Seq::<WriteOpView>::empty());
                },
            }
        }
        lemma_begins(to_write(o), to_write(t), more + to_write(u), done);
        assert(done + (more + to_write(u)) =~= wrote(s, args) + to_write(u));
    }
}

/// A sync that ends has stored every write it decided, once it stored the
/// rows it released, in the order of the handles and ahead of all else.
pub proof fn a_sync_stores_all_it_decides(
    s: SyncView,
    args: Seq<ArgView>,
    snapshot: RemoteSnapshotView,
)
    requires
        sync_inv(s),
        enumerates(s, args, snapshot),
        said(s, args) is Done,
    ensures
        ({
            let o = opened(s, snapshot);
            (o.writes + decided(s.opts, s.collection, left_to_merge(o))).is_prefix_of(
                wrote(s, args),
            )
        }),
{
    lemma_writes_flow(s, args, snapshot);
    lemma_flows(s, args, snapshot);
    let before = args.drop_last();
    if before.len() > 0 {
        assert(before[0] == args[0]);
        lemma_flows(s, before, snapshot);
        a_step_keeps_a_run_sound(after(s, before), Some(args.last()));
        if after(s, before).phase is Merging {
            lemma_merging_on(after(s, before));
        }
    } else {
        lemma_opened_keeps(s, snapshot);
        lemma_merging_on(opened(s, snapshot));
    }
    let u = after(s, args);
    reveal(decided);
    assert(u.writes.len() == 0);
    assert(wrote(s, args) + to_write(u) =~= wrote(s, args));
}

} // verus!
