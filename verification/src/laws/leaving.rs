//! What a sync leaves alone.

use vstd::prelude::*;

use crate::change::{target, ChangeView};
use crate::coroutine::{ArgView, StepView};
use crate::laws::accounting::{
    assigns, is_ahead, lemma_accounts, lemma_others_spare, lemma_row_before_merge, never_assigned,
    none_forks_into,
};
use crate::laws::joining::{
    a_delta_leaves_an_unlisted_clean_placement_alone, each_handle_is_decided_at_most_once,
};
use crate::laws::merging::{a_change_is_about_its_candidate, is_paired};
use crate::laws::running::{
    a_step_keeps_a_run_sound, is_between, lemma_advanced_keeps, lemma_opened_keeps, sync_inv,
    unanswered,
};
use crate::laws::spanning::{after, enumerates, pushed_by, said, wrote};
use crate::laws::storing::{
    about, lemma_about_none, lemma_none_about, names, only_the_writes_about_a_row_touch_it, stored,
};
use crate::order::Text;
use crate::remote::{PushResultView, RemoteSnapshotView};
use crate::sync::join::listed;
use crate::sync::options::{EventView, ReplicaSyncOptions};
use crate::sync::reconcile::{merged, nothing, CandidateView};
use crate::sync::thaw::thawed_all;
use crate::sync::{
    advanced, all_settled, awaits, held, lemma_merging_on, lemma_settled_keeps, merging_on, opened,
    seen, ReplicaSync, SyncPhase, SyncView,
};

verus! {

/// The handle an event is about.
pub open spec fn concerns(event: EventView) -> Text {
    match event {
        EventView::Added(handle) => handle,
        EventView::FlagsChanged(handle) => handle,
        EventView::ContentChanged(handle) => handle,
        EventView::Vanished(handle) => handle,
        EventView::Conflicted(handle) => handle,
        EventView::Created(handle) => handle,
    }
}

/// Whether no event is about a handle.
pub open spec fn no_event(events: Seq<EventView>, handle: Text) -> bool {
    forall|i: int| 0 <= i < events.len() ==> concerns(#[trigger] events[i]) != handle
}

/// Whether no change is about a handle.
pub open spec fn no_change(changes: Seq<ChangeView>, handle: Text) -> bool {
    forall|i: int| 0 <= i < changes.len() ==> target((#[trigger] changes[i]).kind) != handle
}

/// Whether nothing a sync holds or has reported is about a handle.
pub open spec fn is_silent(t: SyncView, handle: Text) -> bool {
    &&& t.merging matches Some(merge) ==> forall|i: int|
        0 <= i < merge.candidates.len() ==> (#[trigger] merge.candidates[i]).handle != handle
    &&& no_change(t.pushes, handle)
    &&& !held(t, handle)
    &&& no_event(t.report.events, handle)
}

proof fn lemma_events_are_about_their_candidate(
    opts: ReplicaSyncOptions,
    collection: Text,
    c: CandidateView,
    handle: Text,
)
    requires
        is_paired(c),
        c.handle != handle,
    ensures
        no_event(merged(opts, collection, c).events, handle),
{
}

proof fn lemma_advanced_silent(s: SyncView, handle: Text)
    requires
        is_between(s),
        is_silent(s, handle),
        s.merging matches Some(merge) && merge.candidates.len() > 0,
    ensures
        is_silent(advanced(s), handle),
{
    lemma_advanced_keeps(s);
    reveal(advanced);
    let t = advanced(s);
    let (old, new) = (s.merging->0.candidates, t.merging->0.candidates);
    let first = old.first();
    assert(old[0] == first);
    assert(is_paired(old[0]));
    let d = merged(s.opts, s.collection, first);
    a_change_is_about_its_candidate(s.opts, s.collection, first);
    lemma_events_are_about_their_candidate(s.opts, s.collection, first, handle);
    assert forall|i: int| 0 <= i < new.len() implies (#[trigger] new[i]).handle != handle by {
        assert(new[i] == old[i + 1]);
    }
    assert forall|i: int| 0 <= i < t.pushes.len() implies target((#[trigger] t.pushes[i]).kind)
        != handle by {
        if i < s.pushes.len() {
            assert(t.pushes[i] == s.pushes[i]);
        }
    }
    assert forall|i: int| 0 <= i < t.report.events.len() implies concerns(
        #[trigger] t.report.events[i],
    ) != handle by {
        let n = s.report.events.len();
        if i < n {
            assert(t.report.events[i] == s.report.events[i]);
        } else {
            assert(t.report.events[i] == d.events[i - n]);
        }
    }
}

proof fn lemma_merging_on_silent(s: SyncView, handle: Text)
    requires
        is_between(s),
        is_silent(s, handle),
        s.merging is Some,
        s.next_checkpoint is None,
    ensures
        is_silent(merging_on(s).0, handle),
        no_change(pushed_by(merging_on(s).1), handle),
    decreases s.merging->0.candidates.len(),
{
    if s.merging->0.candidates.len() > 0 {
        lemma_advanced_keeps(s);
        lemma_advanced_silent(s, handle);
        if advanced(s).writes.len() < ReplicaSync::WRITE_CHUNK {
            lemma_merging_on_silent(advanced(s), handle);
        }
    }
}

proof fn lemma_all_settled_silent(s: SyncView, results: Seq<PushResultView>, handle: Text)
    requires
        is_silent(s, handle),
        !assigns(ArgView::Push(results), handle),
    ensures
        is_silent(all_settled(s, results), handle),
    decreases results.len(),
{
    if results.len() > 0 {
        let before = results.drop_last();
        let r = results.last();
        assert(results[results.len() - 1] == r);
        if assigns(ArgView::Push(before), handle) {
            let i = choose|i: int|
                0 <= i < before.len() && (#[trigger] before[i]).assigned == Some(handle);
            assert(results[i].assigned == Some(handle));
        }
        lemma_all_settled_silent(s, before, handle);
        let u = all_settled(s, before);
        assert(awaits(u, r.handle) ==> r.handle != handle);
    }
}

proof fn lemma_silent(s: SyncView, args: Seq<ArgView>, snapshot: RemoteSnapshotView, handle: Text)
    requires
        sync_inv(s),
        enumerates(s, args, snapshot),
        is_silent(opened(s, snapshot), handle),
        never_assigned(args, handle),
    ensures
        sync_inv(after(s, args)),
        is_silent(after(s, args), handle),
        no_change(pushed_by(said(s, args)), handle),
        said(s, args) matches StepView::Done(report) ==> no_event(report.events, handle),
        !(after(s, args).phase is Start || after(s, args).phase is PendingLoad || after(
            s,
            args,
        ).phase is PendingEnumerate),
    decreases args.len(),
{
    let before = args.drop_last();
    let arg = args.last();
    if args.len() == 1 {
        assert(before =~= Seq::empty());
        assert(after(s, before) == s);
        a_step_keeps_a_run_sound(s, Some(arg));
        lemma_opened_keeps(s, snapshot);
        lemma_merging_on_silent(opened(s, snapshot), handle);
        lemma_merging_on(opened(s, snapshot));
    } else {
        assert(before[0] == args[0]);
        assert forall|i: int| 0 <= i < before.len() implies !assigns(
            #[trigger] before[i],
            handle,
        ) by {
            assert(before[i] == args[i]);
        }
        lemma_silent(s, before, snapshot, handle);
        let t = after(s, before);
        a_step_keeps_a_run_sound(t, Some(arg));
        match (t.phase, arg) {
            (SyncPhase::Merging, ArgView::Write) => {
                lemma_merging_on_silent(t, handle);
                lemma_merging_on(t);
            },
            (SyncPhase::PendingPush, ArgView::Push(results)) => {
                assert(!assigns(args[args.len() - 1], handle));
                lemma_settled_keeps(t, results);
                lemma_all_settled_silent(t, results, handle);
            },
            _ => {},
        }
    }
}

/// Whether nothing a sync hands over for some replies is about a handle: no
/// write, no change and no event, so that its row, or that there is none,
/// stays as it was.
pub open spec fn leaves_alone(s: SyncView, args: Seq<ArgView>, handle: Text) -> bool {
    let rows = stored(s.local, wrote(s, args));
    &&& forall|i: int|
        0 <= i < wrote(s, args).len() ==> !names(#[trigger] wrote(s, args)[i], handle)
    &&& no_change(pushed_by(said(s, args)), handle)
    &&& no_event(after(s, args).report.events, handle)
    &&& said(s, args) matches StepView::Done(report) ==> no_event(report.events, handle)
    &&& rows.contains_key(handle) == s.local.contains_key(handle)
    &&& rows.contains_key(handle) ==> rows[handle] == s.local[handle]
}

/// A handle no candidate is about, and whose row is not frozen, is left
/// alone.
proof fn lemma_left_alone(
    s: SyncView,
    args: Seq<ArgView>,
    snapshot: RemoteSnapshotView,
    handle: Text,
)
    requires
        sync_inv(s),
        enumerates(s, args, snapshot),
        no_event(s.report.events, handle),
        !is_ahead(opened(s, snapshot), handle),
        s.local.contains_key(handle) ==> !(s.local[handle].status is Ambiguous),
        none_forks_into(s, snapshot, handle),
        never_assigned(args, handle),
    ensures
        leaves_alone(s, args, handle),
{
    let o = opened(s, snapshot);
    if held(s, handle) {
        assert(unanswered(s).contains(handle));
    }
    assert(is_silent(o, handle));
    lemma_silent(s, args, snapshot, handle);
    let c = CandidateView { handle, local: None, remote: None };
    assert(merged(s.opts, s.collection, c) == nothing());
    lemma_others_spare(s, snapshot, c);
    lemma_accounts(s, args, snapshot, c);
    lemma_row_before_merge(s, snapshot, handle);
    let (ops, left) = (wrote(s, args), after(s, args).writes);
    assert(about(ops + left, handle).len() == 0);
    lemma_none_about(ops + left, handle);
    assert forall|i: int| 0 <= i < ops.len() implies !names(#[trigger] ops[i], handle) by {
        assert(ops[i] == (ops + left)[i]);
    }
    lemma_about_none(ops, handle);
    only_the_writes_about_a_row_touch_it(s.local, ops, handle);
}

/// A delta is silent on what it does not mention: over a whole sync no
/// write, no change and no event is about a clean row that was neither
/// listed nor reported vanished, and the row stays as it was.
pub proof fn a_delta_says_nothing_of_a_clean_row_it_does_not_mention(
    s: SyncView,
    args: Seq<ArgView>,
    snapshot: RemoteSnapshotView,
    handle: Text,
)
    requires
        sync_inv(s),
        enumerates(s, args, snapshot),
        no_event(s.report.events, handle),
        !snapshot.complete,
        s.local.contains_key(handle),
        s.local[handle].status is Clean,
        !listed(snapshot.items).contains_key(handle),
        !snapshot.vanished.contains(handle),
        none_forks_into(s, snapshot, handle),
        never_assigned(args, handle),
    ensures
        leaves_alone(s, args, handle),
{
    let local = thawed_all(seen(snapshot), s.local);
    assert(local.dom() =~= s.local.dom());
    a_delta_leaves_an_unlisted_clean_placement_alone(local, snapshot, handle);
    lemma_left_alone(s, args, snapshot, handle);
}

/// A handle neither side holds is ignored, reported vanished or not: over a
/// whole sync no write, no change and no event is about it.
pub proof fn a_handle_neither_side_holds_is_ignored(
    s: SyncView,
    args: Seq<ArgView>,
    snapshot: RemoteSnapshotView,
    handle: Text,
)
    requires
        sync_inv(s),
        enumerates(s, args, snapshot),
        no_event(s.report.events, handle),
        !s.local.contains_key(handle),
        !listed(snapshot.items).contains_key(handle),
        none_forks_into(s, snapshot, handle),
        never_assigned(args, handle),
    ensures
        leaves_alone(s, args, handle),
{
    let local = thawed_all(seen(snapshot), s.local);
    assert(local.dom() =~= s.local.dom());
    each_handle_is_decided_at_most_once(local, snapshot);
    lemma_left_alone(s, args, snapshot, handle);
}

} // verus!
