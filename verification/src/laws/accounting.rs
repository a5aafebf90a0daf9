//! What a whole sync does about one row, whatever else it does.

use vstd::prelude::*;

use crate::change::{keyed, ReplicaDropReason, WriteOpView};
use crate::coroutine::ArgView;
use crate::laws::joining::{
    a_complete_snapshot_decides_every_handle, a_delta_decides_what_narrowing_keeps,
    each_handle_is_decided_at_most_once, is_filed,
};
use crate::laws::merging::{
    a_change_is_about_its_candidate, a_confirmed_edit_keeps_the_flags_pulled_with_it,
    a_push_that_did_not_land_derives_again, is_paired, resulting,
};
use crate::laws::running::{
    a_step_keeps_a_run_sound, every_candidate_is_about_its_handle, is_between, lemma_advanced_keeps,
    lemma_opened_keeps, sync_inv, unanswered,
};
use crate::laws::spanning::{after, enumerates, said, written_by, wrote};
use crate::laws::storing::{
    about, lemma_about_both, lemma_about_none, lemma_stored_both, names,
    only_the_writes_about_a_row_touch_it, rows_stay_filed, stored,
};
use crate::order::{
    ascending, lemma_ascending, lemma_ascending_distinct, lemma_less_irreflexive, less, Text,
};
use crate::placement::{merged_flags, PlacementView};
use crate::remote::{PushResultView, RemoteSnapshotView, ReplicaPushOutcome};
use crate::sync::join::{candidates, listed, narrow, paired};
use crate::sync::options::ReplicaSyncOptions;
use crate::sync::reconcile::{
    forked, heard_flags, merged, nothing, rebased, CandidateView, HoldView,
};
use crate::sync::thaw::{remaining, thaw_writes, thawed, thawed_all, Seen};
use crate::sync::{
    advanced, all_settled, awaits, content_rebased, dropping, forgotten, held, lemma_merging_on,
    lemma_settled_keeps, merging_on, opened, placed, rejects, seen, settled, storing, ReplicaSync,
    SyncPhase, SyncView,
};

verus! {

/// What is held for the change on a handle.
pub open spec fn hold_of(t: SyncView, handle: Text) -> HoldView {
    if t.flag_pushes.contains_key(handle) {
        HoldView::Flags(t.flag_pushes[handle])
    } else if t.content_pushes.contains_key(handle) {
        HoldView::Content(t.content_pushes[handle])
    } else if t.drops.contains(handle) {
        HoldView::Drop
    } else if t.creates.contains_key(handle) {
        HoldView::Create(t.creates[handle])
    } else {
        HoldView::Nothing
    }
}

/// Whether deciding a candidate leaves the row of a handle alone.
pub open spec fn spares(
    opts: ReplicaSyncOptions,
    collection: Text,
    c: CandidateView,
    handle: Text,
) -> bool {
    forall|i: int|
        0 <= i < merged(opts, collection, c).writes.len() ==> !names(
            #[trigger] merged(opts, collection, c).writes[i],
            handle,
        )
}

/// Whether deciding a candidate stages its body, kept beside a pulled one,
/// under a handle.
pub open spec fn forks_into(
    opts: ReplicaSyncOptions,
    collection: Text,
    c: CandidateView,
    handle: Text,
) -> bool {
    c.local matches Some(p) && forked(collection, p).handle == handle && merged(
        opts,
        collection,
        c,
    ).writes.contains(WriteOpView::UpsertPlacement(forked(collection, p)))
}

/// A candidate is decided by writes about its own row, and about the one it
/// forks.
pub proof fn a_candidate_touches_its_own_row_only(
    opts: ReplicaSyncOptions,
    collection: Text,
    c: CandidateView,
    handle: Text,
)
    requires
        is_paired(c),
        c.handle != handle,
        !forks_into(opts, collection, c, handle),
    ensures
        spares(opts, collection, c, handle),
{
    let writes = merged(opts, collection, c).writes;
    assert forall|i: int| 0 <= i < writes.len() implies !names(#[trigger] writes[i], handle) by {
        assert(writes.contains(writes[i]));
    }
}

/// Whether the candidates left either are the one given or leave its row
/// alone.
pub open spec fn others_spare(t: SyncView, c: CandidateView) -> bool {
    t.merging matches Some(merge) ==> forall|i: int|
        0 <= i < merge.candidates.len() ==> {
            let other = #[trigger] merge.candidates[i];
            if other.handle == c.handle {
                other == c
            } else {
                spares(t.opts, t.collection, other, c.handle)
            }
        }
}

/// Whether a handle is still to be merged.
pub open spec fn is_ahead(t: SyncView, handle: Text) -> bool {
    t.merging matches Some(merge) && exists|i: int|
        0 <= i < merge.candidates.len() && (#[trigger] merge.candidates[i]).handle == handle
}

/// Whether every placement held is of the handle it is held for.
pub open spec fn holds_are_filed(t: SyncView) -> bool {
    &&& forall|h: Text| #[trigger] t.flag_pushes.contains_key(h) ==> t.flag_pushes[h].handle == h
    &&& forall|h: Text| #[trigger]
        t.content_pushes.contains_key(h) ==> t.content_pushes[h].handle == h
    &&& forall|h: Text| #[trigger] t.creates.contains_key(h) ==> t.creates[h].handle == h
}

/// What is kept of a handle between two candidates.
pub open spec fn keeps_account(t: SyncView, c: CandidateView) -> bool {
    &&& is_between(t)
    &&& holds_are_filed(t)
    &&& others_spare(t, c)
    &&& is_ahead(t, c.handle) ==> !held(t, c.handle)
}

proof fn lemma_advanced_account(s: SyncView, c: CandidateView)
    requires
        keeps_account(s, c),
        s.merging matches Some(merge) && merge.candidates.len() > 0,
    ensures
        ({
            let t = advanced(s);
            let d = merged(s.opts, s.collection, c);
            let now = s.merging->0.candidates.first().handle == c.handle;
            &&& keeps_account(t, c)
            &&& t.opts == s.opts
            &&& t.collection == s.collection
            &&& now ==> is_ahead(s, c.handle) && !is_ahead(t, c.handle)
            &&& !now ==> is_ahead(t, c.handle) == is_ahead(s, c.handle)
            &&& about(t.writes, c.handle) == about(s.writes, c.handle) + if now {
                about(d.writes, c.handle)
            } else {
                Seq::empty()
            }
            &&& hold_of(t, c.handle) == if now {
                d.hold
            } else {
                hold_of(s, c.handle)
            }
        }),
{
    lemma_advanced_keeps(s);
    reveal(advanced);
    let t = advanced(s);
    let (old, new) = (s.merging->0.candidates, t.merging->0.candidates);
    let first = old.first();
    assert(old[0] == first);
    assert(is_paired(old[0]));
    let d = merged(s.opts, s.collection, first);
    a_change_is_about_its_candidate(s.opts, s.collection, first);
    lemma_hold_is_filed(s.opts, s.collection, first);
    lemma_about_both(s.writes, d.writes, c.handle);
    let now = first.handle == c.handle;
    assert forall|i: int| 0 <= i < new.len() implies {
        let other = #[trigger] new[i];
        if other.handle == c.handle {
            other == c
        } else {
            spares(t.opts, t.collection, other, c.handle)
        }
    } by {
        assert(new[i] == old[i + 1]);
    }
    if now {
        assert(first == c);
        assert(is_ahead(s, c.handle));
        if is_ahead(t, c.handle) {
            let i = choose|i: int| 0 <= i < new.len() && (#[trigger] new[i]).handle == c.handle;
            assert(new[i] == old[i + 1]);
            assert(less(old[0].handle, old[i + 1].handle));
            lemma_less_irreflexive(c.handle);
        }
    } else {
        lemma_about_none(d.writes, c.handle);
        if is_ahead(s, c.handle) {
            let i = choose|i: int| 0 <= i < old.len() && (#[trigger] old[i]).handle == c.handle;
            assert(new[i - 1] == old[i]);
        }
        if is_ahead(t, c.handle) {
            let i = choose|i: int| 0 <= i < new.len() && (#[trigger] new[i]).handle == c.handle;
            assert(old[i + 1] == new[i]);
        }
    }
}

proof fn lemma_hold_is_filed(opts: ReplicaSyncOptions, collection: Text, c: CandidateView)
    requires
        is_paired(c),
    ensures
        match merged(opts, collection, c).hold {
            HoldView::Flags(p) => p.handle == c.handle,
            HoldView::Content(p) => p.handle == c.handle,
            HoldView::Create(p) => p.handle == c.handle,
            _ => true,
        },
{
}

/// What merging on does about a row: nothing before its candidate comes up,
/// then what was decided for it.
proof fn lemma_merging_on_account(s: SyncView, c: CandidateView)
    requires
        keeps_account(s, c),
        s.merging is Some,
        s.next_checkpoint is None,
    ensures
        ({
            let (t, out) = merging_on(s);
            let d = merged(s.opts, s.collection, c);
            let now = is_ahead(s, c.handle) && !is_ahead(t, c.handle);
            &&& holds_are_filed(t)
            &&& others_spare(t, c)
            &&& is_ahead(t, c.handle) ==> is_ahead(s, c.handle) && !held(t, c.handle)
            &&& t.opts == s.opts
            &&& t.collection == s.collection
            &&& about(written_by(out) + t.writes, c.handle) == about(s.writes, c.handle) + if now {
                about(d.writes, c.handle)
            } else {
                Seq::empty()
            }
            &&& hold_of(t, c.handle) == if now {
                d.hold
            } else {
                hold_of(s, c.handle)
            }
        }),
    decreases s.merging->0.candidates.len(),
{
    let (t, out) = merging_on(s);
    let none = Seq::<WriteOpView>::empty();
    if s.merging->0.candidates.len() == 0 {
        lemma_about_both(written_by(out), t.writes, c.handle);
        lemma_batch_about(s, c.handle);
        assert(about(s.writes, c.handle) + none =~= about(s.writes, c.handle));
        assert(none + s.writes =~= s.writes);
        assert(about(none, c.handle) == none);
    } else {
        lemma_advanced_account(s, c);
        let next = advanced(s);
        let step = if s.merging->0.candidates.first().handle == c.handle {
            about(merged(s.opts, s.collection, c).writes, c.handle)
        } else {
            none
        };
        lemma_advanced_keeps(s);
        if next.writes.len() >= ReplicaSync::WRITE_CHUNK {
            lemma_about_both(written_by(out), t.writes, c.handle);
            assert(written_by(out) == next.writes);
            assert(about(none, c.handle) == none);
            assert(about(next.writes, c.handle) + none =~= about(next.writes, c.handle));
        } else {
            lemma_merging_on_account(next, c);
            assert(about(next.writes, c.handle) + none =~= about(next.writes, c.handle));
            assert(about(s.writes, c.handle) + none =~= about(s.writes, c.handle));
        }
    }
}

/// A checkpoint is about no row.
proof fn lemma_batch_about(s: SyncView, handle: Text)
    ensures
        about(
            s.writes.push(
                WriteOpView::SetCheckpoint {
                    collection: s.collection,
                    checkpoint: s.merging->0.checkpoint,
                },
            ),
            handle,
        ) == about(s.writes, handle),
{
    let op = WriteOpView::SetCheckpoint {
        collection: s.collection,
        checkpoint: s.merging->0.checkpoint,
    };
    assert(s.writes.push(op).drop_last() =~= s.writes);
}

/// The writes that record an accepted change, by what was held for it.
pub open spec fn settle_writes(collection: Text, hold: HoldView, r: PushResultView) -> Seq<
    WriteOpView,
> {
    match hold {
        HoldView::Nothing => Seq::empty(),
        HoldView::Flags(p) => seq![WriteOpView::UpsertPlacement(rebased(p, p.flags))],
        HoldView::Content(p) => seq![WriteOpView::UpsertPlacement(content_rebased(p, r.revision))],
        HoldView::Drop => seq![dropping(collection, r.handle, ReplicaDropReason::Deleted)],
        HoldView::Create(p) => {
            let drop = dropping(collection, p.handle, ReplicaDropReason::Superseded);
            match r.assigned {
                Some(assigned) => seq![
                    drop,
                    WriteOpView::UpsertPlacement(placed(p, assigned, r.revision)),
                ],
                None => seq![drop],
            }
        },
    }
}

/// Whether each handle is held for one change at most.
pub open spec fn holds_are_apart(s: SyncView) -> bool {
    &&& forall|h: Text| #[trigger]
        s.flag_pushes.contains_key(h) ==> !s.content_pushes.contains_key(h) && !s.drops.contains(h)
            && !s.creates.contains_key(h)
    &&& forall|h: Text| #[trigger]
        s.content_pushes.contains_key(h) ==> !s.drops.contains(h) && !s.creates.contains_key(h)
    &&& forall|h: Text| #[trigger] s.drops.contains(h) ==> !s.creates.contains_key(h)
}

proof fn lemma_settled_account(s: SyncView, r: PushResultView, again: bool, handle: Text)
    requires
        holds_are_apart(s),
        holds_are_filed(s),
        r.assigned != Some(handle),
    ensures
        ({
            let t = settled(s, r, again);
            let counts = r.handle == handle && awaits(s, handle) && r.outcome
                == ReplicaPushOutcome::Accepted;
            &&& holds_are_apart(t)
            &&& holds_are_filed(t)
            &&& t.collection == s.collection
            &&& about(t.writes, handle) == about(s.writes, handle) + if counts {
                about(settle_writes(s.collection, hold_of(s, handle), r), handle)
            } else {
                Seq::empty()
            }
            &&& hold_of(t, handle) == if counts {
                HoldView::Nothing
            } else {
                hold_of(s, handle)
            }
        }),
{
    let t = settled(s, r, again);
    let none = Seq::<WriteOpView>::empty();
    assert(about(s.writes, handle) + none =~= about(s.writes, handle));
    if awaits(s, r.handle) && r.outcome == ReplicaPushOutcome::Accepted {
        let more = settle_writes(s.collection, hold_of(s, r.handle), r);
        assert(t.writes =~= s.writes + more);
        lemma_about_both(s.writes, more, handle);
        if r.handle != handle {
            lemma_about_none(more, handle);
        }
    }
}

/// Whether a reply assigns a handle to something created.
pub open spec fn assigns(arg: ArgView, handle: Text) -> bool {
    arg matches ArgView::Push(results) && exists|i: int|
        0 <= i < results.len() && (#[trigger] results[i]).assigned == Some(handle)
}

/// Whether a reply reports the change on a handle accepted by an outcome.
pub open spec fn accepts(arg: ArgView, handle: Text, r: PushResultView) -> bool {
    arg matches ArgView::Push(results) && results.contains(r) && r.handle == handle && r.outcome
        == ReplicaPushOutcome::Accepted
}

/// What settling may do about a row: nothing, or record that its change was
/// accepted.
proof fn lemma_all_settled_account(s: SyncView, results: Seq<PushResultView>, handle: Text)
    requires
        holds_are_apart(s),
        holds_are_filed(s),
        !assigns(ArgView::Push(results), handle),
    ensures
        ({
            let t = all_settled(s, results);
            let kept = about(t.writes, handle) == about(s.writes, handle) && (hold_of(t, handle)
                == hold_of(s, handle) || hold_of(t, handle) is Nothing);
            &&& holds_are_apart(t)
            &&& holds_are_filed(t)
            &&& t.collection == s.collection
            &&& kept || (hold_of(t, handle) is Nothing && exists|r: PushResultView| #[trigger]
                accepts(ArgView::Push(results), handle, r) && about(t.writes, handle) == about(
                    s.writes,
                    handle,
                ) + about(settle_writes(s.collection, hold_of(s, handle), r), handle))
        }),
    decreases results.len(),
{
    if results.len() > 0 {
        let before = results.drop_last();
        let r = results.last();
        assert(results[results.len() - 1] == r);
        if assigns(ArgView::Push(before), handle) {
            let i = choose|i: int|
                0 <= i < before.len() && (#[trigger] before[i]).assigned == Some(handle);
            assert(results[i].assigned == Some(handle));
        }
        lemma_all_settled_account(s, before, handle);
        let (u, t) = (all_settled(s, before), all_settled(s, results));
        lemma_settled_account(u, r, rejects(before, r.handle), handle);
        let none = Seq::<WriteOpView>::empty();
        assert(about(u.writes, handle) + none =~= about(u.writes, handle));
        assert forall|q: PushResultView| #[trigger]
            accepts(ArgView::Push(before), handle, q) implies accepts(
            ArgView::Push(results),
            handle,
            q,
        ) by {
            let i = choose|i: int| 0 <= i < before.len() && before[i] == q;
            assert(results[i] == q);
        }
        if r.handle == handle && awaits(u, handle) && r.outcome == ReplicaPushOutcome::Accepted {
            assert(accepts(ArgView::Push(results), handle, r)) by {
                assert(results.contains(r));
            }
        }
    }
}

/// What a sync has done about the row of a candidate once it was given some
/// replies, `w0` being written before the merge: nothing while it is ahead,
/// then what was decided, then the record of its change where it was
/// accepted.
pub open spec fn accounts(
    s: SyncView,
    args: Seq<ArgView>,
    c: CandidateView,
    w0: Seq<WriteOpView>,
) -> bool {
    let t = after(s, args);
    let h = c.handle;
    let done = about(wrote(s, args) + t.writes, h);
    let d = merged(s.opts, s.collection, c);
    let decided = about(w0, h) + about(d.writes, h);
    &&& sync_inv(t)
    &&& holds_are_filed(t)
    &&& others_spare(t, c)
    &&& t.opts == s.opts
    &&& t.collection == s.collection
    &&& !(t.phase is Start || t.phase is PendingLoad || t.phase is PendingEnumerate)
    &&& t.phase is PendingWrite || t.phase is Done ==> t.writes.len() == 0
    &&& if is_ahead(t, h) {
        done == about(w0, h) && !held(t, h)
    } else {
        ||| done == decided && (hold_of(t, h) == d.hold || hold_of(t, h) is Nothing)
        ||| hold_of(t, h) is Nothing && exists|i: int, r: PushResultView|
            0 <= i < args.len() && #[trigger] accepts(args[i], h, r) && done == decided + about(
                settle_writes(s.collection, d.hold, r),
                h,
            )
    }
}

/// Whether no reply assigns a handle to something created.
pub open spec fn never_assigned(args: Seq<ArgView>, handle: Text) -> bool {
    forall|i: int| 0 <= i < args.len() ==> !assigns(#[trigger] args[i], handle)
}

proof fn lemma_first_account(
    s: SyncView,
    args: Seq<ArgView>,
    snapshot: RemoteSnapshotView,
    c: CandidateView,
)
    requires
        sync_inv(s),
        enumerates(s, args, snapshot),
        args.len() == 1,
        others_spare(opened(s, snapshot), c),
        is_ahead(opened(s, snapshot), c.handle) || merged(s.opts, s.collection, c) == nothing(),
    ensures
        accounts(s, args, c, opened(s, snapshot).writes),
{
    let o = opened(s, snapshot);
    let none = Seq::<WriteOpView>::empty();
    assert(args.drop_last() =~= Seq::empty());
    assert(after(s, args.drop_last()) == s);
    a_step_keeps_a_run_sound(s, Some(args.last()));
    lemma_opened_keeps(s, snapshot);
    assert forall|h: Text| !(#[trigger] held(s, h)) by {
        if held(s, h) {
            assert(unanswered(s).contains(h));
        }
    }
    assert forall|h: Text| !(#[trigger] s.flag_pushes.contains_key(h)) by {
        assert(!held(s, h));
    }
    assert forall|h: Text| !(#[trigger] s.content_pushes.contains_key(h)) by {
        assert(!held(s, h));
    }
    assert forall|h: Text| !(#[trigger] s.creates.contains_key(h)) by {
        assert(!held(s, h));
    }
    assert(!held(s, c.handle));
    assert(!held(o, c.handle));
    lemma_merging_on_account(o, c);
    lemma_merging_on_writes(o);
    let (t, out) = merging_on(o);
    assert(wrote(s, args.drop_last()) == none);
    assert(wrote(s, args) =~= written_by(out));
    assert(about(o.writes, c.handle) + none =~= about(o.writes, c.handle));
    let d = merged(s.opts, s.collection, c);
    assert(about(d.writes, c.handle) + none =~= about(d.writes, c.handle));
    lemma_merging_on(o);
    assert(about(none, c.handle) == none);
}

/// What is stored last leaves nothing unwritten.
proof fn lemma_merging_on_writes(s: SyncView)
    requires
        s.merging is Some,
    ensures
        merging_on(s).0.phase is PendingWrite ==> merging_on(s).0.writes.len() == 0,
    decreases s.merging->0.candidates.len(),
{
    if s.merging->0.candidates.len() > 0 {
        reveal(advanced);
        if advanced(s).writes.len() < ReplicaSync::WRITE_CHUNK {
            lemma_merging_on_writes(advanced(s));
        }
    }
}

/// What a further step adds about a row.
proof fn lemma_more_about(
    ops: Seq<WriteOpView>,
    left: Seq<WriteOpView>,
    more: Seq<WriteOpView>,
    next: Seq<WriteOpView>,
    handle: Text,
)
    ensures
        about(ops + left, handle) == about(ops, handle) + about(left, handle),
        about((ops + more) + next, handle) == about(ops, handle) + about(more + next, handle),
{
    lemma_about_both(ops, left, handle);
    lemma_about_both(ops, more + next, handle);
    assert((ops + more) + next =~= ops + (more + next));
}

proof fn lemma_same_accounts(
    s: SyncView,
    before: Seq<ArgView>,
    args: Seq<ArgView>,
    c: CandidateView,
    w0: Seq<WriteOpView>,
)
    requires
        accounts(s, before, c, w0),
        args.len() > 0,
        args.drop_last() == before,
        sync_inv(after(s, args)),
        ({
            let (t, u) = (after(s, before), after(s, args));
            &&& written_by(said(s, args)).len() == 0
            &&& u.writes == t.writes
            &&& u.opts == t.opts
            &&& u.collection == t.collection
            &&& u.merging == t.merging
            &&& u.flag_pushes == t.flag_pushes
            &&& u.content_pushes == t.content_pushes
            &&& u.drops == t.drops
            &&& u.creates == t.creates
            &&& !(u.phase is Start || u.phase is PendingLoad || u.phase is PendingEnumerate)
            &&& u.phase is PendingWrite || u.phase is Done ==> u.writes.len() == 0
        }),
    ensures
        accounts(s, args, c, w0),
{
    let (t, u) = (after(s, before), after(s, args));
    assert(wrote(s, args) =~= wrote(s, before));
    let h = c.handle;
    let done = about(wrote(s, args) + u.writes, h);
    let d = merged(s.opts, s.collection, c);
    let decided = about(w0, h) + about(d.writes, h);
    if !is_ahead(u, h) && !(done == decided && (hold_of(u, h) == d.hold || hold_of(u, h)
        is Nothing)) {
        let (i, r) = choose|i: int, r: PushResultView|
            0 <= i < before.len() && #[trigger] accepts(before[i], h, r) && done == decided + about(
                settle_writes(s.collection, d.hold, r),
                h,
            );
        assert(args[i] == before[i]);
        assert(accepts(args[i], h, r));
    }
}

/// Every sync accounts for what it does about a row.
pub proof fn lemma_accounts(
    s: SyncView,
    args: Seq<ArgView>,
    snapshot: RemoteSnapshotView,
    c: CandidateView,
)
    requires
        sync_inv(s),
        enumerates(s, args, snapshot),
        others_spare(opened(s, snapshot), c),
        is_ahead(opened(s, snapshot), c.handle) || merged(s.opts, s.collection, c) == nothing(),
        never_assigned(args, c.handle),
    ensures
        accounts(s, args, c, opened(s, snapshot).writes),
    decreases args.len(),
{
    let w0 = opened(s, snapshot).writes;
    if args.len() == 1 {
        lemma_first_account(s, args, snapshot, c);
    } else {
        let before = args.drop_last();
        assert(before[0] == args[0]);
        assert forall|i: int| 0 <= i < before.len() implies !assigns(
            #[trigger] before[i],
            c.handle,
        ) by {
            assert(before[i] == args[i]);
        }
        lemma_accounts(s, before, snapshot, c);
        let (t, arg) = (after(s, before), args.last());
        a_step_keeps_a_run_sound(t, Some(arg));
        match (t.phase, arg) {
            (SyncPhase::Merging, ArgView::Write) => {
                lemma_merge_accounts(s, args, c, w0);
            },
            (SyncPhase::PendingPush, ArgView::Push(results)) => {
                assert(!assigns(args[args.len() - 1], c.handle));
                lemma_push_accounts(s, args, c, w0, results);
            },
            _ => {
                lemma_same_accounts(s, before, args, c, w0);
            },
        }
    }
}

proof fn lemma_merge_accounts(
    s: SyncView,
    args: Seq<ArgView>,
    c: CandidateView,
    w0: Seq<WriteOpView>,
)
    requires
        args.len() > 0,
        accounts(s, args.drop_last(), c, w0),
        sync_inv(after(s, args)),
        after(s, args.drop_last()).phase is Merging,
        args.last() == ArgView::Write,
    ensures
        accounts(s, args, c, w0),
{
    let before = args.drop_last();
    let t = after(s, before);
    let (u, out) = merging_on(t);
    let h = c.handle;
    let none = Seq::<WriteOpView>::empty();
    assert(keeps_account(t, c));
    lemma_merging_on_account(t, c);
    lemma_merging_on_writes(t);
    lemma_merging_on(t);
    lemma_more_about(wrote(s, before), t.writes, written_by(out), u.writes, h);
    let d = merged(s.opts, s.collection, c);
    let decided = about(w0, h) + about(d.writes, h);
    let was = about(wrote(s, before) + t.writes, h);
    let done = about(wrote(s, args) + u.writes, h);
    let step = if is_ahead(t, h) && !is_ahead(u, h) {
        about(d.writes, h)
    } else {
        none
    };
    assert(about(wrote(s, before), h) + (about(t.writes, h) + step) =~= about(wrote(s, before), h)
        + about(t.writes, h) + step);
    assert(done == was + step);
    assert(was + none =~= was);
    if !is_ahead(t, h) && !(was == decided && (hold_of(t, h) == d.hold || hold_of(t, h)
        is Nothing)) {
        let (i, r) = choose|i: int, r: PushResultView|
            0 <= i < before.len() && #[trigger] accepts(before[i], h, r) && was == decided + about(
                settle_writes(s.collection, d.hold, r),
                h,
            );
        assert(args[i] == before[i]);
        assert(accepts(args[i], h, r));
    }
}

#[verifier::rlimit(40)]
proof fn lemma_push_accounts(
    s: SyncView,
    args: Seq<ArgView>,
    c: CandidateView,
    w0: Seq<WriteOpView>,
    results: Seq<PushResultView>,
)
    requires
        args.len() > 0,
        accounts(s, args.drop_last(), c, w0),
        sync_inv(after(s, args)),
        after(s, args.drop_last()).phase is PendingPush,
        args.last() == ArgView::Push(results),
        !assigns(args.last(), c.handle),
    ensures
        accounts(s, args, c, w0),
{
    let before = args.drop_last();
    let t = after(s, before);
    let h = c.handle;
    let none = Seq::<WriteOpView>::empty();
    lemma_settled_keeps(t, results);
    lemma_all_settled_account(t, results, h);
    let a = all_settled(t, results);
    let f = forgotten(a);
    let (u, out) = storing(f, SyncPhase::PendingWrite);
    assert(after(s, args) == u);
    assert(hold_of(f, h) == hold_of(a, h) || hold_of(f, h) is Nothing);
    assert(written_by(out) + u.writes =~= written_by(out));
    assert(about(written_by(out), h) == about(f.writes, h)) by {
        if written_by(out) != f.writes {
            assert(written_by(out).drop_last() =~= f.writes);
        }
    }
    lemma_more_about(wrote(s, before), t.writes, written_by(out), u.writes, h);
    let d = merged(s.opts, s.collection, c);
    let decided = about(w0, h) + about(d.writes, h);
    let was = about(wrote(s, before) + t.writes, h);
    let done = about(wrote(s, args) + u.writes, h);
    assert(done == about(wrote(s, before), h) + about(a.writes, h));
    let kept = about(a.writes, h) == about(t.writes, h) && (hold_of(a, h) == hold_of(t, h)
        || hold_of(a, h) is Nothing);
    if was == decided && (hold_of(t, h) == d.hold || hold_of(t, h) is Nothing) {
        if !kept {
            let r = choose|r: PushResultView| #[trigger]
                accepts(ArgView::Push(results), h, r) && about(a.writes, h) == about(t.writes, h)
                    + about(settle_writes(t.collection, hold_of(t, h), r), h);
            let more = about(settle_writes(t.collection, hold_of(t, h), r), h);
            assert(done =~= was + more);
            assert(accepts(args[args.len() - 1], h, r));
            if hold_of(t, h) is Nothing {
                assert(about(none, h) == none);
                assert(was + none =~= was);
            }
        }
    } else {
        let (i, r) = choose|i: int, r: PushResultView|
            0 <= i < before.len() && #[trigger] accepts(before[i], h, r) && was == decided + about(
                settle_writes(s.collection, d.hold, r),
                h,
            );
        if !kept {
            assert(about(none, h) == none);
            assert(about(a.writes, h) =~= about(t.writes, h));
        }
        assert(args[i] == before[i]);
        assert(accepts(args[i], h, r));
    }
}

/// What a snapshot makes of a joined handle.
pub open spec fn decided_of(
    local: Map<Text, PlacementView>,
    snapshot: RemoteSnapshotView,
    handle: Text,
) -> Option<CandidateView> {
    let pair = paired(local, listed(snapshot.items), handle);
    if snapshot.complete {
        Some(pair)
    } else {
        narrow(snapshot.vanished.to_set(), pair)
    }
}

/// A candidate is what the snapshot makes of its handle.
proof fn lemma_candidate_is(
    local: Map<Text, PlacementView>,
    snapshot: RemoteSnapshotView,
    i: int,
)
    requires
        local.dom().finite(),
        0 <= i < candidates(local, snapshot).len(),
    ensures
        ({
            let c = candidates(local, snapshot)[i];
            decided_of(local, snapshot, c.handle) == Some(c)
        }),
{
    each_handle_is_decided_at_most_once(local, snapshot);
    let q = candidates(local, snapshot);
    let h = q[i].handle;
    if snapshot.complete {
        a_complete_snapshot_decides_every_handle(local, snapshot, h);
    } else {
        a_delta_decides_what_narrowing_keeps(local, snapshot, h);
    }
    let c = decided_of(local, snapshot, h);
    if c is None {
        assert(q[i].handle != h);
    }
    let k = choose|k: int| 0 <= k < q.len() && q[k] == c->0;
    if k < i {
        assert(less(q[k].handle, q[i].handle));
        lemma_less_irreflexive(h);
    } else if i < k {
        assert(less(q[i].handle, q[k].handle));
        lemma_less_irreflexive(h);
    }
}

/// Whether no candidate of an enumeration forks into a handle.
pub open spec fn none_forks_into(s: SyncView, snapshot: RemoteSnapshotView, handle: Text) -> bool {
    let q = opened(s, snapshot).merging->0.candidates;
    forall|i: int|
        0 <= i < q.len() ==> !forks_into(s.opts, s.collection, #[trigger] q[i], handle)
}

/// No candidate but the one of a handle touches its row.
pub proof fn lemma_others_spare(s: SyncView, snapshot: RemoteSnapshotView, c: CandidateView)
    requires
        sync_inv(s),
        s.phase is PendingEnumerate,
        none_forks_into(s, snapshot, c.handle),
        !is_ahead(opened(s, snapshot), c.handle) || opened(
            s,
            snapshot,
        ).merging->0.candidates.contains(c),
    ensures
        others_spare(opened(s, snapshot), c),
{
    let o = opened(s, snapshot);
    let local = thawed_all(seen(snapshot), s.local);
    assert(local.dom() =~= s.local.dom());
    let q = candidates(local, snapshot);
    each_handle_is_decided_at_most_once(local, snapshot);
    every_candidate_is_about_its_handle(local, snapshot);
    assert forall|i: int| 0 <= i < q.len() implies {
        let other = #[trigger] q[i];
        if other.handle == c.handle {
            other == c
        } else {
            spares(o.opts, o.collection, other, c.handle)
        }
    } by {
        let other = q[i];
        if other.handle == c.handle {
            assert(is_ahead(o, c.handle));
            let k = choose|k: int| 0 <= k < q.len() && q[k] == c;
            if k < i {
                assert(less(q[k].handle, q[i].handle));
                lemma_less_irreflexive(c.handle);
            } else if i < k {
                assert(less(q[i].handle, q[k].handle));
                lemma_less_irreflexive(c.handle);
            }
        } else {
            assert(is_paired(q[i]));
            assert(!forks_into(s.opts, s.collection, q[i], c.handle));
            a_candidate_touches_its_own_row_only(o.opts, o.collection, other, c.handle);
        }
    }
}

/// What is written of a row before the merge: its release, if it is one.
proof fn lemma_thaw_about(
    seen: Seen,
    local: Map<Text, PlacementView>,
    handles: Seq<Text>,
    handle: Text,
)
    requires
        is_filed(local),
        handles.no_duplicates(),
        forall|i: int| 0 <= i < handles.len() ==> local.contains_key(#[trigger] handles[i]),
    ensures
        ({
            let p = local[handle];
            let ops = about(thaw_writes(seen, local, handles), handle);
            if handles.contains(handle) && p != thawed(seen, p) {
                ops == seq![WriteOpView::UpsertPlacement(thawed(seen, p))]
            } else {
                ops.len() == 0
            }
        }),
    decreases handles.len(),
{
    if handles.len() > 0 {
        let (before, last) = (handles.drop_last(), handles.last());
        assert forall|i: int| 0 <= i < before.len() implies local.contains_key(
            #[trigger] before[i],
        ) by {
            assert(before[i] == handles[i]);
        }
        assert(local.contains_key(handles[handles.len() - 1]));
        assert(before.no_duplicates()) by {
            assert forall|i: int, j: int| 0 <= i < j < before.len() implies before[i]
                != before[j] by {
                assert(handles[i] != handles[j]);
            }
        }
        lemma_thaw_about(seen, local, before, handle);
        let (old, all) = (thaw_writes(seen, local, before), thaw_writes(seen, local, handles));
        if all != old {
            assert(all.drop_last() =~= old);
        }
        if handle == last {
            if before.contains(handle) {
                let k = choose|k: int| 0 <= k < before.len() && before[k] == handle;
                assert(handles[k] != handles[handles.len() - 1]);
            }
            assert(handles[handles.len() - 1] == handle);
            let p = local[handle];
            if p.status is Ambiguous && remaining(seen, p.ambiguous_handles).len()
                < p.ambiguous_handles.len() {
                assert(thawed(seen, p).ambiguous_handles != p.ambiguous_handles);
                assert(about(all, handle) =~= seq![
                    WriteOpView::UpsertPlacement(thawed(seen, p)),
                ]);
            }
        } else {
            if handles.contains(handle) {
                let k = choose|k: int| 0 <= k < handles.len() && handles[k] == handle;
                assert(before[k] == handle);
            }
            if before.contains(handle) {
                let k = choose|k: int| 0 <= k < before.len() && before[k] == handle;
                assert(handles[k] == handle);
            }
        }
    }
}

/// The row of a handle once what was written before the merge is stored.
pub proof fn lemma_row_before_merge(s: SyncView, snapshot: RemoteSnapshotView, handle: Text)
    requires
        sync_inv(s),
        s.phase is PendingEnumerate,
    ensures
        ({
            let ops = about(opened(s, snapshot).writes, handle);
            let rows = stored(s.local, ops);
            &&& rows.contains_key(handle) == s.local.contains_key(handle)
            &&& s.local.contains_key(handle) ==> rows[handle] == thawed(
                seen(snapshot),
                s.local[handle],
            )
            &&& s.local.contains_key(handle) && !(s.local[handle].status is Ambiguous)
                ==> ops.len() == 0
            &&& !s.local.contains_key(handle) ==> ops.len() == 0
        }),
{
    let q = ascending(s.local.dom());
    lemma_ascending(s.local.dom());
    lemma_ascending_distinct(q);
    assert forall|i: int| 0 <= i < q.len() implies s.local.contains_key(#[trigger] q[i]) by {
        assert(q.contains(q[i]));
    }
    lemma_thaw_about(seen(snapshot), s.local, q, handle);
    let writes = thaw_writes(seen(snapshot), s.local, q);
    assert(opened(s, snapshot).writes =~= writes);
    assert(q.contains(handle) <==> s.local.contains_key(handle));
    let ops = about(writes, handle);
    if ops.len() > 0 {
        assert(ops.drop_last() =~= Seq::empty());
        assert(stored(s.local, ops.drop_last()) == s.local);
    }
}

/// The row of a candidate once what was decided for it is stored.
proof fn lemma_row_decided(
    rows: Map<Text, PlacementView>,
    opts: ReplicaSyncOptions,
    collection: Text,
    c: CandidateView,
)
    requires
        is_paired(c),
        merged(opts, collection, c).change is Some,
        c.local is Some,
        rows.contains_key(c.handle),
        rows[c.handle] == c.local->0,
    ensures
        ({
            let d = merged(opts, collection, c);
            let left = stored(rows, about(d.writes, c.handle));
            left.contains_key(c.handle) && left[c.handle] == resulting(c.local->0, d)
        }),
{
    let d = merged(opts, collection, c);
    a_push_that_did_not_land_derives_again(opts, collection, c);
    only_the_writes_about_a_row_touch_it(rows, d.writes, c.handle);
}

/// Whether some reply reports the change on a handle accepted.
pub open spec fn lands(args: Seq<ArgView>, handle: Text) -> bool {
    exists|i: int, r: PushResultView|
        0 <= i < args.len() && #[trigger] accepts(args[i], handle, r)
}

/// Whether a sync stands where another did before it enumerated, over the
/// rows the other's writes left.
pub open spec fn takes_up(next: SyncView, s: SyncView, args: Seq<ArgView>) -> bool {
    &&& next.phase is PendingEnumerate
    &&& next.opts == s.opts
    &&& next.collection == s.collection
    &&& next.local == stored(s.local, wrote(s, args))
}

/// Whether a candidate is among those of an enumeration, and its handle is
/// taken by no other row: none forks into it, and no reply assigns it.
pub open spec fn decides(
    s: SyncView,
    args: Seq<ArgView>,
    snapshot: RemoteSnapshotView,
    c: CandidateView,
) -> bool {
    &&& sync_inv(s)
    &&& enumerates(s, args, snapshot)
    &&& opened(s, snapshot).merging->0.candidates.contains(c)
    &&& none_forks_into(s, snapshot, c.handle)
    &&& never_assigned(args, c.handle)
}

/// The row of a candidate that pushes, once its run is over.
proof fn lemma_row_after(
    s: SyncView,
    args: Seq<ArgView>,
    snapshot: RemoteSnapshotView,
    c: CandidateView,
)
    requires
        decides(s, args, snapshot, c),
        after(s, args).phase is Done,
        merged(s.opts, s.collection, c).change is Some,
    ensures
        c.local is Some,
        is_paired(c),
        s.local.contains_key(c.handle),
        c.local->0 == thawed(seen(snapshot), s.local[c.handle]),
        decided_of(thawed_all(seen(snapshot), s.local), snapshot, c.handle) == Some(c),
        ({
            let d = merged(s.opts, s.collection, c);
            let left = resulting(c.local->0, d);
            let rows = stored(s.local, wrote(s, args));
            let kept = rows.contains_key(c.handle) && rows[c.handle] == left;
            ||| kept
            ||| exists|i: int, r: PushResultView|
                0 <= i < args.len() && #[trigger] accepts(args[i], c.handle, r) && {
                    let confirmed = stored(
                        s.local.insert(c.handle, left),
                        about(settle_writes(s.collection, d.hold, r), c.handle),
                    );
                    rows.contains_key(c.handle) == confirmed.contains_key(c.handle) && (
                    rows.contains_key(c.handle) ==> rows[c.handle] == confirmed[c.handle])
                }
        }),
{
    let o = opened(s, snapshot);
    let h = c.handle;
    let local = thawed_all(seen(snapshot), s.local);
    assert(local.dom() =~= s.local.dom());
    let q = candidates(local, snapshot);
    let i = choose|i: int| 0 <= i < q.len() && q[i] == c;
    assert(is_ahead(o, h)) by {
        assert(o.merging->0.candidates[i].handle == h);
    }
    lemma_candidate_is(local, snapshot, i);
    every_candidate_is_about_its_handle(local, snapshot);
    assert(is_paired(q[i]));
    let d = merged(s.opts, s.collection, c);
    a_push_that_did_not_land_derives_again(s.opts, s.collection, c);
    lemma_others_spare(s, snapshot, c);
    lemma_accounts(s, args, snapshot, c);
    let t = after(s, args);
    let ops = wrote(s, args);
    assert(ops + t.writes =~= ops);
    let rows = stored(s.local, ops);
    let mid = stored(s.local, about(o.writes, h));
    lemma_row_before_merge(s, snapshot, h);
    lemma_row_decided(mid, s.opts, s.collection, c);
    lemma_stored_both(s.local, about(o.writes, h), about(d.writes, h));
    only_the_writes_about_a_row_touch_it(s.local, ops, h);
    let decided = about(o.writes, h) + about(d.writes, h);
    let left = resulting(c.local->0, d);
    if about(ops, h) != decided {
        let (i, r) = choose|i: int, r: PushResultView|
            0 <= i < args.len() && #[trigger] accepts(args[i], h, r) && about(ops, h) == decided
                + about(settle_writes(s.collection, d.hold, r), h);
        let more = about(settle_writes(s.collection, d.hold, r), h);
        lemma_stored_both(s.local, decided, more);
        lemma_stored_alike(stored(s.local, decided), s.local.insert(h, left), more, h);
        assert(accepts(args[i], h, r));
    }
}

/// What some writes leave of a row depends on nothing but the row.
proof fn lemma_stored_alike(
    a: Map<Text, PlacementView>,
    b: Map<Text, PlacementView>,
    ops: Seq<WriteOpView>,
    handle: Text,
)
    requires
        a.contains_key(handle) == b.contains_key(handle),
        a.contains_key(handle) ==> a[handle] == b[handle],
    ensures
        stored(a, ops).contains_key(handle) == stored(b, ops).contains_key(handle),
        stored(a, ops).contains_key(handle) ==> stored(a, ops)[handle] == stored(b, ops)[handle],
    decreases ops.len(),
{
    if ops.len() > 0 {
        lemma_stored_alike(a, b, ops.drop_last(), handle);
    }
}

/// A push that was rejected, or that nobody reported on, is not lost: the
/// row stays, pending as it was, and the next sync over the rows this one
/// left, told the same by the remote, derives the very same change, under the
/// same key.
pub proof fn a_push_that_did_not_land_is_derived_by_the_next_sync(
    s: SyncView,
    args: Seq<ArgView>,
    snapshot: RemoteSnapshotView,
    next: SyncView,
    c: CandidateView,
)
    requires
        decides(s, args, snapshot, c),
        after(s, args).phase is Done,
        merged(s.opts, s.collection, c).change is Some,
        !lands(args, c.handle),
        takes_up(next, s, args),
    ensures
        next.local.contains_key(c.handle),
        !(c.local->0.status is Clean) ==> !(next.local[c.handle].status is Clean),
        exists|again: CandidateView|
            {
                let (was, now) = (
                    merged(s.opts, s.collection, c).change,
                    merged(next.opts, next.collection, again).change,
                );
                &&& #[trigger] opened(next, snapshot).merging->0.candidates.contains(again)
                &&& again.handle == c.handle
                &&& now == was
                &&& keyed(next.collection, now->0) == keyed(s.collection, was->0)
            },
{
    let h = c.handle;
    let d = merged(s.opts, s.collection, c);
    lemma_row_after(s, args, snapshot, c);
    a_push_that_did_not_land_derives_again(s.opts, s.collection, c);
    let left = resulting(c.local->0, d);
    rows_stay_filed(s.local, wrote(s, args));
    let local = thawed_all(seen(snapshot), next.local);
    assert(local.dom() =~= next.local.dom());
    assert(local[h] == left);
    let again = CandidateView { local: Some(left), ..c };
    let pair = paired(local, listed(snapshot.items), h);
    assert(decided_of(local, snapshot, h) == Some(again));
    if snapshot.complete {
        a_complete_snapshot_decides_every_handle(local, snapshot, h);
    } else {
        a_delta_decides_what_narrowing_keeps(local, snapshot, h);
    }
    assert(opened(next, snapshot).merging->0.candidates.contains(again));
}

/// A flag pulled in the run that pushes an edit outlasts it: the writes of
/// the run, applied in order, leave the row with the merged flags and the
/// edited body, whether the push was confirmed or not.
pub proof fn a_flag_pulled_beside_an_edit_outlasts_the_run(
    s: SyncView,
    args: Seq<ArgView>,
    snapshot: RemoteSnapshotView,
    c: CandidateView,
)
    requires
        decides(s, args, snapshot, c),
        after(s, args).phase is Done,
        merged(s.opts, s.collection, c).change matches Some(kind) && kind is Update,
        c.local matches Some(local) && !(local.status is Tombstone),
    ensures
        ({
            let (local, item) = (c.local->0, c.remote->0);
            let rows = stored(s.local, wrote(s, args));
            let left = resulting(local, merged(s.opts, s.collection, c));
            &&& c.remote is Some
            &&& local.base is Some
            &&& rows.contains_key(c.handle)
            &&& rows[c.handle].flags == merged_flags(
                local.base->0.flags,
                local.flags,
                heard_flags(local.base->0, item),
            )
            &&& rows[c.handle].object == local.object
            &&& rows[c.handle] == left || exists|i: int, r: PushResultView|
                0 <= i < args.len() && #[trigger] accepts(args[i], c.handle, r) && rows[c.handle]
                    == content_rebased(left, r.revision)
        }),
{
    let h = c.handle;
    let d = merged(s.opts, s.collection, c);
    lemma_row_after(s, args, snapshot, c);
    a_confirmed_edit_keeps_the_flags_pulled_with_it(s.opts, s.collection, c, None);
    let left = resulting(c.local->0, d);
    let rows = stored(s.local, wrote(s, args));
    if !(rows.contains_key(h) && rows[h] == left) {
        let (i, r) = choose|i: int, r: PushResultView|
            0 <= i < args.len() && #[trigger] accepts(args[i], h, r) && {
                let confirmed = stored(
                    s.local.insert(h, left),
                    about(settle_writes(s.collection, d.hold, r), h),
                );
                rows.contains_key(h) == confirmed.contains_key(h) && (rows.contains_key(h)
                    ==> rows[h] == confirmed[h])
            };
        a_confirmed_edit_keeps_the_flags_pulled_with_it(s.opts, s.collection, c, r.revision);
        let ops = settle_writes(s.collection, d.hold, r);
        let op = WriteOpView::UpsertPlacement(content_rebased(left, r.revision));
        assert(ops =~= seq![op]);
        assert(ops.drop_last() =~= Seq::empty());
        assert(about(ops.drop_last(), h) == Seq::<WriteOpView>::empty());
        assert(about(ops, h) =~= seq![op]);
        assert(about(ops, h).drop_last() =~= Seq::empty());
        assert(stored(s.local.insert(h, left), about(ops, h).drop_last()) == s.local.insert(
            h,
            left,
        ));
        assert(accepts(args[i], h, r));
    }
}

} // verus!
