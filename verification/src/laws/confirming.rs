//! What an accepted change leaves of its row, told from what was pushed and
//! what the remote answered.

use vstd::prelude::*;

use crate::change::{ReplicaDropReason, WriteOpView};
use crate::coroutine::{ArgView, StepView, YieldView};
use crate::laws::deciding::stages_body;
use crate::laws::running::sync_inv;
use crate::placement::{BaseView, PlacementView, ReplicaStatus};
use crate::remote::{PushResultView, ReplicaPushOutcome};
use crate::storage::LoadScopeView;
use crate::sync::options::EventView;
use crate::sync::{settled, sync_step, ReplicaSync, SyncView};

verus! {

/// Whether an outcome takes a change of the chunk in flight.
pub open spec fn takes(s: SyncView, result: PushResultView) -> bool {
    s.in_flight.contains(result.handle) && result.outcome == ReplicaPushOutcome::Accepted
}

/// Whether an outcome was recorded by some writes and an event, counted as
/// one push, and nothing else of the report moved.
pub open spec fn records(
    s: SyncView,
    t: SyncView,
    writes: Seq<WriteOpView>,
    event: EventView,
) -> bool {
    &&& t.writes == s.writes + writes
    &&& t.report.events == s.report.events.push(event)
    &&& t.report.pushed == s.report.pushed + 1
    &&& t.report.pulled == s.report.pulled
    &&& t.report.conflicts == s.report.conflicts
    &&& t.report.refreshed == s.report.refreshed
    &&& t.report.rejected == s.report.rejected
    &&& t.pushes == s.pushes
    &&& t.next_checkpoint == s.next_checkpoint
}

/// An accepted flag push leaves the row as pushed, its flags now the base's.
/// It is clean unless a conflict or a staged body is still pending on it.
pub proof fn accepted_flags_become_the_base(s: SyncView, result: PushResultView, again: bool)
    requires
        sync_inv(s),
        takes(s, result),
        s.flag_pushes.contains_key(result.handle),
    ensures
        ({
            let (p, t) = (s.flag_pushes[result.handle], settled(s, result, again));
            let q = PlacementView {
                status: if p.status is Conflict {
                    ReplicaStatus::Conflict
                } else if p.status is Dirty && stages_body(p) {
                    ReplicaStatus::Dirty
                } else {
                    ReplicaStatus::Clean
                },
                base: Some(
                    BaseView {
                        flags: p.flags,
                        revision: match p.base {
                            Some(base) => base.revision,
                            None => None,
                        },
                        object: match p.base {
                            Some(base) => base.object,
                            None => None,
                        },
                    },
                ),
                ..p
            };
            records(
                s,
                t,
                seq![WriteOpView::UpsertPlacement(q)],
                EventView::FlagsChanged(result.handle),
            )
        }),
{
    let t = settled(s, result, again);
    assert(t.writes =~= s.writes + seq![t.writes.last()]);
}

/// An accepted content push leaves the row as pushed, its body and the
/// revision reported now the base's. A flag edit riding along stays pending,
/// and so does a move.
pub proof fn accepted_content_becomes_the_base(s: SyncView, result: PushResultView, again: bool)
    requires
        sync_inv(s),
        takes(s, result),
        s.content_pushes.contains_key(result.handle),
        s.content_pushes[result.handle].base is Some,
    ensures
        ({
            let (p, t) = (s.content_pushes[result.handle], settled(s, result, again));
            let q = PlacementView {
                status: if p.status is Tombstone {
                    ReplicaStatus::Tombstone
                } else if p.flags == p.base->0.flags {
                    ReplicaStatus::Clean
                } else {
                    ReplicaStatus::Dirty
                },
                base: Some(
                    BaseView {
                        flags: p.base->0.flags,
                        revision: result.revision,
                        object: p.object,
                    },
                ),
                ..p
            };
            records(
                s,
                t,
                seq![WriteOpView::UpsertPlacement(q)],
                EventView::ContentChanged(result.handle),
            )
        }),
{
    let t = settled(s, result, again);
    assert(t.writes =~= s.writes + seq![t.writes.last()]);
}

/// An accepted delete drops the row.
pub proof fn an_accepted_delete_drops_the_row(s: SyncView, result: PushResultView, again: bool)
    requires
        sync_inv(s),
        takes(s, result),
        s.drops.contains(result.handle),
    ensures
        records(
            s,
            settled(s, result, again),
            seq![
                WriteOpView::DropPlacement {
                    collection: s.collection,
                    handle: result.handle,
                    reason: ReplicaDropReason::Deleted,
                },
            ],
            EventView::Vanished(result.handle),
        ),
{
    if s.flag_pushes.contains_key(result.handle) || s.content_pushes.contains_key(result.handle) {
        assert(!s.drops.contains(result.handle));
    }
    let t = settled(s, result, again);
    assert(t.writes =~= s.writes + seq![t.writes.last()]);
}

/// An accepted create moves the row to the handle assigned, in sync at the
/// revision reported, its provisional row superseded; where none is
/// assigned, the provisional row goes and the next enumeration lists it.
pub proof fn an_accepted_create_moves_to_its_handle(
    s: SyncView,
    result: PushResultView,
    again: bool,
)
    requires
        sync_inv(s),
        takes(s, result),
        s.creates.contains_key(result.handle),
    ensures
        ({
            let (p, t) = (s.creates[result.handle], settled(s, result, again));
            let drop = WriteOpView::DropPlacement {
                collection: s.collection,
                handle: p.handle,
                reason: ReplicaDropReason::Superseded,
            };
            match result.assigned {
                Some(assigned) => records(
                    s,
                    t,
                    seq![
                        drop,
                        WriteOpView::UpsertPlacement(
                            PlacementView {
                                handle: assigned,
                                status: ReplicaStatus::Clean,
                                origin: None,
                                base: Some(
                                    BaseView {
                                        flags: p.flags,
                                        revision: result.revision,
                                        object: p.object,
                                    },
                                ),
                                ..p
                            },
                        ),
                    ],
                    EventView::Created(assigned),
                ),
                None => records(s, t, seq![drop], EventView::Created(result.handle)),
            }
        }),
{
    if s.flag_pushes.contains_key(result.handle) || s.content_pushes.contains_key(result.handle)
        || s.drops.contains(result.handle) {
        assert(!s.creates.contains_key(result.handle));
    }
    let t = settled(s, result, again);
    if result.assigned is Some {
        let n = s.writes.len() as int;
        assert(t.writes =~= s.writes + seq![t.writes[n], t.writes[n + 1]]);
    } else {
        assert(t.writes =~= s.writes + seq![t.writes.last()]);
    }
}

/// What a sync asks for before it merges: the whole collection, then what
/// changed upstream since the checkpoint stored, or everything where a full
/// run is asked for.
pub proof fn a_sync_loads_all_and_enumerates_from_its_checkpoint(s: SyncView, arg: ArgView)
    requires
        arg is Load,
    ensures
        s.phase is Start ==> {
            let (t, out) = sync_step(s, None);
            &&& out matches StepView::Yielded(YieldView::WantsLoad { collection, scope })
                && collection == s.collection && scope == LoadScopeView::All
            &&& t.phase is PendingLoad
        },
        s.phase is PendingLoad ==> {
            let (t, out) = sync_step(s, Some(arg));
            &&& out matches StepView::Yielded(YieldView::WantsEnumerate { collection, cursor })
                && collection == s.collection && cursor == if s.opts.full {
                None
            } else {
                arg->Load_0.checkpoint
            }
            &&& t.phase is PendingEnumerate
            &&& t.opts == s.opts
            &&& t.collection == s.collection
        },
{
}

/// A chunk is no more than sixty-four changes, so an interrupted run replays
/// no more; a batch is handed over from a thousand and twenty-four writes on.
pub proof fn chunks_are_bounded()
    ensures
        ReplicaSync::PUSH_CHUNK == 64,
        ReplicaSync::WRITE_CHUNK == 1024,
{
}

} // verus!
