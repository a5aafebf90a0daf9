//! What the two seams are asked for is what a verb wants, as it stands, and
//! where a verb begins.

use vstd::prelude::*;

use crate::client::{
    ends, remote_fails, serves, storage_fails, ReplicaClientError, ReplicaRemote, ReplicaStorage,
    Turn,
};
use crate::coroutine::{
    refusal, ArgView, ReplicaArg, ReplicaArgError, ReplicaCoroutine, ReplicaCoroutineState,
    ReplicaYield, YieldView,
};
use crate::open::{open_step, OpenPhase, OpenStep, OpenView};
use crate::order::Text;
use crate::rekey::{self, rekey_refusal, RekeyPhase, ReplicaRekeyError};
use crate::remote::ReplicaTier;
use crate::storage::LoadScopeView;
use crate::sync::{self, ReplicaSyncOptions, SyncPhase};
use crate::upgrade::{self, UpgradePhase};

verus! {

/// A wish is served as it stands: the seam it is for is called once, with
/// exactly what the wish holds, its reply is handed back, and the other seam
/// is left alone. Reading a storage does not change it.
pub proof fn a_wish_is_served_as_it_stands<S: ReplicaStorage, R: ReplicaRemote>(
    before: (S, R),
    wanted: ReplicaYield,
    after: (S, R),
    arg: ReplicaArg,
)
    requires
        serves(before, wanted, after, arg),
    ensures
        match wanted {
            ReplicaYield::WantsEnumerate { collection, cursor } => {
                &&& after.0 == before.0
                &&& arg is Enumerate
                &&& R::enumerates(before.1, collection, cursor, after.1, Ok(arg->Enumerate_0))
            },
            ReplicaYield::WantsFetch { collection, handles, tier } => {
                &&& after.0 == before.0
                &&& arg is Fetch
                &&& R::fetches(before.1, collection, handles, tier, after.1, Ok(arg->Fetch_0))
            },
            ReplicaYield::WantsPush { collection, changes } => {
                &&& after.0 == before.0
                &&& arg is Push
                &&& R::pushes(before.1, collection, changes, after.1, Ok(arg->Push_0))
            },
            ReplicaYield::WantsLoad { collection, scope } => {
                &&& after == before
                &&& arg is Load
                &&& before.0.loads(collection, scope, Ok(arg->Load_0))
            },
            ReplicaYield::WantsLookupObject(links) => {
                &&& after == before
                &&& arg is LookupObject
                &&& before.0.looks_up(links@, Ok(arg->LookupObject_0))
            },
            ReplicaYield::WantsWrite(ops) => {
                &&& after.1 == before.1
                &&& arg is Write
                &&& S::writes(before.0, ops, after.0, Ok(()))
            },
        },
{
}

/// A seam fails only on a wish that is for it, asked for exactly what the
/// wish holds, and the other seam is left alone.
pub proof fn a_failure_is_of_the_seam_asked<S: ReplicaStorage, R: ReplicaRemote>(
    before: (S, R),
    wanted: ReplicaYield,
    after: (S, R),
    of_storage: S::Error,
    of_remote: R::Error,
)
    ensures
        storage_fails(before, wanted, after, of_storage) ==> after.1 == before.1 && match wanted {
            ReplicaYield::WantsLoad { collection, scope } => after == before && before.0.loads(
                collection,
                scope,
                Err(of_storage),
            ),
            ReplicaYield::WantsLookupObject(links) => after == before && before.0.looks_up(
                links@,
                Err(of_storage),
            ),
            ReplicaYield::WantsWrite(ops) => S::writes(before.0, ops, after.0, Err(of_storage)),
            _ => false,
        },
        remote_fails(before, wanted, after, of_remote) ==> after.0 == before.0 && match wanted {
            ReplicaYield::WantsEnumerate { collection, cursor } => R::enumerates(
                before.1,
                collection,
                cursor,
                after.1,
                Err(of_remote),
            ),
            ReplicaYield::WantsFetch { collection, handles, tier } => R::fetches(
                before.1,
                collection,
                handles,
                tier,
                after.1,
                Err(of_remote),
            ),
            ReplicaYield::WantsPush { collection, changes } => R::pushes(
                before.1,
                collection,
                changes,
                after.1,
                Err(of_remote),
            ),
            _ => false,
        },
{
}

/// A run that ends well ends on what its verb returned, with both seams as
/// the last reply left them; one that fails in its verb ends on that very
/// error.
pub proof fn a_run_ends_on_what_its_verb_returned<C, T, E, S, R>(
    last: Turn<C, S, R>,
    after: (S, R),
    out: Result<T, ReplicaClientError<S::Error, R::Error, E>>,
) where
    C: ReplicaCoroutine<Yield = ReplicaYield, Return = Result<T, E>>,
    S: ReplicaStorage,
    R: ReplicaRemote,

    requires
        ends(last, after, out),
    ensures
        match out {
            Ok(value) => after == last.seams && exists|next: C|
                #[trigger] C::steps(
                    last.coroutine,
                    last.arg,
                    next,
                    ReplicaCoroutineState::Complete(Ok(value)),
                ),
            Err(ReplicaClientError::Coroutine(error)) => after == last.seams && exists|next: C|
                #[trigger] C::steps(
                    last.coroutine,
                    last.arg,
                    next,
                    ReplicaCoroutineState::Complete(Err(error)),
                ),
            Err(ReplicaClientError::Storage(_)) => after.1 == last.seams.1,
            Err(ReplicaClientError::Remote(_)) => after.0 == last.seams.0,
        },
{
}

/// A reply not awaited is told apart from one that is missing, by every
/// verb.
pub proof fn a_missing_reply_is_told_apart(arg: Option<ArgView>)
    ensures
        arg is None ==> refusal(arg) == ReplicaArgError::MissingArg,
        arg is Some ==> refusal(arg) == ReplicaArgError::UnexpectedArg,
        arg is None ==> rekey_refusal(arg) == ReplicaRekeyError::MissingArg,
        arg is Some ==> rekey_refusal(arg) == ReplicaRekeyError::UnexpectedArg,
{
}

/// A sync begins with nothing loaded, queued or counted, over the collection
/// and the options it is given.
pub proof fn a_sync_begins_with_nothing_done(collection: Text, opts: ReplicaSyncOptions)
    ensures
        ({
            let s = sync::starting(collection, opts);
            &&& s.collection == collection
            &&& s.opts == opts
            &&& s.phase == SyncPhase::Start
            &&& s.local.dom() == Set::<Text>::empty()
            &&& s.merging is None
            &&& s.writes.len() == 0
            &&& s.pushes.len() == 0
            &&& s.in_flight.len() == 0
            &&& s.next_checkpoint is None
            &&& s.flag_pushes.dom() == Set::<Text>::empty()
            &&& s.content_pushes.dom() == Set::<Text>::empty()
            &&& s.drops == Set::<Text>::empty()
            &&& s.creates.dom() == Set::<Text>::empty()
            &&& s.report.pulled == 0
            &&& s.report.pushed == 0
            &&& s.report.rejected == 0
            &&& s.report.conflicts == 0
            &&& s.report.refreshed == 0
            &&& s.report.events.len() == 0
        }),
{
}

/// An upgrade begins with nothing loaded, staged or counted, over the
/// handles and the tier it is given.
pub proof fn an_upgrade_begins_with_nothing_done(
    collection: Text,
    handles: Seq<Text>,
    tier: ReplicaTier,
)
    ensures
        ({
            let s = upgrade::starting(collection, handles, tier);
            &&& s.collection == collection
            &&& s.handles == handles
            &&& s.tier == tier
            &&& s.phase == UpgradePhase::Start
            &&& s.placements.dom() == Set::<Text>::empty()
            &&& s.fetched.len() == 0
            &&& s.ops.len() == 0
            &&& s.report.upgraded == 0
            &&& s.report.deduped == 0
            &&& s.report.fetched == 0
        }),
{
}

/// A rekey begins with nothing loaded or counted.
pub proof fn a_rekey_begins_with_nothing_done(collection: Text)
    ensures
        ({
            let s = rekey::starting(collection);
            &&& s.collection == collection
            &&& s.phase == RekeyPhase::Start
            &&& s.old.len() == 0
            &&& s.items.len() == 0
            &&& s.checkpoint is None
            &&& s.report.rekeyed == 0
            &&& s.report.pulled == 0
            &&& s.report.dropped == 0
        }),
{
}

/// An open loads all of its collection.
pub proof fn an_open_loads_all(s: OpenView)
    requires
        s.phase is Start,
    ensures
        open_step(s, None) == (
            OpenView { phase: OpenPhase::PendingLoad, ..s },
            OpenStep::Yielded(
                YieldView::WantsLoad { collection: s.collection, scope: LoadScopeView::All },
            ),
        ),
{
}

} // verus!
