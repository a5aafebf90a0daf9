//! What each verb asks of the two seams.

use vstd::prelude::*;

use crate::coroutine::{refusal, ArgView, StepView, YieldView};
use crate::mutate::{mutate_step, MutateView};
use crate::open::{open_awaits, open_step, OpenPhase, OpenStep, OpenView};
use crate::order::Text;
use crate::sync::{lemma_merging_on, opened, sync_step, SyncView};
use crate::upgrade::{
    known_step, link_writes, misses, pending, upgrade_step, UpgradeStep, UpgradeView,
};

verus! {

/// Whether a request is for the storage seam, so that no network is touched.
pub open spec fn is_offline(wanted: YieldView) -> bool {
    match wanted {
        YieldView::WantsLoad { .. } => true,
        YieldView::WantsLookupObject(_) => true,
        YieldView::WantsWrite(_) => true,
        YieldView::WantsEnumerate { .. } => false,
        YieldView::WantsFetch { .. } => false,
        YieldView::WantsPush { .. } => false,
    }
}

/// Opening a collection touches no network, and writes nothing.
pub proof fn opening_stays_offline(s: OpenView, arg: Option<ArgView>)
    ensures
        open_step(s, arg).1 matches StepView::Yielded(wanted) ==> is_offline(wanted) && wanted
            is WantsLoad,
{
}

/// What is opened is what was loaded.
pub proof fn what_is_opened_is_what_was_loaded(s: OpenView, arg: ArgView)
    requires
        s.phase is PendingLoad,
        arg is Load,
    ensures
        open_step(s, Some(arg)) == (
            OpenView { phase: OpenPhase::Done, ..s },
            OpenStep::Done(arg->Load_0),
        ),
{
}

/// An open refuses a reply it does not await, and changes nothing; one that
/// handed its collection over awaits none.
pub proof fn a_reply_not_awaited_is_refused(s: OpenView, arg: Option<ArgView>)
    requires
        !open_awaits(s.phase, arg),
    ensures
        open_step(s, arg) == (s, OpenStep::Failed(refusal(arg))),
{
}

/// A mutation touches no network.
pub proof fn mutating_stays_offline(s: MutateView, arg: Option<ArgView>)
    ensures
        mutate_step(s, arg).1 matches StepView::Yielded(wanted) ==> is_offline(wanted),
{
}

/// An upgrade is a pure pull: it never pushes, and never enumerates.
pub proof fn upgrading_only_pulls(s: UpgradeView, arg: Option<ArgView>)
    ensures
        upgrade_step(s, arg).1 matches StepView::Yielded(wanted) ==> is_offline(wanted) || wanted
            is WantsFetch,
{
}

/// Only what the store lacks is fetched: what it holds is linked, and where
/// it holds everything there is no round trip at all.
pub proof fn only_what_the_store_lacks_is_fetched(s: UpgradeView, known: Map<Text, Text>)
    ensures
        ({
            let todo = pending(s.tier, s.placements, s.handles);
            let rest = misses(s.placements, known, todo);
            let (after, out) = known_step(s, known);
            &&& rest.len() == 0 ==> out == (UpgradeStep::Yielded(
                YieldView::WantsWrite(s.ops + link_writes(s.placements, known, todo)),
            ))
            &&& rest.len() > 0 ==> after.ops == s.ops + link_writes(s.placements, known, todo)
                && out == (UpgradeStep::Yielded(
                YieldView::WantsFetch { collection: s.collection, handles: rest, tier: s.tier },
            ))
        }),
{
}

/// A sync compares identities, never bytes: it fetches no body.
pub proof fn syncing_fetches_no_body(s: SyncView, arg: Option<ArgView>)
    ensures
        sync_step(s, arg).1 matches StepView::Yielded(wanted) ==> !(wanted is WantsFetch)
            && !(wanted is WantsLookupObject),
{
    match arg {
        Some(ArgView::Enumerate(snapshot)) => lemma_merging_on(opened(s, snapshot)),
        _ => lemma_merging_on(s),
    }
}

} // verus!
