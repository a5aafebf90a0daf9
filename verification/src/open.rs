//! I/O-free coroutine to open a collection fully offline.
//!
//! A single storage read: load the placements and checkpoint, hand them
//! straight back. No network is ever touched.

use vstd::prelude::*;

use crate::collection::ReplicaCollectionId;
use crate::coroutine::{
    answers, refusal, refuse, step_view, ArgView, ReplicaArg, ReplicaArgError, ReplicaCoroutine,
    ReplicaCoroutineState, ReplicaYield, StepView, YieldView,
};
use crate::order::Text;
use crate::storage::{LoadScopeView, LoadedView, ReplicaLoadScope, ReplicaLoaded};

verus! {

/// Where an open stands.
#[derive(Clone, Copy, Debug, Eq, PartialEq, Structural)]
pub enum OpenPhase {
    /// Nothing has happened yet.
    Start,
    /// The collection is being loaded.
    PendingLoad,
    /// The collection was handed over.
    Done,
}

/// What a [`ReplicaOpen`] stands for.
#[verifier::ext_equal]
pub struct OpenView {
    pub collection: Text,
    pub phase: OpenPhase,
}

/// What a step of an open hands back.
pub type OpenStep = StepView<LoadedView, ReplicaArgError>;

/// What resuming an open with `arg` does.
pub open spec fn open_step(s: OpenView, arg: Option<ArgView>) -> (OpenView, OpenStep) {
    match (s.phase, arg) {
        (OpenPhase::Start, None) => (
            OpenView { phase: OpenPhase::PendingLoad, ..s },
            StepView::Yielded(
                YieldView::WantsLoad { collection: s.collection, scope: LoadScopeView::All },
            ),
        ),
        (OpenPhase::PendingLoad, Some(ArgView::Load(loaded))) => (
            OpenView { phase: OpenPhase::Done, ..s },
            StepView::Done(loaded),
        ),
        (_, _) => (s, StepView::Failed(refusal(arg))),
    }
}

/// How far an open still is from its end.
pub open spec fn open_rank(s: OpenView) -> (nat, nat) {
    match s.phase {
        OpenPhase::Start => (2, 0),
        OpenPhase::PendingLoad => (1, 0),
        OpenPhase::Done => (0, 0),
    }
}

/// I/O-free OPEN coroutine.
pub struct ReplicaOpen {
    collection: ReplicaCollectionId,
    phase: OpenPhase,
}

impl View for ReplicaOpen {
    type V = OpenView;

    closed spec fn view(&self) -> OpenView {
        OpenView { collection: self.collection@, phase: self.phase }
    }
}

impl ReplicaOpen {
    /// Creates a coroutine that loads `collection` from storage.
    pub fn new(collection: impl Into<ReplicaCollectionId>) -> (r: Self)
        ensures
            exists|id: ReplicaCollectionId| #[trigger]
                call_ensures(Into::<ReplicaCollectionId>::into, (collection,), id) && r@ == (
                OpenView { collection: id@, phase: OpenPhase::Start }),
    {
        let collection = collection.into();
        ReplicaOpen { collection, phase: OpenPhase::Start }
    }
}

impl ReplicaCoroutine for ReplicaOpen {
    type Yield = ReplicaYield;

    type Return = Result<ReplicaLoaded, ReplicaArgError>;

    open spec fn wf(&self) -> bool {
        true
    }

    open spec fn rank(&self) -> (nat, nat) {
        open_rank(self@)
    }

    open spec fn steps(
        before: Self,
        arg: Option<ReplicaArg>,
        after: Self,
        out: ReplicaCoroutineState<ReplicaYield, Result<ReplicaLoaded, ReplicaArgError>>,
    ) -> bool {
        (after@, step_view(out)) == open_step(before@, arg.deep_view())
    }

    fn resume(&mut self, arg: Option<ReplicaArg>) -> (r: ReplicaCoroutineState<
        ReplicaYield,
        Result<ReplicaLoaded, ReplicaArgError>,
    >)
        ensures
            (final(self)@, step_view(r)) == open_step(old(self)@, arg.deep_view()),
    {
        match (self.phase, arg) {
            (OpenPhase::Start, None) => {
                self.phase = OpenPhase::PendingLoad;
                ReplicaCoroutineState::Yielded(
                    ReplicaYield::WantsLoad {
                        collection: self.collection.clone(),
                        scope: ReplicaLoadScope::All,
                    },
                )
            },
            (OpenPhase::PendingLoad, Some(ReplicaArg::Load(loaded))) => {
                // a completed coroutine stays completed, or a resumed run
                // would hand back an empty success a caller cannot tell from
                // one that did nothing
                self.phase = OpenPhase::Done;
                ReplicaCoroutineState::Complete(Ok(loaded))
            },
            (_, arg) => ReplicaCoroutineState::Complete(Err(refuse(&arg))),
        }
    }
}

/// The reply a state waits for.
pub open spec fn open_awaits(phase: OpenPhase, arg: Option<ArgView>) -> bool {
    match phase {
        OpenPhase::Start => arg is None,
        OpenPhase::PendingLoad => arg matches Some(ArgView::Load(_)),
        OpenPhase::Done => false,
    }
}

/// A driver that answers every yield with its kind of reply never breaks the
/// contract: the reply awaited is never refused, and every answer to what is
/// asked for next is one awaited.
pub proof fn lemma_open_answered(s: OpenView, arg: Option<ArgView>)
    requires
        open_awaits(s.phase, arg),
    ensures
        !(open_step(s, arg).1 is Failed),
        open_step(s, arg).1 matches StepView::Yielded(wanted) ==> forall|reply: ArgView|
            answers(wanted, reply) ==> #[trigger] open_awaits(
                open_step(s, arg).0.phase,
                Some(reply),
            ),
{
}

} // verus!
