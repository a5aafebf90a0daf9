//! # Generator-shape coroutine driver
//!
//! Mirrors the shape of `core::ops::Coroutine`: a `Yield` associated type
//! for intermediate progress, a `Return` associated type for terminal
//! output, and a two-variant [`ReplicaCoroutineState`] (`Yielded` /
//! `Complete`).
//!
//! Every verb in this crate (open, upgrade, mutate, sync, rekey) picks the
//! standard [`ReplicaYield`] directly: it gathers every effect the engine
//! emits, both remote (enumerate, fetch, push) and storage (load, lookup
//! object, write). The engine performs none of them; a consumer
//! services each yield and resumes the coroutine with the matching
//! [`ReplicaArg`].
//!
//! Storage is therefore not a trait injected into the engine, which
//! would break the I/O-free contract: it is `Wants` variants like
//! everything else. The blocking [`crate::client`] is one such consumer.

use vstd::prelude::*;

use crate::change::{ChangeView, ReplicaChange, ReplicaWriteOp, WriteOpView};
use crate::collection::{ReplicaCheckpoint, ReplicaCollectionId};
use crate::object::ReplicaHash;
use crate::order::Text;
use crate::placement::{ReplicaHandle, ReplicaLinkId};
use crate::remote::{
    FetchedItemView, PushResultView, RemoteSnapshotView, ReplicaFetchedItem, ReplicaPushResult,
    ReplicaRemoteSnapshot, ReplicaTier,
};
use crate::sorted::ReplicaMap;
use crate::storage::{LoadScopeView, LoadedView, ReplicaLoadScope, ReplicaLoaded};
use crate::value::ReplicaValue;

verus! {

/// State yielded by a [`ReplicaCoroutine::resume`] step.
///
/// Two-variant by design (matches std's `core::ops::CoroutineState`): any
/// further variation lives inside the per-coroutine `Yield` type.
#[derive(Debug)]
pub enum ReplicaCoroutineState<Y, R> {
    /// Intermediate yield. The driver reacts to `Y` (read or write
    /// storage, talk to the remote) and resumes the coroutine again.
    Yielded(Y),
    /// Terminal yield. By convention `R = Result<Output, Error>`.
    Complete(R),
}

/// Standard-shape offline coroutine.
///
/// Implementors own their internal state machine and declare their
/// terminal `Return`. The driver reacts to each [`ReplicaYield`] variant
/// and resumes until `Complete`.
pub trait ReplicaCoroutine: Sized {
    /// Intermediate value handed back on every step; always
    /// [`ReplicaYield`] in this crate.
    type Yield;

    /// Terminal value. By convention `Result<Output, Error>`.
    type Return;

    /// What every state of the coroutine keeps.
    spec fn wf(&self) -> bool;

    /// How far the coroutine still is from its end, compared
    /// lexicographically.
    spec fn rank(&self) -> (nat, nat);

    /// What resuming with `arg` does: the state it leaves and the value it
    /// hands back.
    spec fn steps(
        before: Self,
        arg: Option<ReplicaArg>,
        after: Self,
        out: ReplicaCoroutineState<Self::Yield, Self::Return>,
    ) -> bool;

    /// Advances the coroutine one step.
    ///
    /// Pass [`None`] on the initial call. Pass `Some(arg)` carrying the
    /// value matching the previous `Yielded` variant.
    fn resume(&mut self, arg: Option<ReplicaArg>) -> (r: ReplicaCoroutineState<
        Self::Yield,
        Self::Return,
    >)
        requires
            old(self).wf(),
        ensures
            final(self).wf(),
            Self::steps(*old(self), arg, *final(self), r),
            r is Yielded ==> nearer(final(self).rank(), old(self).rank()),
    ;
}

/// Whether `a` is closer to the end than `b`.
pub open spec fn nearer(a: (nat, nat), b: (nat, nat)) -> bool {
    a.0 < b.0 || (a.0 == b.0 && a.1 < b.1)
}

/// How a driver breaks the coroutine contract.
#[derive(Clone, Copy, Debug, Eq, PartialEq, Structural)]
pub enum ReplicaArgError {
    /// The driver fed back an arg that does not match the pending yield.
    UnexpectedArg,
    /// The driver resumed without the arg the pending yield required.
    MissingArg,
}

impl DeepView for ReplicaArgError {
    type V = ReplicaArgError;

    open spec fn deep_view(&self) -> ReplicaArgError {
        *self
    }
}

impl ReplicaArgError {
    /// The failure as a sentence.
    pub fn message(&self) -> (r: String)
        ensures
            r@ == arg_error_message(*self),
    {
        match self {
            ReplicaArgError::UnexpectedArg => "unexpected coroutine arg".to_owned(),
            ReplicaArgError::MissingArg => "missing coroutine arg".to_owned(),
        }
    }
}

/// The sentence a broken coroutine contract is reported with.
pub open spec fn arg_error_message(error: ReplicaArgError) -> Text {
    match error {
        ReplicaArgError::UnexpectedArg => "unexpected coroutine arg"@,
        ReplicaArgError::MissingArg => "missing coroutine arg"@,
    }
}

/// Which contract error an argument that is not the one awaited gives.
pub open spec fn refusal(arg: Option<ArgView>) -> ReplicaArgError {
    match arg {
        Some(_) => ReplicaArgError::UnexpectedArg,
        None => ReplicaArgError::MissingArg,
    }
}

/// Standard offline Yield. Every verb picks `type Yield = ReplicaYield`.
///
/// Each variant is paired with the matching [`ReplicaArg`] variant the
/// driver feeds back on the next `resume`. The first group is the remote
/// seam, the second the storage seam.
#[derive(Debug)]
pub enum ReplicaYield {
    /// Consumer must enumerate the remote collection (full, or delta from
    /// `cursor`) and feed back [`ReplicaArg::Enumerate`].
    WantsEnumerate {
        /// The collection to enumerate.
        collection: ReplicaCollectionId,
        /// The last checkpoint to delta from, if any.
        cursor: Option<ReplicaCheckpoint>,
    },
    /// Consumer must fetch each handle at `tier` and feed back
    /// [`ReplicaArg::Fetch`].
    WantsFetch {
        /// The owning collection.
        collection: ReplicaCollectionId,
        /// The handles to fetch.
        handles: Vec<ReplicaHandle>,
        /// The detail tier.
        tier: ReplicaTier,
    },
    /// Consumer must push each change and feed back
    /// [`ReplicaArg::Push`].
    WantsPush {
        /// The owning collection.
        collection: ReplicaCollectionId,
        /// The changes to push.
        changes: Vec<ReplicaChange>,
    },
    /// Consumer must load the collection's checkpoint and at least the
    /// placements in `scope`, and feed back [`ReplicaArg::Load`].
    WantsLoad {
        /// The collection to load.
        collection: ReplicaCollectionId,
        /// The placements the load has to return.
        scope: ReplicaLoadScope,
    },
    /// Consumer must resolve which link ids already have a stored object
    /// and feed back [`ReplicaArg::LookupObject`]. This is the dedup
    /// check that skips re-downloading a body shared across collections.
    WantsLookupObject(Vec<ReplicaLinkId>),
    /// Consumer must apply each write atomically and feed back
    /// [`ReplicaArg::Write`].
    WantsWrite(Vec<ReplicaWriteOp>),
}

/// What a [`ReplicaYield`] stands for.
#[verifier::ext_equal]
pub enum YieldView {
    WantsEnumerate { collection: Text, cursor: Option<Seq<u8>> },
    WantsFetch { collection: Text, handles: Seq<Text>, tier: ReplicaTier },
    WantsPush { collection: Text, changes: Seq<ChangeView> },
    WantsLoad { collection: Text, scope: LoadScopeView },
    WantsLookupObject(Seq<Text>),
    WantsWrite(Seq<WriteOpView>),
}

impl View for ReplicaYield {
    type V = YieldView;

    open spec fn view(&self) -> YieldView {
        match self {
            ReplicaYield::WantsEnumerate { collection, cursor } => {
                YieldView::WantsEnumerate { collection: collection@, cursor: cursor.deep_view() }
            },
            ReplicaYield::WantsFetch { collection, handles, tier } => {
                YieldView::WantsFetch {
                    collection: collection@,
                    handles: handles.deep_view(),
                    tier: *tier,
                }
            },
            ReplicaYield::WantsPush { collection, changes } => {
                YieldView::WantsPush { collection: collection@, changes: changes.deep_view() }
            },
            ReplicaYield::WantsLoad { collection, scope } => {
                YieldView::WantsLoad { collection: collection@, scope: scope@ }
            },
            ReplicaYield::WantsLookupObject(links) => YieldView::WantsLookupObject(
                links.deep_view(),
            ),
            ReplicaYield::WantsWrite(ops) => YieldView::WantsWrite(ops.deep_view()),
        }
    }
}

/// Reply fed back into [`ReplicaCoroutine::resume`] by the driver.
///
/// Each variant matches the corresponding [`ReplicaYield`] request and
/// carries the value the driver gathered while servicing it.
#[derive(Debug)]
pub enum ReplicaArg {
    /// Reply to [`ReplicaYield::WantsEnumerate`].
    Enumerate(ReplicaRemoteSnapshot),
    /// Reply to [`ReplicaYield::WantsFetch`].
    Fetch(Vec<ReplicaFetchedItem>),
    /// Reply to [`ReplicaYield::WantsPush`].
    Push(Vec<ReplicaPushResult>),
    /// Reply to [`ReplicaYield::WantsLoad`].
    Load(ReplicaLoaded),
    /// Reply to [`ReplicaYield::WantsLookupObject`]: the subset of link
    /// ids that already map to a stored object.
    LookupObject(ReplicaMap<ReplicaLinkId, ReplicaHash>),
    /// Reply to [`ReplicaYield::WantsWrite`].
    Write,
}

/// What a [`ReplicaArg`] stands for.
#[verifier::ext_equal]
pub enum ArgView {
    Enumerate(RemoteSnapshotView),
    Fetch(Seq<FetchedItemView>),
    Push(Seq<PushResultView>),
    Load(LoadedView),
    LookupObject(Map<Text, Text>),
    Write,
}

impl View for ReplicaArg {
    type V = ArgView;

    open spec fn view(&self) -> ArgView {
        match self {
            ReplicaArg::Enumerate(snapshot) => ArgView::Enumerate(snapshot@),
            ReplicaArg::Fetch(items) => ArgView::Fetch(items.deep_view()),
            ReplicaArg::Push(results) => ArgView::Push(results.deep_view()),
            ReplicaArg::Load(loaded) => ArgView::Load(loaded@),
            ReplicaArg::LookupObject(known) => ArgView::LookupObject(known@),
            ReplicaArg::Write => ArgView::Write,
        }
    }
}

impl DeepView for ReplicaArg {
    type V = ArgView;

    open spec fn deep_view(&self) -> ArgView {
        self.view()
    }
}

impl Clone for ReplicaArg {
    fn clone(&self) -> (r: Self)
        ensures
            r@ == self@,
    {
        match self {
            ReplicaArg::Enumerate(snapshot) => ReplicaArg::Enumerate(snapshot.clone()),
            ReplicaArg::Fetch(items) => ReplicaArg::Fetch(items.copied()),
            ReplicaArg::Push(results) => ReplicaArg::Push(results.copied()),
            ReplicaArg::Load(loaded) => ReplicaArg::Load(loaded.clone()),
            ReplicaArg::LookupObject(known) => ReplicaArg::LookupObject(known.clone()),
            ReplicaArg::Write => ReplicaArg::Write,
        }
    }
}

/// Whether `arg` is the kind of reply `wanted` asks for.
pub open spec fn answers(wanted: YieldView, arg: ArgView) -> bool {
    match wanted {
        YieldView::WantsEnumerate { .. } => arg is Enumerate,
        YieldView::WantsFetch { .. } => arg is Fetch,
        YieldView::WantsPush { .. } => arg is Push,
        YieldView::WantsLoad { .. } => arg is Load,
        YieldView::WantsLookupObject(_) => arg is LookupObject,
        YieldView::WantsWrite(_) => arg is Write,
    }
}

/// What a step hands back, in the terms the contracts are stated in.
#[verifier::ext_equal]
pub enum StepView<T, E> {
    Yielded(YieldView),
    Done(T),
    Failed(E),
}

/// What a step of a verb hands back.
pub open spec fn step_view<T: DeepView, E: DeepView>(
    state: ReplicaCoroutineState<ReplicaYield, Result<T, E>>,
) -> StepView<T::V, E::V> {
    match state {
        ReplicaCoroutineState::Yielded(wanted) => StepView::Yielded(wanted@),
        ReplicaCoroutineState::Complete(Ok(out)) => StepView::Done(out.deep_view()),
        ReplicaCoroutineState::Complete(Err(err)) => StepView::Failed(err.deep_view()),
    }
}

/// The contract error for an argument that is not the one awaited.
pub(crate) fn refuse(arg: &Option<ReplicaArg>) -> (r: ReplicaArgError)
    ensures
        r == refusal(arg.deep_view()),
{
    match arg {
        Some(_) => ReplicaArgError::UnexpectedArg,
        None => ReplicaArgError::MissingArg,
    }
}

} // verus!
