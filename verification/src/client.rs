//! # Blocking reference driver
//!
//! A driver that runs any standard-shape coroutine to completion by
//! servicing each [`ReplicaYield`] through two consumer-supplied traits:
//! [`ReplicaStorage`] for the index and blob store, [`ReplicaRemote`] for the
//! protocol seam. These traits live on the consumer side, not inside the
//! engine, so the I/O-free contract holds: the coroutines still only emit
//! `Wants`. The driver itself performs no I/O either: blocking happens
//! inside the trait impls.
//!
//! A desktop consumer backs [`ReplicaRemote`] with a blocking protocol
//! client and [`ReplicaStorage`] with sqlite plus a blob dir; an Android
//! consumer backs [`ReplicaRemote`] with a protocol client over JNI.
//!
//! What a run does is stated as the turns it takes: each resumes the
//! coroutine with the reply to what it asked for last, and each reply is
//! what the seam returned for exactly that request.

use vstd::prelude::*;

use crate::change::{ReplicaChange, ReplicaWriteOp};
use crate::collection::{ReplicaCheckpoint, ReplicaCollectionId};
use crate::coroutine::{
    answers, ArgView, ReplicaArg, ReplicaArgError, ReplicaCoroutine, ReplicaCoroutineState,
    ReplicaYield,
};
use crate::mutate::{
    lemma_mutate_answered, mutate_awaits, MutatePhase, MutateView, ReplicaMutate,
    ReplicaMutateError, ReplicaMutation,
};
use crate::object::ReplicaHash;
use crate::open::{lemma_open_answered, open_awaits, OpenPhase, OpenView, ReplicaOpen};
use crate::placement::{ReplicaHandle, ReplicaLinkId};
use crate::rekey::{
    self, lemma_rekey_answered, rekey_awaits, ReplicaRekey, ReplicaRekeyError,
    ReplicaRekeyReport,
};
use crate::remote::{ReplicaFetchedItem, ReplicaPushResult, ReplicaRemoteSnapshot, ReplicaTier};
use crate::sorted::ReplicaMap;
use crate::storage::{ReplicaLoadScope, ReplicaLoaded};
use crate::sync::{
    self, lemma_sync_answered, sync_awaits, ReplicaSync, ReplicaSyncOptions, ReplicaSyncReport,
};
use crate::upgrade::{
    self, lemma_upgrade_answered, upgrade_awaits, ReplicaUpgrade, ReplicaUpgradeReport,
};

verus! {

/// The local index plus blob store seam.
///
/// What a call returns is the storage's business; a storage that states more
/// of it than nothing does so through [`loads`](Self::loads),
/// [`looks_up`](Self::looks_up) and [`writes`](Self::writes).
pub trait ReplicaStorage: Sized {
    /// The error this storage raises.
    type Error;

    /// What a load may return.
    open spec fn loads(
        &self,
        collection: ReplicaCollectionId,
        scope: ReplicaLoadScope,
        out: Result<ReplicaLoaded, Self::Error>,
    ) -> bool {
        true
    }

    /// What a lookup may return.
    open spec fn looks_up(
        &self,
        links: Seq<ReplicaLinkId>,
        out: Result<ReplicaMap<ReplicaLinkId, ReplicaHash>, Self::Error>,
    ) -> bool {
        true
    }

    /// What a write may do and return.
    open spec fn writes(
        before: Self,
        ops: Vec<ReplicaWriteOp>,
        after: Self,
        out: Result<(), Self::Error>,
    ) -> bool {
        true
    }

    /// Loads a collection's placements and checkpoint.
    ///
    /// `scope` is a floor: the reply SHALL hold at least the placements it
    /// names and MAY hold more, so a storage that ignores it and returns
    /// the whole collection stays correct. Honouring it is what keeps a
    /// one-row edit from reading a whole mailbox.
    fn load(&self, collection: &ReplicaCollectionId, scope: &ReplicaLoadScope) -> (r: Result<
        ReplicaLoaded,
        Self::Error,
    >)
        ensures
            self.loads(*collection, *scope, r),
    ;

    /// Resolves which link ids already map to a stored object.
    fn lookup_objects(&self, links: &[ReplicaLinkId]) -> (r: Result<
        ReplicaMap<ReplicaLinkId, ReplicaHash>,
        Self::Error,
    >)
        ensures
            self.looks_up(links@, r),
    ;

    /// Applies a batch of writes atomically and **in order**, maintaining
    /// the pointer-derived object references [`ReplicaWriteOp`] documents.
    ///
    /// Order matters because a batch may name one handle twice: a sync that
    /// clears an ambiguity and then reads the same handle as vanished writes
    /// the cleared placement and then drops it, and the drop is the answer.
    /// A storage may not group the batch by op kind, or otherwise reorder
    /// it.
    ///
    /// The engine assumes a single writer per collection between a load
    /// and the write derived from it: a batch applied over state another
    /// actor changed in between clobbers that change. How the guarantee
    /// is provided is the storage's business (a sqlite transaction, a
    /// lock file, process-level serialization).
    fn write(&mut self, ops: Vec<ReplicaWriteOp>) -> (r: Result<(), Self::Error>)
        ensures
            Self::writes(*old(self), ops, *final(self), r),
    ;
}

/// The remote protocol seam (IMAP, JMAP, WebDAV).
///
/// What a call returns is the remote's business; a remote that states more
/// of it than nothing does so through [`enumerates`](Self::enumerates),
/// [`fetches`](Self::fetches) and [`pushes`](Self::pushes).
pub trait ReplicaRemote: Sized {
    /// The error this remote raises.
    type Error;

    /// What an enumeration may do and return.
    open spec fn enumerates(
        before: Self,
        collection: ReplicaCollectionId,
        cursor: Option<ReplicaCheckpoint>,
        after: Self,
        out: Result<ReplicaRemoteSnapshot, Self::Error>,
    ) -> bool {
        true
    }

    /// What a fetch may do and return.
    open spec fn fetches(
        before: Self,
        collection: ReplicaCollectionId,
        handles: Vec<ReplicaHandle>,
        tier: ReplicaTier,
        after: Self,
        out: Result<Vec<ReplicaFetchedItem>, Self::Error>,
    ) -> bool {
        true
    }

    /// What a push may do and return.
    open spec fn pushes(
        before: Self,
        collection: ReplicaCollectionId,
        changes: Vec<ReplicaChange>,
        after: Self,
        out: Result<Vec<ReplicaPushResult>, Self::Error>,
    ) -> bool {
        true
    }

    /// Enumerates the collection: a full set, or a delta from `cursor`.
    fn enumerate(
        &mut self,
        collection: &ReplicaCollectionId,
        cursor: Option<ReplicaCheckpoint>,
    ) -> (r: Result<ReplicaRemoteSnapshot, Self::Error>)
        ensures
            Self::enumerates(*old(self), *collection, cursor, *final(self), r),
    ;

    /// Fetches each handle at the requested tier.
    fn fetch(
        &mut self,
        collection: &ReplicaCollectionId,
        handles: Vec<ReplicaHandle>,
        tier: ReplicaTier,
    ) -> (r: Result<Vec<ReplicaFetchedItem>, Self::Error>)
        ensures
            Self::fetches(*old(self), *collection, handles, tier, *final(self), r),
    ;

    /// Pushes each change, returning a per-change outcome.
    ///
    /// Pushes are at-least-once: a crash between a serviced push and its
    /// recording write replays the change on the next sync, so the
    /// consumer keeps retries harmless (see [`ReplicaChange`]).
    fn push(&mut self, collection: &ReplicaCollectionId, changes: Vec<ReplicaChange>) -> (r: Result<
        Vec<ReplicaPushResult>,
        Self::Error,
    >)
        ensures
            Self::pushes(*old(self), *collection, changes, *final(self), r),
    ;
}

/// Errors returned by [`ReplicaClient`].
#[derive(Debug)]
pub enum ReplicaClientError<S, R, C> {
    /// A storage seam call failed.
    Storage(S),
    /// A remote seam call failed.
    Remote(R),
    /// The coroutine itself completed with an error.
    Coroutine(C),
}

/// Blocking replica client wrapping a storage and a remote.
pub struct ReplicaClient<S, R> {
    storage: S,
    remote: R,
}

impl<S, R> View for ReplicaClient<S, R> {
    type V = (S, R);

    closed spec fn view(&self) -> (S, R) {
        (self.storage, self.remote)
    }
}

/// One turn of a run: the seams, the coroutine and what it is resumed with.
pub struct Turn<C, S, R> {
    pub seams: (S, R),
    pub coroutine: C,
    pub arg: Option<ReplicaArg>,
}

/// Whether the seams may answer `wanted` with `arg`: the one seam it is for
/// is called with what it holds, the other is left alone.
pub open spec fn serves<S: ReplicaStorage, R: ReplicaRemote>(
    before: (S, R),
    wanted: ReplicaYield,
    after: (S, R),
    arg: ReplicaArg,
) -> bool {
    match (wanted, arg) {
        (
            ReplicaYield::WantsEnumerate { collection, cursor },
            ReplicaArg::Enumerate(snapshot),
        ) => after.0 == before.0 && R::enumerates(
            before.1,
            collection,
            cursor,
            after.1,
            Ok(snapshot),
        ),
        (ReplicaYield::WantsFetch { collection, handles, tier }, ReplicaArg::Fetch(items)) => {
            after.0 == before.0 && R::fetches(
                before.1,
                collection,
                handles,
                tier,
                after.1,
                Ok(items),
            )
        },
        (ReplicaYield::WantsPush { collection, changes }, ReplicaArg::Push(results)) => after.0
            == before.0 && R::pushes(before.1, collection, changes, after.1, Ok(results)),
        (ReplicaYield::WantsLoad { collection, scope }, ReplicaArg::Load(loaded)) => after
            == before && before.0.loads(collection, scope, Ok(loaded)),
        (ReplicaYield::WantsLookupObject(links), ReplicaArg::LookupObject(known)) => after
            == before && before.0.looks_up(links@, Ok(known)),
        (ReplicaYield::WantsWrite(ops), ReplicaArg::Write) => after.1 == before.1 && S::writes(
            before.0,
            ops,
            after.0,
            Ok(()),
        ),
        (_, _) => false,
    }
}

/// Whether the storage may fail on `wanted` with `error`.
pub open spec fn storage_fails<S: ReplicaStorage, R: ReplicaRemote>(
    before: (S, R),
    wanted: ReplicaYield,
    after: (S, R),
    error: S::Error,
) -> bool {
    match wanted {
        ReplicaYield::WantsLoad { collection, scope } => after == before && before.0.loads(
            collection,
            scope,
            Err(error),
        ),
        ReplicaYield::WantsLookupObject(links) => after == before && before.0.looks_up(
            links@,
            Err(error),
        ),
        ReplicaYield::WantsWrite(ops) => after.1 == before.1 && S::writes(
            before.0,
            ops,
            after.0,
            Err(error),
        ),
        _ => false,
    }
}

/// Whether the remote may fail on `wanted` with `error`.
pub open spec fn remote_fails<S: ReplicaStorage, R: ReplicaRemote>(
    before: (S, R),
    wanted: ReplicaYield,
    after: (S, R),
    error: R::Error,
) -> bool {
    match wanted {
        ReplicaYield::WantsEnumerate { collection, cursor } => after.0 == before.0
            && R::enumerates(before.1, collection, cursor, after.1, Err(error)),
        ReplicaYield::WantsFetch { collection, handles, tier } => after.0 == before.0
            && R::fetches(before.1, collection, handles, tier, after.1, Err(error)),
        ReplicaYield::WantsPush { collection, changes } => after.0 == before.0 && R::pushes(
            before.1,
            collection,
            changes,
            after.1,
            Err(error),
        ),
        _ => false,
    }
}

/// Whether one turn follows another: the coroutine asks for something, and
/// the seams answer it.
pub open spec fn follows<C, T, E, S, R>(a: Turn<C, S, R>, b: Turn<C, S, R>) -> bool where
    C: ReplicaCoroutine<Yield = ReplicaYield, Return = Result<T, E>>,
    S: ReplicaStorage,
    R: ReplicaRemote,
 {
    exists|state: ReplicaCoroutineState<ReplicaYield, Result<T, E>>|
        {
            &&& #[trigger] C::steps(a.coroutine, a.arg, b.coroutine, state)
            &&& state is Yielded
            &&& b.arg is Some
            &&& serves(a.seams, state->Yielded_0, b.seams, b.arg->0)
        }
}

/// Whether a run takes these turns, the first one unprompted.
pub open spec fn takes<C, T, E, S, R>(turns: Seq<Turn<C, S, R>>) -> bool where
    C: ReplicaCoroutine<Yield = ReplicaYield, Return = Result<T, E>>,
    S: ReplicaStorage,
    R: ReplicaRemote,
 {
    &&& turns.len() > 0
    &&& turns.first().arg is None
    &&& forall|i: int| 0 <= i < turns.len() - 1 ==> follows(#[trigger] turns[i], turns[i + 1])
}

/// Whether a run that reached its last turn ends with `out`.
pub open spec fn ends<C, T, E, S, R>(
    last: Turn<C, S, R>,
    after: (S, R),
    out: Result<T, ReplicaClientError<S::Error, R::Error, E>>,
) -> bool where
    C: ReplicaCoroutine<Yield = ReplicaYield, Return = Result<T, E>>,
    S: ReplicaStorage,
    R: ReplicaRemote,
 {
    exists|next: C, state: ReplicaCoroutineState<ReplicaYield, Result<T, E>>|
        {
            &&& #[trigger] C::steps(last.coroutine, last.arg, next, state)
            &&& match (out, state) {
                (Ok(out), ReplicaCoroutineState::Complete(Ok(value))) => after == last.seams
                    && value == out,
                (
                    Err(ReplicaClientError::Coroutine(error)),
                    ReplicaCoroutineState::Complete(Err(value)),
                ) => after == last.seams && value == error,
                (
                    Err(ReplicaClientError::Storage(error)),
                    ReplicaCoroutineState::Yielded(wanted),
                ) => storage_fails(last.seams, wanted, after, error),
                (
                    Err(ReplicaClientError::Remote(error)),
                    ReplicaCoroutineState::Yielded(wanted),
                ) => remote_fails(last.seams, wanted, after, error),
                (_, _) => false,
            }
        }
}

/// Whether driving `coroutine` over `before` may end with `out` over
/// `after`.
pub open spec fn drives<C, T, E, S, R>(
    before: (S, R),
    coroutine: C,
    after: (S, R),
    out: Result<T, ReplicaClientError<S::Error, R::Error, E>>,
) -> bool where
    C: ReplicaCoroutine<Yield = ReplicaYield, Return = Result<T, E>>,
    S: ReplicaStorage,
    R: ReplicaRemote,
 {
    exists|turns: Seq<Turn<C, S, R>>|
        {
            &&& #[trigger] takes(turns)
            &&& turns.first().seams == before
            &&& turns.first().coroutine == coroutine
            &&& ends(turns.last(), after, out)
        }
}

impl<S, R> ReplicaClient<S, R> where S: ReplicaStorage, R: ReplicaRemote {
    /// Builds a client over a storage and a remote.
    pub fn new(storage: S, remote: R) -> (r: Self)
        ensures
            r@ == (storage, remote),
    {
        ReplicaClient { storage, remote }
    }

    /// Borrows the storage seam.
    pub fn storage(&self) -> (r: &S)
        ensures
            *r == self@.0,
    {
        &self.storage
    }

    /// Borrows the remote seam.
    pub fn remote(&self) -> (r: &R)
        ensures
            *r == self@.1,
    {
        &self.remote
    }

    /// Mutably borrows the storage seam.
    pub fn storage_mut(&mut self) -> (r: &mut S)
        ensures
            *r == old(self)@.0,
            final(self)@ == (*final(r), old(self)@.1),
    {
        &mut self.storage
    }

    /// Mutably borrows the remote seam.
    pub fn remote_mut(&mut self) -> (r: &mut R)
        ensures
            *r == old(self)@.1,
            final(self)@ == (old(self)@.0, *final(r)),
    {
        &mut self.remote
    }

    /// Services one yield through the seam it is for.
    fn serve<E>(&mut self, wanted: ReplicaYield) -> (r: Result<
        ReplicaArg,
        ReplicaClientError<S::Error, R::Error, E>,
    >)
        ensures
            match r {
                Ok(arg) => serves(old(self)@, wanted, final(self)@, arg),
                Err(ReplicaClientError::Storage(error)) => storage_fails(
                    old(self)@,
                    wanted,
                    final(self)@,
                    error,
                ),
                Err(ReplicaClientError::Remote(error)) => remote_fails(
                    old(self)@,
                    wanted,
                    final(self)@,
                    error,
                ),
                Err(ReplicaClientError::Coroutine(_)) => false,
            },
    {
        match wanted {
            ReplicaYield::WantsEnumerate { collection, cursor } => {
                match self.remote.enumerate(&collection, cursor) {
                    Ok(snapshot) => Ok(ReplicaArg::Enumerate(snapshot)),
                    Err(error) => Err(ReplicaClientError::Remote(error)),
                }
            },
            ReplicaYield::WantsFetch { collection, handles, tier } => {
                match self.remote.fetch(&collection, handles, tier) {
                    Ok(items) => Ok(ReplicaArg::Fetch(items)),
                    Err(error) => Err(ReplicaClientError::Remote(error)),
                }
            },
            ReplicaYield::WantsPush { collection, changes } => {
                match self.remote.push(&collection, changes) {
                    Ok(results) => Ok(ReplicaArg::Push(results)),
                    Err(error) => Err(ReplicaClientError::Remote(error)),
                }
            },
            ReplicaYield::WantsLoad { collection, scope } => {
                match self.storage.load(&collection, &scope) {
                    Ok(loaded) => Ok(ReplicaArg::Load(loaded)),
                    Err(error) => Err(ReplicaClientError::Storage(error)),
                }
            },
            ReplicaYield::WantsLookupObject(links) => {
                match self.storage.lookup_objects(links.as_slice()) {
                    Ok(known) => Ok(ReplicaArg::LookupObject(known)),
                    Err(error) => Err(ReplicaClientError::Storage(error)),
                }
            },
            ReplicaYield::WantsWrite(ops) => {
                match self.storage.write(ops) {
                    Ok(done) => {
                        assert(done == ());
                        Ok(ReplicaArg::Write)
                    },
                    Err(error) => Err(ReplicaClientError::Storage(error)),
                }
            },
        }
    }

    /// Drives any standard-shape coroutine to completion, servicing each
    /// yield through the storage and remote seams.
    pub fn run<C, T, E>(&mut self, coroutine: C) -> (r: Result<
        T,
        ReplicaClientError<S::Error, R::Error, E>,
    >) where C: ReplicaCoroutine<Yield = ReplicaYield, Return = Result<T, E>>
        requires
            coroutine.wf(),
        ensures
            drives(old(self)@, coroutine, final(self)@, r),
    {
        let mut machine = coroutine;
        let mut arg: Option<ReplicaArg> = None;
        let ghost mut turns: Seq<Turn<C, S, R>> = seq![
            Turn { seams: self@, coroutine: machine, arg },
        ];
        loop
            invariant
                machine.wf(),
                takes(turns),
                turns.first().seams == old(self)@,
                turns.first().coroutine == coroutine,
                turns.last() == (Turn { seams: self@, coroutine: machine, arg }),
            decreases machine.rank().0, machine.rank().1,
        {
            let ghost last = turns.last();
            let state = machine.resume(arg);
            assert(C::steps(last.coroutine, last.arg, machine, state));
            match state {
                ReplicaCoroutineState::Complete(Ok(out)) => {
                    assert(ends(last, self@, Ok(out)));
                    return Ok(out);
                },
                ReplicaCoroutineState::Complete(Err(error)) => {
                    let out = Err(ReplicaClientError::Coroutine(error));
                    assert(ends(last, self@, out));
                    return out;
                },
                ReplicaCoroutineState::Yielded(wanted) => {
                    match self.serve(wanted) {
                        Ok(answer) => {
                            arg = Some(answer);
                            proof {
                                let next = Turn { seams: self@, coroutine: machine, arg };
                                assert(serves(
                                    last.seams,
                                    state->Yielded_0,
                                    next.seams,
                                    next.arg->0,
                                ));
                                assert(C::steps(
                                    last.coroutine,
                                    last.arg,
                                    next.coroutine,
                                    state,
                                ));
                                assert(follows(last, next));
                                let more = turns.push(next);
                                assert forall|i: int| 0 <= i < more.len() - 1 implies follows(
                                    #[trigger] more[i],
                                    more[i + 1],
                                ) by {
                                    if i < turns.len() - 1 {
                                        assert(follows(turns[i], turns[i + 1]));
                                    }
                                }
                                turns = more;
                            }
                        },
                        Err(error) => {
                            let out = Err(error);
                            assert(ends(last, self@, out));
                            return out;
                        },
                    }
                },
            }
        }
    }

    /// Opens a collection fully offline.
    pub fn open(
        &mut self,
        collection: impl Into<ReplicaCollectionId>,
    ) -> (r: Result<ReplicaLoaded, ReplicaClientError<S::Error, R::Error, ReplicaArgError>>)
        ensures
            exists|id: ReplicaCollectionId, verb: ReplicaOpen|
                {
                    &&& #[trigger] call_ensures(
                        Into::<ReplicaCollectionId>::into,
                        (collection,),
                        id,
                    )
                    &&& verb@ == (OpenView { collection: id@, phase: OpenPhase::Start })
                    &&& #[trigger] drives(old(self)@, verb, final(self)@, r)
                },
            !(r matches Err(ReplicaClientError::Coroutine(_))),
    {
        let verb = ReplicaOpen::new(collection);
        let ghost (before, start) = (self@, verb);
        let r = self.run(verb);
        proof {
            let awaits = |verb: ReplicaOpen, arg: Option<ArgView>| open_awaits(verb@.phase, arg);
            let refuses = |error: ReplicaArgError| true;
            assert forall|
                a: ReplicaOpen,
                arg: Option<ReplicaArg>,
                b: ReplicaOpen,
                state: ReplicaCoroutineState<ReplicaYield, Result<ReplicaLoaded, ReplicaArgError>>,
            |
                awaits(a, arg.deep_view()) && #[trigger] ReplicaOpen::steps(
                    a,
                    arg,
                    b,
                    state,
                ) implies carries_on(awaits, refuses, b, state) by {
                lemma_open_answered(a@, arg.deep_view());
            }
            lemma_driven_is_unbroken(awaits, refuses, before, start, self@, r);
        }
        r
    }

    /// Raises `handles` in `collection` to `tier`, deduping bodies.
    pub fn upgrade(
        &mut self,
        collection: impl Into<ReplicaCollectionId>,
        handles: Vec<ReplicaHandle>,
        tier: ReplicaTier,
    ) -> (r: Result<ReplicaUpgradeReport, ReplicaClientError<S::Error, R::Error, ReplicaArgError>>)
        ensures
            exists|id: ReplicaCollectionId, verb: ReplicaUpgrade|
                {
                    &&& #[trigger] call_ensures(
                        Into::<ReplicaCollectionId>::into,
                        (collection,),
                        id,
                    )
                    &&& verb@ == upgrade::starting(id@, handles.deep_view(), tier)
                    &&& #[trigger] drives(old(self)@, verb, final(self)@, r)
                },
            !(r matches Err(ReplicaClientError::Coroutine(_))),
    {
        let verb = ReplicaUpgrade::new(collection, handles, tier);
        let ghost (before, start) = (self@, verb);
        let r = self.run(verb);
        proof {
            let awaits = |verb: ReplicaUpgrade, arg: Option<ArgView>|
                upgrade_awaits(verb@.phase, arg);
            let refuses = |error: ReplicaArgError| true;
            assert forall|
                a: ReplicaUpgrade,
                arg: Option<ReplicaArg>,
                b: ReplicaUpgrade,
                state: ReplicaCoroutineState<
                    ReplicaYield,
                    Result<ReplicaUpgradeReport, ReplicaArgError>,
                >,
            |
                awaits(a, arg.deep_view()) && #[trigger] ReplicaUpgrade::steps(
                    a,
                    arg,
                    b,
                    state,
                ) implies carries_on(awaits, refuses, b, state) by {
                lemma_upgrade_answered(a@, arg.deep_view());
            }
            lemma_driven_is_unbroken(awaits, refuses, before, start, self@, r);
        }
        r
    }

    /// Applies a local mutation with no network.
    pub fn mutate(
        &mut self,
        collection: impl Into<ReplicaCollectionId>,
        mutation: ReplicaMutation,
    ) -> (r: Result<(), ReplicaClientError<S::Error, R::Error, ReplicaMutateError>>)
        ensures
            exists|id: ReplicaCollectionId, verb: ReplicaMutate|
                {
                    &&& #[trigger] call_ensures(
                        Into::<ReplicaCollectionId>::into,
                        (collection,),
                        id,
                    )
                    &&& verb@ == (MutateView {
                        collection: id@,
                        mutation: mutation@,
                        phase: MutatePhase::Start,
                    })
                    &&& #[trigger] drives(old(self)@, verb, final(self)@, r)
                },
            !(r matches Err(ReplicaClientError::Coroutine(ReplicaMutateError::Arg(_)))),
    {
        let verb = ReplicaMutate::new(collection, mutation);
        let ghost (before, start) = (self@, verb);
        let r = self.run(verb);
        proof {
            let awaits = |verb: ReplicaMutate, arg: Option<ArgView>|
                mutate_awaits(verb@.phase, arg);
            let refuses = |error: ReplicaMutateError| error is Arg;
            assert forall|
                a: ReplicaMutate,
                arg: Option<ReplicaArg>,
                b: ReplicaMutate,
                state: ReplicaCoroutineState<ReplicaYield, Result<(), ReplicaMutateError>>,
            |
                awaits(a, arg.deep_view()) && #[trigger] ReplicaMutate::steps(
                    a,
                    arg,
                    b,
                    state,
                ) implies carries_on(awaits, refuses, b, state) by {
                lemma_mutate_answered(a@, arg.deep_view());
            }
            lemma_driven_is_unbroken(awaits, refuses, before, start, self@, r);
        }
        r
    }

    /// Reconciles a collection with its remote.
    pub fn sync(
        &mut self,
        collection: impl Into<ReplicaCollectionId>,
        opts: ReplicaSyncOptions,
    ) -> (r: Result<ReplicaSyncReport, ReplicaClientError<S::Error, R::Error, ReplicaArgError>>)
        ensures
            exists|id: ReplicaCollectionId, verb: ReplicaSync|
                {
                    &&& #[trigger] call_ensures(
                        Into::<ReplicaCollectionId>::into,
                        (collection,),
                        id,
                    )
                    &&& verb@ == sync::starting(id@, opts)
                    &&& #[trigger] drives(old(self)@, verb, final(self)@, r)
                },
            !(r matches Err(ReplicaClientError::Coroutine(_))),
    {
        let verb = ReplicaSync::new(collection, opts);
        let ghost (before, start) = (self@, verb);
        let r = self.run(verb);
        proof {
            let awaits = |verb: ReplicaSync, arg: Option<ArgView>| sync_awaits(verb@.phase, arg);
            let refuses = |error: ReplicaArgError| true;
            assert forall|
                a: ReplicaSync,
                arg: Option<ReplicaArg>,
                b: ReplicaSync,
                state: ReplicaCoroutineState<
                    ReplicaYield,
                    Result<ReplicaSyncReport, ReplicaArgError>,
                >,
            |
                awaits(a, arg.deep_view()) && #[trigger] ReplicaSync::steps(
                    a,
                    arg,
                    b,
                    state,
                ) implies carries_on(awaits, refuses, b, state) by {
                lemma_sync_answered(a@, arg.deep_view());
            }
            lemma_driven_is_unbroken(awaits, refuses, before, start, self@, r);
        }
        r
    }

    /// Rebuilds a collection after a handle-space change (an IMAP
    /// UIDVALIDITY bump), carrying local state over by link id.
    pub fn rekey(
        &mut self,
        collection: impl Into<ReplicaCollectionId>,
    ) -> (r: Result<ReplicaRekeyReport, ReplicaClientError<S::Error, R::Error, ReplicaRekeyError>>)
        ensures
            exists|id: ReplicaCollectionId, verb: ReplicaRekey|
                {
                    &&& #[trigger] call_ensures(
                        Into::<ReplicaCollectionId>::into,
                        (collection,),
                        id,
                    )
                    &&& verb@ == rekey::starting(id@)
                    &&& #[trigger] drives(old(self)@, verb, final(self)@, r)
                },
            !(r matches Err(ReplicaClientError::Coroutine(_))),
    {
        let verb = ReplicaRekey::new(collection);
        let ghost (before, start) = (self@, verb);
        let r = self.run(verb);
        proof {
            let awaits = |verb: ReplicaRekey, arg: Option<ArgView>| rekey_awaits(verb@.phase, arg);
            let refuses = |error: ReplicaRekeyError| true;
            assert forall|
                a: ReplicaRekey,
                arg: Option<ReplicaArg>,
                b: ReplicaRekey,
                state: ReplicaCoroutineState<
                    ReplicaYield,
                    Result<ReplicaRekeyReport, ReplicaRekeyError>,
                >,
            |
                awaits(a, arg.deep_view()) && #[trigger] ReplicaRekey::steps(
                    a,
                    arg,
                    b,
                    state,
                ) implies carries_on(awaits, refuses, b, state) by {
                lemma_rekey_answered(a@, arg.deep_view());
            }
            lemma_driven_is_unbroken(awaits, refuses, before, start, self@, r);
        }
        r
    }
}

/// Whether a step carries the contract on: whatever answers what it asks for
/// is awaited, and it does not end on a reply refused.
pub open spec fn carries_on<C, T, E>(
    awaits: spec_fn(C, Option<ArgView>) -> bool,
    refuses: spec_fn(E) -> bool,
    after: C,
    state: ReplicaCoroutineState<ReplicaYield, Result<T, E>>,
) -> bool {
    match state {
        ReplicaCoroutineState::Yielded(wanted) => forall|reply: ArgView| #[trigger]
            answers(wanted@, reply) ==> awaits(after, Some(reply)),
        ReplicaCoroutineState::Complete(Ok(_)) => true,
        ReplicaCoroutineState::Complete(Err(error)) => !refuses(error),
    }
}

/// Whether every answered yield is awaited: resumed with what it awaits, a
/// coroutine carries the contract on.
pub open spec fn answered_is_awaited<C, T, E>(
    awaits: spec_fn(C, Option<ArgView>) -> bool,
    refuses: spec_fn(E) -> bool,
) -> bool where C: ReplicaCoroutine<Yield = ReplicaYield, Return = Result<T, E>> {
    forall|
        before: C,
        arg: Option<ReplicaArg>,
        after: C,
        state: ReplicaCoroutineState<ReplicaYield, Result<T, E>>,
    |
        awaits(before, arg.deep_view()) && #[trigger] C::steps(before, arg, after, state)
            ==> carries_on(awaits, refuses, after, state)
}

/// Driving never breaks the coroutine contract: where every answered yield
/// is awaited, no run ends on a reply refused.
pub proof fn lemma_driven_is_unbroken<C, T, E, S, R>(
    awaits: spec_fn(C, Option<ArgView>) -> bool,
    refuses: spec_fn(E) -> bool,
    before: (S, R),
    verb: C,
    after: (S, R),
    out: Result<T, ReplicaClientError<S::Error, R::Error, E>>,
) where
    C: ReplicaCoroutine<Yield = ReplicaYield, Return = Result<T, E>>,
    S: ReplicaStorage,
    R: ReplicaRemote,

    requires
        answered_is_awaited::<C, T, E>(awaits, refuses),
        awaits(verb, None),
        drives(before, verb, after, out),
    ensures
        !(out matches Err(ReplicaClientError::Coroutine(error)) && refuses(error)),
{
    let turns = choose|turns: Seq<Turn<C, S, R>>|
        {
            &&& #[trigger] takes(turns)
            &&& turns.first().seams == before
            &&& turns.first().coroutine == verb
            &&& ends(turns.last(), after, out)
        };
    lemma_turns_are_awaited(awaits, refuses, turns, turns.len() - 1);
    assert(ends(turns.last(), after, out));
}

/// Every turn of a run resumes with what the coroutine awaits.
proof fn lemma_turns_are_awaited<C, T, E, S, R>(
    awaits: spec_fn(C, Option<ArgView>) -> bool,
    refuses: spec_fn(E) -> bool,
    turns: Seq<Turn<C, S, R>>,
    i: int,
) where
    C: ReplicaCoroutine<Yield = ReplicaYield, Return = Result<T, E>>,
    S: ReplicaStorage,
    R: ReplicaRemote,

    requires
        answered_is_awaited::<C, T, E>(awaits, refuses),
        takes(turns),
        awaits(turns.first().coroutine, None),
        0 <= i < turns.len(),
    ensures
        awaits(turns[i].coroutine, turns[i].arg.deep_view()),
    decreases i,
{
    if i > 0 {
        lemma_turns_are_awaited(awaits, refuses, turns, i - 1);
        let (a, b) = (turns[i - 1], turns[i]);
        assert(follows(a, b));
        let state = choose|state: ReplicaCoroutineState<ReplicaYield, Result<T, E>>|
            {
                &&& #[trigger] C::steps(a.coroutine, a.arg, b.coroutine, state)
                &&& state is Yielded
                &&& b.arg is Some
                &&& serves(a.seams, state->Yielded_0, b.seams, b.arg->0)
            };
        assert(carries_on(awaits, refuses, b.coroutine, state));
        assert(answers(state->Yielded_0@, b.arg->0@));
    }
}

} // verus!
