//! Pairing what is held locally with what the remote reports, in handle
//! order.
//!
//! A complete snapshot makes every handle either side holds a candidate. A
//! delta makes candidates of the handles it reported changed or vanished,
//! plus every locally non-clean one, whose pending push it would otherwise
//! never revisit.

use vstd::prelude::*;

use crate::collection::ReplicaCheckpoint;
use crate::order::{
    ascending, compare, lemma_ascending, lemma_ascending_unique, lemma_less_asymmetric,
    lemma_less_transitive, less, Side, Text,
};
use crate::placement::{PlacementView, ReplicaHandle, ReplicaPlacement, ReplicaStatus};
use crate::remote::{RemoteItemView, RemoteSnapshotView, ReplicaRemoteItem};
use crate::sorted::{ReplicaMap, ReplicaSet};
use crate::sync::reconcile::{Candidate, CandidateView};
use crate::value::{push, ReplicaValue};

verus! {

/// What a map holds for a handle.
pub open spec fn found<V>(map: Map<Text, V>, handle: Text) -> Option<V> {
    if map.contains_key(handle) {
        Some(map[handle])
    } else {
        None
    }
}

/// The items listed, by handle. A handle listed twice means its first item.
pub open spec fn listed(items: Seq<RemoteItemView>) -> Map<Text, RemoteItemView>
    decreases items.len(),
{
    if items.len() == 0 {
        Map::empty()
    } else {
        let before = listed(items.drop_last());
        if before.contains_key(items.last().handle) {
            before
        } else {
            before.insert(items.last().handle, items.last())
        }
    }
}

/// The placements loaded, by handle. A handle loaded twice means its last
/// placement.
pub open spec fn by_handle(placements: Seq<PlacementView>) -> Map<Text, PlacementView>
    decreases placements.len(),
{
    if placements.len() == 0 {
        Map::empty()
    } else {
        by_handle(placements.drop_last()).insert(placements.last().handle, placements.last())
    }
}

/// What both sides hold for a handle.
pub open spec fn paired(
    local: Map<Text, PlacementView>,
    remote: Map<Text, RemoteItemView>,
    handle: Text,
) -> CandidateView {
    CandidateView { handle, local: found(local, handle), remote: found(remote, handle) }
}

/// Every handle either side holds, ascending, with what both hold for it.
pub open spec fn joined(
    local: Map<Text, PlacementView>,
    remote: Map<Text, RemoteItemView>,
) -> Seq<CandidateView> {
    let handles = ascending(local.dom().union(remote.dom()));
    Seq::new(handles.len(), |i: int| paired(local, remote, handles[i]))
}

/// The state a delta leaves standing for a placement it never mentioned: its
/// own base, at the newest revision observed for it. A placement never based
/// has none.
pub open spec fn stand_in(handle: Text, local: PlacementView) -> Option<RemoteItemView> {
    match local.base {
        Some(base) => Some(
            RemoteItemView {
                handle,
                flags: base.flags,
                revision: if local.conflict_revision is Some {
                    local.conflict_revision
                } else {
                    base.revision
                },
            },
        ),
        None => None,
    }
}

/// What a delta makes of a joined handle: merged against nothing where it
/// vanished, against what was listed, or against its own base while a push
/// is pending; untouched otherwise.
pub open spec fn narrow(vanished: Set<Text>, candidate: CandidateView) -> Option<CandidateView> {
    if vanished.contains(candidate.handle) {
        Some(CandidateView { remote: None, ..candidate })
    } else if candidate.remote is Some {
        Some(candidate)
    } else {
        match candidate.local {
            Some(local) => if local.status is Clean {
                None
            } else {
                Some(CandidateView { remote: stand_in(candidate.handle, local), ..candidate })
            },
            None => None,
        }
    }
}

/// The candidates of a run of joined handles.
pub open spec fn narrowed(
    complete: bool,
    vanished: Set<Text>,
    joined: Seq<CandidateView>,
) -> Seq<CandidateView>
    decreases joined.len(),
{
    if joined.len() == 0 {
        Seq::empty()
    } else {
        let rest = narrowed(complete, vanished, joined.drop_first());
        if complete {
            seq![joined.first()] + rest
        } else {
            match narrow(vanished, joined.first()) {
                Some(candidate) => seq![candidate] + rest,
                None => rest,
            }
        }
    }
}

/// The candidates a snapshot makes, in the order they are merged.
pub open spec fn candidates(
    local: Map<Text, PlacementView>,
    snapshot: RemoteSnapshotView,
) -> Seq<CandidateView> {
    narrowed(
        snapshot.complete,
        snapshot.vanished.to_set(),
        joined(local, listed(snapshot.items)),
    )
}

/// A complete snapshot is narrowed to all it joins.
pub proof fn lemma_narrowed_complete(vanished: Set<Text>, q: Seq<CandidateView>)
    ensures
        narrowed(true, vanished, q) == q,
    decreases q.len(),
{
    if q.len() > 0 {
        lemma_narrowed_complete(vanished, q.drop_first());
        assert(seq![q.first()] + q.drop_first() =~= q);
    } else {
        assert(narrowed(true, vanished, q) =~= q);
    }
}

/// Where the last handle of either side goes in the join.
proof fn lemma_joined_last(
    local: Map<Text, PlacementView>,
    remote: Map<Text, RemoteItemView>,
    last: Text,
)
    requires
        local.dom().finite(),
        remote.dom().finite(),
        local.contains_key(last) || remote.contains_key(last),
        forall|h: Text| local.contains_key(h) && h != last ==> #[trigger] less(h, last),
        forall|h: Text| remote.contains_key(h) && h != last ==> #[trigger] less(h, last),
    ensures
        joined(local, remote) == joined(local.remove(last), remote.remove(last)).push(
            paired(local, remote, last),
        ),
{
    let all = local.dom().union(remote.dom());
    let (l, r) = (local.remove(last), remote.remove(last));
    let rest = l.dom().union(r.dom());
    assert(rest =~= all.remove(last));
    lemma_ascending(rest);
    let q = ascending(rest).push(last);
    assert forall|i: int, j: int| 0 <= i < j < q.len() implies #[trigger] less(q[i], q[j]) by {
        if j == q.len() - 1 {
            assert(ascending(rest).contains(q[i]));
        }
    }
    assert(q.to_set() =~= all) by {
        assert forall|h: Text| #[trigger] q.to_set().contains(h) <==> all.contains(h) by {
            if all.contains(h) {
                if h == last {
                    assert(q[q.len() - 1] == h);
                } else {
                    assert(ascending(rest).contains(h));
                    let j = choose|j: int|
                        0 <= j < ascending(rest).len() && ascending(rest)[j] == h;
                    assert(q[j] == h);
                }
            }
            if q.contains(h) {
                let j = choose|j: int| 0 <= j < q.len() && q[j] == h;
                if j < q.len() - 1 {
                    assert(ascending(rest)[j] == h);
                    assert(ascending(rest).contains(h));
                }
            }
        }
    }
    lemma_ascending_unique(q, all);
    let (before, after) = (joined(local, remote), joined(l, r).push(paired(local, remote, last)));
    assert forall|i: int| 0 <= i < before.len() implies before[i] == after[i] by {
        if i < before.len() - 1 {
            assert(ascending(rest).contains(ascending(rest)[i]));
            assert(q[i] != last);
        }
    }
    assert(before =~= after);
}

/// Appending to a run of joined handles, and narrowing it.
proof fn lemma_prepend(
    complete: bool,
    vanished: Set<Text>,
    first: CandidateView,
    rest: Seq<CandidateView>,
)
    ensures
        narrowed(complete, vanished, seq![first] + rest) == (if complete {
            seq![first] + narrowed(complete, vanished, rest)
        } else {
            match narrow(vanished, first) {
                Some(candidate) => seq![candidate] + narrowed(complete, vanished, rest),
                None => narrowed(complete, vanished, rest),
            }
        }),
{
    assert((seq![first] + rest).drop_first() =~= rest);
    assert((seq![first] + rest).first() == first);
}

/// The candidates left to merge, the next one last.
pub struct Merge {
    stack: Vec<Candidate>,
    /// The cursor the run checkpoints once every candidate is merged and
    /// every push recorded.
    checkpoint: ReplicaCheckpoint,
}

/// What a [`Merge`] stands for.
#[verifier::ext_equal]
pub struct MergeView {
    pub candidates: Seq<CandidateView>,
    pub checkpoint: Seq<u8>,
}

impl View for Merge {
    type V = MergeView;

    closed spec fn view(&self) -> MergeView {
        MergeView {
            candidates: self.stack.deep_view().reverse(),
            checkpoint: self.checkpoint@,
        }
    }
}

impl DeepView for Merge {
    type V = MergeView;

    open spec fn deep_view(&self) -> MergeView {
        self.view()
    }
}

/// Narrows a joined handle to what a delta snapshot makes a candidate, or
/// drops it as untouched.
fn narrow_candidate(vanished: &ReplicaSet<ReplicaHandle>, candidate: Candidate) -> (r: Option<
    Candidate,
>)
    ensures
        r.deep_view() == narrow(vanished@, candidate@),
{
    if vanished.contains(&candidate.handle) {
        return Some(
            Candidate { handle: candidate.handle, local: candidate.local, remote: None },
        );
    }
    if candidate.remote.is_some() {
        return Some(candidate);
    }
    let remote = match &candidate.local {
        Some(local) => {
            if local.status == ReplicaStatus::Clean {
                return None;
            }
            match &local.base {
                Some(base) => Some(
                    ReplicaRemoteItem {
                        handle: candidate.handle.clone(),
                        flags: base.flags.clone(),
                        revision: if local.conflict_revision.is_some() {
                            local.conflict_revision.copied()
                        } else {
                            base.revision.copied()
                        },
                    },
                ),
                None => None,
            }
        },
        None => {
            return None;
        },
    };
    Some(Candidate { handle: candidate.handle, local: candidate.local, remote })
}

/// The items of an enumeration by handle, the first listed winning.
pub(crate) fn list_items(items: Vec<ReplicaRemoteItem>) -> (r: ReplicaMap<
    ReplicaHandle,
    ReplicaRemoteItem,
>)
    ensures
        r@ == listed(items.deep_view()),
{
    let ghost all = items.deep_view();
    let mut map: ReplicaMap<ReplicaHandle, ReplicaRemoteItem> = ReplicaMap::new();
    assert(all.take(0) =~= Seq::empty());
    for item in it: items.into_iter()
        invariant
            all == items.deep_view(),
            it.seq() == items@,
            map@ == listed(all.take(it.index() as int)),
    {
        proof {
            let i = it.index() as int;
            assert(all.take(i + 1).drop_last() =~= all.take(i));
            assert(all.take(i + 1).last() == item@);
        }
        if !map.contains_key(&item.handle) {
            map.insert(item.handle.clone(), item);
        }
    }
    assert(all.take(all.len() as int) =~= all);
    map
}

/// The placements of a load by handle, the last loaded winning.
pub(crate) fn index_placements(placements: Vec<ReplicaPlacement>) -> (r: ReplicaMap<
    ReplicaHandle,
    ReplicaPlacement,
>)
    ensures
        r@ == by_handle(placements.deep_view()),
{
    let ghost all = placements.deep_view();
    let mut map: ReplicaMap<ReplicaHandle, ReplicaPlacement> = ReplicaMap::new();
    assert(all.take(0) =~= Seq::empty());
    for placement in it: placements.into_iter()
        invariant
            all == placements.deep_view(),
            it.seq() == placements@,
            map@ == by_handle(all.take(it.index() as int)),
    {
        proof {
            let i = it.index() as int;
            assert(all.take(i + 1).drop_last() =~= all.take(i));
            assert(all.take(i + 1).last() == placement@);
        }
        map.insert(placement.handle.clone(), placement);
    }
    assert(all.take(all.len() as int) =~= all);
    map
}

/// The handles as a set.
pub(crate) fn set_of(handles: &Vec<ReplicaHandle>) -> (r: ReplicaSet<ReplicaHandle>)
    ensures
        r@ == handles.deep_view().to_set(),
{
    let ghost all = handles.deep_view();
    let mut set: ReplicaSet<ReplicaHandle> = ReplicaSet::new();
    let n = handles.len();
    let mut i: usize = 0;
    assert(set@ =~= all.take(0).to_set());
    while i < n
        invariant
            n == handles@.len(),
            i <= n,
            all == handles.deep_view(),
            set@ == all.take(i as int).to_set(),
        decreases n - i,
    {
        set.insert(handles[i].clone());
        proof {
            crate::order::lemma_take_more(all, i as int);
            assert(set@ =~= all.take(i + 1).to_set()) by {
                assert forall|t: Text| #[trigger] set@.contains(t) <==> all.take(
                    i + 1,
                ).to_set().contains(t) by {
                    assert(all.take(i + 1).to_set().contains(t) <==> all.take(i + 1).contains(t));
                    assert(all.take(i as int).to_set().contains(t) <==> all.take(
                        i as int,
                    ).contains(t));
                }
            }
        }
        i += 1;
    }
    assert(all.take(n as int) =~= all);
    set
}

/// Nothing comes after the last of an ascending enumeration.
proof fn lemma_last(s: Set<Text>)
    requires
        s.finite(),
        s.len() > 0,
    ensures
        ascending(s).len() > 0,
        s.contains(ascending(s).last()),
        forall|h: Text|
            s.contains(h) && h != ascending(s).last() ==> #[trigger] less(h, ascending(s).last()),
{
    lemma_ascending(s);
    let q = ascending(s);
    assert(q.contains(q.last()));
    assert forall|h: Text| s.contains(h) && h != q.last() implies #[trigger] less(h, q.last()) by {
        assert(q.contains(h));
        let j = choose|j: int| 0 <= j < q.len() && q[j] == h;
        assert(less(q[j], q[q.len() - 1]));
    }
}

impl Merge {
    /// Pairs both sides up and narrows what a delta leaves untouched.
    ///
    /// The local placements are moved in: nothing else reads them, so the
    /// merge owns each one instead of copying it per candidate.
    pub fn open(
        local: ReplicaMap<ReplicaHandle, ReplicaPlacement>,
        remote: ReplicaMap<ReplicaHandle, ReplicaRemoteItem>,
        vanished: &ReplicaSet<ReplicaHandle>,
        complete: bool,
        checkpoint: ReplicaCheckpoint,
    ) -> (r: Self)
        ensures
            r@ == (MergeView {
                candidates: narrowed(complete, vanished@, joined(local@, remote@)),
                checkpoint: checkpoint@,
            }),
    {
        let ghost (local0, remote0) = (local@, remote@);
        let mut local = local;
        let mut remote = remote;
        let mut stack: Vec<Candidate> = Vec::new();
        let ghost mut done: Seq<CandidateView> = Seq::empty();
        assert(joined(local0, remote0) + done =~= joined(local0, remote0));
        assert(stack.deep_view().reverse() =~= narrowed(complete, vanished@, done));
        let mut n = local.len();
        let mut m = remote.len();
        while n > 0 || m > 0
            invariant
                n == local@.len(),
                m == remote@.len(),
                n == local@.dom().len(),
                m == remote@.dom().len(),
                local@.dom().finite(),
                remote@.dom().finite(),
                joined(local0, remote0) == joined(local@, remote@) + done,
                stack.deep_view().reverse() == narrowed(complete, vanished@, done),
            decreases n + m,
        {
            let side = if n == 0 {
                Side::Before
            } else if m == 0 {
                Side::After
            } else {
                compare(local.key_at(n - 1).as_str(), remote.key_at(m - 1).as_str())
            };
            let ghost (local1, remote1) = (local@, remote@);
            proof {
                if n > 0 {
                    lemma_ascending(local1.dom());
                    lemma_last(local1.dom());
                }
                if m > 0 {
                    lemma_ascending(remote1.dom());
                    lemma_last(remote1.dom());
                }
            }
            let candidate = match side {
                Side::After => {
                    let (handle, placement) = local.take_at(n - 1);
                    proof {
                        let last = handle@;
                        if m > 0 {
                            let other = ascending(remote1.dom()).last();
                            assert forall|h: Text| remote1.contains_key(h) implies #[trigger] less(
                                h,
                                last,
                            ) by {
                                if h != other {
                                    lemma_less_transitive(h, other, last);
                                }
                            }
                            if remote1.contains_key(last) {
                                lemma_less_asymmetric(last, last);
                            }
                        } else {
                            assert(remote1 =~= Map::empty());
                        }
                        lemma_joined_last(local1, remote1, last);
                        assert(remote1.remove(last) =~= remote1);
                    }
                    n -= 1;
                    Candidate { handle, local: Some(placement), remote: None }
                },
                Side::Before => {
                    let (handle, item) = remote.take_at(m - 1);
                    proof {
                        let last = handle@;
                        if n > 0 {
                            let other = ascending(local1.dom()).last();
                            assert forall|h: Text| local1.contains_key(h) implies #[trigger] less(
                                h,
                                last,
                            ) by {
                                if h != other {
                                    lemma_less_transitive(h, other, last);
                                }
                            }
                            if local1.contains_key(last) {
                                lemma_less_asymmetric(last, last);
                            }
                        } else {
                            assert(local1 =~= Map::empty());
                        }
                        lemma_joined_last(local1, remote1, last);
                        assert(local1.remove(last) =~= local1);
                    }
                    m -= 1;
                    Candidate { handle, local: None, remote: Some(item) }
                },
                Side::Same => {
                    let (handle, placement) = local.take_at(n - 1);
                    let (_, item) = remote.take_at(m - 1);
                    proof {
                        lemma_joined_last(local1, remote1, handle@);
                    }
                    n -= 1;
                    m -= 1;
                    Candidate { handle, local: Some(placement), remote: Some(item) }
                },
            };
            let ghost (next, before) = (candidate@, done);
            proof {
                assert(next == paired(local1, remote1, candidate.handle@));
                done = seq![next] + before;
                lemma_prepend(complete, vanished@, next, before);
                assert(joined(local1, remote1) + before =~= joined(local@, remote@) + done);
            }
            let kept = if complete {
                Some(candidate)
            } else {
                narrow_candidate(vanished, candidate)
            };
            let ghost held = stack.deep_view();
            if let Some(candidate) = kept {
                let ghost top = candidate@;
                push(&mut stack, candidate);
                assert(held.push(top).reverse() =~= seq![top] + held.reverse());
            }
        }
        proof {
            assert(local@ =~= Map::empty());
            assert(remote@ =~= Map::empty());
            lemma_ascending(local@.dom().union(remote@.dom()));
            assert(local@.dom().union(remote@.dom()) =~= Set::empty());
            assert(joined(local@, remote@) =~= Seq::empty());
            assert(joined(local0, remote0) =~= done);
        }
        Merge { stack, checkpoint }
    }

    /// Takes the next candidate, `None` once they have run out.
    pub fn next(&mut self) -> (r: Option<Candidate>)
        ensures
            match r {
                Some(candidate) => {
                    &&& old(self)@.candidates.len() > 0
                    &&& candidate@ == old(self)@.candidates.first()
                    &&& final(self)@ == (MergeView {
                        candidates: old(self)@.candidates.drop_first(),
                        ..old(self)@
                    })
                },
                None => old(self)@.candidates.len() == 0 && final(self)@ == old(self)@,
            },
    {
        let ghost before = self.stack.deep_view();
        let next = self.stack.pop();
        proof {
            if next is Some {
                assert(self.stack.deep_view() =~= before.drop_last());
                assert(before.drop_last().reverse() =~= before.reverse().drop_first());
            } else {
                assert(self.stack.deep_view() =~= before);
            }
        }
        next
    }

    /// Ends the merge, handing its checkpoint over.
    pub fn close(self) -> (r: ReplicaCheckpoint)
        ensures
            r@ == self@.checkpoint,
    {
        self.checkpoint
    }
}

} // verus!
