//! Releasing placements frozen on an identity their source held twice.
//!
//! A frozen placement records the other handles its identity was reported
//! under. Once an enumeration shows that those are gone the identity is
//! decidable again: the last one gone releases the placement, which is
//! written and then merged like any other.

use vstd::prelude::*;

use crate::change::{ReplicaWriteOp, WriteOpView};
use crate::order::{ascending, lemma_ascending, lemma_ascending_distinct, Text};
use crate::placement::{staged_edit, PlacementView, ReplicaHandle, ReplicaPlacement, ReplicaStatus};
use crate::remote::ReplicaRemoteItem;
use crate::sorted::{ReplicaMap, ReplicaSet};
use crate::value::{push, ReplicaSame};

verus! {

/// What an enumeration says of the handles it does and does not list.
pub struct Seen {
    pub listed: Set<Text>,
    pub vanished: Set<Text>,
    pub complete: bool,
}

/// Whether the enumeration shows that a handle is gone: a complete one by
/// not listing it, a delta by reporting it vanished.
pub open spec fn is_gone(seen: Seen, handle: Text) -> bool {
    if seen.complete {
        !seen.listed.contains(handle)
    } else {
        seen.vanished.contains(handle)
    }
}

/// The handles not shown to be gone, in the order given.
pub open spec fn remaining(seen: Seen, handles: Seq<Text>) -> Seq<Text>
    decreases handles.len(),
{
    if handles.len() == 0 {
        Seq::empty()
    } else {
        let before = remaining(seen, handles.drop_last());
        if is_gone(seen, handles.last()) {
            before
        } else {
            before.push(handles.last())
        }
    }
}

/// How a placement relates to its base once nothing else decides its status:
/// a freeze released, or a delete undone.
pub open spec fn settled_status(p: PlacementView) -> ReplicaStatus {
    if p.conflict_revision is Some {
        ReplicaStatus::Conflict
    } else if p.base is None {
        ReplicaStatus::Created
    } else if staged_edit(p) is Some || p.flags != p.base->0.flags {
        ReplicaStatus::Dirty
    } else {
        ReplicaStatus::Clean
    }
}

/// A placement after the enumeration: the handles shown to be gone are
/// forgotten, and a frozen placement left with none is released.
pub open spec fn thawed(seen: Seen, p: PlacementView) -> PlacementView {
    let handles = remaining(seen, p.ambiguous_handles);
    if p.status is Ambiguous && handles.len() < p.ambiguous_handles.len() {
        PlacementView {
            ambiguous_handles: handles,
            status: if handles.len() == 0 {
                settled_status(p)
            } else {
                ReplicaStatus::Ambiguous
            },
            ..p
        }
    } else {
        p
    }
}

/// Every placement after the enumeration.
pub open spec fn thawed_all(seen: Seen, local: Map<Text, PlacementView>) -> Map<
    Text,
    PlacementView,
> {
    Map::new(|h: Text| local.contains_key(h), |h: Text| thawed(seen, local[h]))
}

/// The writes that record it, for the handles given.
pub open spec fn thaw_writes(
    seen: Seen,
    local: Map<Text, PlacementView>,
    handles: Seq<Text>,
) -> Seq<WriteOpView>
    decreases handles.len(),
{
    if handles.len() == 0 {
        Seq::empty()
    } else {
        let before = thaw_writes(seen, local, handles.drop_last());
        let p = local[handles.last()];
        if p.status is Ambiguous && remaining(seen, p.ambiguous_handles).len()
            < p.ambiguous_handles.len() {
            before.push(WriteOpView::UpsertPlacement(thawed(seen, p)))
        } else {
            before
        }
    }
}

fn keep_remaining(
    listed: &ReplicaMap<ReplicaHandle, ReplicaRemoteItem>,
    vanished: &ReplicaSet<ReplicaHandle>,
    complete: bool,
    handles: &Vec<ReplicaHandle>,
) -> (r: Vec<ReplicaHandle>)
    ensures
        r.deep_view() == remaining(
            Seen { listed: listed@.dom(), vanished: vanished@, complete },
            handles.deep_view(),
        ),
{
    let ghost seen = Seen { listed: listed@.dom(), vanished: vanished@, complete };
    let ghost all = handles.deep_view();
    let mut kept: Vec<ReplicaHandle> = Vec::new();
    let n = handles.len();
    let mut i: usize = 0;
    assert(kept.deep_view() =~= remaining(seen, all.take(0)));
    while i < n
        invariant
            n == handles@.len(),
            i <= n,
            all == handles.deep_view(),
            seen == (Seen { listed: listed@.dom(), vanished: vanished@, complete }),
            kept.deep_view() == remaining(seen, all.take(i as int)),
        decreases n - i,
    {
        let handle = &handles[i];
        proof {
            assert(all.take(i + 1).drop_last() =~= all.take(i as int));
            assert(all.take(i + 1).last() == handle@);
        }
        let gone = if complete {
            !listed.contains_key(handle)
        } else {
            vanished.contains(handle)
        };
        if !gone {
            push(&mut kept, handle.clone());
        }
        i += 1;
    }
    assert(all.take(n as int) =~= all);
    kept
}

pub(crate) fn settle_status(p: &ReplicaPlacement) -> (r: ReplicaStatus)
    ensures
        r == settled_status(p@),
{
    if p.conflict_revision.is_some() {
        return ReplicaStatus::Conflict;
    }
    match &p.base {
        None => ReplicaStatus::Created,
        Some(base) => {
            if p.staged_edit().is_some() || !p.flags.same(&base.flags) {
                ReplicaStatus::Dirty
            } else {
                ReplicaStatus::Clean
            }
        },
    }
}

/// Forgets the recorded handles an enumeration shows to be gone, releasing
/// the placements left with none, and returns the writes that record it.
pub(crate) fn thaw(
    local: &mut ReplicaMap<ReplicaHandle, ReplicaPlacement>,
    listed: &ReplicaMap<ReplicaHandle, ReplicaRemoteItem>,
    vanished: &ReplicaSet<ReplicaHandle>,
    complete: bool,
) -> (r: Vec<ReplicaWriteOp>)
    ensures
        ({
            let seen = Seen { listed: listed@.dom(), vanished: vanished@, complete };
            &&& final(local)@ == thawed_all(seen, old(local)@)
            &&& r.deep_view() == thaw_writes(
                seen,
                old(local)@,
                ascending(old(local)@.dom()),
            )
        }),
{
    let ghost seen = Seen { listed: listed@.dom(), vanished: vanished@, complete };
    let ghost local0 = local@;
    let ghost q = ascending(local0.dom());
    let n = local.len();
    proof {
        lemma_ascending(local0.dom());
        lemma_ascending_distinct(q);
        assert forall|j: int| 0 <= j < q.len() implies local0.contains_key(#[trigger] q[j]) by {
            assert(q.contains(q[j]));
        }
    }
    let mut writes: Vec<ReplicaWriteOp> = Vec::new();
    let mut i: usize = 0;
    assert(writes.deep_view() =~= thaw_writes(seen, local0, q.take(0)));
    while i < n
        invariant
            n == q.len(),
            n == local@.dom().len(),
            n == local@.len(),
            i <= n,
            q == ascending(local0.dom()),
            local@.dom() == local0.dom(),
            seen == (Seen { listed: listed@.dom(), vanished: vanished@, complete }),
            forall|j: int, k: int| 0 <= j < k < q.len() ==> q[j] != q[k],
            forall|j: int| 0 <= j < q.len() ==> local0.contains_key(#[trigger] q[j]),
            forall|j: int| 0 <= j < i ==> local@[#[trigger] q[j]] == thawed(seen, local0[q[j]]),
            forall|j: int| i <= j < n ==> local@[#[trigger] q[j]] == local0[q[j]],
            writes.deep_view() == thaw_writes(seen, local0, q.take(i as int)),
        decreases n - i,
    {
        let ghost before = local@;
        proof {
            assert(q.take(i + 1).drop_last() =~= q.take(i as int));
            assert(q.take(i + 1).last() == q[i as int]);
        }
        let placement = local.value_at(i);
        let frozen = placement.status == ReplicaStatus::Ambiguous;
        if frozen {
            let handles = keep_remaining(listed, vanished, complete, &placement.ambiguous_handles);
            if handles.len() < placement.ambiguous_handles.len() {
                let released = handles.len() == 0;
                let status = if released {
                    settle_status(placement)
                } else {
                    ReplicaStatus::Ambiguous
                };
                let mut updated = placement.clone();
                updated.ambiguous_handles = handles;
                updated.status = status;
                assert(updated@ =~= thawed(seen, local0[q[i as int]]));
                push(&mut writes, ReplicaWriteOp::UpsertPlacement(updated.clone()));
                *local.value_mut(i) = updated;
            }
        }
        proof {
            assert(local@.dom() =~= local0.dom());
            assert(local@[q[i as int]] == thawed(seen, local0[q[i as int]]));
        }
        i += 1;
    }
    proof {
        assert(q.take(n as int) =~= q);
        assert(local@ =~= thawed_all(seen, local0)) by {
            assert forall|h: Text| local0.contains_key(h) implies #[trigger] local@[h] == thawed(
                seen,
                local0[h],
            ) by {
                assert(q.contains(h));
                let j = choose|j: int| 0 <= j < q.len() && q[j] == h;
                assert(local@[q[j]] == thawed(seen, local0[q[j]]));
            }
        }
    }
    writes
}

} // verus!
