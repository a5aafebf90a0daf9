//! What the laws speak of is all there is: the view of a value hides none of
//! its parts, so values that look alike are alike.

use vstd::prelude::*;

use crate::change::{ReplicaChangeKind, ReplicaWriteOp};
use crate::coroutine::ReplicaYield;
use crate::hub::{ReplicaHubItem, ReplicaSourceBinding};
use crate::mutate::ReplicaMutation;
use crate::placement::ReplicaPlacement;
use crate::remote::{
    ReplicaFetchedBody, ReplicaFetchedItem, ReplicaPushResult, ReplicaRemoteItem,
    ReplicaRemoteSnapshot,
};
use crate::storage::{ReplicaLoadScope, ReplicaLoaded};

verus! {

/// Rows that look alike hold the same in every part.
pub proof fn a_row_is_shown_whole(a: ReplicaPlacement, b: ReplicaPlacement)
    requires
        a@ == b@,
    ensures
        a.collection.0@ == b.collection.0@,
        a.handle.0@ == b.handle.0@,
        a.link_id.deep_view() == b.link_id.deep_view(),
        a.object.deep_view() == b.object.deep_view(),
        a.level == b.level,
        a.meta.deep_view() == b.meta.deep_view(),
        a.sort_key.0@ == b.sort_key.0@,
        a.flags@ == b.flags@,
        a.status == b.status,
        a.conflict_revision.deep_view() == b.conflict_revision.deep_view(),
        a.conflict_object.deep_view() == b.conflict_object.deep_view(),
        a.base is Some == b.base is Some,
        a.base is Some ==> {
            let (x, y) = (a.base->0, b.base->0);
            &&& x.flags@ == y.flags@
            &&& x.revision.deep_view() == y.revision.deep_view()
            &&& x.object.deep_view() == y.object.deep_view()
        },
        a.origin is Some == b.origin is Some,
        a.origin is Some ==> {
            let (x, y) = (a.origin->0, b.origin->0);
            x.collection.0@ == y.collection.0@ && x.handle.0@ == y.handle.0@
        },
        a.ambiguous_handles.deep_view() == b.ambiguous_handles.deep_view(),
{
}

/// So do members a remote lists, and what it lists them in.
pub proof fn an_enumeration_is_shown_whole(
    a: ReplicaRemoteItem,
    b: ReplicaRemoteItem,
    x: ReplicaRemoteSnapshot,
    y: ReplicaRemoteSnapshot,
)
    ensures
        a@ == b@ ==> {
            &&& a.handle.0@ == b.handle.0@
            &&& a.flags@ == b.flags@
            &&& a.revision.deep_view() == b.revision.deep_view()
        },
        x@ == y@ ==> {
            &&& x.items.deep_view() == y.items.deep_view()
            &&& x.vanished.deep_view() == y.vanished.deep_view()
            &&& x.complete == y.complete
            &&& x.checkpoint.0@ == y.checkpoint.0@
        },
{
}

/// So does what a remote fetched, to the last byte, and what it answered to a
/// push.
pub proof fn a_reply_is_shown_whole(
    a: ReplicaFetchedItem,
    b: ReplicaFetchedItem,
    x: ReplicaPushResult,
    y: ReplicaPushResult,
)
    ensures
        a@ == b@ ==> {
            &&& a.handle.0@ == b.handle.0@
            &&& a.link_id.0@ == b.link_id.0@
            &&& a.meta.0@ == b.meta.0@
            &&& a.sort_key.0@ == b.sort_key.0@
            &&& a.revision.deep_view() == b.revision.deep_view()
            &&& match (a.body, b.body) {
                (
                    Some(ReplicaFetchedBody::Inline { hash: h, bytes: p }),
                    Some(ReplicaFetchedBody::Inline { hash: k, bytes: q }),
                ) => h.0@ == k.0@ && p@ =~= q@,
                (
                    Some(ReplicaFetchedBody::Persisted { hash: h, size: p }),
                    Some(ReplicaFetchedBody::Persisted { hash: k, size: q }),
                ) => h.0@ == k.0@ && p == q,
                (None, None) => true,
                _ => false,
            }
        },
        x@ == y@ ==> {
            &&& x.handle.0@ == y.handle.0@
            &&& x.outcome == y.outcome
            &&& x.assigned.deep_view() == y.assigned.deep_view()
            &&& x.revision.deep_view() == y.revision.deep_view()
        },
{
    if a@ == b@ {
        if let (
            Some(ReplicaFetchedBody::Inline { bytes: p, .. }),
            Some(ReplicaFetchedBody::Inline { bytes: q, .. }),
        ) = (a.body, b.body) {
            lemma_same_bytes(p, q);
        }
    }
}

proof fn lemma_same_bytes(a: Vec<u8>, b: Vec<u8>)
    ensures
        a.deep_view() == b.deep_view() ==> a@ =~= b@,
{
    if a.deep_view() == b.deep_view() {
        assert(a.deep_view().len() == b.deep_view().len());
        assert forall|i: int| 0 <= i < a@.len() implies a@[i] == b@[i] by {
            assert(a.deep_view()[i] == a@[i]);
            assert(b.deep_view()[i] == b@[i]);
        }
    }
}

/// Writes that look alike store the same, to the last byte.
pub proof fn a_write_is_shown_whole(a: ReplicaWriteOp, b: ReplicaWriteOp)
    requires
        a@ == b@,
    ensures
        match (a, b) {
            (ReplicaWriteOp::UpsertPlacement(p), ReplicaWriteOp::UpsertPlacement(q)) => p@ == q@,
            (
                ReplicaWriteOp::DropPlacement { collection: c, handle: h, reason: r },
                ReplicaWriteOp::DropPlacement { collection: d, handle: k, reason: s },
            ) => c.0@ == d.0@ && h.0@ == k.0@ && r == s,
            (
                ReplicaWriteOp::StoreObject { object: o, body: x },
                ReplicaWriteOp::StoreObject { object: p, body: y },
            ) => {
                &&& o.hash.0@ == p.hash.0@
                &&& o.size == p.size
                &&& x is Some == y is Some
                &&& x is Some ==> x->0@ =~= y->0@
            },
            (
                ReplicaWriteOp::SetCheckpoint { collection: c, checkpoint: x },
                ReplicaWriteOp::SetCheckpoint { collection: d, checkpoint: y },
            ) => c.0@ == d.0@ && x.0@ == y.0@,
            _ => false,
        },
{
    if let (
        ReplicaWriteOp::StoreObject { body: Some(x), .. },
        ReplicaWriteOp::StoreObject { body: Some(y), .. },
    ) = (a, b) {
        lemma_same_bytes(x, y);
    }
}

/// Changes that look alike ask for the same.
pub proof fn a_change_is_shown_whole(a: ReplicaChangeKind, b: ReplicaChangeKind)
    requires
        a@ == b@,
    ensures
        match (a, b) {
            (
                ReplicaChangeKind::Add { handle: h, link_id: l, flags: f, origin: o, object: x },
                ReplicaChangeKind::Add { handle: k, link_id: m, flags: g, origin: p, object: y },
            ) => {
                &&& h.0@ == k.0@
                &&& l.deep_view() == m.deep_view()
                &&& f@ == g@
                &&& o.deep_view() == p.deep_view()
                &&& x.deep_view() == y.deep_view()
            },
            (
                ReplicaChangeKind::Remove { handle: h, to: t, link_id: l, if_match: i },
                ReplicaChangeKind::Remove { handle: k, to: u, link_id: m, if_match: j },
            ) => {
                &&& h.0@ == k.0@
                &&& t.deep_view() == u.deep_view()
                &&& l.deep_view() == m.deep_view()
                &&& i.deep_view() == j.deep_view()
            },
            (
                ReplicaChangeKind::SetFlags { handle: h, flags: f },
                ReplicaChangeKind::SetFlags { handle: k, flags: g },
            ) => h.0@ == k.0@ && f@ == g@,
            (
                ReplicaChangeKind::Update { handle: h, object: x, if_match: i },
                ReplicaChangeKind::Update { handle: k, object: y, if_match: j },
            ) => h.0@ == k.0@ && x.0@ == y.0@ && i.deep_view() == j.deep_view(),
            _ => false,
        },
{
}

/// Mutations that look alike ask for the same, to the last byte.
pub proof fn a_mutation_is_shown_whole(a: ReplicaMutation, b: ReplicaMutation)
    requires
        a@ == b@,
    ensures
        match (a, b) {
            (
                ReplicaMutation::SetFlags { handle: h, flags: f },
                ReplicaMutation::SetFlags { handle: k, flags: g },
            ) => h.0@ == k.0@ && f@ == g@,
            (ReplicaMutation::Remove(h), ReplicaMutation::Remove(k)) => h.0@ == k.0@,
            (
                ReplicaMutation::Edit { handle: h, object: o, body: x, meta: m, sort_key: s },
                ReplicaMutation::Edit { handle: k, object: p, body: y, meta: n, sort_key: t },
            ) => {
                &&& h.0@ == k.0@
                &&& o.hash.0@ == p.hash.0@
                &&& o.size == p.size
                &&& x@ =~= y@
                &&& m.deep_view() == n.deep_view()
                &&& s.deep_view() == t.deep_view()
            },
            (
                ReplicaMutation::Copy { handle: h, target: c, placeholder: x },
                ReplicaMutation::Copy { handle: k, target: d, placeholder: y },
            ) => h.0@ == k.0@ && c.0@ == d.0@ && x.0@ == y.0@,
            (
                ReplicaMutation::Move { handle: h, target: c, placeholder: x },
                ReplicaMutation::Move { handle: k, target: d, placeholder: y },
            ) => h.0@ == k.0@ && c.0@ == d.0@ && x.0@ == y.0@,
            (
                ReplicaMutation::Add {
                    handle: h,
                    link_id: l,
                    flags: f,
                    object: o,
                    body: x,
                    meta: m,
                    sort_key: s,
                },
                ReplicaMutation::Add {
                    handle: k,
                    link_id: i,
                    flags: g,
                    object: p,
                    body: y,
                    meta: n,
                    sort_key: t,
                },
            ) => {
                &&& h.0@ == k.0@
                &&& l.0@ == i.0@
                &&& f@ == g@
                &&& o.hash.0@ == p.hash.0@
                &&& o.size == p.size
                &&& x@ =~= y@
                &&& m.deep_view() == n.deep_view()
                &&& s.0@ == t.0@
            },
            _ => false,
        },
{
    match (a, b) {
        (ReplicaMutation::Edit { body: x, .. }, ReplicaMutation::Edit { body: y, .. }) => {
            lemma_same_bytes(x, y);
        },
        (ReplicaMutation::Add { body: x, .. }, ReplicaMutation::Add { body: y, .. }) => {
            lemma_same_bytes(x, y);
        },
        _ => {},
    }
}

/// Wishes that look alike ask the seams for the same.
pub proof fn a_wish_is_shown_whole(a: ReplicaYield, b: ReplicaYield)
    requires
        a@ == b@,
    ensures
        match (a, b) {
            (
                ReplicaYield::WantsEnumerate { collection: c, cursor: x },
                ReplicaYield::WantsEnumerate { collection: d, cursor: y },
            ) => c.0@ == d.0@ && x.deep_view() == y.deep_view(),
            (
                ReplicaYield::WantsFetch { collection: c, handles: x, tier: t },
                ReplicaYield::WantsFetch { collection: d, handles: y, tier: u },
            ) => c.0@ == d.0@ && x.deep_view() == y.deep_view() && t == u,
            (
                ReplicaYield::WantsPush { collection: c, changes: x },
                ReplicaYield::WantsPush { collection: d, changes: y },
            ) => c.0@ == d.0@ && x.deep_view() == y.deep_view(),
            (
                ReplicaYield::WantsLoad { collection: c, scope: x },
                ReplicaYield::WantsLoad { collection: d, scope: y },
            ) => c.0@ == d.0@ && match (x, y) {
                (ReplicaLoadScope::All, ReplicaLoadScope::All) => true,
                (ReplicaLoadScope::Handles(p), ReplicaLoadScope::Handles(q)) => p.deep_view()
                    == q.deep_view(),
                (ReplicaLoadScope::Links(p), ReplicaLoadScope::Links(q)) => p.deep_view()
                    == q.deep_view(),
                _ => false,
            },
            (ReplicaYield::WantsLookupObject(x), ReplicaYield::WantsLookupObject(y)) => {
                x.deep_view() == y.deep_view()
            },
            (ReplicaYield::WantsWrite(x), ReplicaYield::WantsWrite(y)) => x.deep_view()
                == y.deep_view(),
            _ => false,
        },
{
}

/// Loads that look alike hold the same rows and checkpoint.
pub proof fn a_load_is_shown_whole(a: ReplicaLoaded, b: ReplicaLoaded)
    requires
        a@ == b@,
    ensures
        a.placements.deep_view() == b.placements.deep_view(),
        a.checkpoint.deep_view() == b.checkpoint.deep_view(),
{
}

/// Shared items that look alike hold the same in every part, and bind each
/// source alike.
pub proof fn a_shared_item_is_shown_whole(
    a: ReplicaHubItem,
    b: ReplicaHubItem,
    x: ReplicaSourceBinding,
    y: ReplicaSourceBinding,
)
    ensures
        a@ == b@ ==> {
            &&& a.flags@ == b.flags@
            &&& a.object.deep_view() == b.object.deep_view()
            &&& a.meta.deep_view() == b.meta.deep_view()
            &&& a.sort_key.0@ == b.sort_key.0@
            &&& a.level == b.level
            &&& a.deleted == b.deleted
            &&& a.conflicted == b.conflicted
            &&& a.conflict_object.deep_view() == b.conflict_object.deep_view()
            &&& a.sources@ == b.sources@
        },
        x@ == y@ ==> {
            &&& x.handle.0@ == y.handle.0@
            &&& x.base.deep_view() == y.base.deep_view()
            &&& x.conflicted == y.conflicted
            &&& x.conflict_revision.deep_view() == y.conflict_revision.deep_view()
            &&& x.conflict_object.deep_view() == y.conflict_object.deep_view()
            &&& x.shared_object.deep_view() == y.shared_object.deep_view()
        },
{
}

} // verus!
