//! In what order handles and links are taken, and what a level, a staged
//! body and a set of rights stand for.

use vstd::prelude::*;
use vstd::utf8::encode_utf8;

use crate::order::{
    ascending, lemma_ascending, lemma_less_asymmetric, less, parts_at, side, Side, Text,
};
use crate::placement::{higher, rung, staged_edit, PlacementView, ReplicaLevel};
use crate::sync::options::{all_rights, ReplicaPushRights};

verus! {

/// Texts are ordered by their bytes: one comes before another that goes on
/// where it ends, or that has the greater byte where they first differ.
pub proof fn texts_are_ordered_by_their_bytes(a: Text, b: Text, i: int)
    requires
        0 <= i <= encode_utf8(a).len(),
        i < encode_utf8(b).len(),
        forall|k: int| 0 <= k < i ==> encode_utf8(a)[k] == encode_utf8(b)[k],
        i == encode_utf8(a).len() || encode_utf8(a)[i] < encode_utf8(b)[i],
    ensures
        side(a, b) == Side::Before,
{
    let (x, y) = (encode_utf8(a), encode_utf8(b));
    assert(parts_at(x, y, i));
    if a == b {
        assert(x == y);
    }
}

/// The members of a set are taken each once, the one ordered first coming
/// first.
pub proof fn members_are_taken_in_order(s: Set<Text>, a: Text, b: Text)
    requires
        s.finite(),
        s.contains(a),
        s.contains(b),
        less(a, b),
    ensures
        exists|i: int, j: int|
            0 <= i < j < ascending(s).len() && #[trigger] ascending(s)[i] == a
                && #[trigger] ascending(s)[j] == b,
        forall|i: int| 0 <= i < ascending(s).len() ==> s.contains(#[trigger] ascending(s)[i]),
{
    let q = ascending(s);
    lemma_ascending(s);
    assert(q.contains(a) && q.contains(b));
    let i = choose|i: int| 0 <= i < q.len() && q[i] == a;
    let j = choose|j: int| 0 <= j < q.len() && q[j] == b;
    if j < i {
        assert(less(q[j], q[i]));
        lemma_less_asymmetric(a, b);
    } else if i == j {
        lemma_less_asymmetric(a, b);
    }
    assert(q[i] == a && q[j] == b);
    assert forall|k: int| 0 <= k < q.len() implies s.contains(#[trigger] q[k]) by {
        assert(q.contains(q[k]));
    }
}

/// A body is staged where the row points at one its base does not hold, and
/// it is that one.
pub proof fn a_staged_body_is_one_the_base_lacks(p: PlacementView)
    ensures
        staged_edit(p) is Some ==> staged_edit(p) == p.object,
        staged_edit(p) is None <==> p.object is None || (p.base is Some && p.base->0.object
            == p.object),
{
}

/// A summary is more than a handle, and a body more than a summary; of two
/// levels the higher one is taken.
pub proof fn levels_rise_from_handle_to_body(a: ReplicaLevel, b: ReplicaLevel)
    ensures
        rung(ReplicaLevel::Probed) < rung(ReplicaLevel::Meta),
        rung(ReplicaLevel::Meta) < rung(ReplicaLevel::Full),
        higher(a, b) == a || higher(a, b) == b,
        rung(higher(a, b)) >= rung(a),
        rung(higher(a, b)) >= rung(b),
{
}

/// A source that grants everything grants each kind of push.
pub proof fn all_rights_grant_every_push()
    ensures
        all_rights() == (ReplicaPushRights { flags: true, content: true, add: true, remove: true }),
{
}

} // verus!
