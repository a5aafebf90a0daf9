//! Flags merge element-wise and never conflict.

use vstd::prelude::*;

use crate::order::Text;
use crate::placement::{markers, merged_flags, FlagsView};

verus! {

/// Neither side is preferred: swapping them merges to the same set.
pub proof fn merge_is_symmetric(base: FlagsView, local: FlagsView, remote: FlagsView)
    ensures
        merged_flags(base, local, remote) == merged_flags(base, remote, local),
{
    assert(merged_flags(base, local, remote) =~= merged_flags(base, remote, local));
}

/// Each flag is independent and the side that changed it wins: where either
/// side differs from the base its reading stands, and where neither does the
/// base's stands. The two sides never disagree on a flag both changed.
pub proof fn the_side_that_changed_a_flag_wins(
    base: FlagsView,
    local: FlagsView,
    remote: FlagsView,
    flag: Text,
)
    requires
        local is Known,
        remote is Known,
    ensures
        ({
            let (b, l, r) = (
                markers(base).contains(flag),
                markers(local).contains(flag),
                markers(remote).contains(flag),
            );
            let m = markers(merged_flags(base, local, remote)).contains(flag);
            &&& l != b ==> m == l
            &&& r != b ==> m == r
            &&& l == b && r == b ==> m == b
            &&& l != b && r != b ==> l == r
        }),
{
}

/// Sides that moved to the same set converge on it, whatever the base.
pub proof fn agreeing_sides_converge(base: FlagsView, both: FlagsView)
    ensures
        merged_flags(base, both, both) == both,
{
    assert(merged_flags(base, both, both) =~= both);
}

/// A set nobody changed stays as it is.
pub proof fn an_unchanged_set_stays(base: FlagsView, other: FlagsView)
    requires
        base is Known,
        other is Known,
    ensures
        merged_flags(base, base, other) == other,
        merged_flags(base, other, base) == other,
{
    assert(merged_flags(base, base, other) =~= other);
    assert(merged_flags(base, other, base) =~= other);
}

/// The merged set is a fixed point: folded in on one side while the other
/// and the base stay put, it merges to itself again, so a push that does not
/// land derives the same merge next time.
pub proof fn a_merge_derives_again(base: FlagsView, local: FlagsView, remote: FlagsView)
    ensures
        ({
            let m = merged_flags(base, local, remote);
            &&& merged_flags(base, m, remote) == m
            &&& merged_flags(base, local, m) == m
        }),
{
    let m = merged_flags(base, local, remote);
    assert(merged_flags(base, m, remote) =~= m);
    assert(merged_flags(base, local, m) =~= m);
}

/// Against an empty base divergent sets fold into their union.
pub proof fn divergent_sets_fold_into_their_union(local: Set<Text>, remote: Set<Text>)
    ensures
        merged_flags(
            FlagsView::Known(Set::empty()),
            FlagsView::Known(local),
            FlagsView::Known(remote),
        ) == FlagsView::Known(local.union(remote)),
{
    assert(markers(
        merged_flags(
            FlagsView::Known(Set::empty()),
            FlagsView::Known(local),
            FlagsView::Known(remote),
        ),
    ) =~= local.union(remote));
}

/// A side that has not reported its markers holds no opinion: the other one
/// stands, whatever the base.
pub proof fn an_unknown_set_holds_no_opinion(base: FlagsView, other: FlagsView)
    ensures
        merged_flags(base, FlagsView::Unknown, other) == other,
        merged_flags(base, other, FlagsView::Unknown) == other,
{
}

} // verus!
