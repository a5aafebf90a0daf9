//! When a placement frozen on an identity its source held twice is released.

use vstd::prelude::*;

use crate::order::Text;
use crate::placement::PlacementView;
use crate::sync::thaw::{is_gone, remaining, settled_status, thawed, Seen};

verus! {

/// A handle is kept exactly where it was recorded and is not shown to be
/// gone.
pub proof fn what_is_not_gone_remains(seen: Seen, handles: Seq<Text>, handle: Text)
    ensures
        remaining(seen, handles).contains(handle) <==> handles.contains(handle) && !is_gone(
            seen,
            handle,
        ),
        remaining(seen, handles).len() <= handles.len(),
        handles.contains(handle) && is_gone(seen, handle) ==> remaining(seen, handles).len()
            < handles.len(),
    decreases handles.len(),
{
    if handles.len() > 0 {
        let (before, last) = (handles.drop_last(), handles.last());
        what_is_not_gone_remains(seen, before, handle);
        let (old, all) = (remaining(seen, before), remaining(seen, handles));
        if handles.contains(handle) && handle != last {
            let k = choose|k: int| 0 <= k < handles.len() && handles[k] == handle;
            assert(before[k] == handle);
        }
        if before.contains(handle) {
            let k = choose|k: int| 0 <= k < before.len() && before[k] == handle;
            assert(handles[k] == handle);
        }
        if handle == last {
            assert(handles[handles.len() - 1] == handle);
            if !is_gone(seen, last) {
                assert(all[all.len() - 1] == handle);
            }
        }
        if old.contains(handle) {
            let k = choose|k: int| 0 <= k < old.len() && old[k] == handle;
            assert(all[k] == handle);
        }
        if all.contains(handle) {
            let k = choose|k: int| 0 <= k < all.len() && all[k] == handle;
            if k < old.len() {
                assert(old[k] == handle);
            }
        }
    }
}

/// A frozen placement stays frozen while any copy it records is still there,
/// and that copy stays recorded.
pub proof fn a_freeze_holds_while_a_copy_remains(seen: Seen, p: PlacementView, handle: Text)
    requires
        p.status is Ambiguous,
        p.ambiguous_handles.contains(handle),
        !is_gone(seen, handle),
    ensures
        thawed(seen, p).status is Ambiguous,
        thawed(seen, p).ambiguous_handles.contains(handle),
{
    what_is_not_gone_remains(seen, p.ambiguous_handles, handle);
}

/// The last copy gone releases a frozen placement, to the status its own
/// state stands for.
pub proof fn the_last_copy_gone_releases_a_freeze(seen: Seen, p: PlacementView)
    requires
        p.status is Ambiguous,
        p.ambiguous_handles.len() > 0,
        forall|i: int|
            0 <= i < p.ambiguous_handles.len() ==> is_gone(
                seen,
                #[trigger] p.ambiguous_handles[i],
            ),
    ensures
        thawed(seen, p).ambiguous_handles.len() == 0,
        thawed(seen, p).status == settled_status(p),
        !(thawed(seen, p).status is Ambiguous),
{
    let left = remaining(seen, p.ambiguous_handles);
    if left.len() > 0 {
        what_is_not_gone_remains(seen, p.ambiguous_handles, left[0]);
        assert(left.contains(left[0]));
        let k = choose|k: int|
            0 <= k < p.ambiguous_handles.len() && p.ambiguous_handles[k] == left[0];
        assert(is_gone(seen, p.ambiguous_handles[k]));
    }
}

/// Thawing changes nothing but the freeze, and nothing at all where a delta
/// reports none of the copies vanished.
pub proof fn thawing_touches_only_the_freeze(seen: Seen, p: PlacementView)
    ensures
        thawed(seen, p) == (PlacementView {
            ambiguous_handles: thawed(seen, p).ambiguous_handles,
            status: thawed(seen, p).status,
            ..p
        }),
        !(p.status is Ambiguous) ==> thawed(seen, p) == p,
        (forall|i: int|
            0 <= i < p.ambiguous_handles.len() ==> !is_gone(
                seen,
                #[trigger] p.ambiguous_handles[i],
            )) ==> thawed(seen, p) == p,
{
    if forall|i: int|
        0 <= i < p.ambiguous_handles.len() ==> !is_gone(seen, #[trigger] p.ambiguous_handles[i]) {
        lemma_all_remain(seen, p.ambiguous_handles);
    }
}

proof fn lemma_all_remain(seen: Seen, handles: Seq<Text>)
    requires
        forall|i: int| 0 <= i < handles.len() ==> !is_gone(seen, #[trigger] handles[i]),
    ensures
        remaining(seen, handles) == handles,
    decreases handles.len(),
{
    if handles.len() > 0 {
        let before = handles.drop_last();
        assert forall|i: int| 0 <= i < before.len() implies !is_gone(
            seen,
            #[trigger] before[i],
        ) by {
            assert(before[i] == handles[i]);
        }
        lemma_all_remain(seen, before);
        assert(!is_gone(seen, handles[handles.len() - 1]));
        assert(before.push(handles.last()) =~= handles);
    } else {
        assert(remaining(seen, handles) =~= handles);
    }
}

} // verus!
