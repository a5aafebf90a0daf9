//! What a batch of writes leaves in a storage that applies it in order.

use vstd::prelude::*;

use crate::change::WriteOpView;
use crate::laws::joining::is_filed;
use crate::order::Text;
use crate::placement::PlacementView;

verus! {

/// The rows of a collection after one write.
pub open spec fn stored_one(rows: Map<Text, PlacementView>, op: WriteOpView) -> Map<
    Text,
    PlacementView,
> {
    match op {
        WriteOpView::UpsertPlacement(p) => rows.insert(p.handle, p),
        WriteOpView::DropPlacement { handle, .. } => rows.remove(handle),
        _ => rows,
    }
}

/// The rows of a collection after some writes, applied in order.
pub open spec fn stored(rows: Map<Text, PlacementView>, ops: Seq<WriteOpView>) -> Map<
    Text,
    PlacementView,
>
    decreases ops.len(),
{
    if ops.len() == 0 {
        rows
    } else {
        stored_one(stored(rows, ops.drop_last()), ops.last())
    }
}

/// Whether a write is about the row of a handle.
pub open spec fn names(op: WriteOpView, handle: Text) -> bool {
    match op {
        WriteOpView::UpsertPlacement(p) => p.handle == handle,
        WriteOpView::DropPlacement { handle: dropped, .. } => dropped == handle,
        _ => false,
    }
}

/// The writes about the row of a handle, in order.
pub open spec fn about(ops: Seq<WriteOpView>, handle: Text) -> Seq<WriteOpView>
    decreases ops.len(),
{
    if ops.len() == 0 {
        Seq::empty()
    } else {
        let before = about(ops.drop_last(), handle);
        if names(ops.last(), handle) {
            before.push(ops.last())
        } else {
            before
        }
    }
}

/// What a row becomes is decided by the writes about it alone.
pub proof fn only_the_writes_about_a_row_touch_it(
    rows: Map<Text, PlacementView>,
    ops: Seq<WriteOpView>,
    handle: Text,
)
    ensures
        stored(rows, ops).contains_key(handle) == stored(rows, about(ops, handle)).contains_key(
            handle,
        ),
        stored(rows, ops).contains_key(handle) ==> stored(rows, ops)[handle] == stored(
            rows,
            about(ops, handle),
        )[handle],
    decreases ops.len(),
{
    if ops.len() > 0 {
        only_the_writes_about_a_row_touch_it(rows, ops.drop_last(), handle);
        let before = about(ops.drop_last(), handle);
        if names(ops.last(), handle) {
            assert(before.push(ops.last()).drop_last() =~= before);
        }
    }
}

/// The writes about a row of two batches are those of the one, then those of
/// the other.
pub proof fn lemma_about_both(a: Seq<WriteOpView>, b: Seq<WriteOpView>, handle: Text)
    ensures
        about(a + b, handle) == about(a, handle) + about(b, handle),
    decreases b.len(),
{
    if b.len() == 0 {
        assert(a + b =~= a);
        assert(about(a, handle) + about(b, handle) =~= about(a, handle));
    } else {
        lemma_about_both(a, b.drop_last(), handle);
        assert((a + b).drop_last() =~= a + b.drop_last());
        assert((a + b).last() == b.last());
        assert(about(a, handle) + about(b, handle) =~= about(a + b, handle));
    }
}

/// Writes none of which is about a row leave none about it.
pub proof fn lemma_about_none(ops: Seq<WriteOpView>, handle: Text)
    requires
        forall|i: int| 0 <= i < ops.len() ==> !names(#[trigger] ops[i], handle),
    ensures
        about(ops, handle) == Seq::<WriteOpView>::empty(),
    decreases ops.len(),
{
    if ops.len() > 0 {
        let before = ops.drop_last();
        assert forall|i: int| 0 <= i < before.len() implies !names(
            #[trigger] before[i],
            handle,
        ) by {
            assert(before[i] == ops[i]);
        }
        assert(!names(ops[ops.len() - 1], handle));
        lemma_about_none(before, handle);
    }
}

/// Some writes after others, applied in order.
pub proof fn lemma_stored_both(
    rows: Map<Text, PlacementView>,
    a: Seq<WriteOpView>,
    b: Seq<WriteOpView>,
)
    ensures
        stored(rows, a + b) == stored(stored(rows, a), b),
    decreases b.len(),
{
    if b.len() == 0 {
        assert(a + b =~= a);
    } else {
        lemma_stored_both(rows, a, b.drop_last());
        assert((a + b).drop_last() =~= a + b.drop_last());
        assert((a + b).last() == b.last());
    }
}

/// Where none is left about a row, no write was about it.
pub proof fn lemma_none_about(ops: Seq<WriteOpView>, handle: Text)
    requires
        about(ops, handle).len() == 0,
    ensures
        forall|i: int| 0 <= i < ops.len() ==> !names(#[trigger] ops[i], handle),
    decreases ops.len(),
{
    if ops.len() > 0 {
        let before = ops.drop_last();
        lemma_none_about(before, handle);
        assert forall|i: int| 0 <= i < ops.len() implies !names(#[trigger] ops[i], handle) by {
            if i < before.len() {
                assert(before[i] == ops[i]);
            }
        }
    }
}

/// Writes keep each row filed under its own handle.
pub proof fn rows_stay_filed(rows: Map<Text, PlacementView>, ops: Seq<WriteOpView>)
    requires
        is_filed(rows),
    ensures
        is_filed(stored(rows, ops)),
    decreases ops.len(),
{
    if ops.len() > 0 {
        rows_stay_filed(rows, ops.drop_last());
    }
}

} // verus!
