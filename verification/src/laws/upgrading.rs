//! What raising placements keeps, and who ends up holding an identity.

use vstd::prelude::*;

use crate::change::WriteOpView;
use crate::coroutine::{refusal, ArgView, StepView, YieldView};
use crate::laws::joining::{a_load_is_filed, is_filed};
use crate::order::{ascending, lemma_ascending, lemma_ascending_distinct, Text};
use crate::placement::{rung, staged_edit, PlacementView};
use crate::remote::{FetchedItemView, ReplicaTier};
use crate::upgrade::{
    apply, applied, freezes, frozen, hit, holders, is_mutable, item_writes, lacks, link_writes,
    linked, loaded_step, lost_by, misses, outcome, pending, raised_full, raised_meta, recorded,
    staged_from, stages, starting, upgrade_awaits, upgrade_step, widened, Applied, UpgradePhase,
    UpgradeStep, UpgradeView,
};

verus! {

/// A body linked from the store, like one fetched, is the synced content of
/// its item: neither reads as a local edit.
pub proof fn a_raised_body_is_no_local_edit(
    p: PlacementView,
    link_id: Option<Text>,
    item: FetchedItemView,
    hash: Text,
)
    requires
        p.base is Some,
    ensures
        staged_edit(linked(p, hash)) is None,
        staged_edit(raised_full(p, link_id, item, hash)) is None,
{
}

/// Raising is a pull, never a merge: membership, flags and pending state
/// stay as they are.
pub proof fn raising_keeps_flags_and_pending_state(
    p: PlacementView,
    link_id: Option<Text>,
    item: FetchedItemView,
    hash: Text,
    raised: PlacementView,
)
    requires
        raised == linked(p, hash) || raised == raised_meta(p, link_id, item) || raised
            == raised_full(p, link_id, item, hash),
    ensures
        raised.collection == p.collection,
        raised.handle == p.handle,
        raised.flags == p.flags,
        raised.status == p.status,
        raised.origin == p.origin,
        raised.conflict_revision == p.conflict_revision,
        raised.conflict_object == p.conflict_object,
        raised.ambiguous_handles == p.ambiguous_handles,
        raised.base is Some <==> p.base is Some,
        p.base matches Some(base) ==> raised.base->0.flags == base.flags,
{
}

/// What was raised needs no more work at that tier, so asking for it again
/// does nothing.
pub proof fn a_raised_placement_needs_no_more(
    p: PlacementView,
    link_id: Option<Text>,
    item: FetchedItemView,
    hash: Text,
)
    ensures
        !lacks(ReplicaTier::Full, linked(p, hash)),
        !lacks(ReplicaTier::Full, raised_full(p, link_id, item, hash)),
        !lacks(ReplicaTier::Meta, raised_full(p, link_id, item, hash)),
        !lacks(ReplicaTier::Meta, raised_meta(p, link_id, item)),
{
}

/// The level is a claim and the payload is the fact: a row reading as high
/// enough while holding nothing is raised again.
pub proof fn a_row_without_its_payload_is_pending(tier: ReplicaTier, p: PlacementView)
    ensures
        tier is Meta && p.meta is None ==> lacks(tier, p),
        tier is Full && p.object is None ==> lacks(tier, p),
{
}

/// What is asked of a run: exactly the handles requested that are known and
/// need work.
pub proof fn only_what_needs_work_is_pending(
    tier: ReplicaTier,
    placements: Map<Text, PlacementView>,
    handles: Seq<Text>,
    handle: Text,
)
    ensures
        pending(tier, placements, handles).contains(handle) <==> handles.contains(handle)
            && placements.contains_key(handle) && lacks(tier, placements[handle]),
    decreases handles.len(),
{
    if handles.len() > 0 {
        let (before, last) = (handles.drop_last(), handles.last());
        only_what_needs_work_is_pending(tier, placements, before, handle);
        let (old, all) = (pending(tier, placements, before), pending(tier, placements, handles));
        if handles.contains(handle) && handle != last {
            let k = choose|k: int| 0 <= k < handles.len() && handles[k] == handle;
            assert(before[k] == handle);
        }
        if before.contains(handle) {
            let k = choose|k: int| 0 <= k < before.len() && before[k] == handle;
            assert(handles[k] == handle);
        }
        if old.contains(handle) {
            let k = choose|k: int| 0 <= k < old.len() && old[k] == handle;
            assert(all[k] == handle);
        }
        if handle == last {
            assert(handles[handles.len() - 1] == handle);
            if placements.contains_key(last) && lacks(tier, placements[last]) {
                assert(all[all.len() - 1] == handle);
            }
        }
        if all.contains(handle) {
            let k = choose|k: int| 0 <= k < all.len() && all[k] == handle;
            if k < old.len() {
                assert(old[k] == handle);
            }
        }
    }
}

/// Where nothing needs work, a run ends without the network.
pub proof fn a_run_with_nothing_pending_ends(s: UpgradeView)
    requires
        pending(s.tier, s.placements, s.handles).len() == 0,
    ensures
        loaded_step(s).1 is Done,
        loaded_step(s).0.phase is Done,
{
}

/// Content a source may rewrite in place is never taken from the store: the
/// link id says two copies are the same item, not that they hold the same
/// bytes.
pub proof fn mutable_content_is_never_linked(known: Map<Text, Text>, p: PlacementView)
    requires
        is_mutable(p),
    ensures
        hit(known, p) is None,
{
}

/// Every pending handle is either linked from the store or fetched, and none
/// both.
pub proof fn each_pending_handle_is_linked_or_fetched(
    placements: Map<Text, PlacementView>,
    known: Map<Text, Text>,
    handles: Seq<Text>,
)
    ensures
        link_writes(placements, known, handles).len() + misses(placements, known, handles).len()
            == handles.len(),
        forall|i: int|
            0 <= i < handles.len() ==> (misses(placements, known, handles).contains(
                #[trigger] handles[i],
            ) <==> hit(known, placements[handles[i]]) is None),
        forall|i: int|
            0 <= i < misses(placements, known, handles).len() ==> handles.contains(
                #[trigger] misses(placements, known, handles)[i],
            ),
    decreases handles.len(),
{
    if handles.len() > 0 {
        let (before, last) = (handles.drop_last(), handles.last());
        each_pending_handle_is_linked_or_fetched(placements, known, before);
        let (old, all) = (misses(placements, known, before), misses(placements, known, handles));
        assert forall|i: int| 0 <= i < all.len() implies handles.contains(#[trigger] all[i]) by {
            if i < old.len() {
                let k = choose|k: int| 0 <= k < before.len() && before[k] == old[i];
                assert(handles[k] == all[i]);
            } else {
                assert(handles[handles.len() - 1] == all[i]);
            }
        }
        assert forall|i: int| 0 <= i < handles.len() implies (all.contains(#[trigger] handles[i])
            <==> hit(known, placements[handles[i]]) is None) by {
            let h = handles[i];
            if i < before.len() {
                assert(before[i] == h);
                if old.contains(h) {
                    let k = choose|k: int| 0 <= k < old.len() && old[k] == h;
                    assert(all[k] == h);
                }
            } else if hit(known, placements[h]) is None {
                assert(all[all.len() - 1] == h);
            }
            if all.contains(h) {
                let k = choose|k: int| 0 <= k < all.len() && all[k] == h;
                if k < old.len() {
                    let m = choose|m: int| 0 <= m < before.len() && before[m] == old[k];
                    assert(old.contains(before[m]));
                }
            }
        }
    }
}

/// Who holds an identity before a fetch is applied: every placement known
/// with a link id has it claimed, by a placement that holds it.
pub proof fn every_known_identity_is_claimed(
    placements: Map<Text, PlacementView>,
    handles: Seq<Text>,
)
    requires
        is_filed(placements),
        forall|i: int| 0 <= i < handles.len() ==> placements.contains_key(#[trigger] handles[i]),
    ensures
        forall|i: int|
            0 <= i < handles.len() && placements[#[trigger] handles[i]].link_id is Some
                ==> holders(placements, handles).contains_key(placements[handles[i]].link_id->0),
        forall|link: Text| #[trigger]
            holders(placements, handles).contains_key(link) ==> {
                let holder = holders(placements, handles)[link];
                placements.contains_key(holder) && placements[holder].link_id == Some(link)
            },
    decreases handles.len(),
{
    if handles.len() > 0 {
        let before = handles.drop_last();
        assert forall|i: int| 0 <= i < before.len() implies placements.contains_key(
            #[trigger] before[i],
        ) by {
            assert(handles[i] == before[i]);
        }
        every_known_identity_is_claimed(placements, before);
        assert(placements.contains_key(handles[handles.len() - 1]));
        let all = holders(placements, handles);
        assert forall|i: int|
            0 <= i < handles.len() && placements[#[trigger] handles[i]].link_id is Some implies all.contains_key(
            placements[handles[i]].link_id->0,
        ) by {
            if i < before.len() {
                assert(before[i] == handles[i]);
            }
        }
    }
}

/// What applying fetched items keeps of each write from `from` on: it stages
/// a known placement, an identity already held is kept, and one newly
/// established is claimed for the placement that got it and was claimed by
/// nobody before.
pub open spec fn claims_hold(
    placements: Map<Text, PlacementView>,
    start: Map<Text, Text>,
    acc: Applied,
    from: int,
) -> bool {
    &&& forall|link: Text| #[trigger]
        start.contains_key(link) ==> acc.claimed.contains_key(link) && acc.claimed[link]
            == start[link]
    &&& forall|link: Text| #[trigger]
        acc.claimed.contains_key(link) ==> placements.contains_key(acc.claimed[link])
    &&& forall|i: int|
        from <= i < acc.ops.len() ==> (#[trigger] acc.ops[i] matches WriteOpView::UpsertPlacement(
            p,
        ) ==> {
            &&& placements.contains_key(p.handle)
            &&& placements[p.handle].link_id is Some ==> p.link_id
                == placements[p.handle].link_id
            &&& placements[p.handle].link_id is None && p.link_id is Some ==> {
                &&& !start.contains_key(p.link_id->0)
                &&& acc.claimed.contains_key(p.link_id->0)
                &&& acc.claimed[p.link_id->0] == p.handle
            }
        })
    &&& acc.lost.dom().finite()
    &&& forall|holder: Text| #[trigger]
        acc.lost.contains_key(holder) ==> placements.contains_key(holder)
}

proof fn lemma_applied_claims(
    tier: ReplicaTier,
    placements: Map<Text, PlacementView>,
    start: Applied,
    items: Seq<FetchedItemView>,
)
    requires
        is_filed(placements),
        forall|link: Text| #[trigger]
            start.claimed.contains_key(link) ==> placements.contains_key(start.claimed[link]),
        start.lost == Map::<Text, Seq<Text>>::empty(),
    ensures
        claims_hold(
            placements,
            start.claimed,
            applied(tier, placements, start, items),
            start.ops.len() as int,
        ),
        applied(tier, placements, start, items).ops.len() >= start.ops.len(),
    decreases items.len(),
{
    if items.len() > 0 {
        let before = applied(tier, placements, start, items.drop_last());
        lemma_applied_claims(tier, placements, start, items.drop_last());
        let after = applied(tier, placements, start, items);
        let item = items.last();
        if placements.contains_key(item.handle) {
            let p = placements[item.handle];
            let link_id = if p.link_id is Some {
                p.link_id
            } else if before.claimed.contains_key(item.link_id) {
                None
            } else {
                Some(item.link_id)
            };
            let more = item_writes(tier, p, link_id, item);
            assert(after.ops == before.ops + more);
            assert forall|i: int| start.ops.len() <= i < after.ops.len() implies (
            #[trigger] after.ops[i] matches WriteOpView::UpsertPlacement(q) ==> {
                &&& placements.contains_key(q.handle)
                &&& placements[q.handle].link_id is Some ==> q.link_id
                    == placements[q.handle].link_id
                &&& placements[q.handle].link_id is None && q.link_id is Some ==> {
                    &&& !start.claimed.contains_key(q.link_id->0)
                    &&& after.claimed.contains_key(q.link_id->0)
                    &&& after.claimed[q.link_id->0] == q.handle
                }
            }) by {
                if i < before.ops.len() {
                    assert(after.ops[i] == before.ops[i]);
                } else {
                    assert(after.ops[i] == more[i - before.ops.len()]);
                }
            }
        }
    }
}

/// The claims a fetch starts from.
proof fn lemma_outcome_claims(s: UpgradeView)
    requires
        is_filed(s.placements),
    ensures
        claims_hold(
            s.placements,
            holders(s.placements, ascending(s.placements.dom())),
            outcome(s),
            s.ops.len() as int,
        ),
        outcome(s).ops.len() >= s.ops.len(),
        forall|h: Text| #[trigger]
            s.placements.contains_key(h) && s.placements[h].link_id is Some ==> holders(
                s.placements,
                ascending(s.placements.dom()),
            ).contains_key(s.placements[h].link_id->0),
{
    let q = ascending(s.placements.dom());
    lemma_ascending(s.placements.dom());
    assert forall|i: int| 0 <= i < q.len() implies s.placements.contains_key(#[trigger] q[i]) by {
        assert(q.contains(q[i]));
    }
    every_known_identity_is_claimed(s.placements, q);
    assert forall|h: Text| #[trigger]
        s.placements.contains_key(h) && s.placements[h].link_id is Some implies holders(
        s.placements,
        q,
    ).contains_key(s.placements[h].link_id->0) by {
        assert(q.contains(h));
        let i = choose|i: int| 0 <= i < q.len() && q[i] == h;
        assert(s.placements[q[i]].link_id is Some);
    }
    lemma_applied_claims(
        s.tier,
        s.placements,
        Applied {
            claimed: holders(s.placements, q),
            lost: Map::empty(),
            ops: s.ops,
            raised: 0,
            bodies: 0,
        },
        s.fetched,
    );
}

/// An identity is never changed and never shared: a placement already linked
/// keeps its link whatever the fetch reported, and one newly linked gets a
/// link no other known placement holds and no other write of the batch
/// establishes.
pub proof fn an_identity_is_never_established_twice(s: UpgradeView, i: int, j: int)
    requires
        is_filed(s.placements),
        s.ops.len() <= i < outcome(s).ops.len(),
        s.ops.len() <= j < outcome(s).ops.len(),
        outcome(s).ops[i] is UpsertPlacement,
        outcome(s).ops[j] is UpsertPlacement,
    ensures
        ({
            let p = outcome(s).ops[i]->UpsertPlacement_0;
            let q = outcome(s).ops[j]->UpsertPlacement_0;
            &&& s.placements.contains_key(p.handle)
            &&& s.placements[p.handle].link_id is Some ==> p.link_id
                == s.placements[p.handle].link_id
            &&& s.placements[p.handle].link_id is None && p.link_id is Some ==> {
                &&& forall|h: Text| #[trigger]
                    s.placements.contains_key(h) ==> s.placements[h].link_id != p.link_id
                &&& q.link_id == p.link_id ==> q.handle == p.handle
            }
        }),
{
    lemma_outcome_claims(s);
    assert(outcome(s).ops[i] is UpsertPlacement);
    assert(outcome(s).ops[j] is UpsertPlacement);
}

/// Every handle recorded stays recorded, every lost one is recorded too, and
/// none twice.
pub proof fn a_lost_handle_is_recorded_once(handles: Seq<Text>, lost: Seq<Text>)
    ensures
        forall|i: int|
            0 <= i < handles.len() ==> recorded(handles, lost).contains(#[trigger] handles[i]),
        forall|i: int| 0 <= i < lost.len() ==> recorded(handles, lost).contains(#[trigger] lost[i]),
        handles.no_duplicates() ==> recorded(handles, lost).no_duplicates(),
    decreases lost.len(),
{
    if lost.len() > 0 {
        let before = lost.drop_last();
        a_lost_handle_is_recorded_once(handles, before);
        let (old, all) = (recorded(handles, before), recorded(handles, lost));
        assert forall|h: Text| old.contains(h) implies #[trigger] all.contains(h) by {
            let k = choose|k: int| 0 <= k < old.len() && old[k] == h;
            assert(all[k] == h);
        }
        assert forall|i: int| 0 <= i < handles.len() implies all.contains(
            #[trigger] handles[i],
        ) by {
            assert(old.contains(handles[i]));
        }
        assert forall|i: int| 0 <= i < lost.len() implies all.contains(#[trigger] lost[i]) by {
            if i < before.len() {
                assert(old.contains(before[i]));
            } else if !old.contains(lost[i]) {
                assert(all[all.len() - 1] == lost[i]);
            }
        }
        if handles.no_duplicates() && !old.contains(lost.last()) {
            assert forall|i: int, j: int| 0 <= i < j < all.len() implies all[i] != all[j] by {
                if j == old.len() {
                    assert(old[i] == all[i]);
                } else {
                    assert(old[i] == all[i] && old[j] == all[j]);
                }
            }
        }
    }
}

proof fn lemma_staged_from(ops: Seq<WriteOpView>, handle: Text, i: int)
    requires
        0 <= i,
    ensures
        staged_from(ops, handle, i) matches Some(k) ==> i <= k < ops.len() && stages(
            ops[k],
            handle,
        ),
    decreases ops.len() - i,
{
    if i < ops.len() && !stages(ops[i], handle) {
        lemma_staged_from(ops, handle, i + 1);
    }
}

/// Whether a batch freezes a holder, recording every handle it lost.
pub open spec fn freezes_holder(ops: Seq<WriteOpView>, holder: Text, lost: Seq<Text>) -> bool {
    exists|k: int|
        0 <= k < ops.len() && stages(#[trigger] ops[k], holder) && {
            let p = ops[k]->UpsertPlacement_0;
            &&& p.status is Ambiguous
            &&& forall|i: int|
                0 <= i < lost.len() ==> p.ambiguous_handles.contains(#[trigger] lost[i])
        }
}

proof fn lemma_freezes(
    placements: Map<Text, PlacementView>,
    ops: Seq<WriteOpView>,
    lost: Map<Text, Seq<Text>>,
    handles: Seq<Text>,
)
    requires
        is_filed(placements),
        handles.no_duplicates(),
        forall|i: int| 0 <= i < handles.len() ==> placements.contains_key(#[trigger] handles[i]),
    ensures
        forall|i: int|
            0 <= i < handles.len() ==> freezes_holder(
                freezes(placements, ops, lost, handles),
                #[trigger] handles[i],
                lost[handles[i]],
            ),
    decreases handles.len(),
{
    if handles.len() > 0 {
        let (rest, last) = (handles.drop_last(), handles.last());
        assert forall|i: int| 0 <= i < rest.len() implies placements.contains_key(
            #[trigger] rest[i],
        ) by {
            assert(handles[i] == rest[i]);
        }
        assert(rest.no_duplicates()) by {
            assert forall|i: int, j: int| 0 <= i < j < rest.len() implies rest[i] != rest[j] by {
                assert(handles[i] != handles[j]);
            }
        }
        lemma_freezes(placements, ops, lost, rest);
        let before = freezes(placements, ops, lost, rest);
        let after = freezes(placements, ops, lost, handles);
        assert(placements.contains_key(handles[handles.len() - 1]));
        lemma_staged_from(before, last, 0);
        let at = match staged_from(before, last, 0) {
            Some(k) => k,
            None => before.len() as int,
        };
        let p = after[at]->UpsertPlacement_0;
        let was = match staged_from(before, last, 0) {
            Some(k) => before[k]->UpsertPlacement_0,
            None => placements[last],
        };
        assert(after[at] == WriteOpView::UpsertPlacement(frozen(was, lost[last])));
        a_lost_handle_is_recorded_once(was.ambiguous_handles, lost[last]);
        assert(stages(after[at], last));
        assert(freezes_holder(after, last, lost[last]));
        assert forall|i: int| 0 <= i < handles.len() implies freezes_holder(
            after,
            #[trigger] handles[i],
            lost[handles[i]],
        ) by {
            if i < rest.len() {
                let holder = rest[i];
                assert(handles[i] == holder);
                assert(holder != last) by {
                    assert(handles[i] != handles[handles.len() - 1]);
                }
                assert(freezes_holder(before, holder, lost[holder]));
                let k = choose|k: int|
                    0 <= k < before.len() && stages(#[trigger] before[k], holder) && {
                        let p = before[k]->UpsertPlacement_0;
                        &&& p.status is Ambiguous
                        &&& forall|i: int|
                            0 <= i < lost[holder].len() ==> p.ambiguous_handles.contains(
                                #[trigger] lost[holder][i],
                            )
                    };
                assert(k != at);
                assert(after[k] == before[k]);
            }
        }
    }
}

/// An identity a source reports twice freezes its holder: the batch marks
/// the holder ambiguous and records on it every handle that reported the
/// identity too, so the freeze outlives the enumeration that showed it.
pub proof fn every_loser_is_recorded_on_its_holder(s: UpgradeView, holder: Text)
    requires
        is_filed(s.placements),
        outcome(s).lost.contains_key(holder),
    ensures
        freezes_holder(
            freezes(
                s.placements,
                outcome(s).ops,
                outcome(s).lost,
                ascending(outcome(s).lost.dom()),
            ),
            holder,
            outcome(s).lost[holder],
        ),
{
    lemma_outcome_claims(s);
    let lost = outcome(s).lost;
    let q = ascending(lost.dom());
    lemma_ascending(lost.dom());
    lemma_ascending_distinct(q);
    assert forall|i: int| 0 <= i < q.len() implies s.placements.contains_key(#[trigger] q[i]) by {
        assert(q.contains(q[i]));
        assert(lost.contains_key(q[i]));
    }
    lemma_freezes(s.placements, outcome(s).ops, lost, q);
    assert(q.contains(holder));
    let i = choose|i: int| 0 <= i < q.len() && q[i] == holder;
    assert(freezes_holder(freezes(s.placements, outcome(s).ops, lost, q), q[i], lost[q[i]]));
}

/// A fetched item that reports an identity somebody holds loses: it gets no
/// link, and its handle is recorded as lost by the holder.
pub proof fn a_second_copy_loses(
    tier: ReplicaTier,
    placements: Map<Text, PlacementView>,
    acc: Applied,
    item: FetchedItemView,
)
    requires
        placements.contains_key(item.handle),
        placements[item.handle].link_id is None,
        acc.claimed.contains_key(item.link_id),
    ensures
        ({
            let after = apply(tier, placements, acc, item);
            let holder = acc.claimed[item.link_id];
            &&& after.claimed == acc.claimed
            &&& after.lost.contains_key(holder)
            &&& after.lost[holder] == lost_by(acc.lost, holder).push(item.handle)
            &&& after.ops == acc.ops + item_writes(tier, placements[item.handle], None, item)
        }),
{
}

/// A reply that is not the one awaited is refused and changes nothing.
pub proof fn a_reply_not_awaited_is_refused(s: UpgradeView, arg: Option<ArgView>)
    requires
        !upgrade_awaits(s.phase, arg),
    ensures
        upgrade_step(s, arg) == (s, UpgradeStep::Failed(refusal(arg))),
{
}

/// Whether every placement a batch stages is a known one, at its level or
/// above it.
pub open spec fn only_climbs(
    placements: Map<Text, PlacementView>,
    ops: Seq<WriteOpView>,
) -> bool {
    forall|i: int|
        0 <= i < ops.len() ==> (#[trigger] ops[i] matches WriteOpView::UpsertPlacement(p)
            ==> placements.contains_key(p.handle) && rung(placements[p.handle].level) <= rung(
            p.level,
        ))
}

/// What every state of an upgrade keeps of the rows it has loaded.
pub open spec fn upgrade_inv(s: UpgradeView) -> bool {
    is_filed(s.placements) && only_climbs(s.placements, s.ops)
}

/// An upgrade starts in such a state.
pub proof fn an_upgrade_starts_sound(collection: Text, handles: Seq<Text>, tier: ReplicaTier)
    ensures
        upgrade_inv(starting(collection, handles, tier)),
{
}

proof fn lemma_widened(placements: Map<Text, PlacementView>, loaded: Seq<PlacementView>)
    requires
        is_filed(placements),
    ensures
        is_filed(widened(placements, loaded)),
        forall|h: Text| #[trigger]
            placements.contains_key(h) ==> widened(placements, loaded).contains_key(h) && widened(
                placements,
                loaded,
            )[h] == placements[h],
    decreases loaded.len(),
{
    if loaded.len() > 0 {
        lemma_widened(placements, loaded.drop_last());
    }
}

proof fn lemma_link_writes_climb(
    placements: Map<Text, PlacementView>,
    known: Map<Text, Text>,
    handles: Seq<Text>,
)
    requires
        is_filed(placements),
        forall|i: int| 0 <= i < handles.len() ==> placements.contains_key(#[trigger] handles[i]),
    ensures
        only_climbs(placements, link_writes(placements, known, handles)),
    decreases handles.len(),
{
    if handles.len() > 0 {
        let before = handles.drop_last();
        assert forall|i: int| 0 <= i < before.len() implies placements.contains_key(
            #[trigger] before[i],
        ) by {
            assert(before[i] == handles[i]);
        }
        assert(placements.contains_key(handles[handles.len() - 1]));
        lemma_link_writes_climb(placements, known, before);
    }
}

proof fn lemma_applied_climbs(
    tier: ReplicaTier,
    placements: Map<Text, PlacementView>,
    start: Applied,
    items: Seq<FetchedItemView>,
)
    requires
        is_filed(placements),
        only_climbs(placements, start.ops),
    ensures
        only_climbs(placements, applied(tier, placements, start, items).ops),
    decreases items.len(),
{
    if items.len() > 0 {
        lemma_applied_climbs(tier, placements, start, items.drop_last());
    }
}

proof fn lemma_freezes_climb(
    placements: Map<Text, PlacementView>,
    ops: Seq<WriteOpView>,
    lost: Map<Text, Seq<Text>>,
    handles: Seq<Text>,
)
    requires
        is_filed(placements),
        only_climbs(placements, ops),
    ensures
        only_climbs(placements, freezes(placements, ops, lost, handles)),
    decreases handles.len(),
{
    if handles.len() > 0 {
        let before = freezes(placements, ops, lost, handles.drop_last());
        lemma_freezes_climb(placements, ops, lost, handles.drop_last());
        lemma_staged_from(before, handles.last(), 0);
        let after = freezes(placements, ops, lost, handles);
        assert forall|i: int| 0 <= i < after.len() implies (
        #[trigger] after[i] matches WriteOpView::UpsertPlacement(p) ==> placements.contains_key(
            p.handle,
        ) && rung(placements[p.handle].level) <= rung(p.level)) by {
            if i < before.len() {
                assert(before[i] is UpsertPlacement || after[i] == before[i]);
            }
        }
    }
}

proof fn lemma_pending_is_known(
    tier: ReplicaTier,
    placements: Map<Text, PlacementView>,
    handles: Seq<Text>,
)
    ensures
        forall|i: int|
            0 <= i < pending(tier, placements, handles).len() ==> placements.contains_key(
                #[trigger] pending(tier, placements, handles)[i],
            ),
{
    let todo = pending(tier, placements, handles);
    assert forall|i: int| 0 <= i < todo.len() implies placements.contains_key(
        #[trigger] todo[i],
    ) by {
        only_what_needs_work_is_pending(tier, placements, handles, todo[i]);
        assert(todo.contains(todo[i]));
    }
}

/// What is handed over once the fetched items are applied.
proof fn lemma_written_climbs(s: UpgradeView)
    requires
        upgrade_inv(s),
    ensures
        only_climbs(
            s.placements,
            freezes(
                s.placements,
                outcome(s).ops,
                outcome(s).lost,
                ascending(outcome(s).lost.dom()),
            ),
        ),
{
    lemma_applied_climbs(
        s.tier,
        s.placements,
        Applied {
            claimed: holders(s.placements, ascending(s.placements.dom())),
            lost: Map::empty(),
            ops: s.ops,
            raised: 0,
            bodies: 0,
        },
        s.fetched,
    );
    lemma_freezes_climb(
        s.placements,
        outcome(s).ops,
        outcome(s).lost,
        ascending(outcome(s).lost.dom()),
    );
}

/// An upgrade never lowers a level: every step keeps to rows it has loaded,
/// and every row of a batch it hands over stands at the level it was loaded
/// at, or above it.
pub proof fn an_upgrade_never_lowers_a_level(s: UpgradeView, arg: Option<ArgView>)
    requires
        upgrade_inv(s),
        s.phase is PendingLoad ==> s.ops.len() == 0,
    ensures
        ({
            let (t, out) = upgrade_step(s, arg);
            &&& upgrade_inv(t)
            &&& t.phase is PendingLoad ==> t.ops.len() == s.ops.len()
            &&& out matches StepView::Yielded(YieldView::WantsWrite(ops)) ==> only_climbs(
                t.placements,
                ops,
            )
        }),
{
    match (s.phase, arg) {
        (UpgradePhase::PendingLoad, Some(ArgView::Load(loaded))) => {
            a_load_is_filed(loaded.placements);
        },
        (UpgradePhase::PendingLookup, Some(ArgView::LookupObject(known))) => {
            let todo = pending(s.tier, s.placements, s.handles);
            lemma_pending_is_known(s.tier, s.placements, s.handles);
            lemma_link_writes_climb(s.placements, known, todo);
        },
        (UpgradePhase::PendingFetch, Some(ArgView::Fetch(items))) => {
            lemma_written_climbs(UpgradeView { fetched: items, ..s });
        },
        (UpgradePhase::PendingLinkCheck, Some(ArgView::Load(loaded))) => {
            lemma_widened(s.placements, loaded.placements);
            let placements = widened(s.placements, loaded.placements);
            assert forall|i: int| 0 <= i < s.ops.len() implies (
            #[trigger] s.ops[i] matches WriteOpView::UpsertPlacement(p) ==> placements.contains_key(
                p.handle,
            ) && rung(placements[p.handle].level) <= rung(p.level)) by {
                if s.ops[i] is UpsertPlacement {
                    let p = s.ops[i]->UpsertPlacement_0;
                    assert(s.placements.contains_key(p.handle));
                }
            }
            lemma_written_climbs(UpgradeView { placements, ..s });
        },
        _ => {},
    }
}

} // verus!
