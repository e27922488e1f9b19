//! Change events and their replay semantics.
//!
//! Every mutation of the renderable column appends exactly one event to
//! the store's channel.  Replaying a sequence of events over a set of
//! live entity identities tells which entities currently hold a
//! renderable component; the sorted view is maintained so that its
//! members are exactly the replay of the events its cursor has observed.

use vstd::prelude::*;

verus! {

/// One mutation of the renderable column, delivered through the channel
/// once per registered cursor, in the order the mutations occurred.
#[derive(Clone, Copy, Debug, PartialEq, Eq, Structural)]
pub enum ChangeEvent {
    Inserted(u32),
    Modified(u32),
    Removed(u32),
}

/// The set of live identities after one more event.
pub open spec fn apply_event(live: Set<u32>, ev: ChangeEvent) -> Set<u32> {
    match ev {
        ChangeEvent::Inserted(id) => live.insert(id),
        ChangeEvent::Modified(_) => live,
        ChangeEvent::Removed(id) => live.remove(id),
    }
}

/// The set of live identities after a batch of events, starting from `base`.
pub open spec fn apply_events(base: Set<u32>, events: Seq<ChangeEvent>) -> Set<u32>
    decreases events.len(),
{
    if events.len() == 0 {
        base
    } else {
        apply_event(apply_events(base, events.drop_last()), events.last())
    }
}

/// The set of identities holding a renderable component after the whole
/// history of events, starting from an empty store.
pub open spec fn live_after(events: Seq<ChangeEvent>) -> Set<u32> {
    apply_events(Set::empty(), events)
}

/// An event is well-placed over the live set it is emitted from:
/// an insertion concerns an absent identity, a modification or removal a
/// present one.
pub open spec fn event_ok(live: Set<u32>, ev: ChangeEvent) -> bool {
    match ev {
        ChangeEvent::Inserted(id) => !live.contains(id),
        ChangeEvent::Modified(id) => live.contains(id),
        ChangeEvent::Removed(id) => live.contains(id),
    }
}

/// A history is coherent when every event was well-placed at the moment
/// it was emitted.  The store only emits well-placed events, so its
/// channel is always coherent.
pub open spec fn coherent(events: Seq<ChangeEvent>) -> bool {
    forall|i: int|
        0 <= i < events.len() ==> event_ok(live_after(events.take(i)), #[trigger] events[i])
}

/// The identities whose net effect over a batch is an insertion: the
/// last insert/remove event for each of them is an insertion.
pub open spec fn net_inserted(batch: Seq<ChangeEvent>) -> Set<u32>
    decreases batch.len(),
{
    if batch.len() == 0 {
        Set::empty()
    } else {
        let prev = net_inserted(batch.drop_last());
        match batch.last() {
            ChangeEvent::Inserted(id) => prev.insert(id),
            ChangeEvent::Modified(_) => prev,
            ChangeEvent::Removed(id) => prev.remove(id),
        }
    }
}

/// The identities a batch removes at least once.  Removing them from the
/// previous view before appending the net insertions reproduces the
/// replay of the batch.
pub open spec fn removed_set(batch: Seq<ChangeEvent>) -> Set<u32>
    decreases batch.len(),
{
    if batch.len() == 0 {
        Set::empty()
    } else {
        let prev = removed_set(batch.drop_last());
        match batch.last() {
            ChangeEvent::Removed(id) => prev.insert(id),
            _ => prev,
        }
    }
}

/// Whether a batch contains an order-affecting event (an insertion or a
/// modification).  Only such a batch makes the view re-sort.
pub open spec fn has_order_event(batch: Seq<ChangeEvent>) -> bool {
    exists|i: int|
        0 <= i < batch.len() && (#[trigger] batch[i] matches ChangeEvent::Inserted(_)
            || batch[i] matches ChangeEvent::Modified(_))
}

/// Replay distributes over concatenation of histories.
pub proof fn lemma_apply_events_add(base: Set<u32>, a: Seq<ChangeEvent>, b: Seq<ChangeEvent>)
    ensures
        apply_events(base, a + b) == apply_events(apply_events(base, a), b),
    decreases b.len(),
{
    if b.len() == 0 {
        assert(a + b =~= a);
    } else {
        lemma_apply_events_add(base, a, b.drop_last());
        assert((a + b).drop_last() =~= a + b.drop_last());
        assert((a + b).last() == b.last());
    }
}

/// Replaying a batch is the same as removing its removed identities and
/// adding its net-inserted ones.
pub proof fn lemma_apply_events_as_sets(base: Set<u32>, batch: Seq<ChangeEvent>)
    ensures
        apply_events(base, batch) == base.difference(removed_set(batch)).union(
            net_inserted(batch),
        ),
    decreases batch.len(),
{
    if batch.len() == 0 {
        assert(apply_events(base, batch) =~= base.difference(removed_set(batch)).union(
            net_inserted(batch),
        ));
    } else {
        lemma_apply_events_as_sets(base, batch.drop_last());
        assert(apply_events(base, batch) =~= base.difference(removed_set(batch)).union(
            net_inserted(batch),
        ));
    }
}

/// A batch of removals alone inserts nothing.
pub proof fn lemma_no_order_event_nothing_inserted(batch: Seq<ChangeEvent>)
    requires
        !has_order_event(batch),
    ensures
        net_inserted(batch) == Set::<u32>::empty(),
    decreases batch.len(),
{
    if batch.len() > 0 {
        assert(!has_order_event(batch.drop_last())) by {
            assert(forall|i: int|
                0 <= i < batch.len() - 1 ==> batch.drop_last()[i] == #[trigger] batch[i]);
        }
        lemma_no_order_event_nothing_inserted(batch.drop_last());
        assert(batch.last() == batch[batch.len() - 1]);
        assert(net_inserted(batch) =~= Set::<u32>::empty());
    } else {
        assert(net_inserted(batch) =~= Set::<u32>::empty());
    }
}

/// Over a coherent history, an identity whose net effect in a batch is an
/// insertion was absent just before the batch, or the batch removed it
/// first.  Appending the batch's net insertions to a view purged of its
/// removals therefore introduces no duplicate.
pub proof fn lemma_net_inserted_fresh(events: Seq<ChangeEvent>, c: int, k: int)
    requires
        coherent(events),
        0 <= c <= k <= events.len(),
    ensures
        forall|id: u32|
            #[trigger] net_inserted(events.subrange(c, k)).contains(id) ==> !live_after(
                events.take(c),
            ).difference(removed_set(events.subrange(c, k))).contains(id),
    decreases k - c,
{
    let base = live_after(events.take(c));
    if k == c {
        assert(events.subrange(c, k) =~= Seq::<ChangeEvent>::empty());
    } else {
        lemma_net_inserted_fresh(events, c, k - 1);
        let shorter = events.subrange(c, k - 1);
        let batch = events.subrange(c, k);
        let ev = events[k - 1];
        assert(batch =~= shorter.push(ev));
        assert(batch.drop_last() =~= shorter);
        assert(event_ok(live_after(events.take(k - 1)), ev));
        assert(events.take(k - 1) =~= events.take(c) + shorter);
        lemma_apply_events_add(Set::empty(), events.take(c), shorter);
        lemma_apply_events_as_sets(base, shorter);
        assert(live_after(events.take(k - 1)) == base.difference(removed_set(shorter)).union(
            net_inserted(shorter),
        ));
        assert forall|id: u32| #[trigger] net_inserted(batch).contains(id) implies !base.difference(
            removed_set(batch),
        ).contains(id) by {
            match ev {
                ChangeEvent::Inserted(e) => {
                    assert(removed_set(batch) == removed_set(shorter));
                    if id != e {
                        assert(net_inserted(shorter).contains(id));
                    }
                },
                ChangeEvent::Modified(_) => {
                    assert(net_inserted(batch) == net_inserted(shorter));
                    assert(removed_set(batch) == removed_set(shorter));
                },
                ChangeEvent::Removed(e) => {
                    assert(net_inserted(shorter).contains(id) && id != e);
                    assert(removed_set(batch) == removed_set(shorter).insert(e));
                },
            }
        }
    }
}

/// Once an identity is removed, it stays absent through any later events
/// that do not insert it again.  In particular, inserting an entity and
/// then removing it within one batch leaves it absent from the replayed
/// view, with no stale entry.
pub proof fn lemma_removed_stays_absent(
    base: Set<u32>,
    before: Seq<ChangeEvent>,
    after: Seq<ChangeEvent>,
    id: u32,
)
    requires
        forall|i: int| 0 <= i < after.len() ==> #[trigger] after[i] != ChangeEvent::Inserted(id),
    ensures
        !apply_events(base, before.push(ChangeEvent::Removed(id)) + after).contains(id),
    decreases after.len(),
{
    let whole = before.push(ChangeEvent::Removed(id)) + after;
    if after.len() == 0 {
        assert(whole =~= before.push(ChangeEvent::Removed(id)));
        assert(whole.drop_last() =~= before);
    } else {
        let shorter = after.drop_last();
        assert(forall|i: int|
            0 <= i < shorter.len() ==> #[trigger] shorter[i] == after[i]);
        lemma_removed_stays_absent(base, before, shorter, id);
        assert(whole.drop_last() =~= before.push(ChangeEvent::Removed(id)) + shorter);
        assert(whole.last() == after.last());
        assert(after.last() != ChangeEvent::Inserted(id));
    }
}

} // verus!
