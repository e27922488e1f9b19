//! The render system: a resumable cursor into the store's change
//! channel, the per-frame dirty sets, the incrementally maintained
//! z-sorted view, and the per-frame pipeline.
//!
//! Once per frame the system drains the events its cursor has not yet
//! observed, removes deleted entities from the view, appends inserted
//! ones, re-sorts only when an order-affecting event occurred, and hands
//! the view to the draw dispatcher.

use vstd::prelude::*;
use vstd::seq_lib::lemma_no_dup_in_concat;
use vstd::seq_lib::seq_to_set_distributes_over_add;

use crate::dispatch::{dispatch, dispatch_spec};
use crate::events::{
    has_order_event, lemma_apply_events_add, lemma_apply_events_as_sets, lemma_net_inserted_fresh,
    lemma_no_order_event_nothing_inserted, live_after, net_inserted, removed_set, ChangeEvent,
};
use crate::fps::{fps_overlay, fps_overlay_spec};
use crate::store::{positions_cover, Store, StoreView};
use crate::types::{
    background_color, spec_background_color, texts_view, DrawEnv, FontType, Frame, Position,
    RenderError, SpriteDraw, TextDrawV,
};

verus! {

broadcast use vstd::seq_lib::group_filter_ensures, vstd::seq_lib::group_to_multiset_ensures;

/// The survivor predicate of a batch: whether an identity is not among
/// the batch's removals.
pub open spec fn survives(removed: Set<u32>) -> spec_fn(u32) -> bool {
    |y: u32| !removed.contains(y)
}

/// The predicate that keeps everything but one value.
spec fn ne_pred(x: u32) -> spec_fn(u32) -> bool {
    |y: u32| y != x
}

/// An identity sequence is ordered by the z key of the positions its
/// entities hold.
pub open spec fn sorted_by_z(ids: Seq<u32>, positions: Map<u32, Position>) -> bool {
    forall|p: int, q: int|
        0 <= p < q < ids.len() ==> positions[#[trigger] ids[p]].z <= positions[#[trigger] ids[q]].z
}

/// The render system.
#[derive(Debug)]
pub struct RenderSystem {
    // Where this reader left off in the store's event channel.
    reader_cursor: usize,
    sorted_entities: Vec<u32>,
    dirty_sort: bool,
    show_fps: bool,
    inserted: Vec<u32>,
    deleted: Vec<u32>,
}

impl RenderSystem {
    /// The maintained view: the z-ordered entity identities.
    pub closed spec fn view_seq(&self) -> Seq<u32> {
        self.sorted_entities@
    }

    /// The channel position this system's reader cursor has reached.
    pub closed spec fn cursor_at(&self) -> nat {
        self.reader_cursor as nat
    }

    /// Whether an order-affecting event is pending, so that the next
    /// frame re-sorts the view.
    pub closed spec fn needs_sort(&self) -> bool {
        self.dirty_sort
    }

    /// Whether the diagnostics overlay is drawn.
    pub closed spec fn fps_shown(&self) -> bool {
        self.show_fps
    }

    /// The events of a store's channel this cursor has not observed yet.
    pub open spec fn pending_batch(&self, s: StoreView) -> Seq<ChangeEvent> {
        s.events.skip(self.cursor_at() as int)
    }

    /// The system's invariant against a store: the cursor is a valid
    /// channel position, and the view holds exactly the replay of the
    /// observed prefix of the channel, without duplicates.
    pub open spec fn inv(&self, s: StoreView) -> bool {
        &&& self.cursor_at() <= s.events.len()
        &&& self.view_seq().no_duplicates()
        &&& self.view_seq().to_set() == live_after(s.events.take(self.cursor_at() as int))
    }

    /// A fresh system against a store: an empty view, a cursor that has
    /// observed nothing yet, a pending first sort, and the overlay on.
    pub fn new(store: &Store) -> (sys: RenderSystem)
        ensures
            sys.inv(store@),
            sys.view_seq() == Seq::<u32>::empty(),
            sys.cursor_at() == 0,
            sys.needs_sort() == true,
            sys.fps_shown() == true,
    {
        let sys = RenderSystem {
            reader_cursor: 0,
            sorted_entities: Vec::new(),
            dirty_sort: true,
            show_fps: true,
            inserted: Vec::new(),
            deleted: Vec::new(),
        };
        proof {
            assert(store@.events.take(0) =~= Seq::<ChangeEvent>::empty());
            assert(sys.view_seq().to_set() =~= live_after(store@.events.take(0)));
        }
        sys
    }

    /// Turns the diagnostics overlay on or off.
    pub fn set_show_fps(&mut self, show: bool)
        ensures
            final(self).fps_shown() == show,
            final(self).view_seq() == old(self).view_seq(),
            final(self).cursor_at() == old(self).cursor_at(),
            final(self).needs_sort() == old(self).needs_sort(),
    {
        self.show_fps = show;
    }

    /// The maintained view, for inspection.
    pub fn entities(&self) -> (ids: &Vec<u32>)
        ensures
            ids@ == self.view_seq(),
    {
        &self.sorted_entities
    }

    /// One frame's view maintenance.  Drains the events the cursor has
    /// not yet observed, exactly once each; removes the batch's deleted
    /// entities from the view in order; appends its net insertions at
    /// the tail; and re-sorts by z only when an order-affecting event
    /// was pending or arrived.  Afterwards the view holds exactly the
    /// entities currently carrying a renderable component.
    fn sort_entities(&mut self, store: &Store)
        requires
            old(self).inv(store@),
            store.wf(),
            positions_cover(store@),
        ensures
            final(self).inv(store@),
            final(self).cursor_at() == store@.events.len(),
            final(self).needs_sort() == false,
            final(self).fps_shown() == old(self).fps_shown(),
            final(self).view_seq().no_duplicates(),
            final(self).view_seq().to_set() == store@.renderables.dom(),
            (old(self).needs_sort() || has_order_event(old(self).pending_batch(store@)))
                ==> sorted_by_z(final(self).view_seq(), store@.positions),
            (!old(self).needs_sort() && !has_order_event(old(self).pending_batch(store@)))
                ==> final(self).view_seq() == old(self).view_seq().filter(
                survives(removed_set(old(self).pending_batch(store@))),
            ),
            (old(self).cursor_at() == store@.events.len() && !old(self).needs_sort())
                ==> final(self).view_seq() == old(self).view_seq(),
    {
        let ghost c0 = old(self).cursor_at() as int;
        let ghost batch = old(self).pending_batch(store@);

        self.inserted.clear();
        self.deleted.clear();

        let n = store.event_count();
        proof {
            assert(store@.events.subrange(c0, c0) =~= Seq::<ChangeEvent>::empty());
            assert(self.inserted@.to_set() =~= net_inserted(store@.events.subrange(c0, c0)));
            assert(self.deleted@.to_set() =~= removed_set(store@.events.subrange(c0, c0)));
        }
        while self.reader_cursor < n
            invariant
                store.wf(),
                n == store@.events.len(),
                old(self).cursor_at() as int <= self.reader_cursor as int <= n as int,
                self.sorted_entities@ == old(self).sorted_entities@,
                self.show_fps == old(self).show_fps,
                self.inserted@.no_duplicates(),
                self.inserted@.to_set() == net_inserted(
                    store@.events.subrange(old(self).cursor_at() as int, self.reader_cursor as int),
                ),
                self.deleted@.to_set() == removed_set(
                    store@.events.subrange(old(self).cursor_at() as int, self.reader_cursor as int),
                ),
                self.dirty_sort == (old(self).dirty_sort || has_order_event(
                    store@.events.subrange(old(self).cursor_at() as int, self.reader_cursor as int),
                )),
            decreases n - self.reader_cursor,
        {
            let ghost prefix = store@.events.subrange(
                old(self).cursor_at() as int,
                self.reader_cursor as int,
            );
            let ev = store.event_at(self.reader_cursor);
            proof {
                assert(store@.events.subrange(
                    old(self).cursor_at() as int,
                    self.reader_cursor + 1,
                ) =~= prefix.push(ev));
                assert(prefix.push(ev).drop_last() =~= prefix);
                assert(prefix.push(ev)[prefix.len() as int] == ev);
                assert(forall|i: int| 0 <= i < prefix.len() ==> prefix.push(ev)[i] == #[trigger] prefix[i]);
            }
            match ev {
                ChangeEvent::Modified(_) => {
                    self.dirty_sort = true;
                },
                ChangeEvent::Inserted(id) => {
                    if !vec_contains(&self.inserted, id) {
                        proof {
                            self.inserted@.lemma_push_to_set_commute(id);
                        }
                        self.inserted.push(id);
                    } else {
                        proof {
                            assert(net_inserted(prefix.push(ev)) =~= net_inserted(prefix).insert(
                                id,
                            ));
                        }
                    }
                    self.dirty_sort = true;
                },
                ChangeEvent::Removed(id) => {
                    if !vec_contains(&self.deleted, id) {
                        proof {
                            self.deleted@.lemma_push_to_set_commute(id);
                        }
                        self.deleted.push(id);
                    } else {
                        proof {
                            assert(removed_set(prefix.push(ev)) =~= removed_set(prefix).insert(
                                id,
                            ));
                        }
                    }
                    vec_remove_value(&mut self.inserted, id);
                    proof {
                        assert(!has_order_event(prefix.push(ev)) == !has_order_event(prefix)) by {
                            if has_order_event(prefix) {
                                let w = choose|i: int|
                                    0 <= i < prefix.len() && (#[trigger] prefix[i]
                                        matches ChangeEvent::Inserted(_) || prefix[i]
                                        matches ChangeEvent::Modified(_));
                                assert(prefix.push(ev)[w] == prefix[w]);
                            }
                            if has_order_event(prefix.push(ev)) {
                                let w = choose|i: int|
                                    0 <= i < prefix.push(ev).len() && (#[trigger] prefix.push(
                                        ev,
                                    )[i] matches ChangeEvent::Inserted(_) || prefix.push(ev)[i]
                                        matches ChangeEvent::Modified(_));
                                assert(w < prefix.len());
                            }
                        }
                    }
                },
            }
            self.reader_cursor = self.reader_cursor + 1;
        }
        proof {
            assert(store@.events.subrange(c0, n as int) =~= batch);
        }

        // Remove the batch's deleted entities, keeping survivor order.
        let mut kept: Vec<u32> = Vec::new();
        let len0 = self.sorted_entities.len();
        proof {
            assert(old(self).sorted_entities@.take(0) =~= Seq::<u32>::empty());
            assert(kept@ =~= old(self).sorted_entities@.take(0).filter(
                survives(removed_set(old(self).pending_batch(store@))),
            ));
        }
        for i in 0..len0
            invariant
                len0 == self.sorted_entities@.len(),
                self.sorted_entities@ == old(self).sorted_entities@,
                old(self).sorted_entities@.no_duplicates(),
                self.show_fps == old(self).show_fps,
                self.reader_cursor as int == store@.events.len(),
                self.inserted@.no_duplicates(),
                self.inserted@.to_set() == net_inserted(old(self).pending_batch(store@)),
                self.deleted@.to_set() == removed_set(old(self).pending_batch(store@)),
                self.dirty_sort == (old(self).dirty_sort || has_order_event(
                    old(self).pending_batch(store@),
                )),
                kept@ == old(self).sorted_entities@.take(i as int).filter(
                    survives(removed_set(old(self).pending_batch(store@))),
                ),
                kept@.no_duplicates(),
        {
            let ghost keep = survives(removed_set(old(self).pending_batch(store@)));
            let ghost seen = old(self).sorted_entities@.take(i as int);
            let id = self.sorted_entities[i];
            proof {
                assert(old(self).sorted_entities@.take(i + 1) =~= seen.push(id));
                seen.lemma_filter_push(id, keep);
            }
            if !vec_contains(&self.deleted, id) {
                proof {
                    assert(keep(id));
                    if kept@.contains(id) {
                        seen.lemma_filter_contains_rev(keep, id);
                        let j = choose|j: int| 0 <= j < seen.len() && seen[j] == id;
                        assert(old(self).sorted_entities@[j] == old(self).sorted_entities@[
                            i as int
                        ]);
                        assert(false);
                    }
                }
                kept.push(id);
            } else {
                proof {
                    assert(!keep(id));
                }
            }
            proof {
                assert(kept@ == old(self).sorted_entities@.take(i + 1).filter(keep));
            }
        }
        proof {
            assert(old(self).sorted_entities@.take(len0 as int) =~= old(self).sorted_entities@);
        }
        self.sorted_entities = kept;

        // Append the batch's net insertions at the tail.
        let ghost kept_seq = self.sorted_entities@;
        let ghost ins_seq = self.inserted@;
        let m = self.inserted.len();
        proof {
            assert(ins_seq.take(0) =~= Seq::<u32>::empty());
            assert(self.sorted_entities@ =~= kept_seq + ins_seq.take(0));
        }
        for j in 0..m
            invariant
                m == self.inserted@.len(),
                self.inserted@ == ins_seq,
                self.show_fps == old(self).show_fps,
                self.reader_cursor as int == store@.events.len(),
                self.dirty_sort == (old(self).dirty_sort || has_order_event(
                    old(self).pending_batch(store@),
                )),
                self.sorted_entities@ == kept_seq + ins_seq.take(j as int),
        {
            let id = self.inserted[j];
            self.sorted_entities.push(id);
            proof {
                assert(ins_seq.take(j + 1) =~= ins_seq.take(j as int).push(id));
                assert(self.sorted_entities@ =~= kept_seq + ins_seq.take(j + 1));
            }
        }
        proof {
            assert(ins_seq.take(m as int) =~= ins_seq);
            assert(self.sorted_entities@ == kept_seq + ins_seq);
        }

        let ghost base = old(self).sorted_entities@.to_set();
        let ghost keep = survives(removed_set(batch));
        proof {
            // The survivors are the base minus the batch's removals.
            assert forall|y: u32| kept_seq.contains(y) implies base.contains(y) && !removed_set(
                batch,
            ).contains(y) by {
                old(self).sorted_entities@.lemma_filter_contains_rev(keep, y);
                let j = choose|j: int| 0 <= j < kept_seq.len() && kept_seq[j] == y;
                assert(keep(kept_seq[j]));
            }
            assert forall|y: u32|
                base.contains(y) && !removed_set(batch).contains(y) implies kept_seq.contains(
                y,
            ) by {
                let j = choose|j: int|
                    0 <= j < old(self).sorted_entities@.len() && old(self).sorted_entities@[j]
                        == y;
                old(self).sorted_entities@.lemma_filter_contains(keep, j);
            }
            assert(kept_seq.to_set() =~= base.difference(removed_set(batch)));

            // The appended insertions are disjoint from the survivors.
            lemma_net_inserted_fresh(store@.events, c0, store@.events.len() as int);
            assert(base == live_after(store@.events.take(c0)));
            assert forall|p: int, q: int|
                0 <= p < kept_seq.len() && 0 <= q < ins_seq.len() implies kept_seq[p]
                != ins_seq[q] by {
                assert(kept_seq.contains(kept_seq[p]));
                assert(ins_seq.contains(ins_seq[q]));
                assert(net_inserted(batch).contains(ins_seq[q]));
            }
            lemma_no_dup_in_concat(kept_seq, ins_seq);

            // The new view is the replay of the whole channel.
            seq_to_set_distributes_over_add(kept_seq, ins_seq);
            lemma_apply_events_as_sets(base, batch);
            lemma_apply_events_add(Set::empty(), store@.events.take(c0), batch);
            assert(store@.events.take(c0) + batch =~= store@.events);
            assert(self.sorted_entities@.to_set() =~= live_after(store@.events));
            assert(store@.events.take(store@.events.len() as int) =~= store@.events);
        }

        if self.dirty_sort {
            proof {
                assert forall|k: int|
                    0 <= k < self.sorted_entities@.len() implies store@.positions.dom().contains(
                    #[trigger] self.sorted_entities@[k],
                ) by {
                    assert(self.sorted_entities@.contains(self.sorted_entities@[k]));
                    assert(store@.renderables.dom().contains(self.sorted_entities@[k]));
                }
            }
            let ghost pre_sort = self.sorted_entities@;
            sort_by_z(&mut self.sorted_entities, store);
            proof {
                assert forall|y: u32|
                    self.sorted_entities@.contains(y) == pre_sort.contains(y) by {
                    assert(self.sorted_entities@.to_multiset().count(y) == pre_sort.to_multiset()
                        .count(y));
                }
                assert(self.sorted_entities@.to_set() =~= pre_sort.to_set());
                pre_sort.lemma_multiset_has_no_duplicates();
                self.sorted_entities@.lemma_multiset_has_no_duplicates_conv();
            }
            self.dirty_sort = false;
        } else {
            proof {
                lemma_no_order_event_nothing_inserted(batch);
                assert(ins_seq.len() == 0) by {
                    if ins_seq.len() > 0 {
                        assert(ins_seq.contains(ins_seq[0]));
                        assert(net_inserted(batch).contains(ins_seq[0]));
                    }
                }
                assert(self.sorted_entities@ =~= kept_seq);
            }
        }

        proof {
            if old(self).cursor_at() == store@.events.len() && !old(self).needs_sort() {
                assert(batch =~= Seq::<ChangeEvent>::empty());
                assert forall|i: int|
                    0 <= i < old(self).sorted_entities@.len() implies keep(
                    #[trigger] old(self).sorted_entities@[i],
                ) by {
                    assert(removed_set(batch) =~= Set::<u32>::empty());
                }
                lemma_filter_all_true(old(self).sorted_entities@, keep);
            }
        }
    }

    /// One frame: maintain the view, then dispatch it into draw
    /// commands — clear color, sprites in z order, and the queued text
    /// batch, with the diagnostics overlay (when shown) queued last.
    /// The frame rate arrives as tenths of a frame per second.  A
    /// missing font aborts the frame's draw pass with the error.
    pub fn run(&mut self, store: &Store, env: &DrawEnv, fps_tenths: u32) -> (r: Result<
        Frame,
        RenderError,
    >)
        requires
            old(self).inv(store@),
            store.wf(),
            positions_cover(store@),
        ensures
            final(self).inv(store@),
            final(self).cursor_at() == store@.events.len(),
            final(self).needs_sort() == false,
            final(self).fps_shown() == old(self).fps_shown(),
            final(self).view_seq().no_duplicates(),
            final(self).view_seq().to_set() == store@.renderables.dom(),
            (old(self).needs_sort() || has_order_event(old(self).pending_batch(store@)))
                ==> sorted_by_z(final(self).view_seq(), store@.positions),
            (!old(self).needs_sort() && !has_order_event(old(self).pending_batch(store@)))
                ==> final(self).view_seq() == old(self).view_seq().filter(
                survives(removed_set(old(self).pending_batch(store@))),
            ),
            (old(self).cursor_at() == store@.events.len() && !old(self).needs_sort())
                ==> final(self).view_seq() == old(self).view_seq(),
            match r {
                Ok(frame) => {
                    &&& frame.clear_color == spec_background_color()
                    &&& if old(self).fps_shown() {
                        &&& env.fonts.retro is Some
                        &&& texts_view(frame.texts@).len() >= 1
                        &&& dispatch_spec(final(self).view_seq(), store@, env.fonts) == Ok::<
                            (Seq<SpriteDraw>, Seq<TextDrawV>),
                            RenderError,
                        >((frame.sprites@, texts_view(frame.texts@).drop_last()))
                        &&& texts_view(frame.texts@).last() == fps_overlay_spec(
                            fps_tenths as nat,
                            env.fonts.retro.unwrap(),
                        )
                    } else {
                        dispatch_spec(final(self).view_seq(), store@, env.fonts) == Ok::<
                            (Seq<SpriteDraw>, Seq<TextDrawV>),
                            RenderError,
                        >((frame.sprites@, texts_view(frame.texts@)))
                    }
                },
                Err(e) => {
                    ||| dispatch_spec(final(self).view_seq(), store@, env.fonts) == Err::<
                        (Seq<SpriteDraw>, Seq<TextDrawV>),
                        RenderError,
                    >(e)
                    ||| {
                        &&& dispatch_spec(final(self).view_seq(), store@, env.fonts) is Ok
                        &&& old(self).fps_shown()
                        &&& env.fonts.retro is None
                        &&& e == RenderError::FontMissing(FontType::Retro)
                    }
                },
            },
    {
        self.sort_entities(store);
        let bg = background_color();
        proof {
            assert forall|k: int|
                0 <= k < self.sorted_entities@.len() implies store@.renderables.dom().contains(
                #[trigger] self.sorted_entities@[k],
            ) && store@.positions.dom().contains(self.sorted_entities@[k]) by {
                assert(self.sorted_entities@.contains(self.sorted_entities@[k]));
            }
        }
        match dispatch(&self.sorted_entities, store, &env.fonts) {
            Err(e) => Err(e),
            Ok((sprites, mut texts)) => {
                if self.show_fps {
                    match env.fonts.retro {
                        Some(f) => {
                            let ghost before = texts@;
                            texts.push(fps_overlay(fps_tenths, f));
                            proof {
                                assert(texts_view(texts@) =~= texts_view(before).push(
                                    fps_overlay_spec(fps_tenths as nat, f),
                                ));
                                assert(texts_view(texts@).drop_last() =~= texts_view(before));
                            }
                        },
                        None => {
                            return Err(RenderError::FontMissing(FontType::Retro));
                        },
                    }
                }
                Ok(Frame { clear_color: bg, sprites, texts })
            },
        }
    }
}

/// A cursor's invariant depends only on the channel prefix it has
/// observed, so mutating the store further keeps it intact: the cursor
/// resumes where it left off.
pub proof fn lemma_inv_stable(sys: RenderSystem, s1: StoreView, s2: StoreView)
    requires
        sys.inv(s1),
        s1.events.len() <= s2.events.len(),
        s2.events.take(s1.events.len() as int) == s1.events,
    ensures
        sys.inv(s2),
{
    assert(s2.events.take(sys.cursor_at() as int) =~= s1.events.take(sys.cursor_at() as int));
}

/// Events are delivered exactly once per cursor: the store's mutators
/// append exactly one event per mutation (their contracts say which),
/// and a cursor that has observed the whole channel has nothing left
/// pending — draining again without new mutations processes an empty
/// batch and, by [`RenderSystem::run`]'s contract, leaves the view
/// untouched.
pub proof fn lemma_exactly_once_drained(sys: RenderSystem, s: StoreView)
    requires
        sys.cursor_at() == s.events.len(),
    ensures
        sys.pending_batch(s) == Seq::<ChangeEvent>::empty(),
{
    assert(sys.pending_batch(s) =~= Seq::<ChangeEvent>::empty());
}

/// Whether a vector contains a value.
fn vec_contains(v: &Vec<u32>, x: u32) -> (b: bool)
    ensures
        b == v@.contains(x),
{
    let n = v.len();
    for k in 0..n
        invariant
            n == v@.len(),
            forall|m: int| 0 <= m < k ==> v@[m] != x,
    {
        if v[k] == x {
            return true;
        }
    }
    false
}

/// Removes every occurrence of a value from a duplicate-free vector.
fn vec_remove_value(v: &mut Vec<u32>, x: u32)
    requires
        old(v)@.no_duplicates(),
    ensures
        final(v)@.no_duplicates(),
        final(v)@.to_set() == old(v)@.to_set().remove(x),
{
    let mut out: Vec<u32> = Vec::new();
    let n = v.len();
    proof {
        assert(v@.take(0) =~= Seq::<u32>::empty());
        assert(out@ =~= v@.take(0).filter(ne_pred(x)));
    }
    for i in 0..n
        invariant
            n == v@.len(),
            v@.no_duplicates(),
            out@ == v@.take(i as int).filter(ne_pred(x)),
            out@.no_duplicates(),
    {
        let id = v[i];
        proof {
            assert(v@.take(i + 1) =~= v@.take(i as int).push(v@[i as int]));
            v@.take(i as int).lemma_filter_push(v@[i as int], ne_pred(x));
        }
        if id != x {
            proof {
                if out@.contains(id) {
                    v@.take(i as int).lemma_filter_contains_rev(ne_pred(x), id);
                    let j = choose|j: int|
                        0 <= j < v@.take(i as int).len() && v@.take(i as int)[j] == id;
                    assert(v@[j] == v@[i as int]);
                    assert(false);
                }
            }
            out.push(id);
        }
        proof {
            assert(out@ == v@.take(i + 1).filter(ne_pred(x)));
        }
    }
    proof {
        assert(v@.take(n as int) =~= v@);
        assert forall|y: u32| out@.contains(y) implies v@.contains(y) && y != x by {
            v@.lemma_filter_contains_rev(ne_pred(x), y);
            let j = choose|j: int| 0 <= j < out@.len() && out@[j] == y;
            assert(ne_pred(x)(out@[j]));
        }
        assert forall|y: u32| v@.contains(y) && y != x implies out@.contains(y) by {
            let j = choose|j: int| 0 <= j < v@.len() && v@[j] == y;
            v@.lemma_filter_contains(ne_pred(x), j);
        }
        assert(out@.to_set() =~= v@.to_set().remove(x));
    }
    *v = out;
}

/// Filtering with a predicate every element meets is the identity.
proof fn lemma_filter_all_true(s: Seq<u32>, pred: spec_fn(u32) -> bool)
    requires
        forall|i: int| 0 <= i < s.len() ==> pred(#[trigger] s[i]),
    ensures
        s.filter(pred) == s,
    decreases s.len(),
{
    if s.len() == 0 {
        assert(s.filter(pred) =~= s);
    } else {
        lemma_filter_all_true(s.drop_last(), pred);
        s.drop_last().lemma_filter_push(s.last(), pred);
        assert(s.drop_last().push(s.last()) =~= s);
    }
}

/// Sorts the identities ascending by the z key of their positions.
/// Insertion sort: adjacent equal keys are never exchanged, so the
/// relative order of equal-z survivors is kept.
fn sort_by_z(v: &mut Vec<u32>, store: &Store)
    requires
        forall|k: int|
            0 <= k < old(v)@.len() ==> store@.positions.dom().contains(#[trigger] old(v)@[k]),
    ensures
        final(v)@.to_multiset() == old(v)@.to_multiset(),
        sorted_by_z(final(v)@, store@.positions),
{
    let ghost m = store@.positions;
    let n = v.len();
    if n == 0 {
        return;
    }
    for i in 1..n
        invariant
            n == v@.len(),
            v@.to_multiset() == old(v)@.to_multiset(),
            forall|k: int| 0 <= k < v@.len() ==> m.dom().contains(#[trigger] v@[k]),
            m == store@.positions,
            sorted_by_z(v@.take(i as int), m),
    {
        let mut j: usize = i;
        proof {
            assert forall|p: int, q: int| 0 <= p < q <= i && q != j implies m[#[trigger] v@[p]].z
                <= m[#[trigger] v@[q]].z by {
                assert(v@.take(i as int)[p] == v@[p]);
                assert(v@.take(i as int)[q] == v@[q]);
            }
        }
        loop
            invariant
                0 < i < n,
                0 <= j <= i,
                n == v@.len(),
                v@.to_multiset() == old(v)@.to_multiset(),
                forall|k: int| 0 <= k < v@.len() ==> m.dom().contains(#[trigger] v@[k]),
                m == store@.positions,
                forall|p: int, q: int|
                    0 <= p < q <= i && q != j ==> m[#[trigger] v@[p]].z <= m[#[trigger] v@[q]].z,
                forall|p: int| j < p <= i ==> m[v@[j as int]].z <= m[#[trigger] v@[p]].z,
            ensures
                n == v@.len(),
                v@.to_multiset() == old(v)@.to_multiset(),
                forall|k: int| 0 <= k < v@.len() ==> m.dom().contains(#[trigger] v@[k]),
                0 <= j <= i,
                forall|p: int, q: int|
                    0 <= p < q <= i && q != j ==> m[#[trigger] v@[p]].z <= m[#[trigger] v@[q]].z,
                forall|p: int| j < p <= i ==> m[v@[j as int]].z <= m[#[trigger] v@[p]].z,
                j == 0 || m[v@[j - 1]].z <= m[v@[j as int]].z,
            decreases j,
        {
            if j == 0 {
                break;
            }
            let a = v[j - 1];
            let b = v[j];
            let pa = *store.get_position(a).unwrap();
            let pb = *store.get_position(b).unwrap();
            if pa.z <= pb.z {
                break;
            }
            let ghost before = v@;
            v[j - 1] = b;
            v[j] = a;
            proof {
                assert(v@ =~= before.update(j - 1, b).update(j as int, a));
                assert(before.contains(a) && before.contains(b));
                assert(v@.to_multiset() =~= before.to_multiset()) by {
                    vstd::seq_lib::to_multiset_update(before, j - 1, b);
                    vstd::seq_lib::to_multiset_update(before.update(j - 1, b), j as int, a);
                    broadcast use vstd::multiset::group_multiset_axioms;

                    assert(before.update(j - 1, b)[j as int] == b);
                    assert(before.to_multiset().count(a) > 0);
                    assert(before.update(j - 1, b).to_multiset() =~= before.to_multiset().remove(
                        a,
                    ).insert(b));
                }
            }
            j = j - 1;
        }
        proof {
            assert forall|p: int, q: int|
                0 <= p < q < v@.take(i + 1).len() implies m[#[trigger] v@.take(i + 1)[p]].z
                <= m[#[trigger] v@.take(i + 1)[q]].z by {
                assert(v@.take(i + 1)[p] == v@[p] && v@.take(i + 1)[q] == v@[q]);
                if q == j && j > 0 {
                    if p < j - 1 {
                        assert(m[v@[p]].z <= m[v@[j - 1]].z);
                    }
                    assert(m[v@[j - 1]].z <= m[v@[j as int]].z);
                }
            }
        }
    }
    proof {
        assert(v@.take(n as int) =~= v@);
    }
}

} // verus!
