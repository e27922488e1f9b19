//! The entity store: one column per component kind, plus the change
//! channel of the renderable column.
//!
//! Columns are keyed by entity identity.  Only mutations of the
//! renderable column emit change events, and each mutation appends
//! exactly one event to the channel, so a reader cursor observes every
//! mutation exactly once.  The store keeps itself coherent: its
//! renderable column always equals the replay of its whole channel.

use std::collections::HashMap;
use vstd::prelude::*;

use crate::events::{coherent, event_ok, live_after, ChangeEvent};
use crate::types::{Image, Position, Renderable, Rotation, Size, Text};

verus! {

broadcast use vstd::std_specs::hash::group_hash_axioms;

/// Mathematical value of a [`Store`]: the columns as maps and the
/// channel as the sequence of all events emitted so far.
pub struct StoreView {
    pub renderables: Map<u32, Renderable>,
    pub positions: Map<u32, Position>,
    pub sizes: Map<u32, Size>,
    pub rotations: Map<u32, Rotation>,
    pub images: Map<u32, Image>,
    pub texts: Map<u32, Text>,
    pub events: Seq<ChangeEvent>,
}

/// The entity store.
#[derive(Debug)]
pub struct Store {
    renderables: HashMap<u32, Renderable>,
    positions: HashMap<u32, Position>,
    sizes: HashMap<u32, Size>,
    rotations: HashMap<u32, Rotation>,
    images: HashMap<u32, Image>,
    texts: HashMap<u32, Text>,
    events: Vec<ChangeEvent>,
}

impl View for Store {
    type V = StoreView;

    closed spec fn view(&self) -> StoreView {
        StoreView {
            renderables: self.renderables@,
            positions: self.positions@,
            sizes: self.sizes@,
            rotations: self.rotations@,
            images: self.images@,
            texts: self.texts@,
            events: self.events@,
        }
    }
}

/// Every entity holding a renderable component also holds a position.
/// The maintainer and the dispatcher read positions of exactly those
/// entities; a gap here is a data-model corruption, not a recoverable
/// condition, so it is required away rather than handled.
pub open spec fn positions_cover(s: StoreView) -> bool {
    forall|id: u32|
        #[trigger] s.renderables.dom().contains(id) ==> s.positions.dom().contains(id)
}

impl Store {
    /// The store is coherent: the renderable column is the replay of its
    /// channel, and every emitted event was well-placed.
    pub open spec fn wf(&self) -> bool {
        &&& self@.renderables.dom() == live_after(self@.events)
        &&& coherent(self@.events)
    }

    /// A fresh store: empty columns, empty channel.
    pub fn new() -> (s: Store)
        ensures
            s.wf(),
            s@.renderables == Map::<u32, Renderable>::empty(),
            s@.positions == Map::<u32, Position>::empty(),
            s@.sizes == Map::<u32, Size>::empty(),
            s@.rotations == Map::<u32, Rotation>::empty(),
            s@.images == Map::<u32, Image>::empty(),
            s@.texts == Map::<u32, Text>::empty(),
            s@.events == Seq::<ChangeEvent>::empty(),
    {
        let s = Store {
            renderables: HashMap::new(),
            positions: HashMap::new(),
            sizes: HashMap::new(),
            rotations: HashMap::new(),
            images: HashMap::new(),
            texts: HashMap::new(),
            events: Vec::new(),
        };
        proof {
            assert(s@.events.take(0) =~= s@.events);
            assert(s@.renderables.dom() =~= live_after(s@.events));
        }
        s
    }

    /// Attaches a renderable component to an entity, or replaces the one
    /// it holds.  Emits exactly one event: an insertion when the entity
    /// was absent from the column, a modification when it was present.
    pub fn insert_renderable(&mut self, id: u32, r: Renderable)
        requires
            old(self).wf(),
        ensures
            final(self).wf(),
            final(self)@.renderables == old(self)@.renderables.insert(id, r),
            final(self)@.events == old(self)@.events.push(
                if old(self)@.renderables.dom().contains(id) {
                    ChangeEvent::Modified(id)
                } else {
                    ChangeEvent::Inserted(id)
                },
            ),
            final(self)@.positions == old(self)@.positions,
            final(self)@.sizes == old(self)@.sizes,
            final(self)@.rotations == old(self)@.rotations,
            final(self)@.images == old(self)@.images,
            final(self)@.texts == old(self)@.texts,
    {
        let had = self.renderables.contains_key(&id);
        self.renderables.insert(id, r);
        let ev = if had {
            ChangeEvent::Modified(id)
        } else {
            ChangeEvent::Inserted(id)
        };
        self.events.push(ev);
        proof {
            Self::lemma_push_keeps_coherence(old(self)@.events, ev, old(self)@.renderables.dom());
            assert(self@.renderables.dom() =~= live_after(self@.events));
        }
    }

    /// Detaches the renderable component of an entity.  Emits exactly one
    /// removal event when the entity held one, and nothing otherwise.
    pub fn remove_renderable(&mut self, id: u32)
        requires
            old(self).wf(),
        ensures
            final(self).wf(),
            final(self)@.renderables == old(self)@.renderables.remove(id),
            final(self)@.events == if old(self)@.renderables.dom().contains(id) {
                old(self)@.events.push(ChangeEvent::Removed(id))
            } else {
                old(self)@.events
            },
            final(self)@.positions == old(self)@.positions,
            final(self)@.sizes == old(self)@.sizes,
            final(self)@.rotations == old(self)@.rotations,
            final(self)@.images == old(self)@.images,
            final(self)@.texts == old(self)@.texts,
    {
        let had = self.renderables.contains_key(&id);
        if had {
            self.renderables.remove(&id);
            self.events.push(ChangeEvent::Removed(id));
            proof {
                Self::lemma_push_keeps_coherence(
                    old(self)@.events,
                    ChangeEvent::Removed(id),
                    old(self)@.renderables.dom(),
                );
                assert(self@.renderables.dom() =~= live_after(self@.events));
            }
        } else {
            proof {
                assert(self@.renderables.dom() =~= old(self)@.renderables.remove(id).dom());
                assert(self@.renderables =~= old(self)@.renderables.remove(id));
            }
        }
    }

    /// Appending a well-placed event keeps the channel coherent.
    proof fn lemma_push_keeps_coherence(events: Seq<ChangeEvent>, ev: ChangeEvent, live: Set<u32>)
        requires
            coherent(events),
            live == live_after(events),
            event_ok(live, ev),
        ensures
            coherent(events.push(ev)),
            live_after(events.push(ev)) == crate::events::apply_event(live, ev),
    {
        let longer = events.push(ev);
        assert(longer.drop_last() =~= events);
        assert forall|i: int| 0 <= i < longer.len() implies event_ok(
            live_after(longer.take(i)),
            #[trigger] longer[i],
        ) by {
            if i < events.len() {
                assert(longer.take(i) =~= events.take(i));
                assert(longer[i] == events[i]);
            } else {
                assert(longer.take(i) =~= events);
            }
        }
    }

    /// Sets or replaces the position of an entity.  Positions emit no
    /// change events: the channel watches the renderable column alone.
    pub fn set_position(&mut self, id: u32, p: Position)
        requires
            old(self).wf(),
        ensures
            final(self).wf(),
            final(self)@.positions == old(self)@.positions.insert(id, p),
            final(self)@ == (StoreView {
                positions: old(self)@.positions.insert(id, p),
                ..old(self)@
            }),
    {
        self.positions.insert(id, p);
    }

    /// Sets or replaces the size of an entity.
    pub fn set_size(&mut self, id: u32, sz: Size)
        requires
            old(self).wf(),
        ensures
            final(self).wf(),
            final(self)@ == (StoreView { sizes: old(self)@.sizes.insert(id, sz), ..old(self)@ }),
    {
        self.sizes.insert(id, sz);
    }

    /// Sets or replaces the rotation of an entity.
    pub fn set_rotation(&mut self, id: u32, rot: Rotation)
        requires
            old(self).wf(),
        ensures
            final(self).wf(),
            final(self)@ == (StoreView {
                rotations: old(self)@.rotations.insert(id, rot),
                ..old(self)@
            }),
    {
        self.rotations.insert(id, rot);
    }

    /// Sets or replaces the image of an entity.
    pub fn set_image(&mut self, id: u32, img: Image)
        requires
            old(self).wf(),
        ensures
            final(self).wf(),
            final(self)@ == (StoreView { images: old(self)@.images.insert(id, img), ..old(self)@ }),
    {
        self.images.insert(id, img);
    }

    /// Sets or replaces the text of an entity.
    pub fn set_text(&mut self, id: u32, t: Text)
        requires
            old(self).wf(),
        ensures
            final(self).wf(),
            final(self)@ == (StoreView { texts: old(self)@.texts.insert(id, t), ..old(self)@ }),
    {
        self.texts.insert(id, t);
    }

    /// The renderable component of an entity, if it holds one.
    pub fn get_renderable(&self, id: u32) -> (r: Option<&Renderable>)
        ensures
            match r {
                Some(c) => self@.renderables.dom().contains(id) && *c == self@.renderables[id],
                None => !self@.renderables.dom().contains(id),
            },
    {
        self.renderables.get(&id)
    }

    /// The position of an entity, if it holds one.
    pub fn get_position(&self, id: u32) -> (r: Option<&Position>)
        ensures
            match r {
                Some(c) => self@.positions.dom().contains(id) && *c == self@.positions[id],
                None => !self@.positions.dom().contains(id),
            },
    {
        self.positions.get(&id)
    }

    /// The size of an entity, if it holds one.
    pub fn get_size(&self, id: u32) -> (r: Option<&Size>)
        ensures
            match r {
                Some(c) => self@.sizes.dom().contains(id) && *c == self@.sizes[id],
                None => !self@.sizes.dom().contains(id),
            },
    {
        self.sizes.get(&id)
    }

    /// The rotation of an entity, if it holds one.
    pub fn get_rotation(&self, id: u32) -> (r: Option<&Rotation>)
        ensures
            match r {
                Some(c) => self@.rotations.dom().contains(id) && *c == self@.rotations[id],
                None => !self@.rotations.dom().contains(id),
            },
    {
        self.rotations.get(&id)
    }

    /// The image of an entity, if it holds one.
    pub fn get_image(&self, id: u32) -> (r: Option<&Image>)
        ensures
            match r {
                Some(c) => self@.images.dom().contains(id) && *c == self@.images[id],
                None => !self@.images.dom().contains(id),
            },
    {
        self.images.get(&id)
    }

    /// The text of an entity, if it holds one.
    pub fn get_text(&self, id: u32) -> (r: Option<&Text>)
        ensures
            match r {
                Some(c) => self@.texts.dom().contains(id) && *c == self@.texts[id],
                None => !self@.texts.dom().contains(id),
            },
    {
        self.texts.get(&id)
    }

    /// How many events the channel has emitted so far.
    pub fn event_count(&self) -> (n: usize)
        ensures
            n == self@.events.len(),
    {
        self.events.len()
    }

    /// The event at a channel position.
    pub fn event_at(&self, i: usize) -> (ev: ChangeEvent)
        requires
            i < self@.events.len(),
        ensures
            ev == self@.events[i as int],
    {
        self.events[i]
    }
}

} // verus!
