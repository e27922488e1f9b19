//! Maintenance of the sorted view across event batches.

use flappy_render::render::RenderSystem;
use flappy_render::store::Store;
use flappy_render::types::{DrawEnv, FontHandle, FontTable, Position, Renderable, Size};

fn env() -> DrawEnv {
    DrawEnv {
        fonts: FontTable {
            retro: Some(FontHandle { id: 1 }),
            flappy: Some(FontHandle { id: 2 }),
        },
        viewport_width: 200,
    }
}

fn renderable() -> Renderable {
    Renderable { visible: true }
}

fn place(store: &mut Store, id: u32, z: i64) {
    store.set_position(id, Position { x: 0, y: 0, z });
    store.insert_renderable(id, renderable());
}

#[test]
fn end_to_end_two_batches() {
    let mut store = Store::new();
    let mut sys = RenderSystem::new(&store);
    let a = 1u32;
    let b = 2u32;
    let c = 3u32;
    place(&mut store, a, 2);
    place(&mut store, b, 0);
    place(&mut store, c, 1);
    sys.run(&store, &env(), 600).unwrap();
    assert_eq!(sys.entities().as_slice(), &[b, c, a]);

    let d = 4u32;
    store.remove_renderable(c);
    store.set_position(d, Position { x: 0, y: 0, z: -1 });
    store.insert_renderable(d, renderable());
    // A modify event for b: replacing the component it already holds.
    store.insert_renderable(b, renderable());
    sys.run(&store, &env(), 600).unwrap();
    assert_eq!(sys.entities().as_slice(), &[d, b, a]);
}

#[test]
fn insertion_then_removal_same_batch_leaves_no_entry() {
    let mut store = Store::new();
    let mut sys = RenderSystem::new(&store);
    let e = 7u32;
    place(&mut store, e, 0);
    store.remove_renderable(e);
    let frame = sys.run(&store, &env(), 0).unwrap();
    assert!(sys.entities().is_empty());
    assert!(frame.sprites.is_empty());
}

#[test]
fn removal_and_reinsertion_same_batch_keeps_one_entry() {
    let mut store = Store::new();
    let mut sys = RenderSystem::new(&store);
    let e = 7u32;
    place(&mut store, e, 0);
    sys.run(&store, &env(), 0).unwrap();
    assert_eq!(sys.entities().as_slice(), &[e]);
    store.remove_renderable(e);
    store.insert_renderable(e, renderable());
    sys.run(&store, &env(), 0).unwrap();
    assert_eq!(sys.entities().as_slice(), &[e]);
}

#[test]
fn remove_only_batch_keeps_survivor_order() {
    let mut store = Store::new();
    let mut sys = RenderSystem::new(&store);
    let a = 1u32;
    let b = 2u32;
    let c = 3u32;
    place(&mut store, a, 0);
    place(&mut store, b, 1);
    place(&mut store, c, 2);
    sys.run(&store, &env(), 0).unwrap();
    assert_eq!(sys.entities().as_slice(), &[a, b, c]);

    // Moving a to a high z emits no event on the renderable channel, so a
    // batch of removals alone must not re-sort: the survivors keep their
    // relative order even though their z keys now disagree with it.
    store.set_position(a, Position { x: 0, y: 0, z: 99 });
    store.remove_renderable(b);
    sys.run(&store, &env(), 0).unwrap();
    assert_eq!(sys.entities().as_slice(), &[a, c]);
}

#[test]
fn redrain_without_mutations_changes_nothing() {
    let mut store = Store::new();
    let mut sys = RenderSystem::new(&store);
    let a = 1u32;
    let b = 2u32;
    place(&mut store, a, 1);
    place(&mut store, b, 0);
    sys.run(&store, &env(), 0).unwrap();
    let first: Vec<u32> = sys.entities().clone();
    assert_eq!(first.as_slice(), &[b, a]);
    // No new mutations: the drain observes an empty batch.
    sys.run(&store, &env(), 0).unwrap();
    assert_eq!(sys.entities(), &first);
}

#[test]
fn each_mutation_observed_once_across_frames() {
    let mut store = Store::new();
    let mut sys = RenderSystem::new(&store);
    let a = 1u32;
    place(&mut store, a, 0);
    sys.run(&store, &env(), 0).unwrap();
    assert_eq!(sys.entities().as_slice(), &[a]);
    // The insertion event was consumed: a later removal is the only
    // event of the second batch, and the view ends empty, not re-grown.
    store.remove_renderable(a);
    sys.run(&store, &env(), 0).unwrap();
    assert!(sys.entities().is_empty());
}

#[test]
fn equal_z_keeps_insertion_order() {
    let mut store = Store::new();
    let mut sys = RenderSystem::new(&store);
    let a = 1u32;
    let b = 2u32;
    let c = 3u32;
    place(&mut store, a, 5);
    place(&mut store, b, 5);
    place(&mut store, c, 5);
    sys.run(&store, &env(), 0).unwrap();
    assert_eq!(sys.entities().as_slice(), &[a, b, c]);
}

#[test]
fn sizes_do_not_affect_membership() {
    let mut store = Store::new();
    let mut sys = RenderSystem::new(&store);
    let a = 1u32;
    place(&mut store, a, 0);
    store.set_size(a, Size { w: 10, h: 10 });
    sys.run(&store, &env(), 0).unwrap();
    assert_eq!(sys.entities().as_slice(), &[a]);
}
