//! The draw pass: visibility gating, image precedence, alignment,
//! rotation, the diagnostics overlay and resource errors.

use flappy_render::dispatch::text_dest_x;
use flappy_render::fps::format_fps;
use flappy_render::render::RenderSystem;
use flappy_render::store::Store;
use flappy_render::types::{
    Alignment, Color, DrawEnv, FontHandle, FontTable, FontType, Image, Position, Renderable,
    RenderError, Rotation, Size, Text,
};

fn env() -> DrawEnv {
    DrawEnv {
        fonts: FontTable {
            retro: Some(FontHandle { id: 1 }),
            flappy: Some(FontHandle { id: 2 }),
        },
        viewport_width: 200,
    }
}

fn text(content: &str, align: Alignment) -> Text {
    Text {
        content: content.to_string(),
        font: FontType::Flappy,
        font_size: 16,
        color: Color { r: 255, g: 255, b: 255 },
        align,
    }
}

#[test]
fn alignment_arithmetic_no_size() {
    // Measured text width 40, virtual viewport width 200.
    assert_eq!(text_dest_x(Alignment::Left, 0, None, 200, 40), 0);
    assert_eq!(text_dest_x(Alignment::Right, 0, None, 200, 40), 160);
    assert_eq!(text_dest_x(Alignment::Centered, 0, None, 200, 40), 80);
}

#[test]
fn alignment_arithmetic_with_size() {
    assert_eq!(text_dest_x(Alignment::Left, 7, Some(100), 200, 40), 7);
    assert_eq!(text_dest_x(Alignment::Right, 7, Some(100), 200, 40), 60);
    assert_eq!(text_dest_x(Alignment::Centered, 7, Some(100), 200, 40), 30);
}

#[test]
fn text_entity_carries_its_position_and_box() {
    let mut store = Store::new();
    let mut sys = RenderSystem::new(&store);
    sys.set_show_fps(false);
    let a = 1u32;
    store.set_position(a, Position { x: 0, y: 5, z: 0 });
    store.set_text(a, text("score", Alignment::Right));
    store.insert_renderable(a, Renderable { visible: true });
    let frame = sys.run(&store, &env(), 0).unwrap();
    assert!(frame.sprites.is_empty());
    assert_eq!(frame.texts.len(), 1);
    let t = &frame.texts[0];
    assert_eq!(t.content, "score");
    assert_eq!(t.font, FontHandle { id: 2 });
    assert_eq!(t.x, 0);
    assert_eq!(t.y, 5);
    assert_eq!(t.box_width, None);
    // With measured width 40 the right-aligned destination is 160, y stays 5.
    assert_eq!(text_dest_x(t.align, t.x, t.box_width, 200, 40), 160);
}

#[test]
fn rotation_transform_scenario() {
    let mut store = Store::new();
    let mut sys = RenderSystem::new(&store);
    sys.set_show_fps(false);
    let a = 1u32;
    store.set_position(a, Position { x: 100, y: 50, z: 0 });
    store.set_rotation(a, Rotation { x: 5, y: 5, deg: 90 });
    store.set_image(a, Image { handle: 9 });
    store.insert_renderable(a, Renderable { visible: true });
    let frame = sys.run(&store, &env(), 0).unwrap();
    assert_eq!(frame.sprites.len(), 1);
    let s = &frame.sprites[0];
    assert_eq!(s.image, Image { handle: 9 });
    assert_eq!((s.x, s.y), (100, 50));
    let rot = s.rotation.unwrap();
    assert_eq!((rot.x, rot.y), (5, 5));
    assert_eq!(rot.deg, 90);
    // The backend's angular unit is radians: 90 degrees is pi/2.
    let radians = (rot.deg as f64).to_radians();
    assert!((radians - std::f64::consts::FRAC_PI_2).abs() < 1e-12);
}

#[test]
fn invisible_entity_in_view_but_not_drawn() {
    let mut store = Store::new();
    let mut sys = RenderSystem::new(&store);
    sys.set_show_fps(false);
    let a = 1u32;
    store.set_position(a, Position { x: 0, y: 0, z: 0 });
    store.set_image(a, Image { handle: 1 });
    store.insert_renderable(a, Renderable { visible: false });
    let frame = sys.run(&store, &env(), 0).unwrap();
    assert_eq!(sys.entities().as_slice(), &[a]);
    assert!(frame.sprites.is_empty());
    assert!(frame.texts.is_empty());
}

#[test]
fn image_takes_precedence_over_text() {
    let mut store = Store::new();
    let mut sys = RenderSystem::new(&store);
    sys.set_show_fps(false);
    let a = 1u32;
    store.set_position(a, Position { x: 0, y: 0, z: 0 });
    store.set_image(a, Image { handle: 3 });
    store.set_text(a, text("hidden", Alignment::Left));
    store.insert_renderable(a, Renderable { visible: true });
    let frame = sys.run(&store, &env(), 0).unwrap();
    assert_eq!(frame.sprites.len(), 1);
    assert!(frame.texts.is_empty());
}

#[test]
fn bare_renderable_entity_draws_nothing() {
    let mut store = Store::new();
    let mut sys = RenderSystem::new(&store);
    sys.set_show_fps(false);
    let a = 1u32;
    store.set_position(a, Position { x: 0, y: 0, z: 0 });
    store.insert_renderable(a, Renderable { visible: true });
    let frame = sys.run(&store, &env(), 0).unwrap();
    assert_eq!(sys.entities().as_slice(), &[a]);
    assert!(frame.sprites.is_empty());
    assert!(frame.texts.is_empty());
}

#[test]
fn missing_text_font_aborts_frame() {
    let mut store = Store::new();
    let mut sys = RenderSystem::new(&store);
    sys.set_show_fps(false);
    let a = 1u32;
    store.set_position(a, Position { x: 0, y: 0, z: 0 });
    store.set_text(a, text("score", Alignment::Left));
    store.insert_renderable(a, Renderable { visible: true });
    let bad_env = DrawEnv {
        fonts: FontTable { retro: Some(FontHandle { id: 1 }), flappy: None },
        viewport_width: 200,
    };
    let r = sys.run(&store, &bad_env, 0);
    assert_eq!(r.unwrap_err(), RenderError::FontMissing(FontType::Flappy));
}

#[test]
fn missing_overlay_font_aborts_frame() {
    let store = Store::new();
    let mut sys = RenderSystem::new(&store);
    let bad_env = DrawEnv {
        fonts: FontTable { retro: None, flappy: Some(FontHandle { id: 2 }) },
        viewport_width: 200,
    };
    let r = sys.run(&store, &bad_env, 0);
    assert_eq!(r.unwrap_err(), RenderError::FontMissing(FontType::Retro));
}

#[test]
fn fps_formatting_exact() {
    assert_eq!(format_fps(600), "FPS: 60.0");
    assert_eq!(format_fps(7), "FPS: 0.7");
    assert_eq!(format_fps(0), "FPS: 0.0");
    assert_eq!(format_fps(1234), "FPS: 123.4");
}

#[test]
fn fps_overlay_queued_last() {
    let mut store = Store::new();
    let mut sys = RenderSystem::new(&store);
    let a = 1u32;
    store.set_position(a, Position { x: 0, y: 0, z: 0 });
    store.set_text(a, text("score", Alignment::Left));
    store.insert_renderable(a, Renderable { visible: true });
    let frame = sys.run(&store, &env(), 588).unwrap();
    assert_eq!(frame.texts.len(), 2);
    let overlay = &frame.texts[1];
    assert_eq!(overlay.content, "FPS: 58.8");
    assert_eq!(overlay.font, FontHandle { id: 1 });
    assert_eq!(overlay.font_size, 8);
    assert_eq!(overlay.color, Color { r: 0, g: 255, b: 0 });
    assert_eq!((overlay.x, overlay.y), (10, 10));
    assert_eq!(overlay.align, Alignment::Left);
}

#[test]
fn overlay_can_be_toggled_off() {
    let store = Store::new();
    let mut sys = RenderSystem::new(&store);
    let frame = sys.run(&store, &env(), 600).unwrap();
    assert_eq!(frame.texts.len(), 1);
    sys.set_show_fps(false);
    let frame = sys.run(&store, &env(), 600).unwrap();
    assert!(frame.texts.is_empty());
    assert_eq!(frame.clear_color, Color { r: 40, g: 45, b: 52 });
}
