//! The component records, draw-command values and error type of the
//! render subsystem.
//!
//! Entity identities are plain `u32` handles.  Coordinates and the z
//! ordering key are integers; angles are whole degrees.  Bitmap and font
//! resources appear only as opaque numeric handles: loading and presenting
//! them belongs to the rendering backend, not to this crate.

use vstd::prelude::*;

verus! {

/// Selector for a loaded font resource.
#[derive(Clone, Copy, Debug, Hash, PartialEq, Eq, Structural)]
pub enum FontType {
    Retro,
    Flappy,
}

/// Horizontal placement of a text draw inside its box.
#[derive(Clone, Copy, Debug, PartialEq, Eq, Structural)]
pub enum Alignment {
    Left,
    Right,
    Centered,
}

/// Which half of the screen a pipe obstacle occupies.
#[derive(Clone, Copy, Debug, PartialEq, Eq, Structural)]
pub enum PipeSide {
    Top,
    Bottom,
}

/// An RGB color.
#[derive(Clone, Copy, Debug, PartialEq, Eq, Structural)]
pub struct Color {
    pub r: u8,
    pub g: u8,
    pub b: u8,
}

/// Marks an entity as a draw candidate; its column is the source of the
/// change events the sorted view is maintained from.
#[derive(Clone, Copy, Debug, PartialEq, Eq, Structural)]
pub struct Renderable {
    pub visible: bool,
}

/// Screen position and z ordering key of an entity.
#[derive(Clone, Copy, Debug, PartialEq, Eq, Structural)]
pub struct Position {
    pub x: i64,
    pub y: i64,
    pub z: i64,
}

/// Optional extent of an entity, used as the box for text alignment.
#[derive(Clone, Copy, Debug, PartialEq, Eq, Structural)]
pub struct Size {
    pub w: u32,
    pub h: u32,
}

/// Optional rotation: a pivot offset and an angle in whole degrees.
/// Conversion to the backend's angular unit happens at the backend.
#[derive(Clone, Copy, Debug, PartialEq, Eq, Structural)]
pub struct Rotation {
    pub x: i64,
    pub y: i64,
    pub deg: i64,
}

/// Opaque handle to a loaded bitmap resource.
#[derive(Clone, Copy, Debug, PartialEq, Eq, Structural)]
pub struct Image {
    pub handle: u32,
}

/// Opaque handle to a loaded font resource.
#[derive(Clone, Copy, Debug, PartialEq, Eq, Structural)]
pub struct FontHandle {
    pub id: u32,
}

/// Text content of an entity together with its styling.
#[derive(Clone, Debug)]
pub struct Text {
    pub content: String,
    pub font: FontType,
    pub font_size: u32,
    pub color: Color,
    pub align: Alignment,
}

/// The font resources the environment supplies, one slot per selector.
#[derive(Clone, Copy, Debug, PartialEq, Eq, Structural)]
pub struct FontTable {
    pub retro: Option<FontHandle>,
    pub flappy: Option<FontHandle>,
}

impl FontTable {
    /// The resource a selector resolves to, if it was supplied.
    pub open spec fn spec_get(self, font: FontType) -> Option<FontHandle> {
        match font {
            FontType::Retro => self.retro,
            FontType::Flappy => self.flappy,
        }
    }

    /// Resolves a font selector against the table.
    pub fn get(&self, font: FontType) -> (r: Option<FontHandle>)
        ensures
            r == self.spec_get(font),
    {
        match font {
            FontType::Retro => self.retro,
            FontType::Flappy => self.flappy,
        }
    }
}

/// What the environment injects into the draw pass: the font table and
/// the fallback width used when an entity carries no explicit size.
#[derive(Clone, Copy, Debug, PartialEq, Eq, Structural)]
pub struct DrawEnv {
    pub fonts: FontTable,
    pub viewport_width: u32,
}

/// The draw pass fails when a requested resource is missing; the frame
/// driver decides whether to skip the frame or give up.
#[derive(Clone, Copy, Debug, PartialEq, Eq, Structural)]
pub enum RenderError {
    FontMissing(FontType),
}

/// One immediate sprite draw: a bitmap anchored at a destination point,
/// optionally rotated around a pivot offset.
#[derive(Clone, Copy, Debug, PartialEq, Eq, Structural)]
pub struct SpriteDraw {
    pub image: Image,
    pub x: i64,
    pub y: i64,
    pub rotation: Option<Rotation>,
}

/// One queued text draw.  The destination x is resolved from the
/// alignment and the measured text width by [`crate::dispatch::text_dest_x`]
/// once the backend has measured the content.
#[derive(Clone, Debug)]
pub struct TextDraw {
    pub content: String,
    pub font: FontHandle,
    pub font_size: u32,
    pub color: Color,
    pub align: Alignment,
    pub x: i64,
    pub y: i64,
    pub box_width: Option<u32>,
}

/// Mathematical value of a [`TextDraw`]: the content as a character
/// sequence, everything else as is.
pub struct TextDrawV {
    pub content: Seq<char>,
    pub font: FontHandle,
    pub font_size: u32,
    pub color: Color,
    pub align: Alignment,
    pub x: int,
    pub y: int,
    pub box_width: Option<u32>,
}

impl View for TextDraw {
    type V = TextDrawV;

    open spec fn view(&self) -> TextDrawV {
        TextDrawV {
            content: self.content@,
            font: self.font,
            font_size: self.font_size,
            color: self.color,
            align: self.align,
            x: self.x as int,
            y: self.y as int,
            box_width: self.box_width,
        }
    }
}

/// The mathematical value of a text batch.
pub open spec fn texts_view(texts: Seq<TextDraw>) -> Seq<TextDrawV> {
    texts.map_values(|t: TextDraw| t@)
}

/// What the column join yields for one entity of the view: an immediate
/// sprite draw, a queued text draw, or nothing.  A single exhaustive
/// match on this keeps the draw step total; an entity with both an image
/// and a text yields the sprite.
#[derive(Clone, Debug)]
pub enum EntityOut {
    Skip,
    Sprite(SpriteDraw),
    Text(TextDraw),
}

/// Mathematical value of an [`EntityOut`].
pub enum EntityOutV {
    Skip,
    Sprite(SpriteDraw),
    Text(TextDrawV),
}

impl View for EntityOut {
    type V = EntityOutV;

    open spec fn view(&self) -> EntityOutV {
        match self {
            EntityOut::Skip => EntityOutV::Skip,
            EntityOut::Sprite(d) => EntityOutV::Sprite(*d),
            EntityOut::Text(t) => EntityOutV::Text(t@),
        }
    }
}

/// Everything one frame asks of the drawing surface: clear to a color,
/// draw the sprites in order, then flush the queued text batch in order.
#[derive(Clone, Debug)]
pub struct Frame {
    pub clear_color: Color,
    pub sprites: Vec<SpriteDraw>,
    pub texts: Vec<TextDraw>,
}

/// The fixed color the surface is cleared to before every frame.
pub open spec fn spec_background_color() -> Color {
    Color { r: 40, g: 45, b: 52 }
}

/// The fixed color the surface is cleared to before every frame.
pub fn background_color() -> (c: Color)
    ensures
        c == spec_background_color(),
{
    Color { r: 40, g: 45, b: 52 }
}

} // verus!
