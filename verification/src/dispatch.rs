//! The draw dispatcher: joins the sorted view against the component
//! columns and produces one frame's draw commands.
//!
//! Per entity the join yields at most one output: a sprite when an image
//! is present (the image takes precedence over text), a queued text draw
//! when only text is present, and nothing when the entity is invisible
//! or carries neither.  Sprites are drawn immediately in view order;
//! text draws are queued and flushed once after the main pass.

use vstd::prelude::*;

use crate::store::{positions_cover, Store, StoreView};
use crate::types::{
    Alignment, EntityOut, EntityOutV, FontTable, RenderError, SpriteDraw, TextDraw, TextDrawV,
};

verus! {

/// The width a text draw aligns inside: the entity's own size when it
/// has one, else the virtual viewport width.
pub open spec fn spec_box_width(box_width: Option<u32>, viewport_width: u32) -> int {
    match box_width {
        Some(w) => w as int,
        None => viewport_width as int,
    }
}

/// The destination x of a text draw, from its alignment, its box and the
/// measured width of its content.
pub open spec fn text_dest_x_spec(
    align: Alignment,
    pos_x: int,
    box_width: Option<u32>,
    viewport_width: u32,
    measured_width: u32,
) -> int {
    let w = spec_box_width(box_width, viewport_width);
    match align {
        Alignment::Left => pos_x,
        Alignment::Right => w - measured_width as int,
        Alignment::Centered => w / 2 - measured_width as int / 2,
    }
}

/// Resolves the destination x of a text draw once the backend has
/// measured the content: left keeps the entity's x, right abuts the
/// right edge of the box, centered halves box and text width.
pub fn text_dest_x(
    align: Alignment,
    pos_x: i64,
    box_width: Option<u32>,
    viewport_width: u32,
    measured_width: u32,
) -> (x: i64)
    ensures
        x == text_dest_x_spec(align, pos_x as int, box_width, viewport_width, measured_width),
{
    let w: u32 = match box_width {
        Some(w) => w,
        None => viewport_width,
    };
    match align {
        Alignment::Left => pos_x,
        Alignment::Right => w as i64 - measured_width as i64,
        Alignment::Centered => (w / 2) as i64 - (measured_width / 2) as i64,
    }
}

/// What the join yields for one entity of the view.  Meaningful only
/// when the entity holds a renderable and a position, which the view
/// guarantees.
pub open spec fn entity_out_spec(s: StoreView, fonts: FontTable, id: u32) -> Result<
    EntityOutV,
    RenderError,
> {
    let r = s.renderables[id];
    let p = s.positions[id];
    if !r.visible {
        Ok(EntityOutV::Skip)
    } else if s.images.dom().contains(id) {
        Ok(
            EntityOutV::Sprite(
                SpriteDraw {
                    image: s.images[id],
                    x: p.x,
                    y: p.y,
                    rotation: if s.rotations.dom().contains(id) {
                        Some(s.rotations[id])
                    } else {
                        None
                    },
                },
            ),
        )
    } else if s.texts.dom().contains(id) {
        let t = s.texts[id];
        match fonts.spec_get(t.font) {
            Some(f) => Ok(
                EntityOutV::Text(
                    TextDrawV {
                        content: t.content@,
                        font: f,
                        font_size: t.font_size,
                        color: t.color,
                        align: t.align,
                        x: p.x as int,
                        y: p.y as int,
                        box_width: if s.sizes.dom().contains(id) {
                            Some(s.sizes[id].w)
                        } else {
                            None
                        },
                    },
                ),
            ),
            None => Err(RenderError::FontMissing(t.font)),
        }
    } else {
        Ok(EntityOutV::Skip)
    }
}

/// An entity whose renderable is not visible produces no draw output:
/// it stays a member of the sorted view, but the join skips it.
pub proof fn lemma_invisible_entity_skipped(s: StoreView, fonts: FontTable, id: u32)
    requires
        s.renderables.dom().contains(id),
        !s.renderables[id].visible,
    ensures
        entity_out_spec(s, fonts, id) == Ok::<EntityOutV, RenderError>(EntityOutV::Skip),
{
}

/// Joins one entity of the view against the columns.
fn render_entity(store: &Store, fonts: &FontTable, id: u32) -> (out: Result<
    EntityOut,
    RenderError,
>)
    requires
        store@.renderables.dom().contains(id),
        store@.positions.dom().contains(id),
    ensures
        match out {
            Ok(o) => entity_out_spec(store@, *fonts, id) == Ok::<EntityOutV, RenderError>(o@),
            Err(e) => entity_out_spec(store@, *fonts, id) == Err::<EntityOutV, RenderError>(e),
        },
{
    let r = store.get_renderable(id).unwrap();
    let p = store.get_position(id).unwrap();
    if !r.visible {
        return Ok(EntityOut::Skip);
    }
    if let Some(img) = store.get_image(id) {
        let rotation = match store.get_rotation(id) {
            Some(rot) => Some(*rot),
            None => None,
        };
        return Ok(EntityOut::Sprite(SpriteDraw { image: *img, x: p.x, y: p.y, rotation }));
    }
    if let Some(t) = store.get_text(id) {
        let f = match fonts.get(t.font) {
            Some(f) => f,
            None => {
                return Err(RenderError::FontMissing(t.font));
            },
        };
        let box_width = match store.get_size(id) {
            Some(sz) => Some(sz.w),
            None => None,
        };
        return Ok(
            EntityOut::Text(
                TextDraw {
                    content: t.content.clone(),
                    font: f,
                    font_size: t.font_size,
                    color: t.color,
                    align: t.align,
                    x: p.x,
                    y: p.y,
                    box_width,
                },
            ),
        );
    }
    Ok(EntityOut::Skip)
}

/// The draw commands of a whole view, in view order: sprites in the
/// first component, the text batch in the second.  The first missing
/// resource aborts the pass.
pub open spec fn dispatch_spec(view: Seq<u32>, s: StoreView, fonts: FontTable) -> Result<
    (Seq<SpriteDraw>, Seq<TextDrawV>),
    RenderError,
>
    decreases view.len(),
{
    if view.len() == 0 {
        Ok((Seq::empty(), Seq::empty()))
    } else {
        match dispatch_spec(view.drop_last(), s, fonts) {
            Err(e) => Err(e),
            Ok((sprites, texts)) => match entity_out_spec(s, fonts, view.last()) {
                Err(e) => Err(e),
                Ok(EntityOutV::Skip) => Ok((sprites, texts)),
                Ok(EntityOutV::Sprite(d)) => Ok((sprites.push(d), texts)),
                Ok(EntityOutV::Text(d)) => Ok((sprites, texts.push(d))),
            },
        }
    }
}

/// A failed prefix decides the whole pass.
proof fn lemma_dispatch_err_extends(view: Seq<u32>, s: StoreView, fonts: FontTable, i: int)
    requires
        0 <= i <= view.len(),
        dispatch_spec(view.take(i), s, fonts) is Err,
    ensures
        dispatch_spec(view, s, fonts) == dispatch_spec(view.take(i), s, fonts),
    decreases view.len() - i,
{
    if i == view.len() {
        assert(view.take(i) =~= view);
    } else {
        assert(view.take(i + 1).drop_last() =~= view.take(i));
        lemma_dispatch_err_extends(view, s, fonts, i + 1);
    }
}

/// Runs the draw pass over a view whose members all hold a renderable
/// and a position.
pub fn dispatch(view: &Vec<u32>, store: &Store, fonts: &FontTable) -> (r: Result<
    (Vec<SpriteDraw>, Vec<TextDraw>),
    RenderError,
>)
    requires
        forall|k: int|
            0 <= k < view@.len() ==> store@.renderables.dom().contains(#[trigger] view@[k])
                && store@.positions.dom().contains(view@[k]),
    ensures
        match r {
            Ok((sprites, texts)) => dispatch_spec(view@, store@, *fonts) == Ok::<
                (Seq<SpriteDraw>, Seq<TextDrawV>),
                RenderError,
            >((sprites@, crate::types::texts_view(texts@))),
            Err(e) => dispatch_spec(view@, store@, *fonts) == Err::<
                (Seq<SpriteDraw>, Seq<TextDrawV>),
                RenderError,
            >(e),
        },
{
    let mut sprites: Vec<SpriteDraw> = Vec::new();
    let mut texts: Vec<TextDraw> = Vec::new();
    let ghost s = store@;
    let n = view.len();
    proof {
        assert(view@.take(0) =~= Seq::<u32>::empty());
        assert(crate::types::texts_view(texts@) =~= Seq::<TextDrawV>::empty());
    }
    for i in 0..n
        invariant
            n == view@.len(),
            s == store@,
            forall|k: int|
                0 <= k < view@.len() ==> store@.renderables.dom().contains(#[trigger] view@[k])
                    && store@.positions.dom().contains(view@[k]),
            dispatch_spec(view@.take(i as int), s, *fonts) == Ok::<
                (Seq<SpriteDraw>, Seq<TextDrawV>),
                RenderError,
            >((sprites@, crate::types::texts_view(texts@))),
    {
        let out = render_entity(store, fonts, view[i]);
        proof {
            assert(view@.take(i + 1).drop_last() =~= view@.take(i as int));
            assert(view@.take(i + 1).last() == view@[i as int]);
        }
        match out {
            Err(e) => {
                proof {
                    lemma_dispatch_err_extends(view@, s, *fonts, i + 1);
                }
                return Err(e);
            },
            Ok(EntityOut::Skip) => {},
            Ok(EntityOut::Sprite(d)) => {
                sprites.push(d);
            },
            Ok(EntityOut::Text(d)) => {
                let ghost before = texts@;
                texts.push(d);
                proof {
                    assert(crate::types::texts_view(texts@) =~= crate::types::texts_view(
                        before,
                    ).push(d@));
                }
            },
        }
    }
    proof {
        assert(view@.take(n as int) =~= view@);
    }
    Ok((sprites, texts))
}

} // verus!
