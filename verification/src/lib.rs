//! Incremental render ordering and draw dispatch for an entity-component
//! game loop.
//!
//! The crate maintains a z-ordered sequence of renderable entity identities
//! by draining a change-event channel through a resumable reader cursor,
//! and turns the ordered sequence into a list of draw commands (sprites and
//! batched text) once per frame.  The rendering backend and the surrounding
//! game loop consume those commands outside of this crate.

pub mod dispatch;
pub mod events;
pub mod fps;
pub mod render;
pub mod store;
pub mod types;
