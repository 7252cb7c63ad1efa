//! The host renderer boundary.
//!
//! The host graphics layer implements [`Renderer`]; the stash calls it when
//! the atlas texture must be created or resized and when dirty texels are
//! flushed.  A `false` return is fatal for the operation that asked and is
//! surfaced as `FonsError::RenderResizeError`.  Nothing is assumed about
//! these methods: the stash's contracts state what happens for either
//! answer.
//!
//! Two paths resize the texture.  The explicit ones, `expand_atlas` and
//! `reset_atlas`, ask `resize` first and change nothing when it refuses.
//! The implicit one — the glyph cache doubling the atlas height when it
//! runs out of room mid-layout — cannot consult the renderer (layout does
//! not carry one) and so follows a whole-texture-dirty protocol instead:
//! the growth marks the entire texture dirty, and the host learns the new
//! dimensions from the `update` call of the next flush (or from
//! `atlas_size` after `validate_texture`), re-creating its texture then.

use vstd::prelude::*;
use crate::atlas::Rect;

verus! {

/// Callbacks into the host graphics layer.
pub trait Renderer {
    /// Create the atlas texture.  `true` on success.
    fn create(&mut self, width: u32, height: u32) -> bool;

    /// Resize the atlas texture.  `true` on success.
    fn resize(&mut self, width: u32, height: u32) -> bool;

    /// Upload the dirty region of the pixel buffer (`width` by `height`,
    /// one alpha byte per texel).  The dimensions are the current ones:
    /// after an internal atlas growth the dirty region covers the whole
    /// texture and this call doubles as the resize notification.  `true`
    /// on success.
    fn update(&mut self, rect: Rect, data: &Vec<u8>, width: u32, height: u32) -> bool;

    /// Release the atlas texture.  Called by the host when it discards the
    /// stash, never by the stash itself.
    fn delete(&mut self);
}

} // verus!
