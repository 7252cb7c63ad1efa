//! A dynamic font atlas: glyphs are rasterized on demand, packed into a
//! growable 8-bit alpha texture, and emitted as positioned textured quads for
//! single lines of text.
//!
//! The crate is organised around a [`FontStash`] context that owns the font
//! table, the glyph cache, the atlas (a shelf bin-packer plus pixel buffer),
//! and a stack of text styles.  Glyph coverage comes from the built-in
//! deterministic engine by default; a host with its own rasterizer
//! supplies coverage for a glyph's cell through [`FontStash::add_glyph`].
//! Multi-line layout is out of scope: every layout call treats its input
//! as one line.

pub mod atlas;
pub mod engine;
pub mod error;
pub mod layout;
pub mod renderer;
pub mod state;
pub mod stash;

pub use atlas::{Atlas, Rect, Shelf};
pub use error::{ErrorCode, ErrorEvent, FonsError};
pub use layout::{FonsQuad, FonsTextIter};
pub use renderer::Renderer;
pub use state::{Align, AlignH, AlignV, Flags, FonsState};
pub use stash::{Font, FontIx, FontStash, Glyph};
