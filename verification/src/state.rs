//! Text styles and the limits the engine clamps them into.

use vstd::prelude::*;
use crate::engine::{MAX_BLUR, MAX_FONT_SIZE};

verus! {

/// Maximum depth of the style stack.
pub const MAX_STATES: usize = 20;

/// Sentinel font index: no font selected.
pub const INVALID_FONT: u32 = 0xFFFF_FFFF;

/// Largest magnitude of the per-glyph spacing adjustment; spacing is
/// clamped into `-MAX_SPACING..=MAX_SPACING`.
pub const MAX_SPACING: i32 = 1024;

/// Horizontal alignment of a laid-out line relative to the pen.
#[derive(Debug, Clone, Copy, PartialEq, Eq, Structural)]
pub enum AlignH {
    Left,
    Center,
    Right,
}

/// Vertical alignment of a laid-out line relative to the pen.
#[derive(Debug, Clone, Copy, PartialEq, Eq, Structural)]
pub enum AlignV {
    Top,
    Middle,
    Bottom,
    Baseline,
}

/// Alignment of each quad returned by a layout call.
#[derive(Debug, Clone, Copy, PartialEq, Eq, Structural)]
pub struct Align {
    pub horizontal: AlignH,
    pub vertical: AlignV,
}

impl Align {
    /// The default alignment: left of the pen, on the baseline.
    pub open spec fn spec_default() -> Align {
        Align { horizontal: AlignH::Left, vertical: AlignV::Baseline }
    }

    /// Builds the default alignment.
    pub fn left_baseline() -> (r: Align)
        ensures
            r == Align::spec_default(),
    {
        Align { horizontal: AlignH::Left, vertical: AlignV::Baseline }
    }
}

/// Vertical origin convention of texture and screen space.  The engine lays
/// out with the origin in the top-left corner and `y` growing downward.
#[derive(Debug, Clone, Copy, PartialEq, Eq, Structural)]
pub enum Flags {
    BottomLeft,
    TopLeft,
}

/// One text style: everything a layout call reads.
#[derive(Debug, Clone, Copy, PartialEq, Eq, Structural)]
pub struct FonsState {
    /// Index into the font table; `INVALID_FONT` when unset.
    pub font: u32,
    /// Pixel size, within `1..=MAX_FONT_SIZE`.
    pub size: u32,
    /// Packed RGBA color, carried to the consumer of quads; never baked
    /// into the atlas.
    pub color: u32,
    /// Blur radius in pixels, within `0..=MAX_BLUR`.
    pub blur: u32,
    /// Extra horizontal space after each glyph, within
    /// `-MAX_SPACING..=MAX_SPACING`.
    pub spacing: i32,
    /// Alignment of the laid-out line.
    pub align: Align,
}

impl FonsState {
    /// The style's numeric fields are inside the engine's limits.
    pub open spec fn wf(self) -> bool {
        &&& 1 <= self.size <= MAX_FONT_SIZE
        &&& self.blur <= MAX_BLUR
        &&& -MAX_SPACING <= self.spacing <= MAX_SPACING
    }

    /// The base style: no font, size 12, opaque white, no blur, no extra
    /// spacing, left-baseline alignment.
    pub open spec fn spec_default() -> FonsState {
        FonsState {
            font: INVALID_FONT,
            size: 12u32,
            color: 0xFFFF_FFFFu32,
            blur: 0u32,
            spacing: 0i32,
            align: Align::spec_default(),
        }
    }

    /// Builds the base style.
    pub fn base() -> (r: FonsState)
        ensures
            r == FonsState::spec_default(),
            r.wf(),
    {
        FonsState {
            font: INVALID_FONT,
            size: 12,
            color: 0xFFFF_FFFF,
            blur: 0,
            spacing: 0,
            align: Align::left_baseline(),
        }
    }
}

/// Clamps a requested pixel size into the engine's range.
pub open spec fn clamp_size(v: u32) -> u32 {
    if v < 1 {
        1u32
    } else if v > MAX_FONT_SIZE {
        MAX_FONT_SIZE
    } else {
        v
    }
}

/// Clamps a requested blur radius into the engine's range.
pub open spec fn clamp_blur(v: u32) -> u32 {
    if v > MAX_BLUR {
        MAX_BLUR
    } else {
        v
    }
}

/// Clamps a requested spacing into the engine's range.
pub open spec fn clamp_spacing(v: i32) -> i32 {
    if v < -MAX_SPACING {
        (-MAX_SPACING) as i32
    } else if v > MAX_SPACING {
        MAX_SPACING
    } else {
        v
    }
}

} // verus!
