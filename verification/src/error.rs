//! Error values returned by the font stash.
//!
//! Direct calls report failure through `Result` values of [`FonsError`].
//! Conditions that arise in the middle of an operation with no direct result
//! channel (for example atlas exhaustion while a line is being laid out) are
//! recorded out of band as [`ErrorEvent`]s carrying an [`ErrorCode`].

use vstd::prelude::*;

verus! {

/// Error returned by the direct, `Result`-valued operations.
#[derive(Debug, Clone, Copy, PartialEq, Eq, Structural)]
pub enum FonsError {
    /// The font table could not take the font: the name is already taken or
    /// the font data was rejected as unparseable.
    FailedToAllocFont,
    /// An operation that needs a current font ran while none was set.
    FoundNoFont,
    /// The host renderer refused to create or resize the atlas texture.
    RenderResizeError,
}

impl FonsError {
    /// A short human-readable description of the error.
    pub fn describe(&self) -> (r: &'static str)
        ensures
            r@ == match self {
                FonsError::FailedToAllocFont => "FontStash failed to allocate font"@,
                FonsError::FoundNoFont => "FontStash was unable to find font"@,
                FonsError::RenderResizeError => "FontStash detected `renderResize` returned `1`"@,
            },
    {
        match self {
            FonsError::FailedToAllocFont => "FontStash failed to allocate font",
            FonsError::FoundNoFont => "FontStash was unable to find font",
            FonsError::RenderResizeError => "FontStash detected `renderResize` returned `1`",
        }
    }
}

/// Diagnostic code recorded as an out-of-band [`ErrorEvent`].
#[derive(Debug, Clone, Copy, PartialEq, Eq, Structural)]
pub enum ErrorCode {
    /// The atlas ran out of space while a glyph was being inserted.
    AtlasFull,
    /// A transient scratch buffer was exhausted.  The engine has no such
    /// buffer, so it never records this code; it is kept so hosts can map
    /// every documented code.
    ScratchFull,
    /// A push on the style stack exceeded the maximum depth.
    StatesOverflow,
    /// A pop on the style stack would have removed the base state.
    StatesUnderflow,
}

impl ErrorCode {
    /// The numeric value of this code on the error-notification boundary.
    pub fn to_u32(&self) -> (r: u32)
        ensures
            r == self.spec_u32(),
    {
        match self {
            ErrorCode::AtlasFull => 1,
            ErrorCode::ScratchFull => 2,
            ErrorCode::StatesOverflow => 3,
            ErrorCode::StatesUnderflow => 4,
        }
    }

    /// The code that `to_u32` returns for each variant.
    pub open spec fn spec_u32(&self) -> u32 {
        match self {
            ErrorCode::AtlasFull => 1u32,
            ErrorCode::ScratchFull => 2u32,
            ErrorCode::StatesOverflow => 3u32,
            ErrorCode::StatesUnderflow => 4u32,
        }
    }

    /// Decodes a numeric error code; `None` for numbers outside the
    /// documented range.
    pub fn from_u32(x: u32) -> (r: Option<ErrorCode>)
        ensures
            r == Self::spec_from_u32(x),
    {
        match x {
            1u32 => Some(ErrorCode::AtlasFull),
            2u32 => Some(ErrorCode::ScratchFull),
            3u32 => Some(ErrorCode::StatesOverflow),
            4u32 => Some(ErrorCode::StatesUnderflow),
            _ => None,
        }
    }

    /// The decoding that `from_u32` performs: the inverse of `spec_u32` on
    /// the four documented codes, `None` elsewhere.
    pub open spec fn spec_from_u32(x: u32) -> Option<ErrorCode> {
        if x == 1 {
            Some(ErrorCode::AtlasFull)
        } else if x == 2 {
            Some(ErrorCode::ScratchFull)
        } else if x == 3 {
            Some(ErrorCode::StatesOverflow)
        } else if x == 4 {
            Some(ErrorCode::StatesUnderflow)
        } else {
            None
        }
    }
}

/// One out-of-band diagnostic: a code and an associated integer value
/// (for stack errors the stack depth at the time, for atlas exhaustion the
/// atlas height).
#[derive(Debug, Clone, Copy, PartialEq, Eq, Structural)]
pub struct ErrorEvent {
    pub code: ErrorCode,
    pub value: u32,
}

/// Decoding with `from_u32` inverts `to_u32` on every code.
pub proof fn lemma_error_code_round_trip(c: ErrorCode)
    ensures
        ErrorCode::spec_from_u32(c.spec_u32()) == Some(c),
{
}

} // verus!
