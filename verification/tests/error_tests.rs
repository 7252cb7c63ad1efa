//! Tests of the error types and the error-notification codes.

use fontstash::{ErrorCode, ErrorEvent, FonsError};

#[test]
fn error_codes_round_trip_through_u32() {
    let codes = [
        ErrorCode::AtlasFull,
        ErrorCode::ScratchFull,
        ErrorCode::StatesOverflow,
        ErrorCode::StatesUnderflow,
    ];
    for c in codes {
        assert_eq!(ErrorCode::from_u32(c.to_u32()), Some(c));
    }
}

#[test]
fn error_code_values_are_documented() {
    assert_eq!(ErrorCode::AtlasFull.to_u32(), 1);
    assert_eq!(ErrorCode::ScratchFull.to_u32(), 2);
    assert_eq!(ErrorCode::StatesOverflow.to_u32(), 3);
    assert_eq!(ErrorCode::StatesUnderflow.to_u32(), 4);
}

#[test]
fn unknown_code_decodes_to_none() {
    assert_eq!(ErrorCode::from_u32(0), None);
    assert_eq!(ErrorCode::from_u32(5), None);
    assert_eq!(ErrorCode::from_u32(u32::MAX), None);
}

#[test]
fn errors_describe_themselves() {
    assert_eq!(
        FonsError::FailedToAllocFont.describe(),
        "FontStash failed to allocate font"
    );
    assert_eq!(
        FonsError::FoundNoFont.describe(),
        "FontStash was unable to find font"
    );
    assert_eq!(
        FonsError::RenderResizeError.describe(),
        "FontStash detected `renderResize` returned `1`"
    );
}

#[test]
fn error_events_carry_code_and_value() {
    let e = ErrorEvent { code: ErrorCode::AtlasFull, value: 8192 };
    assert_eq!(e.code, ErrorCode::AtlasFull);
    assert_eq!(e.value, 8192);
}
