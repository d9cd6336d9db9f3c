//! Byte constants and character classes shared by the scalar parsers.

use vstd::prelude::*;

verus! {

pub const TAB: u8 = 0x09;
pub const SPACE: u8 = 0x20;
pub const PLUS: u8 = 0x2b;
pub const MINUS: u8 = 0x2d;
pub const DOT: u8 = 0x2e;
pub const ZERO: u8 = 0x30;
pub const NINE: u8 = 0x39;
pub const COLON: u8 = 0x3a;
pub const UPPER_A: u8 = 0x41;
pub const UPPER_B: u8 = 0x42;
pub const UPPER_E: u8 = 0x45;
pub const UPPER_F: u8 = 0x46;
pub const UPPER_O: u8 = 0x4f;
pub const UPPER_T: u8 = 0x54;
pub const UPPER_X: u8 = 0x58;
pub const UPPER_Z: u8 = 0x5a;
pub const UNDERSCORE: u8 = 0x5f;
pub const LOWER_A: u8 = 0x61;
pub const LOWER_B: u8 = 0x62;
pub const LOWER_E: u8 = 0x65;
pub const LOWER_F: u8 = 0x66;
pub const LOWER_I: u8 = 0x69;
pub const LOWER_N: u8 = 0x6e;
pub const LOWER_O: u8 = 0x6f;
pub const LOWER_T: u8 = 0x74;
pub const LOWER_X: u8 = 0x78;
pub const LOWER_Z: u8 = 0x7a;

/// `b` is one of the ASCII digits `0` to `9`.
pub open spec fn is_digit(b: u8) -> bool {
    ZERO <= b <= NINE
}

/// `b` is `+` or `-`.
pub open spec fn is_sign(b: u8) -> bool {
    b == PLUS || b == MINUS
}

} // verus!
