use vstd::prelude::*;

verus! {

pub const QUOTE: u8 = 0x22;
pub const COMMA: u8 = 0x2c;
pub const SOLIDUS: u8 = 0x2f;
pub const DIGIT_ZERO: u8 = 0x30;
pub const COLON: u8 = 0x3a;
pub const LEFT_BRACKET: u8 = 0x5b;
pub const REVERSE_SOLIDUS: u8 = 0x5c;
pub const RIGHT_BRACKET: u8 = 0x5d;
pub const LOWER_A: u8 = 0x61;
pub const LOWER_B: u8 = 0x62;
pub const LOWER_E: u8 = 0x65;
pub const LOWER_F: u8 = 0x66;
pub const LOWER_L: u8 = 0x6c;
pub const LOWER_N: u8 = 0x6e;
pub const LOWER_R: u8 = 0x72;
pub const LOWER_S: u8 = 0x73;
pub const LOWER_T: u8 = 0x74;
pub const LOWER_U: u8 = 0x75;
pub const LEFT_BRACE: u8 = 0x7b;
pub const RIGHT_BRACE: u8 = 0x7d;

} // verus!
