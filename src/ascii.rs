//! The ASCII bytes that the scanner gives a meaning to.
use vstd::prelude::*;

verus! {

pub const SPACE: u8 = 0x20;
pub const TAB: u8 = 0x09;
pub const NEWLINE: u8 = 0x0A;
pub const CARRIAGE_RETURN: u8 = 0x0D;
pub const DIGIT_ZERO: u8 = 0x30;
pub const DIGIT_NINE: u8 = 0x39;
pub const UPPER_A: u8 = 0x41;
pub const UPPER_Z: u8 = 0x5A;
pub const LOWER_A: u8 = 0x61;
pub const LOWER_Z: u8 = 0x7A;
pub const UNDERSCORE: u8 = 0x5F;
pub const EQUALS: u8 = 0x3D;
pub const EXCLAMATION: u8 = 0x21;
pub const LESS: u8 = 0x3C;
pub const GREATER: u8 = 0x3E;
pub const STAR: u8 = 0x2A;
pub const PLUS: u8 = 0x2B;
pub const HYPHEN: u8 = 0x2D;
pub const SLASH: u8 = 0x2F;
pub const COMMA: u8 = 0x2C;
pub const SEMICOLON: u8 = 0x3B;
pub const OPEN_PAREN: u8 = 0x28;
pub const CLOSE_PAREN: u8 = 0x29;
pub const OPEN_BRACE: u8 = 0x7B;
pub const CLOSE_BRACE: u8 = 0x7D;

} // verus!
