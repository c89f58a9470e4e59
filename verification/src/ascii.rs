//! The ASCII bytes that the wire grammar and the literals of numbers name.

use vstd::prelude::*;

verus! {

pub const HASH: u8 = 35;

pub const OPEN_PAREN: u8 = 40;

pub const CLOSE_PAREN: u8 = 41;

pub const PLUS: u8 = 43;

pub const COMMA: u8 = 44;

pub const MINUS: u8 = 45;

pub const DOT: u8 = 46;

pub const ZERO: u8 = 48;

pub const NINE: u8 = 57;

pub const SEMICOLON: u8 = 59;

pub const UPPER_A: u8 = 65;

pub const UPPER_Z: u8 = 90;

pub const OPEN_BRACKET: u8 = 91;

pub const CLOSE_BRACKET: u8 = 93;

pub const LOWER_A: u8 = 97;

pub const LOWER_D: u8 = 100;

pub const LOWER_E: u8 = 101;

pub const LOWER_F: u8 = 102;

pub const LOWER_I: u8 = 105;

pub const LOWER_N: u8 = 110;

pub const LOWER_P: u8 = 112;

pub const LOWER_S: u8 = 115;

pub const LOWER_T: u8 = 116;

pub const LOWER_U: u8 = 117;

pub const LOWER_Y: u8 = 121;

pub const LOWER_Z: u8 = 122;

} // verus!
