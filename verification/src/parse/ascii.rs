//! The characters of the language by name.

use vstd::prelude::*;

verus! {

pub const TAB: u8 = 0x09;

pub const NEWLINE: u8 = 0x0a;

pub const RETURN: u8 = 0x0d;

pub const BLANK: u8 = 0x20;

pub const BANG: u8 = 0x21;

pub const QUOTE: u8 = 0x22;

pub const HASH: u8 = 0x23;

pub const DOLLAR: u8 = 0x24;

pub const PERCENT: u8 = 0x25;

pub const AMPERSAND: u8 = 0x26;

pub const TICK: u8 = 0x27;

pub const OPEN_P: u8 = 0x28;

pub const CLOSE_P: u8 = 0x29;

pub const STAR: u8 = 0x2a;

pub const PLUS: u8 = 0x2b;

pub const COMMA: u8 = 0x2c;

pub const MINUS: u8 = 0x2d;

pub const POINT: u8 = 0x2e;

pub const SLASH: u8 = 0x2f;

pub const ZERO: u8 = 0x30;

pub const ONE: u8 = 0x31;

pub const NINE: u8 = 0x39;

pub const COLON: u8 = 0x3a;

pub const SEMI: u8 = 0x3b;

pub const LESS: u8 = 0x3c;

pub const EQUALS: u8 = 0x3d;

pub const GREATER: u8 = 0x3e;

pub const QUESTION: u8 = 0x3f;

pub const AT: u8 = 0x40;

pub const OPEN_B: u8 = 0x5b;

pub const BACKSLASH: u8 = 0x5c;

pub const CLOSE_B: u8 = 0x5d;

pub const CARET: u8 = 0x5e;

pub const UNDERSCORE: u8 = 0x5f;

pub const BACKQUOTE: u8 = 0x60;

pub const LOWER_B: u8 = 0x62;

pub const LOWER_X: u8 = 0x78;

pub const LOWER_Y: u8 = 0x79;

pub const LOWER_Z: u8 = 0x7a;

pub const OPEN_C: u8 = 0x7b;

pub const BAR: u8 = 0x7c;

pub const CLOSE_C: u8 = 0x7d;

pub const TILDE: u8 = 0x7e;

} // verus!
