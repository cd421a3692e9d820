//! Names for the ASCII byte values the grammar recognises.

use vstd::prelude::*;

verus! {

/// `"`
pub const DQUOTE: u8 = 34;

/// `'`
pub const SQUOTE: u8 = 39;

/// `\`
pub const BACKSLASH: u8 = 92;

/// `-`
pub const DASH: u8 = 45;

/// `[`
pub const LBRACK: u8 = 91;

/// `]`
pub const RBRACK: u8 = 93;

/// `=`
pub const EQUALS: u8 = 61;

/// `(`
pub const LPAREN: u8 = 40;

/// `)`
pub const RPAREN: u8 = 41;

/// `,`
pub const COMMA: u8 = 44;

/// `;`
pub const SEMI: u8 = 59;

/// `.`
pub const DOT: u8 = 46;

/// `/`
pub const SLASH: u8 = 47;

/// Line feed
pub const NL: u8 = 10;

/// Carriage return
pub const CR: u8 = 13;

/// Space
pub const SPACE: u8 = 32;

/// Horizontal tab
pub const TAB: u8 = 9;

/// Vertical tab
pub const VTAB: u8 = 11;

/// Form feed
pub const FF: u8 = 12;

} // verus!
