//! The ASCII bytes that carry meaning in a unified diff.

use vstd::prelude::*;

verus! {

/// Horizontal tab: separates a file name or hunk header from its annotation.
pub const TAB: u8 = 9;

/// Line feed: ends a physical line.
pub const LF: u8 = 10;

/// Carriage return.
pub const CR: u8 = 13;

/// Space: marks a context line and separates the fields of a hunk header.
pub const SPACE: u8 = 32;

/// `!`: marks a modified line.
pub const BANG: u8 = 33;

/// `+`: marks an inserted line.
pub const PLUS: u8 = 43;

/// `,`: separates a range's start from its length.
pub const COMMA: u8 = 44;

/// `-`: marks a deleted line.
pub const MINUS: u8 = 45;

/// `0`, the first decimal digit.
pub const DIGIT_0: u8 = 48;

/// `9`, the last decimal digit.
pub const DIGIT_9: u8 = 57;

/// `@`: hunk headers are written between pairs of it.
pub const AT: u8 = 64;

/// `\`: opens the marker for a missing final newline.
pub const BACKSLASH: u8 = 92;

} // verus!
