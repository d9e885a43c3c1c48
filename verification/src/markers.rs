//! The fixed texts of the unified diff format.
//!
//! Each text is given twice: as a sequence of bytes for use in contracts,
//! and as a function that hands out the same bytes at run time.

use crate::ascii::{AT, BACKSLASH, LF, MINUS, PLUS, SPACE};
use vstd::prelude::*;
use vstd::string::is_ascii_spec_bytes;

verus! {

/// `--- `: opens the header line that names the old file.
pub open spec fn old_file_marker() -> Seq<u8> {
    seq![MINUS, MINUS, MINUS, SPACE]
}

/// `+++ `: opens the header line that names the new file.
pub open spec fn new_file_marker() -> Seq<u8> {
    seq![PLUS, PLUS, PLUS, SPACE]
}

/// `@@ -`: opens a hunk header.
pub open spec fn hunk_marker() -> Seq<u8> {
    seq![AT, AT, SPACE, MINUS]
}

/// ` +`: stands between the two ranges of a hunk header.
pub open spec fn hunk_new_marker() -> Seq<u8> {
    seq![SPACE, PLUS]
}

/// ` @@`: closes the ranges of a hunk header.
pub open spec fn hunk_end_marker() -> Seq<u8> {
    seq![SPACE, AT, AT]
}

/// `Binary files `: opens the line that reports two differing binary files.
pub open spec fn binary_prefix() -> Seq<u8> {
    seq![66u8, 105, 110, 97, 114, 121, SPACE, 102, 105, 108, 101, 115, SPACE]
}

/// ` and `: stands between the two names on such a line.
pub open spec fn binary_separator() -> Seq<u8> {
    seq![SPACE, 97u8, 110, 100, SPACE]
}

/// ` differ` and a line feed: closes such a line.
pub open spec fn binary_suffix() -> Seq<u8> {
    seq![SPACE, 100u8, 105, 102, 102, 101, 114, LF]
}

/// `\ No newline at end of file` and a line feed.
pub open spec fn no_newline_marker() -> Seq<u8> {
    seq![
        BACKSLASH, SPACE, 78u8, 111, SPACE, 110, 101, 119, 108, 105, 110, 101, SPACE, 97, 116,
        SPACE, 101, 110, 100, SPACE, 111, 102, SPACE, 102, 105, 108, 101, LF,
    ]
}

/// The length of `--- x` and a line feed, the shortest line that names a
/// file.
pub const MIN_FILE_LINE: usize = 6;

/// The length of `@@ -1 +1 @@`, which a hunk header must exceed.
pub const MIN_HUNK_LINE: usize = 11;

/// The bytes of `--- `.
pub fn old_file_marker_bytes() -> (m: &'static [u8])
    ensures
        m@ == old_file_marker(),
{
    let s = "--- ";
    proof {
        reveal_strlit("--- ");
        is_ascii_spec_bytes(s);
    }
    s.as_bytes()
}

/// The bytes of `+++ `.
pub fn new_file_marker_bytes() -> (m: &'static [u8])
    ensures
        m@ == new_file_marker(),
{
    let s = "+++ ";
    proof {
        reveal_strlit("+++ ");
        is_ascii_spec_bytes(s);
    }
    s.as_bytes()
}

/// The bytes of `@@ -`.
pub fn hunk_marker_bytes() -> (m: &'static [u8])
    ensures
        m@ == hunk_marker(),
{
    let s = "@@ -";
    proof {
        reveal_strlit("@@ -");
        is_ascii_spec_bytes(s);
    }
    s.as_bytes()
}

/// The bytes of ` +`.
pub fn hunk_new_marker_bytes() -> (m: &'static [u8])
    ensures
        m@ == hunk_new_marker(),
{
    let s = " +";
    proof {
        reveal_strlit(" +");
        is_ascii_spec_bytes(s);
    }
    s.as_bytes()
}

/// The bytes of ` @@`.
pub fn hunk_end_marker_bytes() -> (m: &'static [u8])
    ensures
        m@ == hunk_end_marker(),
{
    let s = " @@";
    proof {
        reveal_strlit(" @@");
        is_ascii_spec_bytes(s);
    }
    s.as_bytes()
}

/// The bytes of `Binary files `.
pub fn binary_prefix_bytes() -> (m: &'static [u8])
    ensures
        m@ == binary_prefix(),
{
    let s = "Binary files ";
    proof {
        reveal_strlit("Binary files ");
        is_ascii_spec_bytes(s);
    }
    s.as_bytes()
}

/// The bytes of ` and `.
pub fn binary_separator_bytes() -> (m: &'static [u8])
    ensures
        m@ == binary_separator(),
{
    let s = " and ";
    proof {
        reveal_strlit(" and ");
        is_ascii_spec_bytes(s);
    }
    s.as_bytes()
}

/// The bytes of ` differ` and a line feed.
pub fn binary_suffix_bytes() -> (m: &'static [u8])
    ensures
        m@ == binary_suffix(),
{
    let s = " differ\n";
    proof {
        reveal_strlit(" differ\n");
        is_ascii_spec_bytes(s);
    }
    s.as_bytes()
}

/// The bytes of `\ No newline at end of file` and a line feed.
pub fn no_newline_marker_bytes() -> (m: &'static [u8])
    ensures
        m@ == no_newline_marker(),
{
    let s = "\\ No newline at end of file\n";
    proof {
        reveal_strlit("\\ No newline at end of file\n");
        is_ascii_spec_bytes(s);
    }
    s.as_bytes()
}

} // verus!
