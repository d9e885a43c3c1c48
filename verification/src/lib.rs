//! An incremental classifier for the lines of a unified diff.
//!
//! A diff is read one physical line at a time. Each line is classified
//! by what the parser expects at that point: the start of a file pair,
//! the header of the new file, a hunk header, or a line of a hunk's body.
//! A line that is not what its place calls for is `Junk`, and the parser
//! goes back to looking for the next file pair. Inside a hunk the parser
//! keeps count of the lines that the hunk's header announced; a header that
//! announced too few lines is forgiven, and the hunk simply ends early.
//!
//! [`DiffParser`] reads a diff held in memory and hands out one
//! [`DiffLine`] per line. [`State`] is the same machine without the input,
//! for callers that bring their own lines. [`diffstat`] counts what a
//! whole diff changes. Every event can be written back as the line it
//! stands for, with `render`, `to_bytes` and `to_string`.
//!
//! The contracts are stated over sequences of bytes: `classify` gives the
//! event that a line is, `parser::events` the events of a whole input, and
//! `laws` and `round_trip` what holds of them together.

pub mod ascii;
pub mod bytes;
pub mod classify;
pub mod laws;
pub mod line;
pub mod markers;
pub mod number;
pub mod parser;
pub mod render;
pub mod round_trip;
pub mod stat;

pub use crate::bytes::chomp;
pub use crate::classify::{parse_delta, parse_fileinfo, parse_hunk, parse_new_file, parse_old_file};
pub use crate::line::{DiffLine, FileInfo, HunkInfo};
pub use crate::number::{parse_range, parse_u32};
pub use crate::parser::{DiffParser, State};
pub use crate::stat::{diffstat, DiffStat};
