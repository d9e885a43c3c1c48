use diffparser::bytes::{ends_with, find_byte, find_subslice, starts_with, strip_newline};
use diffparser::markers::{
    binary_prefix_bytes, binary_separator_bytes, binary_suffix_bytes, hunk_end_marker_bytes,
    hunk_marker_bytes, hunk_new_marker_bytes, new_file_marker_bytes, no_newline_marker_bytes,
    old_file_marker_bytes, MIN_FILE_LINE, MIN_HUNK_LINE,
};
use diffparser::number::push_decimal;
use diffparser::{DiffLine, FileInfo, HunkInfo, State};

#[test]
fn find_byte_gives_the_first_index_or_the_length() {
    assert_eq!(find_byte(b"", b'a'), 0);
    assert_eq!(find_byte(b"abca", b'a'), 0);
    assert_eq!(find_byte(b"abca", b'c'), 2);
    assert_eq!(find_byte(b"abca", b'x'), 4);
    assert_eq!(find_byte(b"a\n\n", b'\n'), 1);
}

#[test]
fn find_subslice_gives_the_first_occurrence() {
    assert_eq!(find_subslice(b"foo and bar and baz", b" and "), Some(3));
    assert_eq!(find_subslice(b" and ", b" and "), Some(0));
    assert_eq!(find_subslice(b"x and ", b" and "), Some(1));
    assert_eq!(find_subslice(b"and", b" and "), None);
    assert_eq!(find_subslice(b" and", b" and "), None);
    assert_eq!(find_subslice(b"", b" and "), None);
    assert_eq!(find_subslice(b"aaab", b"aab"), Some(1));
    assert_eq!(find_subslice(b"abc", b""), Some(0));
    assert_eq!(find_subslice(b"", b""), Some(0));
}

#[test]
fn starts_with_and_ends_with() {
    assert!(starts_with(b"--- a", b"--- "));
    assert!(starts_with(b"--- ", b"--- "));
    assert!(starts_with(b"abc", b""));
    assert!(!starts_with(b"---", b"--- "));
    assert!(!starts_with(b"--+ a", b"--- "));
    assert!(!starts_with(b"", b"-"));
    assert!(ends_with(b"a differ\n", b" differ\n"));
    assert!(ends_with(b" differ\n", b" differ\n"));
    assert!(ends_with(b"abc", b""));
    assert!(!ends_with(b"differ\n", b" differ\n"));
    assert!(!ends_with(b"a differ", b" differ\n"));
    assert!(!ends_with(b"", b"\n"));
}

#[test]
fn strip_newline_leaves_a_carriage_return() {
    assert_eq!(strip_newline(b"foo\r\n"), b"foo\r");
    assert_eq!(strip_newline(b"foo\n"), b"foo");
    assert_eq!(strip_newline(b"foo\n\n"), b"foo\n");
    assert_eq!(strip_newline(b"foo"), b"foo");
    assert_eq!(strip_newline(b"\n"), b"");
    assert_eq!(strip_newline(b""), b"");
}

#[test]
fn push_decimal_writes_digits_without_leading_zeros() {
    let mut out = b"n=".to_vec();
    push_decimal(&mut out, 0);
    out.push(b' ');
    push_decimal(&mut out, 7);
    out.push(b' ');
    push_decimal(&mut out, 10);
    out.push(b' ');
    push_decimal(&mut out, 1905);
    out.push(b' ');
    push_decimal(&mut out, 4294967295);
    assert_eq!(out, b"n=0 7 10 1905 4294967295");
}

#[test]
fn markers_are_the_texts_of_the_format() {
    assert_eq!(old_file_marker_bytes(), b"--- ");
    assert_eq!(new_file_marker_bytes(), b"+++ ");
    assert_eq!(hunk_marker_bytes(), b"@@ -");
    assert_eq!(hunk_new_marker_bytes(), b" +");
    assert_eq!(hunk_end_marker_bytes(), b" @@");
    assert_eq!(binary_prefix_bytes(), b"Binary files ");
    assert_eq!(binary_separator_bytes(), b" and ");
    assert_eq!(binary_suffix_bytes(), b" differ\n");
    assert_eq!(no_newline_marker_bytes(), b"\\ No newline at end of file\n");
    assert_eq!(MIN_FILE_LINE, b"--- x\n".len());
    assert_eq!(MIN_HUNK_LINE, b"@@ -1 +1 @@".len());
}

fn file(name: &[u8]) -> FileInfo<'_> {
    FileInfo {
        filename: name,
        metadata: None,
    }
}

fn header(old_line_len: u32, new_line_len: u32) -> DiffLine<'static> {
    DiffLine::Hunk(HunkInfo {
        old_line_no: 1,
        old_line_len,
        new_line_no: 1,
        new_line_len,
        context: None,
    })
}

#[test]
fn state_picks_the_classifier() {
    let line = b"--- ab\n";
    assert_eq!(State::Junk.classify(line), DiffLine::OldFile(file(b"ab")));
    assert_eq!(State::OldFile.classify(line), DiffLine::Junk(line));
    assert_eq!(State::NewFile.classify(line), DiffLine::Junk(line));
    assert_eq!(State::Hunk(5, 5).classify(line), DiffLine::Deleted(b"-- ab\n"));
    let line = b"+++ ab\n";
    assert_eq!(State::Junk.classify(line), DiffLine::Junk(line));
    assert_eq!(State::OldFile.classify(line), DiffLine::NewFile(file(b"ab")));
    assert_eq!(State::Hunk(0, 0).classify(line), DiffLine::Inserted(b"++ ab\n"));
    let line = b"@@ -1,2 +1,3 @@\n";
    assert_eq!(State::NewFile.classify(line), header(2, 3));
    assert_eq!(State::Hunk(1, 1).classify(line), DiffLine::Junk(line));
}

#[test]
fn state_advances_outside_a_hunk() {
    let old = DiffLine::OldFile(file(b"a"));
    let new = DiffLine::NewFile(file(b"b"));
    let binaries = DiffLine::Binaries(b"a", b"b");
    let junk = DiffLine::Junk(b"?");
    assert!(matches!(State::Junk.advance(&old), State::OldFile));
    assert!(matches!(State::Junk.advance(&new), State::Junk));
    assert!(matches!(State::Junk.advance(&binaries), State::Junk));
    assert!(matches!(State::Junk.advance(&junk), State::Junk));
    assert!(matches!(State::OldFile.advance(&new), State::NewFile));
    assert!(matches!(State::OldFile.advance(&old), State::Junk));
    assert!(matches!(State::OldFile.advance(&junk), State::Junk));
    assert!(matches!(State::NewFile.advance(&header(2, 3)), State::Hunk(2, 3)));
    assert!(matches!(State::NewFile.advance(&header(0, 0)), State::Hunk(0, 0)));
    assert!(matches!(
        State::NewFile.advance(&header(4294967295, 2147483648)),
        State::Hunk(4294967295, 2147483648)
    ));
    assert!(matches!(State::NewFile.advance(&new), State::Junk));
    assert!(matches!(State::NewFile.advance(&junk), State::Junk));
}

#[test]
fn state_counts_down_inside_a_hunk() {
    let context = DiffLine::Context(b"x\n");
    let modified = DiffLine::Modified(b"x\n");
    let inserted = DiffLine::Inserted(b"x\n");
    let deleted = DiffLine::Deleted(b"x\n");
    let marker = DiffLine::NoNewlineAtEof;
    assert!(matches!(State::Hunk(3, 5).advance(&context), State::Hunk(2, 4)));
    assert!(matches!(State::Hunk(3, 5).advance(&modified), State::Hunk(2, 4)));
    assert!(matches!(State::Hunk(3, 5).advance(&inserted), State::Hunk(3, 4)));
    assert!(matches!(State::Hunk(3, 5).advance(&deleted), State::Hunk(2, 5)));
    assert!(matches!(State::Hunk(3, 5).advance(&marker), State::Hunk(3, 5)));
    assert!(matches!(State::Hunk(1, 0).advance(&inserted), State::NewFile));
    assert!(matches!(State::Hunk(0, 1).advance(&inserted), State::NewFile));
    assert!(matches!(State::Hunk(1, 0).advance(&deleted), State::NewFile));
    assert!(matches!(State::Hunk(0, 1).advance(&deleted), State::NewFile));
    assert!(matches!(State::Hunk(1, 1).advance(&context), State::NewFile));
    assert!(matches!(State::Hunk(1, 1).advance(&inserted), State::Hunk(1, 0)));
    assert!(matches!(State::Hunk(1, 1).advance(&deleted), State::Hunk(0, 1)));
    assert!(matches!(State::Hunk(0, 2).advance(&context), State::NewFile));
    assert!(matches!(State::Hunk(2, 0).advance(&modified), State::NewFile));
    assert!(matches!(State::Hunk(0, 0).advance(&marker), State::NewFile));
    assert!(matches!(State::Hunk(0, 0).advance(&context), State::NewFile));
}

#[test]
fn state_gives_up_on_what_is_no_body_line() {
    let junk = DiffLine::Junk(b"?");
    let old = DiffLine::OldFile(file(b"a"));
    assert!(matches!(State::Hunk(3, 5).advance(&junk), State::Junk));
    assert!(matches!(State::Hunk(0, 0).advance(&junk), State::Junk));
    assert!(matches!(State::Hunk(3, 5).advance(&old), State::Junk));
    assert!(matches!(State::Hunk(3, 5).advance(&header(1, 1)), State::Junk));
    assert!(matches!(
        State::Hunk(3, 5).advance(&DiffLine::Binaries(b"a", b"b")),
        State::Junk
    ));
}
