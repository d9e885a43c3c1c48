use diffparser::{
    chomp, parse_delta, parse_fileinfo, parse_hunk, parse_new_file, parse_old_file, parse_range,
    parse_u32, DiffLine, FileInfo, HunkInfo,
};

fn hunk<'a>(
    old_line_no: u32,
    old_line_len: u32,
    new_line_no: u32,
    new_line_len: u32,
    context: Option<&'a [u8]>,
) -> DiffLine<'a> {
    DiffLine::Hunk(HunkInfo {
        old_line_no,
        old_line_len,
        new_line_no,
        new_line_len,
        context,
    })
}

#[test]
fn chomp_removes_one_terminator_only() {
    assert_eq!(chomp(b"\n"), b"");
    assert_eq!(chomp(b"\r\n"), b"");
    assert_eq!(chomp(b"\r"), b"\r");
    assert_eq!(chomp(b"foo\n\n"), b"foo\n");
    assert_eq!(chomp(b"foo\r\n\r\n"), b"foo\r\n");
    assert_eq!(chomp(b"foo\n\r"), b"foo\n\r");
    assert_eq!(chomp(b"foo\r\r\n"), b"foo\r");
}

#[test]
fn parse_u32_accepts_leading_zeros() {
    assert_eq!(parse_u32(b"007"), Some(7));
    assert_eq!(parse_u32(b"0000000000000000000042"), Some(42));
    assert_eq!(parse_u32(b"00004294967295"), Some(4294967295));
}

#[test]
fn parse_u32_rejects_overflow_without_wrapping() {
    assert_eq!(parse_u32(b"4294967296"), None);
    assert_eq!(parse_u32(b"4294967300"), None);
    assert_eq!(parse_u32(b"42949672950"), None);
    assert_eq!(parse_u32(b"99999999999999999999"), None);
    assert_eq!(parse_u32(b"00004294967296"), None);
}

#[test]
fn parse_u32_rejects_what_is_no_digit() {
    assert_eq!(parse_u32(b"+1"), None);
    assert_eq!(parse_u32(b"-1"), None);
    assert_eq!(parse_u32(b" 1"), None);
    assert_eq!(parse_u32(b"1 "), None);
    assert_eq!(parse_u32(b"1\n"), None);
    assert_eq!(parse_u32(b"/"), None);
    assert_eq!(parse_u32(b":"), None);
    assert_eq!(parse_u32(b"12\xb2"), None);
    assert_eq!(parse_u32(b"9"), Some(9));
}

#[test]
fn parse_range_needs_its_start() {
    assert_eq!(parse_range(b",5"), None);
    assert_eq!(parse_range(b"x,5"), None);
    assert_eq!(parse_range(b"4294967296,5"), None);
}

#[test]
fn parse_range_length_defaults_to_one() {
    assert_eq!(parse_range(b"7,x"), Some((7, 1)));
    assert_eq!(parse_range(b"7,4294967296"), Some((7, 1)));
    assert_eq!(parse_range(b"7,,9"), Some((7, 1)));
    assert_eq!(parse_range(b"7,x,9"), Some((7, 1)));
    assert_eq!(parse_range(b"7,0"), Some((7, 0)));
    assert_eq!(parse_range(b"0,0"), Some((0, 0)));
}

#[test]
fn parse_range_reads_the_length_up_to_the_next_comma() {
    assert_eq!(parse_range(b"12,24,36"), Some((12, 24)));
    assert_eq!(parse_range(b"12,24,"), Some((12, 24)));
    assert_eq!(parse_range(b"4294967295,4294967295"), Some((4294967295, 4294967295)));
}

#[test]
fn parse_fileinfo_skips_four_bytes() {
    assert_eq!(
        parse_fileinfo(b"--- a/b.c\t2024-01-01\n"),
        FileInfo {
            filename: b"a/b.c",
            metadata: Some(b"2024-01-01")
        }
    );
    assert_eq!(
        parse_fileinfo(b"????name"),
        FileInfo {
            filename: b"name",
            metadata: None
        }
    );
    assert_eq!(
        parse_fileinfo(b"+++ "),
        FileInfo {
            filename: b"",
            metadata: None
        }
    );
}

#[test]
fn file_name_ends_at_tab_cr_or_lf() {
    assert_eq!(
        parse_old_file(b"--- foo\r\n"),
        DiffLine::OldFile(FileInfo {
            filename: b"foo",
            metadata: None
        })
    );
    assert_eq!(
        parse_old_file(b"--- foo bar\n"),
        DiffLine::OldFile(FileInfo {
            filename: b"foo bar",
            metadata: None
        })
    );
    assert_eq!(
        parse_new_file(b"+++ foo\tbar\tbaz\n"),
        DiffLine::NewFile(FileInfo {
            filename: b"foo",
            metadata: Some(b"bar\tbaz")
        })
    );
    assert_eq!(
        parse_new_file(b"+++ foo\tbar\r\n"),
        DiffLine::NewFile(FileInfo {
            filename: b"foo",
            metadata: Some(b"bar\r")
        })
    );
    assert_eq!(
        parse_old_file(b"--- \tmeta\n"),
        DiffLine::OldFile(FileInfo {
            filename: b"",
            metadata: Some(b"meta")
        })
    );
}

#[test]
fn file_header_without_terminator() {
    assert_eq!(
        parse_old_file(b"--- abc"),
        DiffLine::OldFile(FileInfo {
            filename: b"abc",
            metadata: None
        })
    );
    assert_eq!(
        parse_old_file(b"--- foo\tbar"),
        DiffLine::OldFile(FileInfo {
            filename: b"foo",
            metadata: Some(b"bar")
        })
    );
    assert_eq!(
        parse_new_file(b"+++ foo\t"),
        DiffLine::NewFile(FileInfo {
            filename: b"foo",
            metadata: Some(b"")
        })
    );
    assert_eq!(parse_new_file(b"+++ x"), DiffLine::Junk(b"+++ x"));
}

#[test]
fn file_header_needs_marker_and_length() {
    assert_eq!(parse_old_file(b"---  \n"), {
        DiffLine::OldFile(FileInfo {
            filename: b" ",
            metadata: None,
        })
    });
    assert_eq!(parse_old_file(b"---\tfoo\n"), DiffLine::Junk(b"---\tfoo\n"));
    assert_eq!(parse_old_file(b"-- foo\n"), DiffLine::Junk(b"-- foo\n"));
    assert_eq!(parse_old_file(b"+++ foo\n"), DiffLine::Junk(b"+++ foo\n"));
    assert_eq!(parse_new_file(b"--- foo\n"), DiffLine::Junk(b"--- foo\n"));
    assert_eq!(parse_old_file(b"--- "), DiffLine::Junk(b"--- "));
    assert_eq!(parse_old_file(b"\n"), DiffLine::Junk(b"\n"));
}

#[test]
fn new_file_classifier_knows_no_binary_marker() {
    assert_eq!(
        parse_new_file(b"Binary files foo and bar differ\n"),
        DiffLine::Junk(b"Binary files foo and bar differ\n")
    );
}

#[test]
fn binary_marker_splits_at_the_first_separator() {
    assert_eq!(
        parse_old_file(b"Binary files a and b and c differ\n"),
        DiffLine::Binaries(b"a", b"b and c")
    );
    assert_eq!(
        parse_old_file(b"Binary files  and  differ\n"),
        DiffLine::Binaries(b"", b"")
    );
    assert_eq!(
        parse_old_file(b"Binary files a/b c and d e/f differ\n"),
        DiffLine::Binaries(b"a/b c", b"d e/f")
    );
}

#[test]
fn binary_marker_needs_its_exact_form() {
    assert_eq!(
        parse_old_file(b"Binary files differ\n"),
        DiffLine::Junk(b"Binary files differ\n")
    );
    assert_eq!(
        parse_old_file(b"Binary files  differ\n"),
        DiffLine::Junk(b"Binary files  differ\n")
    );
    assert_eq!(
        parse_old_file(b"Binary files a and bdiffer\n"),
        DiffLine::Junk(b"Binary files a and bdiffer\n")
    );
    assert_eq!(
        parse_old_file(b"Binary files a and b differ"),
        DiffLine::Junk(b"Binary files a and b differ")
    );
    assert_eq!(
        parse_old_file(b"Binary files a and b differ\r\n"),
        DiffLine::Junk(b"Binary files a and b differ\r\n")
    );
    assert_eq!(
        parse_old_file(b"binary files a and b differ\n"),
        DiffLine::Junk(b"binary files a and b differ\n")
    );
    assert_eq!(
        parse_old_file(b"Binary files a or b differ\n"),
        DiffLine::Junk(b"Binary files a or b differ\n")
    );
}

#[test]
fn hunk_must_be_longer_than_the_minimal_header() {
    assert_eq!(parse_hunk(b"@@ -1 +1 @@"), DiffLine::Junk(b"@@ -1 +1 @@"));
    assert_eq!(parse_hunk(b"@@ -1 +1 @"), DiffLine::Junk(b"@@ -1 +1 @"));
    assert_eq!(parse_hunk(b"@@ -1 +12 @@"), hunk(1, 1, 12, 1, None));
    assert_eq!(parse_hunk(b"@@ -1 +1 @@ "), hunk(1, 1, 1, 1, None));
}

#[test]
fn hunk_needs_marker_and_both_starts() {
    assert_eq!(parse_hunk(b"## -1,2 +3,4 ##\n"), DiffLine::Junk(b"## -1,2 +3,4 ##\n"));
    assert_eq!(parse_hunk(b"@@ +1,2 -3,4 @@\n"), DiffLine::Junk(b"@@ +1,2 -3,4 @@\n"));
    assert_eq!(parse_hunk(b"@@ -x,2 +3,4 @@\n"), DiffLine::Junk(b"@@ -x,2 +3,4 @@\n"));
    assert_eq!(parse_hunk(b"@@ -1,2 +y,4 @@\n"), DiffLine::Junk(b"@@ -1,2 +y,4 @@\n"));
    assert_eq!(parse_hunk(b"@@ -,2 +3,4 @@\n"), DiffLine::Junk(b"@@ -,2 +3,4 @@\n"));
    assert_eq!(parse_hunk(b"@@ -1,2  +3,4 @@\n"), DiffLine::Junk(b"@@ -1,2  +3,4 @@\n"));
    assert_eq!(parse_hunk(b"@@ -1,2 + @@ abc\n"), DiffLine::Junk(b"@@ -1,2 + @@ abc\n"));
    assert_eq!(parse_hunk(b"@@ -123456789\n"), DiffLine::Junk(b"@@ -123456789\n"));
    assert_eq!(parse_hunk(b"@@ -1234567 \n"), DiffLine::Junk(b"@@ -1234567 \n"));
    assert_eq!(parse_hunk(b"@@ -1 +12345\n"), DiffLine::Junk(b"@@ -1 +12345\n"));
    assert_eq!(
        parse_hunk(b"@@ -4294967296 +1 @@\n"),
        DiffLine::Junk(b"@@ -4294967296 +1 @@\n")
    );
}

#[test]
fn hunk_does_not_skip_a_token_that_is_no_range() {
    assert_eq!(
        parse_hunk(b"@@ -x +1,2 +3,4 @@\n"),
        DiffLine::Junk(b"@@ -x +1,2 +3,4 @@\n")
    );
}

#[test]
fn hunk_lengths_default_to_one() {
    assert_eq!(parse_hunk(b"@@ -3 +4,5 @@\n"), hunk(3, 1, 4, 5, None));
    assert_eq!(parse_hunk(b"@@ -3,7 +4 @@\n"), hunk(3, 7, 4, 1, None));
    assert_eq!(parse_hunk(b"@@ -3, +4,x @@\n"), hunk(3, 1, 4, 1, None));
    assert_eq!(parse_hunk(b"@@ -0,0 +1,9 @@\n"), hunk(0, 0, 1, 9, None));
    assert_eq!(
        parse_hunk(b"@@ -4294967295,4294967295 +4294967295,4294967295 @@\n"),
        hunk(4294967295, 4294967295, 4294967295, 4294967295, None)
    );
}

#[test]
fn hunk_skips_one_byte_before_the_new_range() {
    assert_eq!(parse_hunk(b"@@ -1 +12 @@\n"), hunk(1, 1, 12, 1, None));
    assert_eq!(parse_hunk(b"@@ -1 x12 @@\n"), hunk(1, 1, 12, 1, None));
    assert_eq!(parse_hunk(b"@@ -1 +12,34"), hunk(1, 1, 12, 34, None));
}

#[test]
fn hunk_context_follows_the_first_tab() {
    assert_eq!(
        parse_hunk(b"@@ -1,2 +3,4 @@\tfn main()\r\n"),
        hunk(1, 2, 3, 4, Some(b"fn main()"))
    );
    assert_eq!(
        parse_hunk(b"@@ -1,2 +3,4 @@\tfn main()"),
        hunk(1, 2, 3, 4, Some(b"fn main()"))
    );
    assert_eq!(
        parse_hunk(b"@@ -1,2 +3,4 @@\ta\tb\n"),
        hunk(1, 2, 3, 4, Some(b"a\tb"))
    );
    assert_eq!(parse_hunk(b"@@ -1,2 +3,4 @@\t\n"), hunk(1, 2, 3, 4, Some(b"")));
    assert_eq!(parse_hunk(b"@@ -1,2 +3,4 @@\t"), hunk(1, 2, 3, 4, Some(b"")));
    assert_eq!(
        parse_hunk(b"@@ -1,2 +3,4 @@\tx\r\r\n"),
        hunk(1, 2, 3, 4, Some(b"x\r"))
    );
    assert_eq!(
        parse_hunk(b"@@ -1,2 +3,4 @@ fn main()\n"),
        hunk(1, 2, 3, 4, None)
    );
    assert_eq!(
        parse_hunk(b"@@ -1,2 +3,4 @@ fn\tmain()\n"),
        hunk(1, 2, 3, 4, Some(b"main()"))
    );
}

#[test]
fn delta_is_told_by_its_first_byte() {
    assert_eq!(parse_delta(b""), DiffLine::Junk(b""));
    assert_eq!(parse_delta(b"+"), DiffLine::Inserted(b""));
    assert_eq!(parse_delta(b"-"), DiffLine::Deleted(b""));
    assert_eq!(parse_delta(b"!"), DiffLine::Modified(b""));
    assert_eq!(parse_delta(b" "), DiffLine::Context(b""));
    assert_eq!(parse_delta(b"\\"), DiffLine::NoNewlineAtEof);
    assert_eq!(parse_delta(b"\\ anything\n"), DiffLine::NoNewlineAtEof);
    assert_eq!(parse_delta(b"\n"), DiffLine::Junk(b"\n"));
    assert_eq!(parse_delta(b"\tfoo\n"), DiffLine::Junk(b"\tfoo\n"));
    assert_eq!(parse_delta(b"@@ -1 +1 @@\n"), DiffLine::Junk(b"@@ -1 +1 @@\n"));
    assert_eq!(parse_delta(b"+++ b\n"), DiffLine::Inserted(b"++ b\n"));
    assert_eq!(parse_delta(b"--- a\n"), DiffLine::Deleted(b"-- a\n"));
    assert_eq!(parse_delta(b" foo\r\n"), DiffLine::Context(b"foo\r\n"));
}

#[test]
fn parse_fileinfo_of_a_line_shorter_than_its_marker() {
    assert_eq!(
        parse_fileinfo(b"--"),
        FileInfo {
            filename: b"",
            metadata: None
        }
    );
    assert_eq!(
        parse_fileinfo(b""),
        FileInfo {
            filename: b"",
            metadata: None
        }
    );
}
