//! The four classifiers, one for each place in which a line can stand.
//!
//! Each is a total function of the line alone: a line that is not what the
//! classifier looks for is `Junk`, never an error.

use crate::ascii::{BACKSLASH, BANG, CR, LF, MINUS, PLUS, SPACE, TAB};
use crate::bytes::{
    chomp, chomped, ends_with, find_byte, find_subslice, first_byte, first_occurrence,
    lemma_first_byte, lemma_first_occurrence, starts_with, strip_newline, without_newline,
};
use crate::line::{DiffLine, DiffLineView, FileInfo, FileInfoView, HunkInfo, HunkInfoView};
use crate::markers::{
    binary_prefix, binary_prefix_bytes, binary_separator, binary_separator_bytes, binary_suffix,
    binary_suffix_bytes, hunk_marker, hunk_marker_bytes, new_file_marker, new_file_marker_bytes,
    old_file_marker, old_file_marker_bytes, MIN_FILE_LINE, MIN_HUNK_LINE,
};
use crate::number::{parse_range, parsed_range};
use vstd::prelude::*;

verus! {

/// Where a file name ends: the index of the first tab, carriage return or
/// line feed in `s`, or `s.len()` if it holds none of them.
pub open spec fn field_end(s: Seq<u8>) -> int {
    let tab = first_byte(s, TAB);
    let cr = first_byte(s, CR);
    let lf = first_byte(s, LF);
    if tab <= cr && tab <= lf {
        tab
    } else if cr <= lf {
        cr
    } else {
        lf
    }
}

/// Whether `b` ends a file name.
pub open spec fn ends_field(b: u8) -> bool {
    b == TAB || b == CR || b == LF
}

/// What `field_end` returns: an index within `0..=s.len()` before which no
/// byte ends the field and at which one does, unless the index is `s.len()`.
pub proof fn lemma_field_end(s: Seq<u8>)
    ensures
        0 <= field_end(s) <= s.len(),
        field_end(s) < s.len() ==> ends_field(s[field_end(s)]),
        forall|j: int| 0 <= j < field_end(s) ==> !ends_field(#[trigger] s[j]),
{
    lemma_first_byte(s, TAB);
    lemma_first_byte(s, CR);
    lemma_first_byte(s, LF);
}

/// The converse of `lemma_field_end`: such an index is `field_end(s)`.
pub proof fn lemma_field_end_is(s: Seq<u8>, i: int)
    requires
        0 <= i <= s.len(),
        i < s.len() ==> ends_field(s[i]),
        forall|j: int| 0 <= j < i ==> !ends_field(#[trigger] s[j]),
    ensures
        field_end(s) == i,
{
    lemma_field_end(s);
    let e = field_end(s);
    if e < i {
        assert(!ends_field(s[e]));
    } else if i < e {
        assert(!ends_field(s[i]));
    }
}

fn find_field_end(s: &[u8]) -> (i: usize)
    ensures
        i == field_end(s@),
{
    let mut i: usize = 0;
    while i < s.len() && s[i] != TAB && s[i] != CR && s[i] != LF
        invariant
            i <= s.len(),
            forall|j: int| 0 <= j < i ==> !ends_field(#[trigger] s@[j]),
        decreases s.len() - i,
    {
        i += 1;
    }
    proof {
        lemma_field_end_is(s@, i as int);
    }
    i
}

/// What follows the four bytes of a line's marker; nothing if the line is
/// shorter than that.
pub open spec fn after_marker(line: Seq<u8>) -> Seq<u8> {
    if line.len() >= 4 {
        line.skip(4)
    } else {
        Seq::empty()
    }
}

/// The file that a header line names. The name is what follows the four
/// bytes of the marker, up to the first tab, carriage return or line feed.
/// If a tab ends the name, the metadata is what follows the tab, without
/// the line feed that ends the line; otherwise there is no metadata.
pub open spec fn parsed_fileinfo(line: Seq<u8>) -> FileInfoView {
    let body = after_marker(line);
    let end = field_end(body);
    FileInfoView {
        filename: body.take(end),
        metadata: if end < body.len() && body[end] == TAB {
            Some(without_newline(body.skip(end + 1)))
        } else {
            None
        },
    }
}

/// Reads the file name and metadata of a header line, whose first four
/// bytes are taken to be the marker.
pub fn parse_fileinfo<'a>(line: &'a [u8]) -> (info: FileInfo<'a>)
    ensures
        info@ == parsed_fileinfo(line@),
{
    let body = if line.len() >= 4 {
        &line[4..line.len()]
    } else {
        &line[0..0]
    };
    assert(body@ =~= after_marker(line@));
    let end = find_field_end(body);
    proof {
        lemma_field_end(body@);
    }
    let metadata = if end < body.len() && body[end] == TAB {
        Some(strip_newline(&body[end + 1..body.len()]))
    } else {
        None
    };
    FileInfo { filename: &body[0..end], metadata }
}

/// The two names on a line of the form `Binary files A and B differ`
/// followed by a line feed, split at the first ` and ` between the fixed
/// opening and closing. Nothing if the line has another form.
pub open spec fn binary_names(line: Seq<u8>) -> Option<(Seq<u8>, Seq<u8>)> {
    if line.len() >= binary_prefix().len() + binary_suffix().len() && binary_prefix().is_prefix_of(
        line,
    ) && binary_suffix().is_suffix_of(line) {
        let names = line.subrange(
            binary_prefix().len() as int,
            line.len() - binary_suffix().len(),
        );
        match first_occurrence(names, binary_separator()) {
            Some(at) => Some((names.take(at), names.skip(at + binary_separator().len()))),
            None => None,
        }
    } else {
        None
    }
}

/// Whether `line` opens with `marker` and is long enough to name a file.
pub open spec fn is_file_line(line: Seq<u8>, marker: Seq<u8>) -> bool {
    line.len() >= MIN_FILE_LINE && marker.is_prefix_of(line)
}

/// A line read where a file pair may start: a report of two differing
/// binary files, the header of the old file, or junk.
pub open spec fn classify_old_file(line: Seq<u8>) -> DiffLineView {
    match binary_names(line) {
        Some((a, b)) => DiffLineView::Binaries(a, b),
        None => if is_file_line(line, old_file_marker()) {
            DiffLineView::OldFile(parsed_fileinfo(line))
        } else {
            DiffLineView::Junk(line)
        },
    }
}

/// A line read after the header of the old file: the header of the new
/// file, or junk.
pub open spec fn classify_new_file(line: Seq<u8>) -> DiffLineView {
    if is_file_line(line, new_file_marker()) {
        DiffLineView::NewFile(parsed_fileinfo(line))
    } else {
        DiffLineView::Junk(line)
    }
}

/// The two range tokens of a hunk header: what stands between the marker
/// and the first space, and what stands between the byte after that space
/// and the next space or the end of the line. Nothing if no space follows
/// the first token or nothing follows that space.
pub open spec fn hunk_tokens(line: Seq<u8>) -> Option<(Seq<u8>, Seq<u8>)> {
    let body = after_marker(line);
    let old_end = first_byte(body, SPACE);
    let rest = body.skip(old_end + 1);
    let new_end = first_byte(rest, SPACE);
    if old_end < body.len() && new_end >= 1 {
        Some((body.take(old_end), rest.subrange(1, new_end)))
    } else {
        None
    }
}

/// The text that follows the first tab of a hunk header, without the
/// `\r\n` or `\n` that ends the line. Nothing if the line holds no tab.
pub open spec fn hunk_context(line: Seq<u8>) -> Option<Seq<u8>> {
    let tab = first_byte(line, TAB);
    if tab < line.len() {
        Some(chomped(line.skip(tab + 1)))
    } else {
        None
    }
}

/// A line read after the header of the new file or after a finished hunk:
/// a hunk header, or junk.
///
/// A hunk header is longer than `@@ -1 +1 @@`, opens with `@@ -` and holds
/// two range tokens that both have a start.
pub open spec fn classify_hunk(line: Seq<u8>) -> DiffLineView {
    if line.len() > MIN_HUNK_LINE && hunk_marker().is_prefix_of(line) {
        match hunk_tokens(line) {
            Some((old_token, new_token)) => match (
                parsed_range(old_token),
                parsed_range(new_token),
            ) {
                (Some(old), Some(new)) => DiffLineView::Hunk(
                    HunkInfoView {
                        old_line_no: old.0,
                        old_line_len: old.1,
                        new_line_no: new.0,
                        new_line_len: new.1,
                        context: hunk_context(line),
                    },
                ),
                _ => DiffLineView::Junk(line),
            },
            None => DiffLineView::Junk(line),
        }
    } else {
        DiffLineView::Junk(line)
    }
}

/// A line read inside a hunk, told by its first byte. The payload of a
/// body line is the line without that byte.
pub open spec fn classify_delta(line: Seq<u8>) -> DiffLineView {
    if line.len() == 0 {
        DiffLineView::Junk(line)
    } else if line[0] == PLUS {
        DiffLineView::Inserted(line.skip(1))
    } else if line[0] == MINUS {
        DiffLineView::Deleted(line.skip(1))
    } else if line[0] == BANG {
        DiffLineView::Modified(line.skip(1))
    } else if line[0] == SPACE {
        DiffLineView::Context(line.skip(1))
    } else if line[0] == BACKSLASH {
        DiffLineView::NoNewlineAtEof
    } else {
        DiffLineView::Junk(line)
    }
}

/// Classifies a line read where a file pair may start.
pub fn parse_old_file<'a>(line: &'a [u8]) -> (event: DiffLine<'a>)
    ensures
        event@ == classify_old_file(line@),
{
    let prefix = binary_prefix_bytes();
    let suffix = binary_suffix_bytes();
    if line.len() >= prefix.len() + suffix.len() && starts_with(line, prefix) && ends_with(
        line,
        suffix,
    ) {
        let names = &line[prefix.len()..line.len() - suffix.len()];
        let separator = binary_separator_bytes();
        if let Some(at) = find_subslice(names, separator) {
            proof {
                lemma_first_occurrence(names@, separator@);
            }
            return DiffLine::Binaries(&names[0..at], &names[at + separator.len()..names.len()]);
        }
    }
    if line.len() >= MIN_FILE_LINE && starts_with(line, old_file_marker_bytes()) {
        return DiffLine::OldFile(parse_fileinfo(line));
    }
    DiffLine::Junk(line)
}

/// Classifies a line read after the header of the old file.
pub fn parse_new_file<'a>(line: &'a [u8]) -> (event: DiffLine<'a>)
    ensures
        event@ == classify_new_file(line@),
{
    if line.len() >= MIN_FILE_LINE && starts_with(line, new_file_marker_bytes()) {
        return DiffLine::NewFile(parse_fileinfo(line));
    }
    DiffLine::Junk(line)
}

/// Classifies a line read where a hunk header may stand.
pub fn parse_hunk<'a>(line: &'a [u8]) -> (event: DiffLine<'a>)
    ensures
        event@ == classify_hunk(line@),
{
    if line.len() > MIN_HUNK_LINE && starts_with(line, hunk_marker_bytes()) {
        let body = &line[4..line.len()];
        let old_end = find_byte(body, SPACE);
        proof {
            lemma_first_byte(body@, SPACE);
        }
        if old_end == body.len() {
            return DiffLine::Junk(line);
        }
        let rest = &body[old_end + 1..body.len()];
        let new_end = find_byte(rest, SPACE);
        proof {
            lemma_first_byte(rest@, SPACE);
        }
        if new_end == 0 {
            return DiffLine::Junk(line);
        }
        let old = parse_range(&body[0..old_end]);
        let new = parse_range(&rest[1..new_end]);
        if let (Some(old), Some(new)) = (old, new) {
            let tab = find_byte(line, TAB);
            proof {
                lemma_first_byte(line@, TAB);
            }
            let context = if tab < line.len() {
                Some(chomp(&line[tab + 1..line.len()]))
            } else {
                None
            };
            return DiffLine::Hunk(
                HunkInfo {
                    old_line_no: old.0,
                    old_line_len: old.1,
                    new_line_no: new.0,
                    new_line_len: new.1,
                    context,
                },
            );
        }
        return DiffLine::Junk(line);
    }
    DiffLine::Junk(line)
}

/// Classifies a line read inside a hunk.
pub fn parse_delta<'a>(line: &'a [u8]) -> (event: DiffLine<'a>)
    ensures
        event@ == classify_delta(line@),
{
    if line.len() == 0 {
        return DiffLine::Junk(line);
    }
    let marker = line[0];
    if marker == PLUS {
        DiffLine::Inserted(&line[1..line.len()])
    } else if marker == MINUS {
        DiffLine::Deleted(&line[1..line.len()])
    } else if marker == BANG {
        DiffLine::Modified(&line[1..line.len()])
    } else if marker == SPACE {
        DiffLine::Context(&line[1..line.len()])
    } else if marker == BACKSLASH {
        DiffLine::NoNewlineAtEof
    } else {
        DiffLine::Junk(line)
    }
}

} // verus!
