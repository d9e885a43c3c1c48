//! Rendering an event and classifying the result again.

use crate::ascii::{BACKSLASH, CR, LF, TAB};
use crate::bytes::{
    chomped, first_byte, first_occurrence, lemma_first_byte, lemma_first_byte_is,
    lemma_first_occurrence, occurs_at, without_newline,
};
use crate::classify::{
    after_marker, binary_names, classify_delta, classify_hunk, classify_new_file,
    classify_old_file, ends_field, field_end, hunk_context, lemma_field_end, lemma_field_end_is,
    parsed_fileinfo,
};
use crate::laws::{hunk_header, lemma_classify_yields, lemma_well_formed_hunk};
use crate::line::{DiffLineView, FileInfoView, HunkInfoView};
use crate::markers::{
    binary_prefix, binary_separator, binary_suffix, new_file_marker, old_file_marker,
    MIN_FILE_LINE, MIN_HUNK_LINE,
};
use crate::number::{decimal, lemma_parse_decimal, range_text};
use crate::parser::{first_line, is_hunk_body, Phase};
use crate::render::{rendered_annotation, rendered_range};
use vstd::prelude::*;

verus! {

/// Whether `s` ends with a line feed.
pub open spec fn ends_with_newline(s: Seq<u8>) -> bool {
    s.len() > 0 && s.last() == LF
}

/// Whether a file's name and metadata can be read back from what
/// `rendered` writes: the name holds no tab, carriage return or line feed,
/// and the metadata does not end with a line feed.
pub open spec fn file_reads_back(info: FileInfoView) -> bool {
    &&& forall|i: int| 0 <= i < info.filename.len() ==> !ends_field(#[trigger] info.filename[i])
    &&& info.metadata matches Some(metadata) ==> !ends_with_newline(metadata)
}

/// Whether an event can be read back from what `rendered` writes.
///
/// A header of a file must also be as long as the shortest line that names
/// a file, which a name of one byte without metadata is not. A report of
/// binary files must have its first ` and ` between the two names. A hunk
/// header must be longer than `@@ -1 +1 @@`, and its context must not end
/// with a line feed. Every line of a hunk's body can be read back.
pub open spec fn reads_back(event: DiffLineView) -> bool {
    match event {
        DiffLineView::OldFile(info) | DiffLineView::NewFile(info) => {
            &&& event.rendered().len() >= MIN_FILE_LINE
            &&& file_reads_back(info)
        },
        DiffLineView::Binaries(a, b) => first_occurrence(
            a + binary_separator() + b,
            binary_separator(),
        ) == Some(a.len() as int),
        DiffLineView::Hunk(info) => {
            &&& event.rendered().len() > MIN_HUNK_LINE
            &&& info.context matches Some(context) ==> !ends_with_newline(context)
        },
        DiffLineView::Junk(_) => false,
        _ => true,
    }
}

/// What is read from a rendered name and metadata, after any marker of
/// four bytes, is that name and metadata exactly if they can be read back.
pub proof fn lemma_fileinfo_round_trip(marker: Seq<u8>, info: FileInfoView)
    requires
        marker.len() == 4,
    ensures
        parsed_fileinfo(marker + info.rendered()) == info <==> file_reads_back(info),
{
    let body = after_marker(marker + info.rendered());
    assert(body =~= info.rendered());
    let name = info.filename;
    let read = parsed_fileinfo(marker + info.rendered());
    lemma_field_end(body);
    if forall|i: int| 0 <= i < name.len() ==> !ends_field(#[trigger] name[i]) {
        assert forall|j: int| 0 <= j < name.len() implies !ends_field(#[trigger] body[j]) by {
            assert(body[j] == name[j]);
        }
        lemma_field_end_is(body, name.len() as int);
        assert(read.filename =~= name);
        match info.metadata {
            Some(metadata) => {
                assert(body.skip(name.len() as int + 1) =~= metadata);
                assert(read.metadata == Some(without_newline(metadata)));
                if !ends_with_newline(metadata) {
                    assert(read.metadata == info.metadata);
                } else {
                    assert(without_newline(metadata).len() != metadata.len());
                }
            },
            None => {},
        }
    } else {
        let k = choose|k: int| 0 <= k < name.len() && ends_field(#[trigger] name[k]);
        assert(body[k] == name[k]);
        assert(field_end(body) <= k);
        assert(read.filename.len() != name.len());
    }
}

proof fn lemma_old_file_round_trip(info: FileInfoView)
    ensures
        classify_old_file(DiffLineView::OldFile(info).rendered()) == DiffLineView::OldFile(info)
            <==> reads_back(DiffLineView::OldFile(info)),
{
    let line = DiffLineView::OldFile(info).rendered();
    lemma_no_binary_names(old_file_marker(), info.rendered());
    lemma_fileinfo_round_trip(old_file_marker(), info);
    assert(old_file_marker() =~= line.subrange(0, 4));
}

proof fn lemma_new_file_round_trip(info: FileInfoView)
    ensures
        classify_new_file(DiffLineView::NewFile(info).rendered()) == DiffLineView::NewFile(info)
            <==> reads_back(DiffLineView::NewFile(info)),
{
    let line = DiffLineView::NewFile(info).rendered();
    lemma_fileinfo_round_trip(new_file_marker(), info);
    assert(new_file_marker() =~= line.subrange(0, 4));
}

proof fn lemma_binaries_round_trip(a: Seq<u8>, b: Seq<u8>)
    ensures
        classify_old_file(DiffLineView::Binaries(a, b).rendered()) == DiffLineView::Binaries(a, b)
            <==> reads_back(DiffLineView::Binaries(a, b)),
{
    let line = DiffLineView::Binaries(a, b).rendered();
    let separator = binary_separator();
    let names = a + separator + b;
    assert(binary_prefix() =~= line.subrange(0, binary_prefix().len() as int));
    assert(binary_suffix() =~= line.subrange(
        line.len() - binary_suffix().len(),
        line.len() as int,
    ));
    assert(line.subrange(binary_prefix().len() as int, line.len() - binary_suffix().len())
        =~= names);
    assert(names.subrange(a.len() as int, a.len() as int + separator.len()) =~= separator);
    assert(occurs_at(names, separator, a.len() as int));
    lemma_first_occurrence(names, separator);
    let at = first_occurrence(names, separator).unwrap();
    if at == a.len() {
        assert(names.take(at) =~= a);
        assert(names.skip(at + separator.len()) =~= b);
    } else {
        assert(names.take(at).len() != a.len());
    }
}

proof fn lemma_hunk_round_trip(info: HunkInfoView)
    ensures
        classify_hunk(DiffLineView::Hunk(info).rendered()) == DiffLineView::Hunk(info)
            <==> reads_back(DiffLineView::Hunk(info)),
{
    let line = DiffLineView::Hunk(info).rendered();
    if line.len() > MIN_HUNK_LINE {
        let a = decimal(info.old_line_no as nat);
        let b = if info.old_line_len == 1 {
            None
        } else {
            Some(decimal(info.old_line_len as nat))
        };
        let c = decimal(info.new_line_no as nat);
        let d = if info.new_line_len == 1 {
            None
        } else {
            Some(decimal(info.new_line_len as nat))
        };
        let tail = rendered_annotation(info.context);
        lemma_parse_decimal(info.old_line_no);
        lemma_parse_decimal(info.old_line_len);
        lemma_parse_decimal(info.new_line_no);
        lemma_parse_decimal(info.new_line_len);
        assert(range_text(a, b) =~= rendered_range(info.old_line_no, info.old_line_len));
        assert(range_text(c, d) =~= rendered_range(info.new_line_no, info.new_line_len));
        assert(line == hunk_header(range_text(a, b), range_text(c, d), tail));
        lemma_well_formed_hunk(a, b, c, d, tail);
        lemma_first_byte(tail, TAB);
        match info.context {
            Some(context) => {
                lemma_first_byte_is(tail, TAB, 0);
                assert(tail.skip(1) =~= context);
                if ends_with_newline(context) {
                    assert(chomped(context).len() != context.len());
                } else {
                    assert(chomped(context) == context);
                }
            },
            None => {},
        }
    }
}

proof fn lemma_body_round_trip(event: DiffLineView)
    requires
        is_hunk_body(event),
    ensures
        classify_delta(event.rendered()) == event,
{
    let line = event.rendered();
    match event {
        DiffLineView::Context(body) => {
            assert(line.skip(1) =~= body);
        },
        DiffLineView::Inserted(body) => {
            assert(line.skip(1) =~= body);
        },
        DiffLineView::Deleted(body) => {
            assert(line.skip(1) =~= body);
        },
        DiffLineView::Modified(body) => {
            assert(line.skip(1) =~= body);
        },
        _ => {
            assert(line[0] == BACKSLASH);
        },
    }
}

/// Rendering and reading back: where `event` is of a kind that `phase`
/// yields, classifying in that phase the line that `event` is rendered as
/// gives `event` again, exactly if `event` can be read back.
pub proof fn lemma_round_trip(phase: Phase, event: DiffLineView)
    requires
        phase.yields(event),
    ensures
        reads_back(event) ==> phase.classify(event.rendered()) == event,
        !reads_back(event) ==> phase.classify(event.rendered()) != event,
{
    match event {
        DiffLineView::OldFile(info) => {
            lemma_old_file_round_trip(info);
        },
        DiffLineView::NewFile(info) => {
            lemma_new_file_round_trip(info);
        },
        DiffLineView::Binaries(a, b) => {
            lemma_binaries_round_trip(a, b);
        },
        DiffLineView::Hunk(info) => {
            lemma_hunk_round_trip(info);
        },
        _ => {
            lemma_body_round_trip(event);
        },
    }
}

/// Whether `line` is one physical line: it holds no line feed but, at
/// most, as its last byte.
pub open spec fn is_physical_line(line: Seq<u8>) -> bool {
    forall|i: int| 0 <= i < line.len() - 1 ==> line[i] != LF
}

/// Every line that the parser takes off its input is one physical line.
pub proof fn lemma_first_line_is_physical(input: Seq<u8>)
    ensures
        is_physical_line(first_line(input)),
{
    lemma_first_byte(input, LF);
}

/// Whether what `event` is rendered as is long enough to be classified as
/// a header again. The header of a file is written without its line
/// terminator and so comes out too short where the name has one byte and
/// there is no metadata, as in `--- x`; a hunk header comes out too short
/// where it is `@@ -1 +1 @@` with other digits.
pub open spec fn renders_long_enough(event: DiffLineView) -> bool {
    match event {
        DiffLineView::OldFile(_) | DiffLineView::NewFile(_) => event.rendered().len()
            >= MIN_FILE_LINE,
        DiffLineView::Hunk(_) => event.rendered().len() > MIN_HUNK_LINE,
        _ => true,
    }
}

proof fn lemma_parsed_fileinfo_reads_back(line: Seq<u8>)
    requires
        is_physical_line(line),
    ensures
        file_reads_back(parsed_fileinfo(line)),
{
    let body = after_marker(line);
    let end = field_end(body);
    lemma_field_end(body);
    let info = parsed_fileinfo(line);
    assert forall|i: int| 0 <= i < info.filename.len() implies !ends_field(
        #[trigger] info.filename[i],
    ) by {
        assert(info.filename[i] == body[i]);
    }
    if end < body.len() && body[end] == TAB {
        let rest = body.skip(end + 1);
        let metadata = without_newline(rest);
        if ends_with_newline(metadata) {
            assert(ends_with_newline(rest));
            assert(metadata.last() == line[line.len() - 2]);
        }
    }
}

proof fn lemma_hunk_context_reads_back(line: Seq<u8>)
    requires
        is_physical_line(line),
    ensures
        hunk_context(line) matches Some(context) ==> !ends_with_newline(context),
{
    let tab = first_byte(line, TAB);
    lemma_first_byte(line, TAB);
    if tab < line.len() {
        let rest = line.skip(tab + 1);
        let context = chomped(rest);
        if ends_with_newline(context) {
            if rest.len() >= 2 && rest[rest.len() - 2] == CR && rest[rest.len() - 1] == LF {
                assert(context.last() == line[line.len() - 3]);
            } else {
                assert(ends_with_newline(rest));
                assert(context.last() == line[line.len() - 2]);
            }
        }
    }
}

proof fn lemma_binary_names_read_back(line: Seq<u8>)
    ensures
        binary_names(line) matches Some((a, b)) ==> reads_back(DiffLineView::Binaries(a, b)),
{
    if let Some((a, b)) = binary_names(line) {
        let separator = binary_separator();
        let names = line.subrange(
            binary_prefix().len() as int,
            line.len() - binary_suffix().len(),
        );
        lemma_first_occurrence(names, separator);
        let at = first_occurrence(names, separator).unwrap();
        assert(names.subrange(at, at + separator.len()) == separator);
        assert(a + separator + b =~= names);
    }
}

/// Parsing, rendering and parsing again: an event that one physical line
/// was classified as, if it is not junk, is what its rendering is
/// classified as in the same phase, exactly if that rendering is long
/// enough.
pub proof fn lemma_parse_render_parse(phase: Phase, line: Seq<u8>)
    requires
        is_physical_line(line),
    ensures
        ({
            let event = phase.classify(line);
            event is Junk || (phase.classify(event.rendered()) == event <==> renders_long_enough(
                event,
            ))
        }),
{
    let event = phase.classify(line);
    if !(event is Junk) {
        lemma_classify_yields(phase, line);
        lemma_round_trip(phase, event);
        match event {
            DiffLineView::OldFile(_) | DiffLineView::NewFile(_) => {
                lemma_parsed_fileinfo_reads_back(line);
            },
            DiffLineView::Binaries(_, _) => {
                lemma_binary_names_read_back(line);
            },
            DiffLineView::Hunk(_) => {
                lemma_hunk_context_reads_back(line);
            },
            _ => {},
        }
    }
}

/// A line that opens with the marker of an old file is no report of binary
/// files.
proof fn lemma_no_binary_names(marker: Seq<u8>, rest: Seq<u8>)
    requires
        marker == old_file_marker(),
    ensures
        binary_names(marker + rest) is None,
{
    let line = marker + rest;
    if binary_prefix().is_prefix_of(line) {
        assert(line.subrange(0, binary_prefix().len() as int)[0] == binary_prefix()[0]);
    }
}

} // verus!
