//! What holds of the classifiers and of the phases.

use crate::ascii::{BACKSLASH, BANG, COMMA, CR, LF, MINUS, PLUS, SPACE, TAB};
use crate::bytes::{
    chomped, first_byte, holds_byte, lemma_first_byte, lemma_first_byte_after,
    lemma_first_byte_is,
};
use crate::classify::{
    after_marker, classify_hunk, classify_old_file, hunk_context, hunk_tokens,
};
use crate::line::{DiffLineView, HunkInfoView};
use crate::markers::{hunk_end_marker, hunk_marker, hunk_new_marker, MIN_HUNK_LINE};
use crate::number::{
    all_digits, lemma_digits_hold_no, lemma_parsed_range_text, parsed_u32, range_text,
};
use crate::parser::{hunk_is_over, is_hunk_body, new_lines, old_lines, Phase};
use crate::render::rendered_annotation;
use vstd::prelude::*;

verus! {

/// A hunk header written from its two range tokens and from what follows
/// the closing `@@`.
pub open spec fn hunk_header(old_token: Seq<u8>, new_token: Seq<u8>, tail: Seq<u8>) -> Seq<u8> {
    hunk_marker() + old_token + hunk_new_marker() + new_token + hunk_end_marker() + tail
}

/// The two range tokens of a hunk header are found again, whatever follows
/// the closing `@@`, provided that neither holds a space.
pub proof fn lemma_hunk_tokens(old_token: Seq<u8>, new_token: Seq<u8>, tail: Seq<u8>)
    requires
        !holds_byte(old_token, SPACE),
        !holds_byte(new_token, SPACE),
    ensures
        hunk_tokens(hunk_header(old_token, new_token, tail)) == Some((old_token, new_token)),
{
    let line = hunk_header(old_token, new_token, tail);
    let body = after_marker(line);
    let old_end = old_token.len() as int;
    assert(body =~= old_token + hunk_new_marker() + new_token + hunk_end_marker() + tail);
    lemma_first_byte_is(body, SPACE, old_end);
    let rest = body.skip(old_end + 1);
    let new_end = new_token.len() as int + 1;
    assert(rest =~= seq![PLUS] + new_token + hunk_end_marker() + tail);
    lemma_first_byte_is(rest, SPACE, new_end);
    assert(body.take(old_end) =~= old_token);
    assert(rest.subrange(1, new_end) =~= new_token);
}

/// The context of a hunk header is that of what follows the closing `@@`,
/// provided that neither range token holds a tab.
pub proof fn lemma_hunk_context(old_token: Seq<u8>, new_token: Seq<u8>, tail: Seq<u8>)
    requires
        !holds_byte(old_token, TAB),
        !holds_byte(new_token, TAB),
    ensures
        hunk_context(hunk_header(old_token, new_token, tail)) == hunk_context(tail),
{
    let head = hunk_marker() + old_token + hunk_new_marker() + new_token + hunk_end_marker();
    lemma_first_byte_after(head, tail, TAB);
    lemma_first_byte(tail, TAB);
    let tab = first_byte(tail, TAB);
    if tab < tail.len() {
        assert((head + tail).skip(head.len() + tab + 1) =~= tail.skip(tab + 1));
    }
}

/// Every well-formed hunk header is classified as a hunk with the numbers
/// that it states.
///
/// The header is `@@ -A +C @@`, where a comma and a length may follow `A`
/// and `C`, and where anything may follow the closing `@@`. The numbers
/// are runs of digits that fit 32 bits. The line as a whole is longer than
/// `@@ -1 +1 @@`. The starts are then `A` and `C`, each length is the one
/// given or 1, and the context is what follows the first tab after the
/// closing `@@`, without the line terminator.
pub proof fn lemma_well_formed_hunk(
    a: Seq<u8>,
    b: Option<Seq<u8>>,
    c: Seq<u8>,
    d: Option<Seq<u8>>,
    tail: Seq<u8>,
)
    requires
        parsed_u32(a) is Some,
        b matches Some(b) ==> parsed_u32(b) is Some,
        parsed_u32(c) is Some,
        d matches Some(d) ==> parsed_u32(d) is Some,
        hunk_header(range_text(a, b), range_text(c, d), tail).len() > MIN_HUNK_LINE,
    ensures
        classify_hunk(hunk_header(range_text(a, b), range_text(c, d), tail))
            == DiffLineView::Hunk(
            HunkInfoView {
                old_line_no: parsed_u32(a).unwrap(),
                old_line_len: match b {
                    Some(b) => parsed_u32(b).unwrap(),
                    None => 1,
                },
                new_line_no: parsed_u32(c).unwrap(),
                new_line_len: match d {
                    Some(d) => parsed_u32(d).unwrap(),
                    None => 1,
                },
                context: hunk_context(tail),
            },
        ),
{
    let old_token = range_text(a, b);
    let new_token = range_text(c, d);
    lemma_range_text_holds_no(a, b, SPACE);
    lemma_range_text_holds_no(a, b, TAB);
    lemma_range_text_holds_no(c, d, SPACE);
    lemma_range_text_holds_no(c, d, TAB);
    lemma_hunk_tokens(old_token, new_token, tail);
    lemma_hunk_context(old_token, new_token, tail);
    lemma_digits_hold_no(a, COMMA);
    lemma_digits_hold_no(c, COMMA);
    if let Some(b) = b {
        lemma_digits_hold_no(b, COMMA);
    }
    if let Some(d) = d {
        lemma_digits_hold_no(d, COMMA);
    }
    lemma_parsed_range_text(a, b);
    lemma_parsed_range_text(c, d);
    let line = hunk_header(old_token, new_token, tail);
    assert(hunk_marker().is_prefix_of(line));
}

/// Whether `s` is what can end a line: nothing, as at the end of the
/// input, a line feed, or a carriage return and a line feed.
pub open spec fn is_terminator(s: Seq<u8>) -> bool {
    s == Seq::<u8>::empty() || s == seq![LF] || s == seq![CR, LF]
}

/// After the closing `@@`, a tab and a text followed by the line's
/// terminator give that text as the context, and the terminator alone gives
/// none. The text must be what remains of it and the terminator once the
/// terminator is removed, which rules out a text that ends with a carriage
/// return before a line feed, or with a line feed before nothing.
pub proof fn lemma_hunk_context_of_tail(context: Option<Seq<u8>>, terminator: Seq<u8>)
    requires
        is_terminator(terminator),
        context matches Some(text) ==> chomped(text + terminator) == text,
    ensures
        hunk_context(rendered_annotation(context) + terminator) == context,
{
    let tail = rendered_annotation(context) + terminator;
    match context {
        Some(text) => {
            lemma_first_byte_is(tail, TAB, 0);
            assert(tail.skip(1) =~= text + terminator);
        },
        None => {
            assert(tail =~= terminator);
            lemma_first_byte_is(tail, TAB, tail.len() as int);
        },
    }
}

/// A well-formed hunk header with or without a context, as in
/// `lemma_well_formed_hunk`, where a tab and the context, if there is one,
/// and then the line's terminator follow the closing `@@`.
pub proof fn lemma_well_formed_hunk_with_context(
    a: Seq<u8>,
    b: Option<Seq<u8>>,
    c: Seq<u8>,
    d: Option<Seq<u8>>,
    context: Option<Seq<u8>>,
    terminator: Seq<u8>,
)
    requires
        parsed_u32(a) is Some,
        b matches Some(b) ==> parsed_u32(b) is Some,
        parsed_u32(c) is Some,
        d matches Some(d) ==> parsed_u32(d) is Some,
        is_terminator(terminator),
        context matches Some(text) ==> chomped(text + terminator) == text,
        hunk_header(
            range_text(a, b),
            range_text(c, d),
            rendered_annotation(context) + terminator,
        ).len() > MIN_HUNK_LINE,
    ensures
        classify_hunk(
            hunk_header(
                range_text(a, b),
                range_text(c, d),
                rendered_annotation(context) + terminator,
            ),
        ) == DiffLineView::Hunk(
            HunkInfoView {
                old_line_no: parsed_u32(a).unwrap(),
                old_line_len: match b {
                    Some(b) => parsed_u32(b).unwrap(),
                    None => 1,
                },
                new_line_no: parsed_u32(c).unwrap(),
                new_line_len: match d {
                    Some(d) => parsed_u32(d).unwrap(),
                    None => 1,
                },
                context,
            },
        ),
{
    lemma_well_formed_hunk(a, b, c, d, rendered_annotation(context) + terminator);
    lemma_hunk_context_of_tail(context, terminator);
}

/// A range written from runs of digits holds nothing but digits and commas.
proof fn lemma_range_text_holds_no(start: Seq<u8>, len: Option<Seq<u8>>, b: u8)
    requires
        all_digits(start),
        len matches Some(len) ==> all_digits(len),
        b == SPACE || b == TAB,
    ensures
        !holds_byte(range_text(start, len), b),
{
    let token = range_text(start, len);
    assert forall|i: int| 0 <= i < token.len() implies token[i] != b by {
        if i < start.len() {
            assert(token[i] == start[i]);
        } else if let Some(len) = len {
            if i > start.len() {
                assert(token[i] == len[i - start.len() - 1]);
            }
        }
    }
}

/// Inside a hunk, a context line or a modified line takes one line off both
/// counts, an inserted line one off the count of new lines, a deleted line
/// one off the count of old lines, and the marker of a missing final
/// newline nothing, as long as the hunk is not over with that.
pub proof fn lemma_hunk_counts(old_left: int, new_left: int, event: DiffLineView)
    requires
        !hunk_is_over(old_left - old_lines(event), new_left - new_lines(event)),
    ensures
        event is Context || event is Modified ==> Phase::Hunk(old_left, new_left).advance(event)
            == Phase::Hunk(old_left - 1, new_left - 1),
        event is Inserted ==> Phase::Hunk(old_left, new_left).advance(event) == Phase::Hunk(
            old_left,
            new_left - 1,
        ),
        event is Deleted ==> Phase::Hunk(old_left, new_left).advance(event) == Phase::Hunk(
            old_left - 1,
            new_left,
        ),
        event is NoNewlineAtEof ==> Phase::Hunk(old_left, new_left).advance(event) == Phase::Hunk(
            old_left,
            new_left,
        ),
{
}

/// Once a line of a hunk's body has brought both counts to zero, or one of
/// them below zero, a hunk header is due: the line after it is classified
/// as one, whatever it holds.
pub proof fn lemma_hunk_over(old_left: int, new_left: int, event: DiffLineView, next: Seq<u8>)
    requires
        is_hunk_body(event),
        hunk_is_over(old_left - old_lines(event), new_left - new_lines(event)),
    ensures
        Phase::Hunk(old_left, new_left).advance(event) == Phase::NewFile,
        Phase::Hunk(old_left, new_left).advance(event).classify(next) == classify_hunk(next),
{
}

/// Inside a hunk, a line that opens with none of the five markers is junk
/// and ends the file pair: the line after it is classified as the start of
/// a file pair, whatever it holds.
pub proof fn lemma_hunk_junk(old_left: int, new_left: int, line: Seq<u8>, next: Seq<u8>)
    requires
        line.len() > 0 ==> {
            &&& line[0] != PLUS
            &&& line[0] != MINUS
            &&& line[0] != BANG
            &&& line[0] != SPACE
            &&& line[0] != BACKSLASH
        },
    ensures
        Phase::Hunk(old_left, new_left).classify(line) == DiffLineView::Junk(line),
        Phase::Hunk(old_left, new_left).advance(DiffLineView::Junk(line)) == Phase::Junk,
        Phase::Junk.classify(next) == classify_old_file(next),
{
}

/// In every phase a line is junk or of a kind that the phase yields.
pub proof fn lemma_classify_yields(phase: Phase, line: Seq<u8>)
    ensures
        phase.classify(line) is Junk || phase.yields(phase.classify(line)),
{
}

} // verus!
