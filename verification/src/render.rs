//! Writing events back as the lines they stand for.

use crate::ascii::{BANG, COMMA, MINUS, PLUS, SPACE, TAB};
use crate::line::{DiffLine, DiffLineView, FileInfo, FileInfoView, HunkInfo, HunkInfoView};
use crate::markers::{
    binary_prefix, binary_prefix_bytes, binary_separator, binary_separator_bytes, binary_suffix,
    binary_suffix_bytes, hunk_end_marker, hunk_end_marker_bytes, hunk_marker, hunk_marker_bytes,
    hunk_new_marker, hunk_new_marker_bytes, new_file_marker, new_file_marker_bytes,
    no_newline_marker, no_newline_marker_bytes, old_file_marker, old_file_marker_bytes,
};
use crate::number::{decimal, push_decimal};
use vstd::prelude::*;
use vstd::utf8::{decode_utf8, valid_utf8};

verus! {

/// An optional annotation as it is written: a tab and the text, or nothing.
pub open spec fn rendered_annotation(text: Option<Seq<u8>>) -> Seq<u8> {
    match text {
        Some(text) => seq![TAB] + text,
        None => Seq::empty(),
    }
}

/// A range as a hunk header writes it: the start, then a comma and the
/// length unless the length is 1.
pub open spec fn rendered_range(start: u32, len: u32) -> Seq<u8> {
    if len == 1 {
        decimal(start as nat)
    } else {
        decimal(start as nat) + seq![COMMA] + decimal(len as nat)
    }
}

impl FileInfoView {
    /// The name, followed by a tab and the metadata if there is metadata.
    pub open spec fn rendered(self) -> Seq<u8> {
        self.filename + rendered_annotation(self.metadata)
    }
}

impl HunkInfoView {
    /// `@@ -` and the old range, ` +` and the new range, ` @@`, and then a
    /// tab and the context if there is context.
    pub open spec fn rendered(self) -> Seq<u8> {
        hunk_marker() + rendered_range(self.old_line_no, self.old_line_len) + hunk_new_marker()
            + rendered_range(self.new_line_no, self.new_line_len) + hunk_end_marker()
            + rendered_annotation(self.context)
    }
}

impl DiffLineView {
    /// The line that stands for this event in a unified diff. Headers are
    /// written without a line terminator; a body line is its marker and
    /// its payload, which holds whatever terminator the line had.
    pub open spec fn rendered(self) -> Seq<u8> {
        match self {
            DiffLineView::OldFile(info) => old_file_marker() + info.rendered(),
            DiffLineView::NewFile(info) => new_file_marker() + info.rendered(),
            DiffLineView::Binaries(a, b) => binary_prefix() + a + binary_separator() + b
                + binary_suffix(),
            DiffLineView::Hunk(info) => info.rendered(),
            DiffLineView::Context(body) => seq![SPACE] + body,
            DiffLineView::Inserted(body) => seq![PLUS] + body,
            DiffLineView::Deleted(body) => seq![MINUS] + body,
            DiffLineView::Modified(body) => seq![BANG] + body,
            DiffLineView::NoNewlineAtEof => no_newline_marker(),
            DiffLineView::Junk(raw) => raw,
        }
    }
}

/// The text that lossy UTF-8 decoding makes of `bytes`: the characters
/// that the bytes encode, with U+FFFD in place of what is not valid UTF-8.
pub uninterp spec fn utf8_lossy(bytes: Seq<u8>) -> Seq<char>;

/// Decodes `bytes` with `String::from_utf8_lossy`.
///
/// Taken on trust: the result is a function of the bytes alone, and for
/// bytes that are valid UTF-8 it is the text that they encode.
#[verifier::external_body]
fn decode_lossy(bytes: &[u8]) -> (text: String)
    ensures
        text@ == utf8_lossy(bytes@),
        valid_utf8(bytes@) ==> text@ == decode_utf8(bytes@),
{
    String::from_utf8_lossy(bytes).into_owned()
}

fn push_bytes(out: &mut Vec<u8>, bytes: &[u8])
    ensures
        final(out)@ == old(out)@ + bytes@,
{
    out.extend_from_slice(bytes);
    assert(out@ =~= old(out)@ + bytes@);
}

fn push_annotation(out: &mut Vec<u8>, text: Option<&[u8]>)
    ensures
        final(out)@ == old(out)@ + rendered_annotation(
            match text {
                Some(text) => Some(text@),
                None => None,
            },
        ),
{
    if let Some(text) = text {
        out.push(TAB);
        push_bytes(out, text);
    }
    assert(out@ =~= old(out)@ + rendered_annotation(
        match text {
            Some(text) => Some(text@),
            None => None,
        },
    ));
}

fn push_range(out: &mut Vec<u8>, start: u32, len: u32)
    ensures
        final(out)@ == old(out)@ + rendered_range(start, len),
{
    push_decimal(out, start);
    if len != 1 {
        out.push(COMMA);
        push_decimal(out, len);
    }
}

fn push_marked(out: &mut Vec<u8>, marker: u8, body: &[u8])
    ensures
        final(out)@ == old(out)@ + (seq![marker] + body@),
{
    out.push(marker);
    push_bytes(out, body);
}

impl<'a> FileInfo<'a> {
    /// Appends the name and metadata to `out`.
    pub fn render(&self, out: &mut Vec<u8>)
        ensures
            final(out)@ == old(out)@ + self@.rendered(),
    {
        push_bytes(out, self.filename);
        push_annotation(out, self.metadata);
    }

    /// The name and metadata as text, decoded as UTF-8 with U+FFFD in place
    /// of what is not valid.
    pub fn to_string(&self) -> (text: String)
        ensures
            text@ == utf8_lossy(self@.rendered()),
            valid_utf8(self@.rendered()) ==> text@ == decode_utf8(self@.rendered()),
    {
        let mut out = Vec::new();
        self.render(&mut out);
        decode_lossy(out.as_slice())
    }
}

impl<'a> HunkInfo<'a> {
    /// Appends the hunk header to `out`, without a line terminator.
    pub fn render(&self, out: &mut Vec<u8>)
        ensures
            final(out)@ == old(out)@ + self@.rendered(),
    {
        push_bytes(out, hunk_marker_bytes());
        push_range(out, self.old_line_no, self.old_line_len);
        push_bytes(out, hunk_new_marker_bytes());
        push_range(out, self.new_line_no, self.new_line_len);
        push_bytes(out, hunk_end_marker_bytes());
        push_annotation(out, self.context);
    }

    /// The hunk header as text, decoded as UTF-8 with U+FFFD in place of
    /// what is not valid.
    pub fn to_string(&self) -> (text: String)
        ensures
            text@ == utf8_lossy(self@.rendered()),
            valid_utf8(self@.rendered()) ==> text@ == decode_utf8(self@.rendered()),
    {
        let mut out = Vec::new();
        self.render(&mut out);
        decode_lossy(out.as_slice())
    }
}

impl<'a> DiffLine<'a> {
    /// Appends to `out` the line that stands for this event.
    pub fn render(&self, out: &mut Vec<u8>)
        ensures
            final(out)@ == old(out)@ + self@.rendered(),
    {
        match self {
            DiffLine::OldFile(info) => {
                push_bytes(out, old_file_marker_bytes());
                info.render(out);
            },
            DiffLine::NewFile(info) => {
                push_bytes(out, new_file_marker_bytes());
                info.render(out);
            },
            DiffLine::Binaries(a, b) => {
                push_bytes(out, binary_prefix_bytes());
                push_bytes(out, a);
                push_bytes(out, binary_separator_bytes());
                push_bytes(out, b);
                push_bytes(out, binary_suffix_bytes());
            },
            DiffLine::Hunk(info) => {
                info.render(out);
            },
            DiffLine::Context(body) => {
                push_marked(out, SPACE, body);
            },
            DiffLine::Inserted(body) => {
                push_marked(out, PLUS, body);
            },
            DiffLine::Deleted(body) => {
                push_marked(out, MINUS, body);
            },
            DiffLine::Modified(body) => {
                push_marked(out, BANG, body);
            },
            DiffLine::NoNewlineAtEof => {
                push_bytes(out, no_newline_marker_bytes());
            },
            DiffLine::Junk(raw) => {
                push_bytes(out, raw);
            },
        }
    }

    /// The bytes of the line that stands for this event.
    pub fn to_bytes(&self) -> (bytes: Vec<u8>)
        ensures
            bytes@ == self@.rendered(),
    {
        let mut out = Vec::new();
        self.render(&mut out);
        out
    }

    /// The line that stands for this event as text, decoded as UTF-8 with
    /// U+FFFD in place of what is not valid.
    pub fn to_string(&self) -> (text: String)
        ensures
            text@ == utf8_lossy(self@.rendered()),
            valid_utf8(self@.rendered()) ==> text@ == decode_utf8(self@.rendered()),
    {
        let bytes = self.to_bytes();
        decode_lossy(bytes.as_slice())
    }
}

} // verus!
