//! The state machine that reads a diff line by line.

use crate::ascii::LF;
use crate::bytes::{find_byte, first_byte, lemma_first_byte};
use crate::classify::{
    classify_delta, classify_hunk, classify_new_file, classify_old_file, parse_delta, parse_hunk,
    parse_new_file, parse_old_file,
};
use crate::line::{DiffLine, DiffLineView};
use vstd::prelude::*;

verus! {

/// What the parser expects of the next line.
pub enum Phase {
    /// Looking for the start of a file pair.
    Junk,
    /// The header of the old file was read; the header of the new file is
    /// due.
    OldFile,
    /// The header of the new file was read, or a hunk has ended; a hunk
    /// header is due.
    NewFile,
    /// Inside a hunk, with the numbers of lines of the old and of the new
    /// file that its header announced and that were not read yet.
    Hunk(int, int),
}

/// How many lines of the old file a line inside a hunk accounts for.
pub open spec fn old_lines(event: DiffLineView) -> int {
    match event {
        DiffLineView::Context(_) | DiffLineView::Modified(_) | DiffLineView::Deleted(_) => 1,
        _ => 0,
    }
}

/// How many lines of the new file a line inside a hunk accounts for.
pub open spec fn new_lines(event: DiffLineView) -> int {
    match event {
        DiffLineView::Context(_) | DiffLineView::Modified(_) | DiffLineView::Inserted(_) => 1,
        _ => 0,
    }
}

/// Whether `event` is one that a hunk's body is made of.
pub open spec fn is_hunk_body(event: DiffLineView) -> bool {
    match event {
        DiffLineView::Context(_)
        | DiffLineView::Modified(_)
        | DiffLineView::Inserted(_)
        | DiffLineView::Deleted(_)
        | DiffLineView::NoNewlineAtEof => true,
        _ => false,
    }
}

/// Whether a hunk with these counts left is over: a count fell below zero,
/// which happens where the header announced fewer lines than follow, or
/// both reached zero.
pub open spec fn hunk_is_over(old_left: int, new_left: int) -> bool {
    old_left < 0 || new_left < 0 || (old_left == 0 && new_left == 0)
}

impl Phase {
    /// The classification of `line` when read in this phase.
    pub open spec fn classify(self, line: Seq<u8>) -> DiffLineView {
        match self {
            Phase::Junk => classify_old_file(line),
            Phase::OldFile => classify_new_file(line),
            Phase::NewFile => classify_hunk(line),
            Phase::Hunk(_, _) => classify_delta(line),
        }
    }

    /// Whether classification in this phase can give an event of the kind
    /// of `event`, other than junk.
    pub open spec fn yields(self, event: DiffLineView) -> bool {
        match self {
            Phase::Junk => event is OldFile || event is Binaries,
            Phase::OldFile => event is NewFile,
            Phase::NewFile => event is Hunk,
            Phase::Hunk(_, _) => is_hunk_body(event),
        }
    }

    /// The phase that follows this one once a line was classified as
    /// `event`.
    ///
    /// Outside a hunk the parser moves on if the event is the one that was
    /// due, and otherwise goes back to looking for a file pair. Inside a
    /// hunk a body line is taken off the counts, and the hunk ends as
    /// `hunk_is_over` says; anything else gives up the whole file pair.
    pub open spec fn advance(self, event: DiffLineView) -> Phase {
        match self {
            Phase::Junk => if event is OldFile {
                Phase::OldFile
            } else {
                Phase::Junk
            },
            Phase::OldFile => if event is NewFile {
                Phase::NewFile
            } else {
                Phase::Junk
            },
            Phase::NewFile => match event {
                DiffLineView::Hunk(info) => Phase::Hunk(
                    info.old_line_len as int,
                    info.new_line_len as int,
                ),
                _ => Phase::Junk,
            },
            Phase::Hunk(old_left, new_left) => if is_hunk_body(event) {
                let old_left = old_left - old_lines(event);
                let new_left = new_left - new_lines(event);
                if hunk_is_over(old_left, new_left) {
                    Phase::NewFile
                } else {
                    Phase::Hunk(old_left, new_left)
                }
            } else {
                Phase::Junk
            },
        }
    }
}

/// The phase of a parser at run time.
///
/// The counts of a hunk are unsigned: a count that would fall below zero
/// ends the hunk at once and is never stored.
#[derive(Debug)]
pub enum State {
    Junk,
    OldFile,
    NewFile,
    Hunk(u32, u32),
}

impl View for State {
    type V = Phase;

    open spec fn view(&self) -> Phase {
        match self {
            State::Junk => Phase::Junk,
            State::OldFile => Phase::OldFile,
            State::NewFile => Phase::NewFile,
            State::Hunk(old_left, new_left) => Phase::Hunk(*old_left as int, *new_left as int),
        }
    }
}

impl State {
    /// Classifies `line` as this state calls for.
    pub fn classify<'a>(&self, line: &'a [u8]) -> (event: DiffLine<'a>)
        ensures
            event@ == self@.classify(line@),
    {
        match self {
            State::Junk => parse_old_file(line),
            State::OldFile => parse_new_file(line),
            State::NewFile => parse_hunk(line),
            State::Hunk(_, _) => parse_delta(line),
        }
    }

    /// The state after a line was classified as `event`.
    pub fn advance(&self, event: &DiffLine) -> (next: State)
        ensures
            next@ == self@.advance(event@),
    {
        match self {
            State::Junk => match event {
                DiffLine::OldFile(_) => State::OldFile,
                _ => State::Junk,
            },
            State::OldFile => match event {
                DiffLine::NewFile(_) => State::NewFile,
                _ => State::Junk,
            },
            State::NewFile => match event {
                DiffLine::Hunk(info) => State::Hunk(info.old_line_len, info.new_line_len),
                _ => State::Junk,
            },
            State::Hunk(old_left, new_left) => {
                let (old_used, new_used): (u32, u32) = match event {
                    DiffLine::Context(_) | DiffLine::Modified(_) => (1, 1),
                    DiffLine::Inserted(_) => (0, 1),
                    DiffLine::Deleted(_) => (1, 0),
                    DiffLine::NoNewlineAtEof => (0, 0),
                    _ => { return State::Junk; },
                };
                if *old_left < old_used || *new_left < new_used {
                    return State::NewFile;
                }
                let old_left = *old_left - old_used;
                let new_left = *new_left - new_used;
                if old_left == 0 && new_left == 0 {
                    State::NewFile
                } else {
                    State::Hunk(old_left, new_left)
                }
            },
        }
    }
}

/// The first physical line of `input`: its bytes up to and including the
/// first line feed, or all of it if it holds none.
pub open spec fn first_line(input: Seq<u8>) -> Seq<u8> {
    let lf = first_byte(input, LF);
    if lf < input.len() {
        input.take(lf + 1)
    } else {
        input
    }
}

/// The events that `input` is classified into when reading starts in
/// `phase`: one for each physical line, in the order of the lines.
pub open spec fn events(input: Seq<u8>, phase: Phase) -> Seq<DiffLineView>
    decreases input.len(),
    via events_decreases
{
    if input.len() == 0 {
        Seq::empty()
    } else {
        let line = first_line(input);
        let event = phase.classify(line);
        seq![event] + events(input.skip(line.len() as int), phase.advance(event))
    }
}

#[via_fn]
proof fn events_decreases(input: Seq<u8>, phase: Phase) {
    lemma_first_byte(input, LF);
}

/// A pull parser over the bytes of a diff.
///
/// Every call of `next_line` takes one physical line off the input and
/// hands back what it was classified as; the payloads borrow from the
/// input.
pub struct DiffParser<'a> {
    inner: &'a [u8],
    state: State,
}

impl<'a> DiffParser<'a> {
    /// The input that was not read yet.
    pub closed spec fn remaining(&self) -> Seq<u8> {
        self.inner@
    }

    /// What the parser expects of the next line.
    pub closed spec fn phase(&self) -> Phase {
        self.state@
    }

    /// A parser at the start of `inner`, looking for a file pair.
    pub fn new(inner: &'a [u8]) -> (parser: Self)
        ensures
            parser.remaining() == inner@,
            parser.phase() == Phase::Junk,
    {
        DiffParser { inner, state: State::Junk }
    }

    /// Reads and classifies the next physical line.
    ///
    /// At the end of the input this returns `None` and changes nothing.
    /// Otherwise the first line of the remaining input is classified as
    /// the phase calls for and taken off the input, and the phase advances
    /// by the event that is returned.
    pub fn next_line(&mut self) -> (next: Option<DiffLine<'a>>)
        ensures
            old(self).remaining().len() == 0 ==> next is None && final(self).remaining() == old(
                self,
            ).remaining() && final(self).phase() == old(self).phase(),
            old(self).remaining().len() > 0 ==> {
                let line = first_line(old(self).remaining());
                &&& next matches Some(event)
                &&& event@ == old(self).phase().classify(line)
                &&& final(self).phase() == old(self).phase().advance(event@)
                &&& final(self).remaining() == old(self).remaining().skip(line.len() as int)
            },
    {
        let input: &'a [u8] = self.inner;
        if input.len() == 0 {
            return None;
        }
        let lf = find_byte(input, LF);
        proof {
            lemma_first_byte(input@, LF);
        }
        let end = if lf < input.len() {
            lf + 1
        } else {
            input.len()
        };
        let line = &input[0..end];
        assert(line@ =~= first_line(input@));
        let event = self.state.classify(line);
        self.state = self.state.advance(&event);
        self.inner = &input[end..input.len()];
        Some(event)
    }
}

} // verus!
