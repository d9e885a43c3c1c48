//! Counting what a diff changes.

use crate::ascii::LF;
use crate::bytes::lemma_first_byte;
use crate::line::{DiffLine, DiffLineView};
use crate::parser::{events, DiffParser, Phase};
use vstd::prelude::*;

verus! {

/// How many files, hunks and lines a diff changes.
#[derive(Debug, PartialEq, Eq, Clone, Copy)]
pub struct DiffStat {
    /// Headers of new files and reports of differing binary files.
    pub files: usize,
    /// Hunk headers.
    pub hunks: usize,
    /// Inserted lines.
    pub insertions: usize,
    /// Deleted lines.
    pub deletions: usize,
    /// Lines marked as modified.
    pub modifications: usize,
}

/// The counts of a `DiffStat`, unbounded.
pub struct Tally {
    pub files: nat,
    pub hunks: nat,
    pub insertions: nat,
    pub deletions: nat,
    pub modifications: nat,
}

impl View for DiffStat {
    type V = Tally;

    open spec fn view(&self) -> Tally {
        Tally {
            files: self.files as nat,
            hunks: self.hunks as nat,
            insertions: self.insertions as nat,
            deletions: self.deletions as nat,
            modifications: self.modifications as nat,
        }
    }
}

impl Tally {
    /// Nothing counted.
    pub open spec fn zero() -> Tally {
        Tally { files: 0, hunks: 0, insertions: 0, deletions: 0, modifications: 0 }
    }

    /// These counts with `event` added: the header of a new file and a
    /// report of binary files count as a file, a hunk header as a hunk, an
    /// inserted, deleted or modified line as such; nothing else counts.
    pub open spec fn record(self, event: DiffLineView) -> Tally {
        match event {
            DiffLineView::NewFile(_) | DiffLineView::Binaries(_, _) => Tally {
                files: self.files + 1,
                ..self
            },
            DiffLineView::Hunk(_) => Tally { hunks: self.hunks + 1, ..self },
            DiffLineView::Inserted(_) => Tally { insertions: self.insertions + 1, ..self },
            DiffLineView::Deleted(_) => Tally { deletions: self.deletions + 1, ..self },
            DiffLineView::Modified(_) => Tally { modifications: self.modifications + 1, ..self },
            _ => self,
        }
    }

    /// The largest of the five counts is at most `bound`.
    pub open spec fn within(self, bound: int) -> bool {
        &&& self.files <= bound
        &&& self.hunks <= bound
        &&& self.insertions <= bound
        &&& self.deletions <= bound
        &&& self.modifications <= bound
    }
}

/// The counts of a sequence of events.
pub open spec fn tally(events: Seq<DiffLineView>) -> Tally
    decreases events.len(),
{
    if events.len() == 0 {
        Tally::zero()
    } else {
        tally(events.drop_last()).record(events.last())
    }
}

/// Reads the whole of `diff` and counts what it changes.
pub fn diffstat(diff: &[u8]) -> (stat: DiffStat)
    ensures
        stat@ == tally(events(diff@, Phase::Junk)),
{
    let mut stat = DiffStat { files: 0, hunks: 0, insertions: 0, deletions: 0, modifications: 0 };
    let mut parser = DiffParser::new(diff);
    let ghost mut seen: Seq<DiffLineView> = Seq::empty();
    loop
        invariant
            events(diff@, Phase::Junk) == seen + events(parser.remaining(), parser.phase()),
            stat@ == tally(seen),
            stat@.within(seen.len() as int),
            seen.len() + parser.remaining().len() <= diff@.len(),
        decreases parser.remaining().len(),
    {
        let ghost before = parser;
        let event = match parser.next_line() {
            Some(event) => event,
            None => {
                assert(seen + events(before.remaining(), before.phase()) =~= seen);
                return stat;
            },
        };
        proof {
            // The line that was read holds at least one byte, so there are
            // fewer events than bytes and no count can overflow.
            lemma_first_byte(before.remaining(), LF);
            assert(seen.len() < diff@.len() == diff.len() <= usize::MAX);
            let rest = events(parser.remaining(), parser.phase());
            assert(events(before.remaining(), before.phase()) == seq![event@] + rest);
            assert(seen + (seq![event@] + rest) =~= seen.push(event@) + rest);
            assert(seen.push(event@).drop_last() =~= seen);
            seen = seen.push(event@);
        }
        match event {
            DiffLine::Inserted(_) => { stat.insertions += 1; },
            DiffLine::Deleted(_) => { stat.deletions += 1; },
            DiffLine::Modified(_) => { stat.modifications += 1; },
            DiffLine::Hunk(_) => { stat.hunks += 1; },
            DiffLine::NewFile(_) => { stat.files += 1; },
            DiffLine::Binaries(_, _) => { stat.files += 1; },
            _ => {},
        }
    }
}

} // verus!
