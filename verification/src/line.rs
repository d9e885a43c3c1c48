//! The events that the lines of a diff are classified into.

use vstd::prelude::*;

verus! {

/// A file named by a `---` or `+++` header line.
///
/// Both fields borrow from the line that was classified.
#[derive(Debug, PartialEq)]
pub struct FileInfo<'a> {
    /// The name as written, neither copied nor checked to be a path.
    pub filename: &'a [u8],
    /// What follows the tab after the name, such as a timestamp or a
    /// revision; present exactly when a tab ends the name.
    pub metadata: Option<&'a [u8]>,
}

/// The contents of a `FileInfo`.
pub struct FileInfoView {
    pub filename: Seq<u8>,
    pub metadata: Option<Seq<u8>>,
}

impl<'a> View for FileInfo<'a> {
    type V = FileInfoView;

    open spec fn view(&self) -> FileInfoView {
        FileInfoView {
            filename: self.filename@,
            metadata: match self.metadata {
                Some(metadata) => Some(metadata@),
                None => None,
            },
        }
    }
}

/// The ranges of a hunk header `@@ -old_no,old_len +new_no,new_len @@`.
///
/// A length that the header leaves out is 1.
#[derive(Debug, PartialEq)]
pub struct HunkInfo<'a> {
    pub old_line_no: u32,
    pub old_line_len: u32,
    pub new_line_no: u32,
    pub new_line_len: u32,
    /// The free text that some tools append to the header after a tab, such
    /// as the signature of the enclosing function.
    pub context: Option<&'a [u8]>,
}

/// The contents of a `HunkInfo`.
pub struct HunkInfoView {
    pub old_line_no: u32,
    pub old_line_len: u32,
    pub new_line_no: u32,
    pub new_line_len: u32,
    pub context: Option<Seq<u8>>,
}

impl<'a> View for HunkInfo<'a> {
    type V = HunkInfoView;

    open spec fn view(&self) -> HunkInfoView {
        HunkInfoView {
            old_line_no: self.old_line_no,
            old_line_len: self.old_line_len,
            new_line_no: self.new_line_no,
            new_line_len: self.new_line_len,
            context: match self.context {
                Some(context) => Some(context@),
                None => None,
            },
        }
    }
}

impl<'a> Default for HunkInfo<'a> {
    /// All four numbers zero and no context.
    fn default() -> (info: Self)
        ensures
            info@ == (HunkInfoView {
                old_line_no: 0,
                old_line_len: 0,
                new_line_no: 0,
                new_line_len: 0,
                context: None,
            }),
    {
        HunkInfo { old_line_no: 0, old_line_len: 0, new_line_no: 0, new_line_len: 0, context: None }
    }
}

/// What one physical line of a diff was classified as.
///
/// Every payload borrows from the line that was classified.
#[derive(Debug, PartialEq)]
pub enum DiffLine<'a> {
    /// A `---` header.
    OldFile(FileInfo<'a>),
    /// A `+++` header.
    NewFile(FileInfo<'a>),
    /// `Binary files A and B differ`, with the two names.
    Binaries(&'a [u8], &'a [u8]),
    /// A hunk header.
    Hunk(HunkInfo<'a>),
    /// A line present in both versions; the payload is the line without
    /// its marker, and with its terminator.
    Context(&'a [u8]),
    /// A line present only in the new version.
    Inserted(&'a [u8]),
    /// A line present only in the old version.
    Deleted(&'a [u8]),
    /// A line marked `!`, changed between the versions.
    Modified(&'a [u8]),
    /// The marker that the preceding line has no final newline.
    NoNewlineAtEof,
    /// A line that is not what its place calls for, with its bytes.
    Junk(&'a [u8]),
}

/// The contents of a `DiffLine`.
pub enum DiffLineView {
    OldFile(FileInfoView),
    NewFile(FileInfoView),
    Binaries(Seq<u8>, Seq<u8>),
    Hunk(HunkInfoView),
    Context(Seq<u8>),
    Inserted(Seq<u8>),
    Deleted(Seq<u8>),
    Modified(Seq<u8>),
    NoNewlineAtEof,
    Junk(Seq<u8>),
}

impl<'a> View for DiffLine<'a> {
    type V = DiffLineView;

    open spec fn view(&self) -> DiffLineView {
        match self {
            DiffLine::OldFile(info) => DiffLineView::OldFile(info@),
            DiffLine::NewFile(info) => DiffLineView::NewFile(info@),
            DiffLine::Binaries(a, b) => DiffLineView::Binaries(a@, b@),
            DiffLine::Hunk(info) => DiffLineView::Hunk(info@),
            DiffLine::Context(body) => DiffLineView::Context(body@),
            DiffLine::Inserted(body) => DiffLineView::Inserted(body@),
            DiffLine::Deleted(body) => DiffLineView::Deleted(body@),
            DiffLine::Modified(body) => DiffLineView::Modified(body@),
            DiffLine::NoNewlineAtEof => DiffLineView::NoNewlineAtEof,
            DiffLine::Junk(raw) => DiffLineView::Junk(raw@),
        }
    }
}

} // verus!
