use vstd::prelude::*;

verus! {

/// Broad category for a decoding or encoding failure.
#[derive(Clone, Copy, Debug, PartialEq, Eq, Structural)]
#[non_exhaustive]
pub enum ErrorKind {
    InvalidHeader,
    InvalidDimensions,
    InvalidOffset,
    TruncatedData,
    UnsupportedFormat,
    InvalidCompression,
    ChecksumMismatch,
    InvalidFilter,
    InvalidPixelLayout,
    InvalidAnimation,
    LimitExceeded,
    OutputBufferTooSmall,
    InvalidInput,
}

/// An operation error with optional location context.
#[derive(Debug)]
pub struct Error {
    pub(crate) kind: ErrorKind,
    pub(crate) message: String,
    pub(crate) byte_offset: Option<usize>,
    pub(crate) frame_index: Option<usize>,
    pub(crate) row_index: Option<u32>,
}

impl Error {
    /// The category of this error.
    pub open(crate) spec fn kind_spec(&self) -> ErrorKind {
        self.kind
    }

    /// The byte offset this error refers to, if any.
    pub open(crate) spec fn byte_offset_spec(&self) -> Option<usize> {
        self.byte_offset
    }

    /// The frame this error refers to, if any.
    pub open(crate) spec fn frame_index_spec(&self) -> Option<usize> {
        self.frame_index
    }

    /// The row this error refers to, if any.
    pub open(crate) spec fn row_index_spec(&self) -> Option<u32> {
        self.row_index
    }

    /// The human-readable description.
    pub open(crate) spec fn message_spec(&self) -> Seq<char> {
        self.message@
    }

    pub(crate) fn new(kind: ErrorKind, message: &str) -> (e: Self)
        ensures
            e.kind_spec() == kind,
            e.message_spec() == message@,
            e.byte_offset_spec() is None,
            e.frame_index_spec() is None,
            e.row_index_spec() is None,
    {
        Error {
            kind,
            message: message.to_string(),
            byte_offset: None,
            frame_index: None,
            row_index: None,
        }
    }

    pub fn at_offset(self, byte_offset: usize) -> (e: Self)
        ensures
            e.kind_spec() == self.kind_spec(),
            e.message_spec() == self.message_spec(),
            e.byte_offset_spec() == Some(byte_offset),
            e.frame_index_spec() == self.frame_index_spec(),
            e.row_index_spec() == self.row_index_spec(),
    {
        let mut e = self;
        e.byte_offset = Some(byte_offset);
        e
    }

    pub fn in_frame(self, frame_index: usize) -> (e: Self)
        ensures
            e.kind_spec() == self.kind_spec(),
            e.message_spec() == self.message_spec(),
            e.byte_offset_spec() == self.byte_offset_spec(),
            e.frame_index_spec() == Some(frame_index),
            e.row_index_spec() == self.row_index_spec(),
    {
        let mut e = self;
        e.frame_index = Some(frame_index);
        e
    }

    pub fn on_row(self, row_index: u32) -> (e: Self)
        ensures
            e.kind_spec() == self.kind_spec(),
            e.message_spec() == self.message_spec(),
            e.byte_offset_spec() == self.byte_offset_spec(),
            e.frame_index_spec() == self.frame_index_spec(),
            e.row_index_spec() == Some(row_index),
    {
        let mut e = self;
        e.row_index = Some(row_index);
        e
    }

    pub fn kind(&self) -> (k: ErrorKind)
        ensures
            k == self.kind_spec(),
    {
        self.kind
    }

    pub fn message(&self) -> (m: &str)
        ensures
            m@ == self.message_spec(),
    {
        self.message.as_str()
    }

    pub fn byte_offset(&self) -> (o: Option<usize>)
        ensures
            o == self.byte_offset_spec(),
    {
        self.byte_offset
    }

    pub fn frame_index(&self) -> (o: Option<usize>)
        ensures
            o == self.frame_index_spec(),
    {
        self.frame_index
    }

    pub fn row_index(&self) -> (o: Option<u32>)
        ensures
            o == self.row_index_spec(),
    {
        self.row_index
    }
}

/// Broad category for a diagnostic recovery.
#[derive(Clone, Copy, Debug, PartialEq, Eq, Structural)]
#[non_exhaustive]
pub enum WarningKind {
    TrailingData,
    PartialData,
    UnknownFilter,
    MetadataMismatch,
    MissingChecksum,
    ChecksumMismatch,
}

/// A non-fatal diagnostic recovery reported to the caller.
#[derive(Clone, Debug)]
pub struct Warning {
    pub(crate) kind: WarningKind,
    pub(crate) message: String,
    pub(crate) byte_offset: Option<usize>,
    pub(crate) frame_index: Option<usize>,
    pub(crate) row_index: Option<u32>,
}

impl Warning {
    /// The category of this warning.
    pub open(crate) spec fn kind_spec(&self) -> WarningKind {
        self.kind
    }

    /// The byte offset this warning refers to, if any.
    pub open(crate) spec fn byte_offset_spec(&self) -> Option<usize> {
        self.byte_offset
    }

    /// The frame this warning refers to, if any.
    pub open(crate) spec fn frame_index_spec(&self) -> Option<usize> {
        self.frame_index
    }

    /// The row this warning refers to, if any.
    pub open(crate) spec fn row_index_spec(&self) -> Option<u32> {
        self.row_index
    }

    /// The human-readable description.
    pub open(crate) spec fn message_spec(&self) -> Seq<char> {
        self.message@
    }

    pub fn new(kind: WarningKind, message: &str) -> (w: Self)
        ensures
            w.kind_spec() == kind,
            w.message_spec() == message@,
            w.byte_offset_spec() is None,
            w.frame_index_spec() is None,
            w.row_index_spec() is None,
    {
        Warning {
            kind,
            message: message.to_string(),
            byte_offset: None,
            frame_index: None,
            row_index: None,
        }
    }

    pub fn at_offset(self, byte_offset: usize) -> (w: Self)
        ensures
            w.kind_spec() == self.kind_spec(),
            w.message_spec() == self.message_spec(),
            w.byte_offset_spec() == Some(byte_offset),
            w.frame_index_spec() == self.frame_index_spec(),
            w.row_index_spec() == self.row_index_spec(),
    {
        let mut w = self;
        w.byte_offset = Some(byte_offset);
        w
    }

    pub fn in_frame(self, frame_index: usize) -> (w: Self)
        ensures
            w.kind_spec() == self.kind_spec(),
            w.message_spec() == self.message_spec(),
            w.byte_offset_spec() == self.byte_offset_spec(),
            w.frame_index_spec() == Some(frame_index),
            w.row_index_spec() == self.row_index_spec(),
    {
        let mut w = self;
        w.frame_index = Some(frame_index);
        w
    }

    pub fn on_row(self, row_index: u32) -> (w: Self)
        ensures
            w.kind_spec() == self.kind_spec(),
            w.message_spec() == self.message_spec(),
            w.byte_offset_spec() == self.byte_offset_spec(),
            w.frame_index_spec() == self.frame_index_spec(),
            w.row_index_spec() == Some(row_index),
    {
        let mut w = self;
        w.row_index = Some(row_index);
        w
    }

    /// A copy of this warning that names frame `frame_index`.
    pub(crate) fn copy_in_frame(&self, frame_index: usize) -> (w: Self)
        ensures
            w.kind_spec() == self.kind_spec(),
            w.message_spec() == self.message_spec(),
            w.byte_offset_spec() == self.byte_offset_spec(),
            w.frame_index_spec() == Some(frame_index),
            w.row_index_spec() == self.row_index_spec(),
    {
        Warning {
            kind: self.kind,
            message: self.message.as_str().to_string(),
            byte_offset: self.byte_offset,
            frame_index: Some(frame_index),
            row_index: self.row_index,
        }
    }

    pub fn kind(&self) -> (k: WarningKind)
        ensures
            k == self.kind_spec(),
    {
        self.kind
    }

    pub fn message(&self) -> (m: &str)
        ensures
            m@ == self.message_spec(),
    {
        self.message.as_str()
    }

    pub fn byte_offset(&self) -> (o: Option<usize>)
        ensures
            o == self.byte_offset_spec(),
    {
        self.byte_offset
    }

    pub fn frame_index(&self) -> (o: Option<usize>)
        ensures
            o == self.frame_index_spec(),
    {
        self.frame_index
    }

    pub fn row_index(&self) -> (o: Option<u32>)
        ensures
            o == self.row_index_spec(),
    {
        self.row_index
    }
}

/// The kinds of a sequence of warnings, in order.
pub open spec fn warning_kinds(warnings: Seq<Warning>) -> Seq<WarningKind> {
    warnings.map_values(|w: Warning| w.kind_spec())
}

/// `after` starts with every warning of `before`, in order.
pub open spec fn keeps_prefix(before: Seq<Warning>, after: Seq<Warning>) -> bool {
    before.len() <= after.len() && forall|i: int| 0 <= i < before.len() ==> #[trigger] after[i] == before[i]
}

} // verus!
