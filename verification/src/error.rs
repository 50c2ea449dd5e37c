//! What can go wrong during a write, and how each failure is classed.

use vstd::prelude::*;

verus! {

/// The classes of failure.
#[derive(Debug, Clone, Copy, PartialEq, Eq, Structural)]
pub enum ErrorKind {
    /// The writer was set up with something it cannot work with.
    Configuration,
    /// The backend answered a request with a status that is no success.
    Backend,
    /// An input does not fit the state that the write is in.
    Protocol,
    /// A source, a sink or the transport under the backend failed.
    Io,
}

/// A failed write. The engine never retries: the first failure ends the
/// write and is handed to the caller.
#[derive(Debug, Clone, PartialEq, Eq)]
pub enum Error {
    /// The target path ends in no file name.
    MalformedPath,
    /// The chunk-size factor is zero.
    InvalidChunkSize,
    /// The backend answered with `status`, which is no success for the
    /// request; `body` is what it sent along.
    Backend { status: u16, body: Vec<u8> },
    /// An event arrived that the current state of the write does not
    /// expect, or a write was started while another was under way.
    UnexpectedEvent,
    /// A request could not be carried out at all.
    Io { message: String },
    /// A compression tag that names no algorithm.
    UnknownAlgorithm { tag: String },
    /// Bytes were written to a writer that was closed before.
    WriteAfterClose,
    /// A seek to an offset whose bytes are no longer retained.
    UnsupportedSeek,
    /// A source delivered more bytes than an offset can count.
    OffsetOverflow,
    /// The encoded data could not be decoded.
    Decode { message: String },
}

/// Mathematical model of an [`Error`].
pub enum ErrorView {
    MalformedPath,
    InvalidChunkSize,
    Backend { status: u16, body: Seq<u8> },
    UnexpectedEvent,
    Io { message: Seq<char> },
    UnknownAlgorithm { tag: Seq<char> },
    WriteAfterClose,
    UnsupportedSeek,
    OffsetOverflow,
    Decode { message: Seq<char> },
}

impl View for Error {
    type V = ErrorView;

    open spec fn view(&self) -> ErrorView {
        match *self {
            Error::MalformedPath => ErrorView::MalformedPath,
            Error::InvalidChunkSize => ErrorView::InvalidChunkSize,
            Error::Backend { status, body } => ErrorView::Backend { status, body: body@ },
            Error::UnexpectedEvent => ErrorView::UnexpectedEvent,
            Error::Io { message } => ErrorView::Io { message: message@ },
            Error::UnknownAlgorithm { tag } => ErrorView::UnknownAlgorithm { tag: tag@ },
            Error::WriteAfterClose => ErrorView::WriteAfterClose,
            Error::UnsupportedSeek => ErrorView::UnsupportedSeek,
            Error::OffsetOverflow => ErrorView::OffsetOverflow,
            Error::Decode { message } => ErrorView::Decode { message: message@ },
        }
    }
}

impl ErrorView {
    /// The class that a failure belongs to.
    pub open spec fn kind(self) -> ErrorKind {
        match self {
            ErrorView::MalformedPath => ErrorKind::Configuration,
            ErrorView::InvalidChunkSize => ErrorKind::Configuration,
            ErrorView::Backend { .. } => ErrorKind::Backend,
            ErrorView::UnexpectedEvent => ErrorKind::Protocol,
            ErrorView::Io { .. } => ErrorKind::Io,
            ErrorView::UnknownAlgorithm { .. } => ErrorKind::Configuration,
            ErrorView::WriteAfterClose => ErrorKind::Protocol,
            ErrorView::UnsupportedSeek => ErrorKind::Io,
            ErrorView::OffsetOverflow => ErrorKind::Io,
            ErrorView::Decode { .. } => ErrorKind::Io,
        }
    }
}

impl Error {
    /// The class that this failure belongs to.
    pub fn kind(&self) -> (k: ErrorKind)
        ensures
            k == self@.kind(),
    {
        match self {
            Error::MalformedPath => ErrorKind::Configuration,
            Error::InvalidChunkSize => ErrorKind::Configuration,
            Error::Backend { .. } => ErrorKind::Backend,
            Error::UnexpectedEvent => ErrorKind::Protocol,
            Error::Io { .. } => ErrorKind::Io,
            Error::UnknownAlgorithm { .. } => ErrorKind::Configuration,
            Error::WriteAfterClose => ErrorKind::Protocol,
            Error::UnsupportedSeek => ErrorKind::Io,
            Error::OffsetOverflow => ErrorKind::Io,
            Error::Decode { .. } => ErrorKind::Io,
        }
    }
}

} // verus!
