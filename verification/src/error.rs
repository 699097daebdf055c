//! The ways in which reading a container can fail.

use vstd::prelude::*;

verus! {

/// Why a buffer, a chunk or a payload was rejected.
#[allow(clippy::upper_case_acronyms)]
#[derive(Debug, Clone, PartialEq, Eq)]
pub enum Error {
    /// A declared or expected span of bytes does not fit what is there.
    InvalidLength,
    /// A chunk's stored checksum is not the checksum of its tag and payload.
    InvalidCRC,
    /// The structure of the container is broken; the text says how.
    InvalidData(String),
}

/// An [`Error`] as a mathematical value: the message is a sequence of characters.
pub enum ErrorView {
    InvalidLength,
    InvalidCRC,
    InvalidData(Seq<char>),
}

impl View for Error {
    type V = ErrorView;

    open spec fn view(&self) -> ErrorView {
        match self {
            Error::InvalidLength => ErrorView::InvalidLength,
            Error::InvalidCRC => ErrorView::InvalidCRC,
            Error::InvalidData(reason) => ErrorView::InvalidData(reason@),
        }
    }
}

/// The message of the failure that a walk reports when the buffer ends
/// after a chunk that is not the terminal one.
pub open spec fn missing_terminal() -> ErrorView {
    ErrorView::InvalidData("Missing terminal chunk"@)
}

/// The message of the failure reported when the first chunk is not the header.
pub open spec fn header_not_first() -> ErrorView {
    ErrorView::InvalidData("header chunk is not first or missing"@)
}

/// The message of the failure reported by the header shortcut.
pub open spec fn not_a_container() -> ErrorView {
    ErrorView::InvalidData("Invalid PNG!"@)
}

impl Error {
    /// Builds `InvalidData` with the given reason.
    pub fn invalid_data(reason: &str) -> (e: Error)
        ensures
            e@ == ErrorView::InvalidData(reason@),
    {
        Error::InvalidData(reason.to_owned())
    }
}

} // verus!
