use vstd::prelude::*;

verus! {

/// The kinds of input/output failure that reading PDF data can run into.
#[derive(Debug, Clone, Copy, PartialEq, Eq, Structural)]
pub enum IoError {
    /// The data ended before the item being read was complete.
    UnexpectedEof,
    /// A decoder met bytes that its encoding does not allow.
    InvalidData,
    /// A compressed stream is corrupt.
    InvalidInput,
    /// Any other failure of a decoder.
    Other,
}

/// The common error type of this library: either a failure to read the underlying data, or a
/// static message describing malformed PDF syntax.
#[derive(Debug, Clone, Copy, PartialEq, Eq)]
pub enum Error {
    IO(IoError),
    Parse(&'static str),
}

/// The error for data that ended too early.
pub open spec fn eof() -> Error {
    Error::IO(IoError::UnexpectedEof)
}

} // verus!
