//! What can go wrong in a transfer, by the stage that notices it.

use vstd::prelude::*;

verus! {

/// A transfer header that cannot be read off the wire.
#[derive(Clone, Copy, Debug, PartialEq, Eq, Structural)]
pub enum ProtocolError {
    /// The stream ended before the header was complete.
    Truncated,
    /// The file name in the header is not UTF-8 text.
    InvalidEncoding,
}

/// A payload that did not arrive as announced.
#[derive(Clone, Copy, Debug, PartialEq, Eq, Structural)]
pub enum TransferError {
    /// The stream ended before the announced number of bytes had arrived.
    Incomplete,
    /// The staging buffer reported a failed read from its source. A source
    /// held in memory does not fail, so no function here gives this out; it
    /// is there because the buffer's answer has room for it.
    SourceFailed,
}

/// Why a file was not sent.
#[derive(Clone, Copy, Debug, PartialEq, Eq, Structural)]
pub enum SendError {
    /// The path does not name a regular file.
    NotAFile,
    /// The file holds no bytes.
    EmptyFile,
    /// The receiver did not answer within the connect timeout.
    ConnectTimeout,
    /// Reading the file or writing to the connection failed.
    Io,
}

/// Why no free destination name could be worked out.
#[derive(Clone, Copy, Debug, PartialEq, Eq, Structural)]
pub enum ResolveError {
    /// The expression that recognises a numbered name was not accepted by
    /// the matching engine. The engine accepts it, so no function here
    /// gives this out; it is there because the engine's answer has room for
    /// it.
    Pattern,
}

} // verus!
