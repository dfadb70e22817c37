//! Error taxonomy: recoverable POD decode errors and per-connection
//! routing diagnostics.

use vstd::prelude::*;

verus! {

/// An error found while decoding a pod or a typed message from bytes.
#[derive(Debug, Clone, Copy, PartialEq, Eq, Structural)]
pub enum PodError {
    /// A type code the decoder does not support.
    UnsupportedType,
    /// A type code other than the one the typed reader expected.
    InvalidType,
    /// A struct ended before all declared fields were read.
    PropertyMissing,
    /// An object property carried an unexpected key.
    PropertyWrongKey(u32),
    /// A choice pod carried an unknown choice kind.
    InvalidChoiceType,
    /// A choice pod carried fewer values than its kind requires.
    MissingChoiceValues,
    /// A low-level framing failure: truncated input or an inconsistent size.
    ParseError,
}

/// A per-frame diagnostic from the connection's event router. None of
/// these is fatal to the connection: the frame is dropped and the stream
/// stays healthy.
#[derive(Debug, Clone, Copy, PartialEq, Eq, Structural)]
pub enum ConnectionError {
    /// The frame's object id resolved to no registered mailbox.
    ProxyNotPresentError(i32),
    /// The frame's body could not be decoded for the resolved interface.
    DeserializeError(PodError),
    /// The frame was too short to carry a header.
    Unknown,
}

impl ConnectionError {
    /// A decode diagnostic wrapping the pod-level error.
    pub fn from_pod_error(e: PodError) -> (r: ConnectionError)
        ensures
            r == ConnectionError::DeserializeError(e),
    {
        ConnectionError::DeserializeError(e)
    }
}

} // verus!
