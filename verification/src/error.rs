use vstd::prelude::*;

verus! {

/// Every failure this library reports. All variants are local, recoverable
/// conditions: the caller may retry with corrected input or observe that the
/// message was already processed.
#[derive(Clone, Copy, Debug, PartialEq, Eq, Structural)]
pub enum NttError {
    /// A decode ran out of input or met structurally invalid bytes.
    MalformedEncoding,
    /// A payload's serialized length exceeds the 2-byte length field.
    PayloadTooLarge,
    /// An endpoint message's 4-byte prefix is not the expected transport's.
    UnrecognizedTransport,
    /// An attested message's declared target chain is not the local chain.
    InvalidChainId,
    /// An attested message's emitter is not the registered trusted sibling.
    InvalidEndpointSibling,
    /// A validated record already exists for this (chain, sequence) key.
    DuplicateMessage,
}

impl NttError {
    /// A short description of the error, for callers that report it.
    pub fn describe(&self) -> (s: &'static str)
    {
        match self {
            NttError::MalformedEncoding => "malformed encoding",
            NttError::PayloadTooLarge => "payload too large",
            NttError::UnrecognizedTransport => "unrecognized transport",
            NttError::InvalidChainId => "invalid chain id",
            NttError::InvalidEndpointSibling => "invalid endpoint sibling",
            NttError::DuplicateMessage => "duplicate message",
        }
    }
}

} // verus!
