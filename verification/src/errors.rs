use vstd::prelude::*;

verus! {

/// What the radio transport reported when it failed; carried through verbatim.
#[derive(Clone, Copy, PartialEq, Eq, Structural, Debug)]
pub struct TransportError {
    pub code: u32,
}

/// The recoverable failures of packet handling: none of them aborts the caller.
#[derive(Clone, Copy, PartialEq, Eq, Structural, Debug)]
pub enum MeshError {
    /// The packet's sender field held the invalid-sentinel value 0.
    InvalidSender,
    /// The packet carried no payload variant at all.
    MissingPayload,
    /// The payload was present but opaque, so its fields cannot be merged.
    UnsupportedPayload,
    /// The radio transport failed to emit the packet; wraps its report.
    TransportFailure(TransportError),
}

} // verus!
