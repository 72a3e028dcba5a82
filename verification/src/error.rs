//! The failures of the link protocol.

use vstd::prelude::*;

verus! {

/// Why an operation of the proxy core was refused.
#[derive(Debug, Clone, Copy, PartialEq, Eq, Structural)]
pub enum ProxyError {
    /// A payload is longer than one frame can carry; nothing is truncated.
    PayloadTooLarge,
    /// The first request of a connection has no usable request line or host.
    MalformedRequest,
    /// The origin host could not be reached.
    UpstreamUnreachable,
    /// Every connection id is held by an open connection.
    IdSpaceExhausted,
    /// A frame names a connection that has no routing entry.
    UnroutableFrame,
}

} // verus!
