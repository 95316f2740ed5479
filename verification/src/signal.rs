//! The readiness signal: the one-byte datagram with which the receiver
//! answers a header.

use vstd::prelude::*;

verus! {

/// The byte that tells a sender that the receiver is ready for the payload.
pub const READY: u8 = 3;

/// Whether a datagram is the readiness signal: it is not empty and its
/// first byte is [`READY`].
pub open spec fn is_ready_spec(bytes: Seq<u8>) -> bool {
    bytes.len() > 0 && bytes[0] == READY
}

/// The datagram that carries the readiness signal.
pub fn ready_signal() -> (signal: Vec<u8>)
    ensures
        signal@ == seq![READY],
{
    let mut signal: Vec<u8> = Vec::new();
    signal.push(READY);
    signal
}

/// Whether a datagram is the readiness signal.
pub fn is_ready(bytes: &[u8]) -> (ready: bool)
    ensures
        ready == is_ready_spec(bytes@),
{
    bytes.len() > 0 && bytes[0] == READY
}

} // verus!
