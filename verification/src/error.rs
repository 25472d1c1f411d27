//! The one way in which decoding a datagram fails.

use vstd::prelude::*;

verus! {

/// The datagram does not hold a well-formed message: a length or a pointer leads
/// past the end of the buffer, a label is longer than 63 octets, a chain of
/// compression pointers is longer than the cap, or the question is missing.
#[derive(Debug, Copy, Clone, PartialEq, Eq, Structural)]
pub struct MalformedPacket;

} // verus!
