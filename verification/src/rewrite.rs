//! Reuse of a captured reply: a new identifier, and TTLs reduced by the time that
//! the reply has spent in the cache.

use crate::wire::{be16_octets, be32, be32_octets, read_u32, DnsPacketBuffer};
use vstd::prelude::*;

verus! {

/// What is left of `ttl` seconds after `elapsed` seconds, never less than zero.
pub open spec fn reduced_ttl(ttl: u32, elapsed: u64) -> u32 {
    if elapsed >= ttl {
        0
    } else {
        (ttl - elapsed) as u32
    }
}

/// `buf` with `octets` written over it from offset `at` on.
pub open spec fn overwritten(buf: Seq<u8>, at: int, octets: Seq<u8>) -> Seq<u8> {
    Seq::new(
        buf.len(),
        |i: int|
            if at <= i < at + octets.len() {
                octets[i - at]
            } else {
                buf[i]
            },
    )
}

/// `buf` after the TTL at each of `ttl_indices`, in turn, was reduced by `elapsed` seconds.
pub open spec fn ttls_reduced(buf: Seq<u8>, ttl_indices: Seq<int>, elapsed: u64) -> Seq<u8>
    decreases ttl_indices.len(),
{
    if ttl_indices.len() == 0 {
        buf
    } else {
        let before = ttls_reduced(buf, ttl_indices.drop_last(), elapsed);
        let at = ttl_indices.last();
        overwritten(before, at, be32_octets(reduced_ttl(be32(before, at), elapsed)))
    }
}

/// The reply made from the captured reply `buf` for a later query: the TTL at each
/// of `ttl_indices` reduced by `elapsed` seconds, the identifier replaced by
/// `new_id`, and every other octet as it was.
pub open spec fn rewritten(buf: Seq<u8>, ttl_indices: Seq<int>, elapsed: u64, new_id: u16) -> Seq<
    u8,
> {
    overwritten(ttls_reduced(buf, ttl_indices, elapsed), 0, be16_octets(new_id))
}

/// Offsets as unbounded integers.
pub open spec fn as_ints(offsets: Seq<usize>) -> Seq<int> {
    offsets.map_values(|t: usize| t as int)
}

/// Computes what is left of `ttl` seconds after `elapsed` seconds.
pub fn reduce_ttl(ttl: u32, elapsed: u64) -> (left: u32)
    ensures
        left == reduced_ttl(ttl, elapsed),
{
    if elapsed >= ttl as u64 {
        0
    } else {
        ttl - elapsed as u32
    }
}

/// Makes from a captured reply the reply to a later query with identifier
/// `new_request_id`, `elapsed_seconds` after the reply was captured.
pub fn rewrite_packet(
    packet: &DnsPacketBuffer,
    ttl_indices: &Vec<usize>,
    elapsed_seconds: u64,
    new_request_id: u16,
) -> (reply: DnsPacketBuffer)
    requires
        forall|k: int| 0 <= k < ttl_indices@.len() ==> ttl_indices@[k] + 4 <= 512,
    ensures
        reply@ == rewritten(packet@, as_ints(ttl_indices@), elapsed_seconds, new_request_id),
{
    let mut reply: DnsPacketBuffer = *packet;
    let mut k: usize = 0;
    assert(as_ints(ttl_indices@).subrange(0, 0) =~= Seq::<int>::empty());
    while k < ttl_indices.len()
        invariant
            k <= ttl_indices@.len(),
            forall|j: int| 0 <= j < ttl_indices@.len() ==> ttl_indices@[j] + 4 <= 512,
            reply@ == ttls_reduced(
                packet@,
                as_ints(ttl_indices@).subrange(0, k as int),
                elapsed_seconds,
            ),
        decreases ttl_indices@.len() - k,
    {
        let at: usize = ttl_indices[k];
        let ghost before = reply@;
        let left: u32 = reduce_ttl(read_u32(reply.as_slice(), at), elapsed_seconds);
        reply[at] = (left / 16777216) as u8;
        reply[at + 1] = (left / 65536 % 256) as u8;
        reply[at + 2] = (left / 256 % 256) as u8;
        reply[at + 3] = (left % 256) as u8;
        proof {
            let done = as_ints(ttl_indices@).subrange(0, k + 1);
            assert(done.drop_last() =~= as_ints(ttl_indices@).subrange(0, k as int));
            assert(done.last() == at as int);
            assert(reply@ =~= overwritten(before, at as int, be32_octets(left)));
        }
        k = k + 1;
    }
    assert(as_ints(ttl_indices@).subrange(0, k as int) =~= as_ints(ttl_indices@));
    let ghost reduced = reply@;
    reply[0] = (new_request_id / 256) as u8;
    reply[1] = (new_request_id % 256) as u8;
    assert(reply@ =~= overwritten(reduced, 0, be16_octets(new_request_id)));
    reply
}

} // verus!
