//! Digests of keys: the FNV-1a hash of their octets.

use vstd::prelude::*;

verus! {

/// The state that a digest starts from.
pub const FNV_OFFSET: u64 = 0xcbf2_9ce4_8422_2325;

/// The factor by which the state is multiplied for every octet.
pub const FNV_PRIME: u64 = 0x0000_0100_0000_01b3;

/// The state after `octet` was taken in.
pub open spec fn stirred(state: u64, octet: u8) -> u64 {
    (state ^ (octet as u64)).wrapping_mul(FNV_PRIME)
}

/// The state after the two octets of `value` were taken in, the higher first.
pub open spec fn stirred_u16(state: u64, value: u16) -> u64 {
    stirred(stirred(state, (value / 256) as u8), (value % 256) as u8)
}

/// The state after `octets` were taken in, front to back.
pub open spec fn digest_from(state: u64, octets: Seq<u8>) -> u64
    decreases octets.len(),
{
    if octets.len() == 0 {
        state
    } else {
        stirred(digest_from(state, octets.drop_last()), octets.last())
    }
}

/// Takes `octet` in.
pub fn stir(state: u64, octet: u8) -> (next: u64)
    ensures
        next == stirred(state, octet),
{
    (state ^ (octet as u64)).wrapping_mul(FNV_PRIME)
}

/// Takes the two octets of `value` in, the higher first.
pub fn stir_u16(state: u64, value: u16) -> (next: u64)
    ensures
        next == stirred_u16(state, value),
{
    stir(stir(state, (value / 256) as u8), (value % 256) as u8)
}

/// Takes `octets` in, front to back.
pub fn digest_octets(state: u64, octets: &[u8]) -> (digest: u64)
    ensures
        digest == digest_from(state, octets@),
{
    let mut digest: u64 = state;
    let mut i: usize = 0;
    while i < octets.len()
        invariant
            i <= octets@.len(),
            digest == digest_from(state, octets@.subrange(0, i as int)),
        decreases octets@.len() - i,
    {
        assert(octets@.subrange(0, i + 1).drop_last() =~= octets@.subrange(0, i as int));
        digest = stir(digest, octets[i]);
        i = i + 1;
    }
    assert(octets@.subrange(0, i as int) =~= octets@);
    digest
}

} // verus!
