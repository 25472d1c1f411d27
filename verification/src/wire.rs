//! Big-endian integers on the wire.

use vstd::prelude::*;

verus! {

/// Every datagram handled by the forwarder is held in a buffer of this size.
pub const PACKET_SIZE: usize = 512;

/// A raw DNS datagram, zero-padded to [`PACKET_SIZE`] octets.
pub type DnsPacketBuffer = [u8; 512];

/// The number that a run of octets denotes when read most significant octet first.
pub open spec fn be_value(octets: Seq<u8>) -> nat
    decreases octets.len(),
{
    if octets.len() == 0 {
        0
    } else {
        be_value(octets.drop_last()) * 256 + octets.last() as nat
    }
}

/// The 16-bit big-endian integer stored at `at`.
pub open spec fn be16(buf: Seq<u8>, at: int) -> u16 {
    (buf[at] as int * 256 + buf[at + 1] as int) as u16
}

/// The 32-bit big-endian integer stored at `at`.
pub open spec fn be32(buf: Seq<u8>, at: int) -> u32 {
    (buf[at] as int * 16777216 + buf[at + 1] as int * 65536 + buf[at + 2] as int * 256 + buf[at
        + 3] as int) as u32
}

/// The two octets that hold `value` in big-endian order.
pub open spec fn be16_octets(value: u16) -> Seq<u8> {
    seq![(value / 256) as u8, (value % 256) as u8]
}

/// The four octets that hold `value` in big-endian order.
pub open spec fn be32_octets(value: u32) -> Seq<u8> {
    seq![
        (value / 16777216) as u8,
        (value / 65536 % 256) as u8,
        (value / 256 % 256) as u8,
        (value % 256) as u8,
    ]
}

/// `be_value` of a prefix never exceeds `be_value` of the whole run.
pub proof fn lemma_be_value_prefix(octets: Seq<u8>, n: int)
    requires
        0 <= n <= octets.len(),
    ensures
        be_value(octets.subrange(0, n)) <= be_value(octets),
    decreases octets.len() - n,
{
    if n == octets.len() {
        assert(octets.subrange(0, n) =~= octets);
    } else {
        lemma_be_value_prefix(octets, n + 1);
        let longer = octets.subrange(0, n + 1);
        assert(longer.drop_last() =~= octets.subrange(0, n));
    }
}

/// Folding a run of octets, most significant first, into one machine word.
pub trait Collate {
    /// The octets that are folded.
    spec fn octets(&self) -> Seq<u8>;

    /// Returns the big-endian value of the octets; the value has to fit a `usize`.
    fn collate(self) -> (value: usize)
        requires
            be_value(self.octets()) <= usize::MAX,
        ensures
            value == be_value(self.octets()),
    ;
}

/// Folds `octets` front to back.
pub fn collate_slice(octets: &[u8]) -> (value: usize)
    requires
        be_value(octets@) <= usize::MAX,
    ensures
        value == be_value(octets@),
{
    let mut value: usize = 0;
    let mut i: usize = 0;
    while i < octets.len()
        invariant
            i <= octets.len(),
            value == be_value(octets@.subrange(0, i as int)),
            be_value(octets@) <= usize::MAX,
        decreases octets.len() - i,
    {
        proof {
            lemma_be_value_prefix(octets@, i + 1);
            assert(octets@.subrange(0, i + 1).drop_last() =~= octets@.subrange(0, i as int));
        }
        value = value * 256 + octets[i] as usize;
        i = i + 1;
    }
    assert(octets@.subrange(0, i as int) =~= octets@);
    value
}

impl<'a> Collate for &'a [u8] {
    open spec fn octets(&self) -> Seq<u8> {
        self@
    }

    fn collate(self) -> (value: usize) {
        collate_slice(self)
    }
}

impl<const N: usize> Collate for [u8; N] {
    open spec fn octets(&self) -> Seq<u8> {
        self@
    }

    fn collate(self) -> (value: usize) {
        collate_slice(self.as_slice())
    }
}

/// Reads the 16-bit big-endian integer at `at`.
pub fn read_u16(buf: &[u8], at: usize) -> (value: u16)
    requires
        at + 2 <= buf.len(),
    ensures
        value == be16(buf@, at as int),
{
    let hi: u16 = buf[at] as u16;
    let lo: u16 = buf[at + 1] as u16;
    hi * 256 + lo
}

/// Reads the 32-bit big-endian integer at `at`.
pub fn read_u32(buf: &[u8], at: usize) -> (value: u32)
    requires
        at + 4 <= buf.len(),
    ensures
        value == be32(buf@, at as int),
{
    let a: u32 = buf[at] as u32;
    let b: u32 = buf[at + 1] as u32;
    let c: u32 = buf[at + 2] as u32;
    let d: u32 = buf[at + 3] as u32;
    a * 16777216 + b * 65536 + c * 256 + d
}

} // verus!
