//! The fixed twelve-octet header and its packed flags.

use crate::wire::{be16, be16_octets};
use vstd::prelude::*;
use vstd::std_specs::convert::FromSpecImpl;

verus! {

/// Number of octets that the header occupies at the start of every message.
pub const HEADER_SIZE: usize = 12;

/// The second 16-bit word of the header, taken apart.
#[derive(Debug, Copy, Clone, PartialEq, Eq, Structural)]
pub struct Flags {
    /// `true` for a query, `false` for a response (the top bit, inverted).
    pub query: bool,
    /// Kind of query, four bits.
    pub opcode: u8,
    pub authoritative_answer: bool,
    pub truncation: bool,
    pub recursion_desired: bool,
    pub recursion_available: bool,
    /// Reserved, three bits.
    pub z: u8,
    /// Response code, four bits.
    pub response_code: u8,
}

/// The flags that a 16-bit word denotes.
pub open spec fn flags_of(raw: u16) -> Flags {
    Flags {
        query: (raw >> 15) & 1 == 0,
        opcode: ((raw >> 11) & 0xF) as u8,
        authoritative_answer: (raw >> 10) & 1 == 1,
        truncation: (raw >> 9) & 1 == 1,
        recursion_desired: (raw >> 8) & 1 == 1,
        recursion_available: (raw >> 7) & 1 == 1,
        z: ((raw >> 4) & 7) as u8,
        response_code: (raw & 0xF) as u8,
    }
}

/// The 16-bit word that packs `flags`; a field wider than its place on the wire
/// contributes its low bits only.
pub open spec fn flags_bits(flags: Flags) -> u16 {
    (if flags.query { 0u16 } else { 0x8000u16 })
    | (((flags.opcode & 0xF) as u16) << 11)
    | (if flags.authoritative_answer { 0x0400u16 } else { 0u16 })
    | (if flags.truncation { 0x0200u16 } else { 0u16 })
    | (if flags.recursion_desired { 0x0100u16 } else { 0u16 })
    | (if flags.recursion_available { 0x0080u16 } else { 0u16 })
    | (((flags.z & 7) as u16) << 4)
    | ((flags.response_code & 0xF) as u16)
}

impl Flags {
    /// Every field fits the bits that the wire format gives it.
    pub open spec fn fits_wire(self) -> bool {
        self.opcode < 16 && self.z < 8 && self.response_code < 16
    }
}

impl Default for Flags {
    fn default() -> (flags: Self)
        ensures
            flags == (Flags {
                query: false,
                opcode: 0,
                authoritative_answer: false,
                truncation: false,
                recursion_desired: false,
                recursion_available: false,
                z: 0,
                response_code: 0,
            }),
    {
        Flags {
            query: false,
            opcode: 0,
            authoritative_answer: false,
            truncation: false,
            recursion_desired: false,
            recursion_available: false,
            z: 0,
            response_code: 0,
        }
    }
}

impl From<u16> for Flags {
    fn from(input: u16) -> (flags: Self) {
        Flags {
            query: (input >> 15) & 1 == 0,
            opcode: ((input >> 11) & 0xF) as u8,
            authoritative_answer: (input >> 10) & 1 == 1,
            truncation: (input >> 9) & 1 == 1,
            recursion_desired: (input >> 8) & 1 == 1,
            recursion_available: (input >> 7) & 1 == 1,
            z: ((input >> 4) & 7) as u8,
            response_code: (input & 0xF) as u8,
        }
    }
}

impl FromSpecImpl<u16> for Flags {
    open spec fn obeys_from_spec() -> bool {
        true
    }

    open spec fn from_spec(input: u16) -> Self {
        flags_of(input)
    }
}

impl From<Flags> for u16 {
    fn from(flags: Flags) -> (raw: Self) {
        let mut value: u16 = if flags.query { 0 } else { 0x8000 };
        value = value | (((flags.opcode & 0xF) as u16) << 11);
        value = value | (if flags.authoritative_answer { 0x0400u16 } else { 0u16 });
        value = value | (if flags.truncation { 0x0200u16 } else { 0u16 });
        value = value | (if flags.recursion_desired { 0x0100u16 } else { 0u16 });
        value = value | (if flags.recursion_available { 0x0080u16 } else { 0u16 });
        value = value | (((flags.z & 7) as u16) << 4);
        value = value | ((flags.response_code & 0xF) as u16);
        value
    }
}

impl FromSpecImpl<Flags> for u16 {
    open spec fn obeys_from_spec() -> bool {
        true
    }

    open spec fn from_spec(flags: Flags) -> Self {
        flags_bits(flags)
    }
}

/// Packing the flags of a word gives the word back.
pub proof fn lemma_flags_of_bits(raw: u16)
    ensures
        flags_bits(flags_of(raw)) == raw,
        flags_of(raw).fits_wire(),
{
    assert(((raw >> 11) & 0xF) < 16 && ((raw >> 4) & 7) < 8 && (raw & 0xF) < 16) by (bit_vector);
    let o: u8 = ((raw >> 11) & 0xF) as u8;
    let z: u8 = ((raw >> 4) & 7) as u8;
    let r: u8 = (raw & 0xF) as u8;
    assert(o as u16 == (raw >> 11) & 0xF);
    assert(z as u16 == (raw >> 4) & 7);
    assert(r as u16 == raw & 0xF);
    let ow: u16 = (o & 0xF) as u16;
    let zw: u16 = (z & 7) as u16;
    let rw: u16 = (r & 0xF) as u16;
    assert(ow == (raw >> 11) & 0xF) by (bit_vector)
        requires
            ow == (o & 0xF) as u16,
            o as u16 == (raw >> 11) & 0xF,
    ;
    assert(zw == (raw >> 4) & 7) by (bit_vector)
        requires
            zw == (z & 7) as u16,
            z as u16 == (raw >> 4) & 7,
    ;
    assert(rw == raw & 0xF) by (bit_vector)
        requires
            rw == (r & 0xF) as u16,
            r as u16 == raw & 0xF,
    ;
    assert((if (raw >> 15) & 1 == 0 { 0u16 } else { 0x8000u16 })
        | (((raw >> 11) & 0xF) << 11)
        | (if (raw >> 10) & 1 == 1 { 0x0400u16 } else { 0u16 })
        | (if (raw >> 9) & 1 == 1 { 0x0200u16 } else { 0u16 })
        | (if (raw >> 8) & 1 == 1 { 0x0100u16 } else { 0u16 })
        | (if (raw >> 7) & 1 == 1 { 0x0080u16 } else { 0u16 })
        | (((raw >> 4) & 7) << 4)
        | (raw & 0xF) == raw) by (bit_vector);
}

/// Taking apart the word of flags that fit the wire gives the flags back.
pub proof fn lemma_flags_bits_of(flags: Flags)
    requires
        flags.fits_wire(),
    ensures
        flags_of(flags_bits(flags)) == flags,
{
    let q: u16 = if flags.query { 0u16 } else { 0x8000u16 };
    let aa: u16 = if flags.authoritative_answer { 0x0400u16 } else { 0u16 };
    let tc: u16 = if flags.truncation { 0x0200u16 } else { 0u16 };
    let rd: u16 = if flags.recursion_desired { 0x0100u16 } else { 0u16 };
    let ra: u16 = if flags.recursion_available { 0x0080u16 } else { 0u16 };
    let o: u8 = flags.opcode;
    let z: u8 = flags.z;
    let r: u8 = flags.response_code;
    let ow: u16 = (o & 0xF) as u16;
    let zw: u16 = (z & 7) as u16;
    let rw: u16 = (r & 0xF) as u16;
    assert(ow == o as u16 && ow < 16) by (bit_vector)
        requires
            ow == (o & 0xF) as u16,
            o < 16,
    ;
    assert(zw == z as u16 && zw < 8) by (bit_vector)
        requires
            zw == (z & 7) as u16,
            z < 8,
    ;
    assert(rw == r as u16 && rw < 16) by (bit_vector)
        requires
            rw == (r & 0xF) as u16,
            r < 16,
    ;
    let raw: u16 = q | (ow << 11) | aa | tc | rd | ra | (zw << 4) | rw;
    assert(raw == flags_bits(flags));
    assert({
        &&& ((raw >> 15) & 1 == 0) == (q == 0)
        &&& (raw >> 11) & 0xF == ow
        &&& ((raw >> 10) & 1 == 1) == (aa != 0)
        &&& ((raw >> 9) & 1 == 1) == (tc != 0)
        &&& ((raw >> 8) & 1 == 1) == (rd != 0)
        &&& ((raw >> 7) & 1 == 1) == (ra != 0)
        &&& (raw >> 4) & 7 == zw
        &&& raw & 0xF == rw
    }) by (bit_vector)
        requires
            raw == q | (ow << 11) | aa | tc | rd | ra | (zw << 4) | rw,
            q == 0 || q == 0x8000,
            aa == 0 || aa == 0x0400,
            tc == 0 || tc == 0x0200,
            rd == 0 || rd == 0x0100,
            ra == 0 || ra == 0x0080,
            ow < 16,
            zw < 8,
            rw < 16,
    ;
}

/// The header of a message.
#[derive(Debug, Copy, Clone, PartialEq, Eq, Structural)]
pub struct Header {
    /// Identifier chosen by the client and echoed in the reply.
    pub request_id: u16,
    pub flags: Flags,
    pub question_count: u16,
    pub answer_count: u16,
    pub authority_count: u16,
    pub additional_count: u16,
}

impl Default for Header {
    fn default() -> (header: Self)
        ensures
            header == (Header {
                request_id: 0,
                flags: Flags {
                    query: false,
                    opcode: 0,
                    authoritative_answer: false,
                    truncation: false,
                    recursion_desired: false,
                    recursion_available: false,
                    z: 0,
                    response_code: 0,
                },
                question_count: 0,
                answer_count: 0,
                authority_count: 0,
                additional_count: 0,
            }),
    {
        Header {
            request_id: 0,
            flags: Flags::default(),
            question_count: 0,
            answer_count: 0,
            authority_count: 0,
            additional_count: 0,
        }
    }
}

/// The header that the first twelve octets of `buf` denote.
pub open spec fn header_of(buf: Seq<u8>) -> Header {
    Header {
        request_id: be16(buf, 0),
        flags: flags_of(be16(buf, 2)),
        question_count: be16(buf, 4),
        answer_count: be16(buf, 6),
        authority_count: be16(buf, 8),
        additional_count: be16(buf, 10),
    }
}

/// The twelve octets that carry `header`.
pub open spec fn header_octets(header: Header) -> Seq<u8> {
    be16_octets(header.request_id) + be16_octets(flags_bits(header.flags)) + be16_octets(
        header.question_count,
    ) + be16_octets(header.answer_count) + be16_octets(header.authority_count) + be16_octets(
        header.additional_count,
    )
}

impl From<Header> for [u8; 12] {
    fn from(header: Header) -> (octets: Self) {
        let raw_flags: u16 = header.flags.into();
        [
            (header.request_id / 256) as u8,
            (header.request_id % 256) as u8,
            (raw_flags / 256) as u8,
            (raw_flags % 256) as u8,
            (header.question_count / 256) as u8,
            (header.question_count % 256) as u8,
            (header.answer_count / 256) as u8,
            (header.answer_count % 256) as u8,
            (header.authority_count / 256) as u8,
            (header.authority_count % 256) as u8,
            (header.additional_count / 256) as u8,
            (header.additional_count % 256) as u8,
        ]
    }
}

impl FromSpecImpl<Header> for [u8; 12] {
    open spec fn obeys_from_spec() -> bool {
        true
    }

    open spec fn from_spec(header: Header) -> Self {
        [
            (header.request_id / 256) as u8,
            (header.request_id % 256) as u8,
            (flags_bits(header.flags) / 256) as u8,
            (flags_bits(header.flags) % 256) as u8,
            (header.question_count / 256) as u8,
            (header.question_count % 256) as u8,
            (header.answer_count / 256) as u8,
            (header.answer_count % 256) as u8,
            (header.authority_count / 256) as u8,
            (header.authority_count % 256) as u8,
            (header.additional_count / 256) as u8,
            (header.additional_count % 256) as u8,
        ]
    }
}

/// The array that `From<Header>` yields holds exactly [`header_octets`].
pub proof fn lemma_header_array(header: Header)
    ensures
        <[u8; 12] as vstd::std_specs::convert::FromSpec<Header>>::from_spec(header)@
            == header_octets(header),
{
    let a = <[u8; 12] as vstd::std_specs::convert::FromSpec<Header>>::from_spec(header);
    assert(a@ =~= header_octets(header));
}

/// A header whose flags fit the wire is read back from its octets unchanged,
/// whatever follows them.
pub proof fn lemma_header_roundtrip(header: Header, rest: Seq<u8>)
    requires
        header.flags.fits_wire(),
    ensures
        header_of(header_octets(header) + rest) == header,
{
    lemma_flags_bits_of(header.flags);
    let buf = header_octets(header) + rest;
    lemma_be16_roundtrip(header.request_id);
    lemma_be16_roundtrip(flags_bits(header.flags));
    lemma_be16_roundtrip(header.question_count);
    lemma_be16_roundtrip(header.answer_count);
    lemma_be16_roundtrip(header.authority_count);
    lemma_be16_roundtrip(header.additional_count);
    assert(buf[0] == be16_octets(header.request_id)[0]);
    assert(buf[1] == be16_octets(header.request_id)[1]);
    assert(buf[2] == be16_octets(flags_bits(header.flags))[0]);
    assert(buf[3] == be16_octets(flags_bits(header.flags))[1]);
    assert(buf[4] == be16_octets(header.question_count)[0]);
    assert(buf[5] == be16_octets(header.question_count)[1]);
    assert(buf[6] == be16_octets(header.answer_count)[0]);
    assert(buf[7] == be16_octets(header.answer_count)[1]);
    assert(buf[8] == be16_octets(header.authority_count)[0]);
    assert(buf[9] == be16_octets(header.authority_count)[1]);
    assert(buf[10] == be16_octets(header.additional_count)[0]);
    assert(buf[11] == be16_octets(header.additional_count)[1]);
}

/// The two octets of a 16-bit value denote that value.
pub proof fn lemma_be16_roundtrip(value: u16)
    ensures
        be16(be16_octets(value), 0) == value,
        be16_octets(value).len() == 2,
{
}

} // verus!
