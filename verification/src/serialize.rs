//! Replies that the forwarder makes up itself.

use crate::protocol::header::{
    header_octets, header_of, lemma_header_array, lemma_header_roundtrip, Flags, Header,
};
use crate::protocol::response_code::{response_code_value, ResponseCode};
use crate::wire::DnsPacketBuffer;
use vstd::prelude::*;

verus! {

/// The header of a reply that carries nothing but an identifier and a response code.
pub open spec fn minimal_header(id: u16, code: ResponseCode) -> Header {
    Header {
        request_id: id,
        flags: Flags {
            query: false,
            opcode: 0,
            authoritative_answer: false,
            truncation: false,
            recursion_desired: false,
            recursion_available: false,
            z: 0,
            response_code: response_code_value(code),
        },
        question_count: 0,
        answer_count: 0,
        authority_count: 0,
        additional_count: 0,
    }
}

/// The minimal reply to the query with identifier `id`: a header that is marked
/// as a response and carries `code`, all its counts zero, and 500 zero octets
/// behind it.
pub open spec fn minimal_reply(id: u16, code: ResponseCode) -> Seq<u8> {
    header_octets(minimal_header(id, code)) + Seq::new(500, |i: int| 0u8)
}

/// A minimal reply is 512 octets long, and its header reads back as it was written.
pub proof fn lemma_minimal_reply(id: u16, code: ResponseCode)
    ensures
        minimal_reply(id, code).len() == 512,
        header_of(minimal_reply(id, code)) == minimal_header(id, code),
        header_of(minimal_reply(id, code)).request_id == id,
        !header_of(minimal_reply(id, code)).flags.query,
        header_of(minimal_reply(id, code)).flags.response_code == response_code_value(code),
{
    lemma_header_roundtrip(minimal_header(id, code), Seq::new(500, |i: int| 0u8));
}

/// Makes the minimal reply with response code `response_code` to the query with
/// identifier `id`.
pub fn generate_response_with_answer(id: u16, response_code: ResponseCode) -> (reply:
    DnsPacketBuffer)
    ensures
        reply@ == minimal_reply(id, response_code),
{
    let flags = Flags {
        query: false,
        opcode: 0,
        authoritative_answer: false,
        truncation: false,
        recursion_desired: false,
        recursion_available: false,
        z: 0,
        response_code: response_code.into(),
    };
    let header = Header {
        request_id: id,
        flags,
        question_count: 0,
        answer_count: 0,
        authority_count: 0,
        additional_count: 0,
    };
    let octets: [u8; 12] = header.into();
    let mut reply: DnsPacketBuffer = [0u8; 512];
    let mut i: usize = 0;
    while i < 12
        invariant
            i <= 12,
            forall|k: int| 0 <= k < i ==> reply@[k] == octets@[k],
            forall|k: int| i <= k < 512 ==> reply@[k] == 0,
        decreases 12 - i,
    {
        reply[i] = octets[i];
        i = i + 1;
    }
    proof {
        lemma_header_array(header);
        assert(reply@ =~= minimal_reply(id, response_code));
    }
    reply
}

/// Makes the reply that tells the client with identifier `id` that the name it
/// asked for does not exist.
pub fn generate_nx_response(id: u16) -> (reply: DnsPacketBuffer)
    ensures
        reply@ == minimal_reply(id, ResponseCode::NXDOMAIN),
{
    generate_response_with_answer(id, ResponseCode::NXDOMAIN)
}

} // verus!
