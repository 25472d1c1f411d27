//! Queries that the library makes itself, and the replies that stand in for a resolver.

use crate::error::MalformedPacket;
use crate::name::{encode_domain_name, wire_name};
use crate::packet::{
    answers_of, question_at, questions_at, read_header, read_question, records_at, RecordRun,
};
use crate::protocol::answer::{ResourceRecord, ResourceRecordView};
use crate::protocol::header::header_of;
use crate::protocol::question::Question;
use crate::protocol::response_code::ResponseCode;
use crate::serialize::{generate_response_with_answer, lemma_minimal_reply, minimal_reply};
use crate::wire::{be16, be16_octets, DnsPacketBuffer};
use vstd::prelude::*;
use vstd::string::StringSliceAdditionalSpecFns;

verus! {

/// The identifier of a request that is made without one.
pub const DEFAULT_REQUEST_ID: u16 = 0x5339;

/// The identifier of a made-up reply to a query without one.
pub const STUB_REQUEST_ID: u16 = 1337;

/// The octets of a recursive query for the Internet address records of the
/// name whose dotted text, as octets, is `domain`: a header with the identifier
/// `id`, or the default one, the recursion-desired flag and one question; the
/// name without compression; and the type and class of the question, both 1.
pub open spec fn request_octets(domain: Seq<u8>, id: Option<u16>) -> Seq<u8> {
    be16_octets(
        match id {
            Some(n) => n,
            None => DEFAULT_REQUEST_ID,
        },
    ) + seq![0x01u8, 0x00u8, 0x00u8, 0x01u8, 0x00u8, 0x00u8, 0x00u8, 0x00u8, 0x00u8, 0x00u8]
        + wire_name(domain) + seq![0x00u8, 0x01u8, 0x00u8, 0x01u8]
}

/// Makes a recursive query for the Internet address records of `domain`.
pub fn generate_request(domain: &str, id: Option<u16>) -> (request: Vec<u8>)
    ensures
        request@ == request_octets(domain.spec_bytes(), id),
{
    let id: u16 = match id {
        Some(n) => n,
        None => DEFAULT_REQUEST_ID,
    };
    let mut request: Vec<u8> = Vec::new();
    request.push((id / 256) as u8);
    request.push((id % 256) as u8);
    request.push(0x01);
    request.push(0x00);
    request.push(0x00);
    request.push(0x01);
    request.push(0x00);
    request.push(0x00);
    request.push(0x00);
    request.push(0x00);
    request.push(0x00);
    request.push(0x00);
    let ghost header = request@;
    let mut name = encode_domain_name(domain);
    let ghost encoded = name@;
    request.append(&mut name);
    request.push(0x00);
    request.push(0x01);
    request.push(0x00);
    request.push(0x01);
    assert(request@ =~= header + encoded + seq![0x00u8, 0x01u8, 0x00u8, 0x01u8]);
    assert(header =~= be16_octets(id) + seq![
        0x01u8,
        0x00u8,
        0x00u8,
        0x01u8,
        0x00u8,
        0x00u8,
        0x00u8,
        0x00u8,
        0x00u8,
        0x00u8,
    ]);
    request
}

/// Reads from a query what it takes to answer it: its identifier and its first question.
pub fn parse_query(buf: [u8; 512]) -> (result: Result<(u16, Question), MalformedPacket>)
    ensures
        match question_at(buf@, 12) {
            Some((question, _)) => result matches Ok((id, q)) && id == be16(buf@, 0) && q@
                == question,
            None => result is Err,
        },
{
    let header = read_header(buf.as_slice());
    match read_question(buf.as_slice(), 12) {
        Ok((question, _)) => Ok((header.request_id, question)),
        Err(e) => Err(e),
    }
}

/// A minimal reply holds no answers.
pub proof fn lemma_minimal_reply_answers(id: u16, code: ResponseCode)
    ensures
        answers_of(minimal_reply(id, code)) == Some(
            RecordRun {
                records: Seq::<ResourceRecordView>::empty(),
                ttl_indices: Seq::<int>::empty(),
                next: 12,
            },
        ),
{
    lemma_minimal_reply(id, code);
    let buf = minimal_reply(id, code);
    assert(header_of(buf).question_count == 0);
    assert(header_of(buf).answer_count == 0);
    assert(questions_at(buf, 12, 0).unwrap().next == 12);
    assert(records_at(buf, 12, 0) is Some);
}

/// The reply that stands in for the upstream resolver in benchmark mode: the
/// minimal reply without error to the query with identifier `id`, or with the
/// identifier 1337, and the answers it holds, which are none.
pub fn stub_response(id: Option<u16>) -> (response: (Vec<ResourceRecord>, DnsPacketBuffer))
    ensures
        response.1@ == minimal_reply(
            match id {
                Some(n) => n,
                None => STUB_REQUEST_ID,
            },
            ResponseCode::NOERROR,
        ),
        response.0@.len() == 0,
        answers_of(response.1@) matches Some(run) && run.records.len() == 0,
{
    let id: u16 = match id {
        Some(n) => n,
        None => STUB_REQUEST_ID,
    };
    proof {
        lemma_minimal_reply_answers(id, ResponseCode::NOERROR);
    }
    (Vec::new(), generate_response_with_answer(id, ResponseCode::NOERROR))
}

} // verus!
