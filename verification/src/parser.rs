//! A cursor over one packet buffer.

use crate::error::MalformedPacket;
use crate::name::{name_at, read_name};
use crate::packet::{
    answers_of, packet_of, question_at, question_views, questions_at, read_header, read_question,
    read_questions, read_record, read_records, record_at, record_views, DnsPacket,
};
use crate::protocol::answer::ResourceRecord;
use crate::protocol::header::{header_of, Header};
use crate::protocol::question::Question;
use crate::rewrite::{as_ints, rewrite_packet, rewritten};
use crate::wire::{be16, DnsPacketBuffer, PACKET_SIZE};
use vstd::prelude::*;
use vstd::slice::slice_subrange;

verus! {

/// Reads a message from a packet buffer, front to back, and keeps for every
/// answer that it reads the offset of the answer's TTL.
#[derive(Debug)]
pub struct DnsParser<'a> {
    /// The buffer that is read.
    pub buf: &'a DnsPacketBuffer,
    position: usize,
    answer_ttl_indices: Vec<usize>,
}

impl<'a> DnsParser<'a> {
    /// The octets of the buffer that is read.
    pub closed spec fn octets(&self) -> Seq<u8> {
        self.buf@
    }

    /// The offset of the next octet to read.
    pub closed spec fn position(&self) -> usize {
        self.position
    }

    /// The offsets of the TTLs of the answers read so far.
    pub closed spec fn ttl_indices(&self) -> Seq<usize> {
        self.answer_ttl_indices@
    }

    /// A cursor at the start of `buf`.
    pub fn new(buf: &'a DnsPacketBuffer) -> (parser: Self)
        ensures
            parser.octets() == buf@,
            parser.position() == 0,
            parser.ttl_indices() == Seq::<usize>::empty(),
    {
        Self { buf, position: 0, answer_ttl_indices: Vec::new() }
    }

    /// The buffer that is read.
    pub fn buffer(&self) -> (buf: &'a DnsPacketBuffer)
        ensures
            buf@ == self.octets(),
    {
        self.buf
    }

    /// The offset of the next octet to read.
    pub fn offset(&self) -> (position: usize)
        ensures
            position == self.position(),
    {
        self.position
    }

    /// The offsets of the TTLs of the answers read so far.
    pub fn answer_ttl_indices(&self) -> (indices: &Vec<usize>)
        ensures
            indices@ == self.ttl_indices(),
    {
        &self.answer_ttl_indices
    }

    /// The next `n` octets, without moving the cursor.
    pub fn peek(&self, n: usize) -> (octets: &'a [u8])
        requires
            self.position() + n <= PACKET_SIZE,
        ensures
            octets@ == self.octets().subrange(self.position() as int, self.position() + n),
    {
        let buf: &'a DnsPacketBuffer = self.buf;
        slice_subrange(buf.as_slice(), self.position, self.position + n)
    }

    /// The next `N` octets as an array, without moving the cursor.
    pub fn peek_n<const N: usize>(&self) -> (octets: [u8; N])
        requires
            self.position() + N <= PACKET_SIZE,
        ensures
            octets@ == self.octets().subrange(self.position() as int, self.position() + N),
    {
        let mut octets: [u8; N] = [0u8; N];
        let mut i: usize = 0;
        while i < N
            invariant
                i <= N,
                self.position + N <= 512,
                forall|k: int| 0 <= k < i ==> octets@[k] == self.buf@[self.position + k],
            decreases N - i,
        {
            octets[i] = self.buf[self.position + i];
            i = i + 1;
        }
        assert(octets@ =~= self.buf@.subrange(self.position as int, self.position + N));
        octets
    }

    /// The next `n` octets; the cursor moves past them.
    pub fn advance(&mut self, n: usize) -> (octets: &'a [u8])
        requires
            old(self).position() + n <= PACKET_SIZE,
        ensures
            octets@ == old(self).octets().subrange(
                old(self).position() as int,
                old(self).position() + n,
            ),
            final(self).position() == old(self).position() + n,
            final(self).octets() == old(self).octets(),
            final(self).ttl_indices() == old(self).ttl_indices(),
    {
        let octets = self.peek(n);
        self.position = self.position + n;
        octets
    }

    /// The next `N` octets as an array; the cursor moves past them.
    pub fn advance_n<const N: usize>(&mut self) -> (octets: [u8; N])
        requires
            old(self).position() + N <= PACKET_SIZE,
        ensures
            octets@ == old(self).octets().subrange(
                old(self).position() as int,
                old(self).position() + N,
            ),
            final(self).position() == old(self).position() + N,
            final(self).octets() == old(self).octets(),
            final(self).ttl_indices() == old(self).ttl_indices(),
    {
        let octets = self.peek_n::<N>();
        self.position = self.position + N;
        octets
    }

    /// Reads the domain name at the cursor, following compression pointers. The
    /// cursor moves past the inline part of the name; on failure it stays.
    pub fn parse_domain_name(&mut self) -> (result: Result<String, MalformedPacket>)
        ensures
            final(self).octets() == old(self).octets(),
            final(self).ttl_indices() == old(self).ttl_indices(),
            match name_at(old(self).octets(), old(self).position() as int) {
                Some((name, end)) => result matches Ok(text) && text@ == name && final(self).position() == end,
                None => result is Err && final(self).position() == old(self).position(),
            },
    {
        match read_name(self.buf.as_slice(), self.position) {
            Ok((name, end)) => {
                self.position = end;
                Ok(name)
            },
            Err(e) => Err(e),
        }
    }

    /// Reads the question at the cursor. The cursor moves past it; on failure it stays.
    pub fn parse_question(&mut self) -> (result: Result<Question, MalformedPacket>)
        ensures
            final(self).octets() == old(self).octets(),
            final(self).ttl_indices() == old(self).ttl_indices(),
            match question_at(old(self).octets(), old(self).position() as int) {
                Some((question, end)) => result matches Ok(q) && q@ == question && final(self).position() == end,
                None => result is Err && final(self).position() == old(self).position(),
            },
    {
        match read_question(self.buf.as_slice(), self.position) {
            Ok((question, end)) => {
                self.position = end;
                Ok(question)
            },
            Err(e) => Err(e),
        }
    }

    /// Reads the resource record at the cursor and notes the offset of its TTL.
    /// The cursor moves past the record; on failure nothing changes.
    pub fn parse_answer(&mut self) -> (result: Result<ResourceRecord, MalformedPacket>)
        ensures
            final(self).octets() == old(self).octets(),
            match record_at(old(self).octets(), old(self).position() as int) {
                Some(span) => result matches Ok(record) && record@ == span.record && final(self).position() == span.next && as_ints(final(self).ttl_indices()) == as_ints(
                    old(self).ttl_indices(),
                ).push(span.ttl_index),
                None => result is Err && final(self).position() == old(self).position() && final(self).ttl_indices() == old(self).ttl_indices(),
            },
    {
        let ghost before = self.answer_ttl_indices@;
        match read_record(self.buf.as_slice(), self.position) {
            Ok((record, ttl_index, next)) => {
                self.answer_ttl_indices.push(ttl_index);
                self.position = next;
                assert(as_ints(self.answer_ttl_indices@) =~= as_ints(before).push(
                    ttl_index as int,
                ));
                Ok(record)
            },
            Err(e) => Err(e),
        }
    }

    /// Reads the header from the start of the buffer and leaves the cursor
    /// after it, wherever it stood.
    pub fn parse_header(&mut self) -> (header: Header)
        ensures
            header == header_of(old(self).octets()),
            final(self).position() == 12,
            final(self).octets() == old(self).octets(),
            final(self).ttl_indices() == old(self).ttl_indices(),
    {
        self.position = 12;
        read_header(self.buf.as_slice())
    }

    /// Reads the header and all questions of the message.
    pub fn parse_questions(self) -> (result: Result<Vec<Question>, MalformedPacket>)
        ensures
            match questions_at(self.octets(), 12, header_of(self.octets()).question_count as nat) {
                Some(run) => result matches Ok(questions) && question_views(questions@)
                    == run.questions,
                None => result is Err,
            },
    {
        let buf = self.buf.as_slice();
        let header = read_header(buf);
        match read_questions(buf, 12, header.question_count) {
            Ok((questions, _)) => Ok(questions),
            Err(e) => Err(e),
        }
    }

    /// Reads the header, passes over the questions and reads all answers of the message.
    pub fn parse_answers(self) -> (result: Result<Vec<ResourceRecord>, MalformedPacket>)
        ensures
            match answers_of(self.octets()) {
                Some(run) => result matches Ok(answers) && record_views(answers@) == run.records,
                None => result is Err,
            },
    {
        let buf = self.buf.as_slice();
        let header = read_header(buf);
        match read_questions(buf, 12, header.question_count) {
            Err(e) => Err(e),
            Ok((_, after_questions)) => match read_records(
                buf,
                after_questions,
                header.answer_count,
            ) {
                Ok((answers, _, _)) => Ok(answers),
                Err(e) => Err(e),
            },
        }
    }

    /// Reads the whole message from the start of the buffer: the header, the
    /// first question and the answers. Afterwards the cursor stands behind the
    /// last answer and the offsets of the answers' TTLs are those of this
    /// message. On failure the parser is left as it was.
    pub fn parse(&mut self) -> (result: Result<DnsPacket, MalformedPacket>)
        ensures
            final(self).octets() == old(self).octets(),
            match packet_of(old(self).octets()) {
                Some(span) => result matches Ok(packet) && packet@ == span.packet && as_ints(
                    final(self).ttl_indices(),
                ) == span.ttl_indices && final(self).position() == answers_of(
                    old(self).octets(),
                ).unwrap().next && forall|k: int|
                    0 <= k < final(self).ttl_indices().len() ==> final(self).ttl_indices()[k] + 4
                        <= 512,
                None => result is Err && *final(self) == *old(self),
            },
    {
        let buf = self.buf.as_slice();
        let header = read_header(buf);
        if header.question_count == 0 {
            return Err(MalformedPacket);
        }
        match read_questions(buf, 12, header.question_count) {
            Err(e) => Err(e),
            Ok((mut questions, after_questions)) => match read_records(
                buf,
                after_questions,
                header.answer_count,
            ) {
                Err(e) => Err(e),
                Ok((answers, ttl_indices, next)) => {
                    assert(question_views(questions@)[0] == questions@[0]@);
                    let question = questions.swap_remove(0);
                    self.position = next;
                    self.answer_ttl_indices = ttl_indices;
                    Ok(DnsPacket { header, question, answers })
                },
            },
        }
    }

    /// Reads the first question of the message from the start of the buffer.
    pub fn get_first_question(&mut self) -> (result: Result<Question, MalformedPacket>)
        ensures
            final(self).octets() == old(self).octets(),
            final(self).ttl_indices() == old(self).ttl_indices(),
            match question_at(old(self).octets(), 12) {
                Some((question, end)) => result matches Ok(q) && q@ == question && final(self).position() == end,
                None => result is Err && final(self).position() == 12,
            },
    {
        self.position = 12;
        self.parse_question()
    }

    /// Reads the identifier of the message from the start of the buffer.
    pub fn get_request_id(&mut self) -> (result: Result<u16, MalformedPacket>)
        ensures
            result == Ok::<u16, MalformedPacket>(be16(old(self).octets(), 0)),
            final(self).position() == 12,
            final(self).octets() == old(self).octets(),
            final(self).ttl_indices() == old(self).ttl_indices(),
    {
        let header = self.parse_header();
        Ok(header.request_id)
    }

    /// Reads what it takes to relay a message: its identifier and its first question.
    pub fn get_relay_information(&mut self) -> (result: Result<(u16, Question), MalformedPacket>)
        ensures
            final(self).octets() == old(self).octets(),
            final(self).ttl_indices() == old(self).ttl_indices(),
            match question_at(old(self).octets(), 12) {
                Some((question, end)) => result matches Ok((id, q)) && id == be16(
                    old(self).octets(),
                    0,
                ) && q@ == question && final(self).position() == end,
                None => result is Err && final(self).position() == 12,
            },
    {
        let header = self.parse_header();
        match self.parse_question() {
            Ok(question) => Ok((header.request_id, question)),
            Err(e) => Err(e),
        }
    }

    /// Makes from the captured reply in the buffer the reply to a later query:
    /// the identifier becomes `new_request_id`, the TTL of every answer is
    /// reduced by `elapsed_seconds`, and no other octet changes. Fails where the
    /// buffer holds no well-formed message.
    pub fn update_cached_packet(self, elapsed_seconds: u64, new_request_id: u16) -> (result:
        Result<DnsPacketBuffer, MalformedPacket>)
        ensures
            match packet_of(self.octets()) {
                Some(span) => result matches Ok(reply) && reply@ == rewritten(
                    self.octets(),
                    span.ttl_indices,
                    elapsed_seconds,
                    new_request_id,
                ),
                None => result is Err,
            },
    {
        let mut parser = self;
        match parser.parse() {
            Err(e) => Err(e),
            Ok(_) => Ok(
                rewrite_packet(
                    parser.buf,
                    &parser.answer_ttl_indices,
                    elapsed_seconds,
                    new_request_id,
                ),
            ),
        }
    }
}

} // verus!
