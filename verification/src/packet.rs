//! The layout of a message: header, questions and answers, read from raw octets.

use crate::error::MalformedPacket;
use crate::name::{
    follows_pointers, lemma_deep_chain_has_no_name, name_at, read_name, MAX_POINTER_DEPTH,
};
use crate::protocol::answer::{
    ResourceRecord, ResourceRecordData, ResourceRecordDataView, ResourceRecordMeta,
    ResourceRecordMetaView, ResourceRecordView,
};
use crate::protocol::header::{header_of, Flags, Header};
use crate::protocol::question::{Question, QuestionView};
use crate::protocol::record_type::{record_type_of, RecordType};
use crate::rewrite::as_ints;
use crate::wire::{be16, be32, read_u16, read_u32};
use vstd::prelude::*;

verus! {

/// A decoded message: the header, the first question and the answers.
#[derive(Debug)]
pub struct DnsPacket {
    pub header: Header,
    pub question: Question,
    pub answers: Vec<ResourceRecord>,
}

/// What a [`DnsPacket`] holds, as mathematical values.
pub struct DnsPacketView {
    pub header: Header,
    pub question: QuestionView,
    pub answers: Seq<ResourceRecordView>,
}

/// The views of a run of records.
pub open spec fn record_views(records: Seq<ResourceRecord>) -> Seq<ResourceRecordView> {
    records.map_values(|r: ResourceRecord| r@)
}

impl View for DnsPacket {
    type V = DnsPacketView;

    open spec fn view(&self) -> DnsPacketView {
        DnsPacketView {
            header: self.header,
            question: self.question@,
            answers: record_views(self.answers@),
        }
    }
}

impl Clone for DnsPacket {
    fn clone(&self) -> (copy: Self)
        ensures
            copy@ == self@,
    {
        let mut answers: Vec<ResourceRecord> = Vec::new();
        let mut i: usize = 0;
        while i < self.answers.len()
            invariant
                i <= self.answers@.len(),
                answers@.len() == i,
                record_views(answers@) == record_views(self.answers@.subrange(0, i as int)),
            decreases self.answers@.len() - i,
        {
            let ghost before = answers@;
            let copy = self.answers[i].clone();
            answers.push(copy);
            i = i + 1;
            assert forall|k: int| 0 <= k < i implies record_views(answers@)[k] == record_views(
                self.answers@.subrange(0, i as int),
            )[k] by {
                if k < i - 1 {
                    assert(record_views(before)[k] == before[k]@);
                    assert(record_views(self.answers@.subrange(0, i - 1))[k] == self.answers@[k]@);
                }
            }
            assert(record_views(answers@) =~= record_views(self.answers@.subrange(0, i as int)));
        }
        assert(self.answers@.subrange(0, i as int) =~= self.answers@);
        DnsPacket { header: self.header, question: self.question.clone(), answers }
    }
}

/// The question that starts at `at`, and the offset after it.
pub open spec fn question_at(buf: Seq<u8>, at: int) -> Option<(QuestionView, int)> {
    match name_at(buf, at) {
        Some((name, end)) => if end + 4 <= buf.len() {
            Some(
                (
                    QuestionView {
                        domain_name: name,
                        record_type: record_type_of(be16(buf, end)),
                        class: be16(buf, end + 2),
                    },
                    end + 4,
                ),
            )
        } else {
            None
        },
        None => None,
    }
}

/// A run of questions in its place in the buffer.
pub struct QuestionRun {
    pub questions: Seq<QuestionView>,
    /// Offset of the first octet after the last question.
    pub next: int,
}

/// The `count` questions that start at `at`.
pub open spec fn questions_at(buf: Seq<u8>, at: int, count: nat) -> Option<QuestionRun>
    decreases count,
{
    if count == 0 {
        Some(QuestionRun { questions: Seq::empty(), next: at })
    } else {
        match questions_at(buf, at, (count - 1) as nat) {
            Some(run) => match question_at(buf, run.next) {
                Some((question, next)) => Some(
                    QuestionRun { questions: run.questions.push(question), next },
                ),
                None => None,
            },
            None => None,
        }
    }
}

/// The data of a record of type `record_type` that starts at `at`, and the offset
/// after it. Data of a type that is not decoded is skipped by `len`, its declared
/// length.
pub open spec fn record_data_at(buf: Seq<u8>, at: int, record_type: RecordType, len: u16) -> Option<
    (ResourceRecordDataView, int),
> {
    match record_type {
        RecordType::A => if at + 4 <= buf.len() {
            Some((ResourceRecordDataView::A { ipv4: buf.subrange(at, at + 4) }, at + 4))
        } else {
            None
        },
        RecordType::AAAA => if at + 16 <= buf.len() {
            Some((ResourceRecordDataView::AAAA { ipv6: buf.subrange(at, at + 16) }, at + 16))
        } else {
            None
        },
        RecordType::CNAME => match name_at(buf, at) {
            Some((name, end)) => Some((ResourceRecordDataView::CNAME { cname: name }, end)),
            None => None,
        },
        RecordType::NS => match name_at(buf, at) {
            Some((name, end)) => Some((ResourceRecordDataView::NS { ns: name }, end)),
            None => None,
        },
        RecordType::PTR => match name_at(buf, at) {
            Some((name, end)) => Some((ResourceRecordDataView::PTR { domain_name: name }, end)),
            None => None,
        },
        RecordType::MB => match name_at(buf, at) {
            Some((name, end)) => Some((ResourceRecordDataView::MB { domain_name: name }, end)),
            None => None,
        },
        RecordType::MX => if at + 2 <= buf.len() {
            match name_at(buf, at + 2) {
                Some((name, end)) => Some(
                    (ResourceRecordDataView::MX { preference: be16(buf, at), exchange: name }, end),
                ),
                None => None,
            }
        } else {
            None
        },
        RecordType::SOA => match name_at(buf, at) {
            Some((mname, first_end)) => match name_at(buf, first_end) {
                Some((rname, end)) => if end + 20 <= buf.len() {
                    Some(
                        (
                            ResourceRecordDataView::SOA {
                                mname,
                                rname,
                                serial: be32(buf, end),
                                refresh: be32(buf, end + 4),
                                retry: be32(buf, end + 8),
                                expire: be32(buf, end + 12),
                                minimum: be32(buf, end + 16),
                            },
                            end + 20,
                        ),
                    )
                } else {
                    None
                },
                None => None,
            },
            None => None,
        },
        _ => if at + len <= buf.len() {
            Some((ResourceRecordDataView::Unknown, at + len))
        } else {
            None
        },
    }
}

/// A resource record in its place in the buffer.
pub struct RecordSpan {
    pub record: ResourceRecordView,
    /// Offset of the four octets that hold the record's TTL.
    pub ttl_index: int,
    /// Offset of the first octet after the record.
    pub next: int,
}

/// The resource record that starts at `at`: a name, then type, class, TTL and data
/// length in ten octets, then the data.
pub open spec fn record_at(buf: Seq<u8>, at: int) -> Option<RecordSpan> {
    match name_at(buf, at) {
        Some((name, end)) => if end + 10 <= buf.len() {
            let record_type = record_type_of(be16(buf, end));
            let len = be16(buf, end + 8);
            match record_data_at(buf, end + 10, record_type, len) {
                Some((value, next)) => Some(
                    RecordSpan {
                        record: ResourceRecordView {
                            meta: ResourceRecordMetaView {
                                name,
                                record_type,
                                class: be16(buf, end + 2),
                                ttl: be32(buf, end + 4),
                                len,
                            },
                            value,
                        },
                        ttl_index: end + 4,
                        next,
                    },
                ),
                None => None,
            }
        } else {
            None
        },
        None => None,
    }
}

/// A run of resource records in its place in the buffer.
pub struct RecordRun {
    pub records: Seq<ResourceRecordView>,
    /// For each record, the offset of its TTL.
    pub ttl_indices: Seq<int>,
    /// Offset of the first octet after the last record.
    pub next: int,
}

/// The `count` resource records that start at `at`.
pub open spec fn records_at(buf: Seq<u8>, at: int, count: nat) -> Option<RecordRun>
    decreases count,
{
    if count == 0 {
        Some(RecordRun { records: Seq::empty(), ttl_indices: Seq::empty(), next: at })
    } else {
        match records_at(buf, at, (count - 1) as nat) {
            Some(run) => match record_at(buf, run.next) {
                Some(span) => Some(
                    RecordRun {
                        records: run.records.push(span.record),
                        ttl_indices: run.ttl_indices.push(span.ttl_index),
                        next: span.next,
                    },
                ),
                None => None,
            },
            None => None,
        }
    }
}

/// A message in its place in the buffer.
pub struct PacketSpan {
    pub packet: DnsPacketView,
    /// For each answer, the offset of its TTL.
    pub ttl_indices: Seq<int>,
}

/// The answer section of the message that `buf` holds: the records that follow
/// the header and the questions.
pub open spec fn answers_of(buf: Seq<u8>) -> Option<RecordRun> {
    if buf.len() < 12 {
        None
    } else {
        match questions_at(buf, 12, header_of(buf).question_count as nat) {
            Some(run) => records_at(buf, run.next, header_of(buf).answer_count as nat),
            None => None,
        }
    }
}

/// The message that `buf` holds: the header in the first twelve octets, then the
/// questions, of which the first is kept and at least one is required, then as
/// many answers as the header counts. `None` where the buffer holds no
/// well-formed message.
pub open spec fn packet_of(buf: Seq<u8>) -> Option<PacketSpan> {
    if buf.len() < 12 || header_of(buf).question_count == 0 {
        None
    } else {
        match questions_at(buf, 12, header_of(buf).question_count as nat) {
            Some(asked) => match records_at(buf, asked.next, header_of(buf).answer_count as nat) {
                Some(run) => Some(
                    PacketSpan {
                        packet: DnsPacketView {
                            header: header_of(buf),
                            question: asked.questions[0],
                            answers: run.records,
                        },
                        ttl_indices: run.ttl_indices,
                    },
                ),
                None => None,
            },
            None => None,
        }
    }
}

/// Once a question of a run is malformed, so is every longer run.
pub proof fn lemma_questions_at_none(buf: Seq<u8>, at: int, count: nat, more: nat)
    requires
        questions_at(buf, at, count) is None,
        count <= more,
    ensures
        questions_at(buf, at, more) is None,
    decreases more,
{
    if count < more {
        lemma_questions_at_none(buf, at, count, (more - 1) as nat);
    }
}

/// The first question of a run does not depend on how many follow it.
pub proof fn lemma_questions_at_first(buf: Seq<u8>, at: int, count: nat)
    requires
        count >= 1,
        questions_at(buf, at, count) is Some,
    ensures
        questions_at(buf, at, 1) is Some,
        questions_at(buf, at, count).unwrap().questions.len() == count,
        questions_at(buf, at, count).unwrap().questions[0] == questions_at(
            buf,
            at,
            1,
        ).unwrap().questions[0],
        question_at(buf, at) is Some,
        questions_at(buf, at, 1).unwrap().questions[0] == question_at(buf, at).unwrap().0,
    decreases count,
{
    reveal_with_fuel(questions_at, 2);
    if count > 1 {
        lemma_questions_at_first(buf, at, (count - 1) as nat);
    }
}

/// Once a record of a run is malformed, so is every longer run.
pub proof fn lemma_records_at_none(buf: Seq<u8>, at: int, count: nat, more: nat)
    requires
        records_at(buf, at, count) is None,
        count <= more,
    ensures
        records_at(buf, at, more) is None,
    decreases more,
{
    if count < more {
        lemma_records_at_none(buf, at, count, (more - 1) as nat);
    }
}

/// A datagram whose first question names a chain of more than
/// [`MAX_POINTER_DEPTH`] compression pointers holds no well-formed message.
pub proof fn lemma_deep_chain_is_malformed(buf: Seq<u8>)
    requires
        follows_pointers(buf, 12, (MAX_POINTER_DEPTH + 1) as nat),
    ensures
        packet_of(buf) is None,
{
    lemma_deep_chain_has_no_name(buf, 12);
    if buf.len() >= 12 && header_of(buf).question_count > 0 {
        let count = header_of(buf).question_count as nat;
        if questions_at(buf, 12, count) is Some {
            lemma_questions_at_first(buf, 12, count);
        }
    }
}

/// Reads the question that starts at `at`.
pub fn read_question(buf: &[u8], at: usize) -> (result: Result<(Question, usize), MalformedPacket>)
    ensures
        match question_at(buf@, at as int) {
            Some((question, end)) => result matches Ok((q, next)) && q@ == question && next == end
                && at < next <= buf@.len(),
            None => result is Err,
        },
{
    match read_name(buf, at) {
        Err(e) => Err(e),
        Ok((domain_name, end)) => {
            if buf.len() - end < 4 {
                return Err(MalformedPacket);
            }
            let code: u16 = read_u16(buf, end);
            let class: u16 = read_u16(buf, end + 2);
            Ok((Question { domain_name, record_type: RecordType::from(code), class }, end + 4))
        },
    }
}

/// Reads the data of a record of type `record_type` that starts at `at`.
pub fn read_record_data(buf: &[u8], at: usize, record_type: RecordType, len: u16) -> (result:
    Result<(ResourceRecordData, usize), MalformedPacket>)
    requires
        at <= buf@.len(),
    ensures
        match record_data_at(buf@, at as int, record_type, len) {
            Some((value, end)) => result matches Ok((v, next)) && v@ == value && next == end
                && at <= next <= buf@.len(),
            None => result is Err,
        },
{
    let room: usize = buf.len() - at;
    match record_type {
        RecordType::A => {
            if room < 4 {
                return Err(MalformedPacket);
            }
            let ipv4: [u8; 4] = [buf[at], buf[at + 1], buf[at + 2], buf[at + 3]];
            assert(ipv4@ =~= buf@.subrange(at as int, at + 4));
            Ok((ResourceRecordData::A { ipv4 }, at + 4))
        },
        RecordType::AAAA => {
            if room < 16 {
                return Err(MalformedPacket);
            }
            let ipv6: [u8; 16] = [
                buf[at],
                buf[at + 1],
                buf[at + 2],
                buf[at + 3],
                buf[at + 4],
                buf[at + 5],
                buf[at + 6],
                buf[at + 7],
                buf[at + 8],
                buf[at + 9],
                buf[at + 10],
                buf[at + 11],
                buf[at + 12],
                buf[at + 13],
                buf[at + 14],
                buf[at + 15],
            ];
            assert(ipv6@ =~= buf@.subrange(at as int, at + 16));
            Ok((ResourceRecordData::AAAA { ipv6 }, at + 16))
        },
        RecordType::CNAME => match read_name(buf, at) {
            Ok((cname, end)) => Ok((ResourceRecordData::CNAME { cname }, end)),
            Err(e) => Err(e),
        },
        RecordType::NS => match read_name(buf, at) {
            Ok((ns, end)) => Ok((ResourceRecordData::NS { ns }, end)),
            Err(e) => Err(e),
        },
        RecordType::PTR => match read_name(buf, at) {
            Ok((domain_name, end)) => Ok((ResourceRecordData::PTR { domain_name }, end)),
            Err(e) => Err(e),
        },
        RecordType::MB => match read_name(buf, at) {
            Ok((domain_name, end)) => Ok((ResourceRecordData::MB { domain_name }, end)),
            Err(e) => Err(e),
        },
        RecordType::MX => {
            if room < 2 {
                return Err(MalformedPacket);
            }
            let preference: u16 = read_u16(buf, at);
            match read_name(buf, at + 2) {
                Ok((exchange, end)) => Ok((ResourceRecordData::MX { preference, exchange }, end)),
                Err(e) => Err(e),
            }
        },
        RecordType::SOA => match read_name(buf, at) {
            Err(e) => Err(e),
            Ok((mname, first_end)) => match read_name(buf, first_end) {
                Err(e) => Err(e),
                Ok((rname, end)) => {
                    if buf.len() - end < 20 {
                        return Err(MalformedPacket);
                    }
                    let serial: u32 = read_u32(buf, end);
                    let refresh: u32 = read_u32(buf, end + 4);
                    let retry: u32 = read_u32(buf, end + 8);
                    let expire: u32 = read_u32(buf, end + 12);
                    let minimum: u32 = read_u32(buf, end + 16);
                    Ok(
                        (
                            ResourceRecordData::SOA {
                                mname,
                                rname,
                                serial,
                                refresh,
                                retry,
                                expire,
                                minimum,
                            },
                            end + 20,
                        ),
                    )
                },
            },
        },
        _ => {
            if room < len as usize {
                return Err(MalformedPacket);
            }
            Ok((ResourceRecordData::Unknown, at + len as usize))
        },
    }
}

/// Reads the resource record that starts at `at`; returns it with the offset of
/// its TTL and the offset after the record.
pub fn read_record(buf: &[u8], at: usize) -> (result: Result<
    (ResourceRecord, usize, usize),
    MalformedPacket,
>)
    ensures
        match record_at(buf@, at as int) {
            Some(span) => result matches Ok((record, ttl_index, next)) && record@ == span.record
                && ttl_index == span.ttl_index && next == span.next && at < ttl_index
                && ttl_index + 4 <= next <= buf@.len(),
            None => result is Err,
        },
{
    match read_name(buf, at) {
        Err(e) => Err(e),
        Ok((name, end)) => {
            if buf.len() - end < 10 {
                return Err(MalformedPacket);
            }
            let record_type = RecordType::from(read_u16(buf, end));
            let class: u16 = read_u16(buf, end + 2);
            let ttl: u32 = read_u32(buf, end + 4);
            let len: u16 = read_u16(buf, end + 8);
            match read_record_data(buf, end + 10, record_type, len) {
                Err(e) => Err(e),
                Ok((value, next)) => Ok(
                    (
                        ResourceRecord::new(
                            ResourceRecordMeta { name, record_type, class, ttl, len },
                            value,
                        ),
                        end + 4,
                        next,
                    ),
                ),
            }
        },
    }
}

/// The views of a run of questions.
pub open spec fn question_views(questions: Seq<Question>) -> Seq<QuestionView> {
    questions.map_values(|q: Question| q@)
}

/// Reads the header from the first twelve octets.
pub fn read_header(buf: &[u8]) -> (header: Header)
    requires
        buf@.len() >= 12,
    ensures
        header == header_of(buf@),
{
    Header {
        request_id: read_u16(buf, 0),
        flags: Flags::from(read_u16(buf, 2)),
        question_count: read_u16(buf, 4),
        answer_count: read_u16(buf, 6),
        authority_count: read_u16(buf, 8),
        additional_count: read_u16(buf, 10),
    }
}

/// Reads the `count` questions that start at `at`; returns them with the offset
/// after the last.
pub fn read_questions(buf: &[u8], at: usize, count: u16) -> (result: Result<
    (Vec<Question>, usize),
    MalformedPacket,
>)
    requires
        at <= buf@.len(),
    ensures
        match questions_at(buf@, at as int, count as nat) {
            Some(run) => result matches Ok((questions, next)) && question_views(questions@)
                == run.questions && questions@.len() == count && next == run.next && at <= next
                <= buf@.len(),
            None => result is Err,
        },
{
    let mut questions: Vec<Question> = Vec::new();
    let mut pos: usize = at;
    let mut i: u16 = 0;
    assert(question_views(questions@) =~= Seq::<QuestionView>::empty());
    while i < count
        invariant
            i <= count,
            at <= pos <= buf@.len(),
            questions@.len() == i,
            questions_at(buf@, at as int, i as nat) == Some(
                QuestionRun { questions: question_views(questions@), next: pos as int },
            ),
        decreases count - i,
    {
        let ghost before = questions@;
        match read_question(buf, pos) {
            Err(e) => {
                proof {
                    lemma_questions_at_none(buf@, at as int, (i + 1) as nat, count as nat);
                }
                return Err(e);
            },
            Ok((question, next)) => {
                questions.push(question);
                pos = next;
                i = i + 1;
                assert(question_views(questions@) =~= question_views(before).push(question@));
            },
        }
    }
    Ok((questions, pos))
}

/// Reads the `count` resource records that start at `at`; returns them with the
/// offsets of their TTLs and the offset after the last record.
pub fn read_records(buf: &[u8], at: usize, count: u16) -> (result: Result<
    (Vec<ResourceRecord>, Vec<usize>, usize),
    MalformedPacket,
>)
    requires
        at <= buf@.len(),
    ensures
        match records_at(buf@, at as int, count as nat) {
            Some(run) => result matches Ok((records, ttl_indices, next)) && record_views(records@)
                == run.records && records@.len() == count && as_ints(ttl_indices@)
                == run.ttl_indices && next == run.next
                && at <= next <= buf@.len() && forall|k: int|
                0 <= k < ttl_indices@.len() ==> ttl_indices@[k] + 4 <= buf@.len(),
            None => result is Err,
        },
{
    let mut records: Vec<ResourceRecord> = Vec::new();
    let mut ttl_indices: Vec<usize> = Vec::new();
    let mut pos: usize = at;
    let mut i: u16 = 0;
    assert(record_views(records@) =~= Seq::<ResourceRecordView>::empty());
    assert(as_ints(ttl_indices@) =~= Seq::<int>::empty());
    while i < count
        invariant
            i <= count,
            at <= pos <= buf@.len(),
            records@.len() == i,
            ttl_indices@.len() == i,
            forall|k: int| 0 <= k < ttl_indices@.len() ==> ttl_indices@[k] + 4 <= buf@.len(),
            records_at(buf@, at as int, i as nat) == Some(
                RecordRun {
                    records: record_views(records@),
                    ttl_indices: as_ints(ttl_indices@),
                    next: pos as int,
                },
            ),
        decreases count - i,
    {
        let ghost records_before = records@;
        let ghost indices_before = ttl_indices@;
        match read_record(buf, pos) {
            Err(e) => {
                proof {
                    lemma_records_at_none(buf@, at as int, (i + 1) as nat, count as nat);
                }
                return Err(e);
            },
            Ok((record, ttl_index, next)) => {
                records.push(record);
                ttl_indices.push(ttl_index);
                pos = next;
                i = i + 1;
                assert(record_views(records@) =~= record_views(records_before).push(record@));
                assert(as_ints(ttl_indices@) =~= as_ints(indices_before).push(ttl_index as int));
            },
        }
    }
    Ok((records, ttl_indices, pos))
}

} // verus!
