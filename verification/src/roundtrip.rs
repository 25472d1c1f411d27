//! Reading a rewritten reply: it holds the message of the captured reply, with
//! the new identifier and the reduced TTLs.

use crate::name::{
    joined, label_chars, lemma_name_walk_end, name_at, name_walk, pointer_target, resume_or,
    MAX_POINTER_DEPTH,
};
use crate::packet::{
    packet_of, question_at, questions_at, record_at, record_data_at, records_at, DnsPacketView,
    PacketSpan, RecordRun, RecordSpan,
};
use crate::protocol::answer::{ResourceRecordMetaView, ResourceRecordView};
use crate::protocol::header::{header_of, Header};
use crate::protocol::record_type::{record_type_of, RecordType};
use crate::rewrite::{overwritten, reduced_ttl, rewritten, ttls_reduced};
use crate::wire::{be16, be16_octets, be32, be32_octets};
use vstd::prelude::*;

verus! {

/// Whether reading a name from `at`, with `budget` pointers to follow, looks at
/// the octet at offset `i`.
pub open spec fn name_reads(buf: Seq<u8>, at: int, budget: nat, i: int) -> bool
    decreases budget, buf.len() - at,
{
    if at < 0 || at >= buf.len() {
        false
    } else if i == at {
        true
    } else if buf[at] == 0 {
        false
    } else if buf[at] >= 0xC0 {
        if budget == 0 || at + 1 >= buf.len() {
            false
        } else {
            i == at + 1 || name_reads(buf, pointer_target(buf, at), (budget - 1) as nat, i)
        }
    } else if buf[at] > 63 || at + 1 + buf[at] > buf.len() {
        false
    } else {
        at < i <= at + buf[at] || name_reads(buf, at + 1 + buf[at], budget, i)
    }
}

/// A name reads the same from two buffers that agree on the octets it looks at.
pub proof fn lemma_name_frame(
    a: Seq<u8>,
    b: Seq<u8>,
    at: int,
    budget: nat,
    acc: Seq<char>,
    resume: Option<int>,
)
    requires
        a.len() == b.len(),
        forall|i: int| name_reads(a, at, budget, i) ==> a[i] == b[i],
    ensures
        name_walk(b, at, budget, acc, resume) == name_walk(a, at, budget, acc, resume),
    decreases budget, a.len() - at,
{
    if at < 0 || at >= a.len() {
    } else {
        assert(name_reads(a, at, budget, at));
        if a[at] == 0 {
        } else if a[at] >= 0xC0 {
            if budget == 0 || at + 1 >= a.len() {
            } else {
                assert(name_reads(a, at, budget, at + 1));
                let target = pointer_target(a, at);
                assert forall|i: int|
                    name_reads(a, target, (budget - 1) as nat, i) implies a[i] == b[i] by {
                    assert(name_reads(a, at, budget, i));
                }
                lemma_name_frame(
                    a,
                    b,
                    target,
                    (budget - 1) as nat,
                    acc,
                    Some(resume_or(resume, at + 2)),
                );
            }
        } else if a[at] > 63 || at + 1 + a[at] > a.len() {
        } else {
            let next = at + 1 + a[at];
            assert forall|i: int| name_reads(a, next, budget, i) implies a[i] == b[i] by {
                assert(name_reads(a, at, budget, i));
            }
            assert forall|k: int| 0 <= k < a[at] implies #[trigger] label_chars(
                b,
                at + 1,
                a[at] as int,
            )[k] == label_chars(a, at + 1, a[at] as int)[k] by {
                assert(name_reads(a, at, budget, at + 1 + k));
            }
            assert(label_chars(b, at + 1, a[at] as int) =~= label_chars(a, at + 1, a[at] as int));
            lemma_name_frame(
                a,
                b,
                next,
                budget,
                joined(acc, label_chars(a, at + 1, a[at] as int)),
                resume,
            );
        }
    }
}

/// Whether the octet at offset `i` belongs to one of the four-octet fields that
/// start at `starts`.
pub open spec fn in_fields(starts: Seq<int>, i: int) -> bool {
    exists|k: int| 0 <= k < starts.len() && #[trigger] starts[k] <= i && i < starts[k] + 4
}

/// The four-octet fields that start at `starts` lie inside a buffer of `len`
/// octets, behind its first `floor` octets, one after the other without overlap.
pub open spec fn fields_apart(starts: Seq<int>, floor: int, len: int) -> bool {
    &&& forall|k: int| 0 <= k < starts.len() ==> floor <= #[trigger] starts[k] && starts[k] + 4 <= len
    &&& forall|j: int, k: int|
        0 <= j < k < starts.len() ==> #[trigger] starts[j] + 4 <= #[trigger] starts[k]
}

/// The four octets of a 32-bit value denote that value.
pub proof fn lemma_be32_roundtrip(value: u32)
    ensures
        be32(be32_octets(value), 0) == value,
        be32_octets(value).len() == 4,
{
}

/// Writing a 32-bit value over four octets of a buffer stores the value there
/// and leaves the other octets as they are.
pub proof fn lemma_overwritten_be32(buf: Seq<u8>, at: int, value: u32)
    requires
        0 <= at,
        at + 4 <= buf.len(),
    ensures
        overwritten(buf, at, be32_octets(value)).len() == buf.len(),
        be32(overwritten(buf, at, be32_octets(value)), at) == value,
        forall|i: int|
            0 <= i < buf.len() && !(at <= i < at + 4) ==> #[trigger] overwritten(
                buf,
                at,
                be32_octets(value),
            )[i] == buf[i],
{
    let after = overwritten(buf, at, be32_octets(value));
    lemma_be32_roundtrip(value);
    assert(after[at] == be32_octets(value)[0]);
    assert(after[at + 1] == be32_octets(value)[1]);
    assert(after[at + 2] == be32_octets(value)[2]);
    assert(after[at + 3] == be32_octets(value)[3]);
}

/// Fields that lie apart still do so without the last of them, and none of
/// the others reaches into the last.
pub proof fn lemma_fields_apart_drop_last(starts: Seq<int>, floor: int, len: int)
    requires
        fields_apart(starts, floor, len),
        starts.len() > 0,
    ensures
        fields_apart(starts.drop_last(), floor, len),
        forall|i: int| starts.last() <= i < starts.last() + 4 ==> !in_fields(starts.drop_last(), i),
        forall|i: int|
            in_fields(starts, i) <==> (in_fields(starts.drop_last(), i) || starts.last() <= i
                < starts.last() + 4),
{
    let earlier = starts.drop_last();
    let last = starts.len() - 1;
    assert forall|k: int| 0 <= k < earlier.len() implies floor <= #[trigger] earlier[k]
        && earlier[k] + 4 <= len by {
        assert(earlier[k] == starts[k]);
    }
    assert forall|j: int, k: int| 0 <= j < k < earlier.len() implies #[trigger] earlier[j] + 4
        <= #[trigger] earlier[k] by {
        assert(earlier[j] == starts[j] && earlier[k] == starts[k]);
    }
    assert forall|i: int| in_fields(earlier, i) implies in_fields(starts, i) && !(starts.last()
        <= i < starts.last() + 4) by {
        let k = choose|k: int|
            0 <= k < earlier.len() && #[trigger] earlier[k] <= i && i < earlier[k] + 4;
        assert(earlier[k] == starts[k]);
        assert(starts[k] <= i && i < starts[k] + 4);
        assert(starts[k] + 4 <= starts[last]);
    }
    assert forall|i: int| in_fields(starts, i) implies in_fields(earlier, i) || starts.last() <= i
        < starts.last() + 4 by {
        let k = choose|k: int|
            0 <= k < starts.len() && #[trigger] starts[k] <= i && i < starts[k] + 4;
        if k < last {
            assert(earlier[k] == starts[k]);
            assert(earlier[k] <= i && i < earlier[k] + 4);
        }
    }
    assert forall|i: int| starts.last() <= i < starts.last() + 4 implies in_fields(starts, i) by {
        assert(starts[last] <= i && i < starts[last] + 4);
    }
}

/// Reducing the TTLs in fields that lie apart changes each of them as
/// [`reduced_ttl`] says and nothing else.
pub proof fn lemma_ttls_reduced(buf: Seq<u8>, starts: Seq<int>, elapsed: u64)
    requires
        fields_apart(starts, 0, buf.len() as int),
    ensures
        ttls_reduced(buf, starts, elapsed).len() == buf.len(),
        forall|i: int|
            0 <= i < buf.len() && !in_fields(starts, i) ==> ttls_reduced(buf, starts, elapsed)[i]
                == buf[i],
        forall|k: int|
            0 <= k < starts.len() ==> be32(ttls_reduced(buf, starts, elapsed), #[trigger] starts[k])
                == reduced_ttl(be32(buf, starts[k]), elapsed),
    decreases starts.len(),
{
    if starts.len() > 0 {
        let earlier = starts.drop_last();
        let at = starts.last();
        let before = ttls_reduced(buf, earlier, elapsed);
        let after = ttls_reduced(buf, starts, elapsed);
        lemma_fields_apart_drop_last(starts, 0, buf.len() as int);
        lemma_ttls_reduced(buf, earlier, elapsed);
        assert(starts[starts.len() - 1] == at);
        assert(be32(before, at) == be32(buf, at)) by {
            assert(!in_fields(earlier, at));
            assert(!in_fields(earlier, at + 1));
            assert(!in_fields(earlier, at + 2));
            assert(!in_fields(earlier, at + 3));
        }
        let left = reduced_ttl(be32(before, at), elapsed);
        lemma_overwritten_be32(before, at, left);
        assert(after == overwritten(before, at, be32_octets(left)));
        assert forall|i: int| 0 <= i < buf.len() && !in_fields(starts, i) implies after[i]
            == buf[i] by {
            assert(!in_fields(earlier, i));
            assert(!(at <= i < at + 4));
        }
        assert forall|k: int| 0 <= k < starts.len() implies be32(after, #[trigger] starts[k])
            == reduced_ttl(be32(buf, starts[k]), elapsed) by {
            if k < starts.len() - 1 {
                assert(earlier[k] == starts[k]);
                assert(starts[k] + 4 <= starts[starts.len() - 1]);
                assert(after[starts[k]] == before[starts[k]]);
                assert(after[starts[k] + 1] == before[starts[k] + 1]);
                assert(after[starts[k] + 2] == before[starts[k] + 2]);
                assert(after[starts[k] + 3] == before[starts[k] + 3]);
            }
        }
    }
}

/// A rewritten reply carries the new identifier and, in fields that lie apart
/// behind the identifier, the reduced TTLs; its other octets are those of the
/// captured reply.
pub proof fn lemma_rewritten(buf: Seq<u8>, starts: Seq<int>, elapsed: u64, new_id: u16)
    requires
        fields_apart(starts, 2, buf.len() as int),
        buf.len() >= 2,
    ensures
        rewritten(buf, starts, elapsed, new_id).len() == buf.len(),
        be16(rewritten(buf, starts, elapsed, new_id), 0) == new_id,
        forall|i: int|
            2 <= i < buf.len() && !in_fields(starts, i) ==> rewritten(
                buf,
                starts,
                elapsed,
                new_id,
            )[i] == buf[i],
        forall|k: int|
            0 <= k < starts.len() ==> be32(
                rewritten(buf, starts, elapsed, new_id),
                #[trigger] starts[k],
            ) == reduced_ttl(be32(buf, starts[k]), elapsed),
{
    assert(fields_apart(starts, 0, buf.len() as int));
    lemma_ttls_reduced(buf, starts, elapsed);
    let reduced = ttls_reduced(buf, starts, elapsed);
    let after = rewritten(buf, starts, elapsed, new_id);
    assert(after[0] == be16_octets(new_id)[0]);
    assert(after[1] == be16_octets(new_id)[1]);
    assert forall|k: int| 0 <= k < starts.len() implies be32(after, #[trigger] starts[k])
        == reduced_ttl(be32(buf, starts[k]), elapsed) by {
        assert(be32(after, starts[k]) == be32(reduced, starts[k]));
    }
}

/// Whether the name that starts at `at` is read without a look at an octet of `changed`.
pub open spec fn name_avoids(buf: Seq<u8>, at: int, changed: Set<int>) -> bool {
    forall|i: int| #[trigger] name_reads(buf, at, MAX_POINTER_DEPTH as nat, i) ==> !changed.contains(i)
}

/// Whether the names in the data of a record of type `record_type`, which starts
/// at `at`, are read without a look at an octet of `changed`.
pub open spec fn data_names_avoid(
    buf: Seq<u8>,
    at: int,
    record_type: RecordType,
    changed: Set<int>,
) -> bool {
    match record_type {
        RecordType::CNAME | RecordType::NS | RecordType::PTR | RecordType::MB => name_avoids(
            buf,
            at,
            changed,
        ),
        RecordType::MX => name_avoids(buf, at + 2, changed),
        RecordType::SOA => name_avoids(buf, at, changed) && match name_at(buf, at) {
            Some((_, end)) => name_avoids(buf, end, changed),
            None => true,
        },
        _ => true,
    }
}

/// Whether the names of the record that starts at `at` are read without a look
/// at an octet of `changed`.
pub open spec fn record_names_avoid(buf: Seq<u8>, at: int, changed: Set<int>) -> bool {
    name_avoids(buf, at, changed) && match name_at(buf, at) {
        Some((_, end)) => data_names_avoid(buf, end + 10, record_type_of(be16(buf, end)), changed),
        None => true,
    }
}

/// Whether the names of the `count` records that start at `at` are read without
/// a look at an octet of `changed`.
pub open spec fn records_names_avoid(buf: Seq<u8>, at: int, count: nat, changed: Set<int>) -> bool
    decreases count,
{
    count == 0 || (records_names_avoid(buf, at, (count - 1) as nat, changed) && match records_at(
        buf,
        at,
        (count - 1) as nat,
    ) {
        Some(run) => record_names_avoid(buf, run.next, changed),
        None => true,
    })
}

/// Whether the names of the `count` questions that start at `at` are read
/// without a look at an octet of `changed`.
pub open spec fn questions_names_avoid(
    buf: Seq<u8>,
    at: int,
    count: nat,
    changed: Set<int>,
) -> bool
    decreases count,
{
    count == 0 || (questions_names_avoid(buf, at, (count - 1) as nat, changed)
        && match questions_at(buf, at, (count - 1) as nat) {
        Some(run) => name_avoids(buf, run.next, changed),
        None => true,
    })
}

/// Whether the names of the questions and answers of the message in `buf` are
/// read without a look at an octet of `changed`.
pub open spec fn packet_names_avoid(buf: Seq<u8>, changed: Set<int>) -> bool {
    questions_names_avoid(buf, 12, header_of(buf).question_count as nat, changed)
        && match questions_at(buf, 12, header_of(buf).question_count as nat) {
        Some(run) => records_names_avoid(
            buf,
            run.next,
            header_of(buf).answer_count as nat,
            changed,
        ),
        None => true,
    }
}

/// The offsets of the octets that a rewrite may change: those of the identifier
/// and those of the TTLs at `ttl_indices`.
pub open spec fn rewritten_offsets(ttl_indices: Seq<int>) -> Set<int> {
    Set::new(|i: int| 0 <= i < 2 || in_fields(ttl_indices, i))
}

/// Whether no name of the message in `buf` runs, by way of a compression
/// pointer, through the identifier or through the TTL of an answer.
pub open spec fn names_survive_rewrite(buf: Seq<u8>) -> bool {
    match packet_of(buf) {
        Some(span) => packet_names_avoid(buf, rewritten_offsets(span.ttl_indices)),
        None => true,
    }
}

/// Two buffers of one length hold the same octets wherever `changed` does not reach.
pub open spec fn same_outside(a: Seq<u8>, b: Seq<u8>, changed: Set<int>) -> bool {
    &&& a.len() == b.len()
    &&& forall|i: int| 0 <= i < a.len() && !changed.contains(i) ==> #[trigger] b[i] == a[i]
}

/// A name that avoids what has changed reads as before.
pub proof fn lemma_name_at_frame(a: Seq<u8>, b: Seq<u8>, at: int, changed: Set<int>)
    requires
        same_outside(a, b, changed),
        name_avoids(a, at, changed),
    ensures
        name_at(b, at) == name_at(a, at),
        name_avoids(b, at, changed),
{
    assert forall|i: int| name_reads(a, at, MAX_POINTER_DEPTH as nat, i) implies a[i] == b[i] by {
        lemma_name_reads_in_range(a, at, MAX_POINTER_DEPTH as nat, i);
    }
    lemma_name_frame(a, b, at, MAX_POINTER_DEPTH as nat, Seq::empty(), None);
    assert forall|i: int| #[trigger]
        name_reads(b, at, MAX_POINTER_DEPTH as nat, i) implies !changed.contains(i) by {
        lemma_name_reads_frame(a, b, at, MAX_POINTER_DEPTH as nat, i);
    }
}

/// A name looks at the same octets in two buffers that agree on the octets it
/// looks at in the first.
pub proof fn lemma_name_reads_frame(a: Seq<u8>, b: Seq<u8>, at: int, budget: nat, i: int)
    requires
        a.len() == b.len(),
        forall|j: int| name_reads(a, at, budget, j) ==> a[j] == b[j],
    ensures
        name_reads(b, at, budget, i) == name_reads(a, at, budget, i),
    decreases budget, a.len() - at,
{
    if at < 0 || at >= a.len() {
    } else {
        assert(name_reads(a, at, budget, at));
        if i == at || a[at] == 0 {
        } else if a[at] >= 0xC0 {
            if budget == 0 || at + 1 >= a.len() {
            } else {
                assert(name_reads(a, at, budget, at + 1));
                let target = pointer_target(a, at);
                assert forall|j: int|
                    name_reads(a, target, (budget - 1) as nat, j) implies a[j] == b[j] by {
                    assert(name_reads(a, at, budget, j));
                }
                lemma_name_reads_frame(a, b, target, (budget - 1) as nat, i);
            }
        } else if a[at] > 63 || at + 1 + a[at] > a.len() {
        } else {
            let next = at + 1 + a[at];
            assert forall|j: int| name_reads(a, next, budget, j) implies a[j] == b[j] by {
                assert(name_reads(a, at, budget, j));
            }
            lemma_name_reads_frame(a, b, next, budget, i);
        }
    }
}

/// A name looks at octets of the buffer only.
pub proof fn lemma_name_reads_in_range(buf: Seq<u8>, at: int, budget: nat, i: int)
    requires
        name_reads(buf, at, budget, i),
    ensures
        0 <= i < buf.len(),
    decreases budget, buf.len() - at,
{
    if at < 0 || at >= buf.len() || i == at || buf[at] == 0 {
    } else if buf[at] >= 0xC0 {
        if budget == 0 || at + 1 >= buf.len() || i == at + 1 {
        } else {
            lemma_name_reads_in_range(buf, pointer_target(buf, at), (budget - 1) as nat, i);
        }
    } else if buf[at] > 63 || at + 1 + buf[at] > buf.len() {
    } else if at < i <= at + buf[at] {
    } else {
        lemma_name_reads_in_range(buf, at + 1 + buf[at], budget, i);
    }
}

/// A name ends behind its start and inside the buffer.
pub proof fn lemma_name_at_end(buf: Seq<u8>, at: int)
    ensures
        name_at(buf, at) matches Some((_, end)) ==> at < end <= buf.len() && 0 <= at,
{
    lemma_name_walk_end(buf, at, MAX_POINTER_DEPTH as nat, Seq::empty(), None);
}

/// A question whose name avoids what has changed reads as before, where its
/// type and class have not changed either.
pub proof fn lemma_question_frame(a: Seq<u8>, b: Seq<u8>, at: int, changed: Set<int>)
    requires
        same_outside(a, b, changed),
        name_avoids(a, at, changed),
        question_at(a, at) is Some,
        forall|i: int| at <= i < question_at(a, at).unwrap().1 ==> !changed.contains(i),
    ensures
        question_at(b, at) == question_at(a, at),
        name_avoids(b, at, changed),
{
    lemma_name_at_frame(a, b, at, changed);
    lemma_name_at_end(a, at);
    let end = name_at(a, at).unwrap().1;
    assert(b[end] == a[end]);
    assert(b[end + 1] == a[end + 1]);
    assert(b[end + 2] == a[end + 2]);
    assert(b[end + 3] == a[end + 3]);
}

/// A run of questions ends behind its start and inside the buffer, and the run
/// that is one shorter ends before it.
pub proof fn lemma_questions_layout(buf: Seq<u8>, at: int, count: nat)
    requires
        questions_at(buf, at, count) is Some,
        0 <= at <= buf.len(),
    ensures
        at <= questions_at(buf, at, count).unwrap().next <= buf.len(),
        count > 0 ==> questions_at(buf, at, (count - 1) as nat) is Some && questions_at(
            buf,
            at,
            (count - 1) as nat,
        ).unwrap().next < questions_at(buf, at, count).unwrap().next,
    decreases count,
{
    if count > 0 {
        lemma_questions_layout(buf, at, (count - 1) as nat);
        lemma_name_at_end(buf, questions_at(buf, at, (count - 1) as nat).unwrap().next);
    }
}

/// Questions whose names avoid what has changed read as before, where nothing
/// between their start and their end has changed.
pub proof fn lemma_questions_frame(
    a: Seq<u8>,
    b: Seq<u8>,
    at: int,
    count: nat,
    changed: Set<int>,
)
    requires
        same_outside(a, b, changed),
        0 <= at <= a.len(),
        questions_at(a, at, count) is Some,
        questions_names_avoid(a, at, count, changed),
        forall|i: int| at <= i < questions_at(a, at, count).unwrap().next ==> !changed.contains(i),
    ensures
        questions_at(b, at, count) == questions_at(a, at, count),
        questions_names_avoid(b, at, count, changed),
    decreases count,
{
    if count > 0 {
        lemma_questions_layout(a, at, count);
        lemma_questions_layout(a, at, (count - 1) as nat);
        lemma_questions_frame(a, b, at, (count - 1) as nat, changed);
        let before = questions_at(a, at, (count - 1) as nat).unwrap();
        assert(question_at(a, before.next).unwrap().1 == questions_at(a, at, count).unwrap().next);
        lemma_question_frame(a, b, before.next, changed);
    }
}

/// The data of a record ends at or behind its start and inside the buffer.
pub proof fn lemma_data_end(buf: Seq<u8>, at: int, record_type: RecordType, len: u16)
    requires
        0 <= at,
    ensures
        record_data_at(buf, at, record_type, len) matches Some((_, next)) ==> at <= next
            <= buf.len(),
{
    lemma_name_at_end(buf, at);
    lemma_name_at_end(buf, at + 2);
    if name_at(buf, at) is Some {
        lemma_name_at_end(buf, name_at(buf, at).unwrap().1);
    }
}

/// The data of a record whose names avoid what has changed reads as before,
/// where nothing between its start and its end has changed.
pub proof fn lemma_data_frame(
    a: Seq<u8>,
    b: Seq<u8>,
    at: int,
    record_type: RecordType,
    len: u16,
    changed: Set<int>,
)
    requires
        same_outside(a, b, changed),
        0 <= at,
        data_names_avoid(a, at, record_type, changed),
        record_data_at(a, at, record_type, len) is Some,
        forall|i: int|
            at <= i < record_data_at(a, at, record_type, len).unwrap().1 ==> !changed.contains(i),
    ensures
        record_data_at(b, at, record_type, len) == record_data_at(a, at, record_type, len),
        data_names_avoid(b, at, record_type, changed),
{
    lemma_data_end(a, at, record_type, len);
    match record_type {
        RecordType::A => {
            assert(b.subrange(at, at + 4) =~= a.subrange(at, at + 4));
        },
        RecordType::AAAA => {
            assert(b.subrange(at, at + 16) =~= a.subrange(at, at + 16));
        },
        RecordType::CNAME | RecordType::NS | RecordType::PTR | RecordType::MB => {
            lemma_name_at_frame(a, b, at, changed);
        },
        RecordType::MX => {
            lemma_name_at_frame(a, b, at + 2, changed);
            lemma_name_at_end(a, at + 2);
            assert(b[at] == a[at]);
            assert(b[at + 1] == a[at + 1]);
        },
        RecordType::SOA => {
            lemma_name_at_frame(a, b, at, changed);
            lemma_name_at_end(a, at);
            let first_end = name_at(a, at).unwrap().1;
            lemma_name_at_frame(a, b, first_end, changed);
            lemma_name_at_end(a, first_end);
            let end = name_at(a, first_end).unwrap().1;
            assert(be32(b, end) == be32(a, end));
            assert(be32(b, end + 4) == be32(a, end + 4));
            assert(be32(b, end + 8) == be32(a, end + 8));
            assert(be32(b, end + 12) == be32(a, end + 12));
            assert(be32(b, end + 16) == be32(a, end + 16));
        },
        _ => {},
    }
}

/// A record as it reads once its TTL has been reduced by `elapsed` seconds.
pub open spec fn aged_record(record: ResourceRecordView, elapsed: u64) -> ResourceRecordView {
    ResourceRecordView {
        meta: ResourceRecordMetaView {
            ttl: reduced_ttl(record.meta.ttl, elapsed),
            ..record.meta
        },
        value: record.value,
    }
}

/// A run of records as it reads once their TTLs have been reduced by `elapsed` seconds.
pub open spec fn aged_records(records: Seq<ResourceRecordView>, elapsed: u64) -> Seq<
    ResourceRecordView,
> {
    records.map_values(|r: ResourceRecordView| aged_record(r, elapsed))
}

/// A message as it reads once it has been rewritten: with the identifier
/// `new_id`, the TTLs of its answers reduced by `elapsed` seconds, and all else
/// as it was.
pub open spec fn aged_packet(packet: DnsPacketView, elapsed: u64, new_id: u16) -> DnsPacketView {
    DnsPacketView {
        header: Header { request_id: new_id, ..packet.header },
        question: packet.question,
        answers: aged_records(packet.answers, elapsed),
    }
}

/// The fields of a record lie one after the other: the name, behind it the ten
/// octets of which the fifth to eighth hold the TTL, behind them the data.
pub proof fn lemma_record_layout(buf: Seq<u8>, at: int)
    requires
        record_at(buf, at) is Some,
    ensures
        0 <= at < record_at(buf, at).unwrap().ttl_index - 4,
        record_at(buf, at).unwrap().ttl_index + 6 <= record_at(buf, at).unwrap().next <= buf.len(),
        name_at(buf, at) is Some,
        name_at(buf, at).unwrap().1 + 4 == record_at(buf, at).unwrap().ttl_index,
{
    lemma_name_at_end(buf, at);
    let end = name_at(buf, at).unwrap().1;
    lemma_data_end(buf, end + 10, record_type_of(be16(buf, end)), be16(buf, end + 8));
}

/// A record whose names avoid what has changed reads as before but for its TTL,
/// where of the octets between its start and its end only its TTL has changed,
/// and that has been reduced.
pub proof fn lemma_record_frame(
    a: Seq<u8>,
    b: Seq<u8>,
    at: int,
    changed: Set<int>,
    elapsed: u64,
)
    requires
        same_outside(a, b, changed),
        record_names_avoid(a, at, changed),
        record_at(a, at) is Some,
        forall|i: int|
            at <= i < record_at(a, at).unwrap().next && !(record_at(a, at).unwrap().ttl_index <= i
                < record_at(a, at).unwrap().ttl_index + 4) ==> !changed.contains(i),
        be32(b, record_at(a, at).unwrap().ttl_index) == reduced_ttl(
            be32(a, record_at(a, at).unwrap().ttl_index),
            elapsed,
        ),
    ensures
        record_at(b, at) == Some(
            RecordSpan {
                record: aged_record(record_at(a, at).unwrap().record, elapsed),
                ttl_index: record_at(a, at).unwrap().ttl_index,
                next: record_at(a, at).unwrap().next,
            },
        ),
        record_names_avoid(b, at, changed),
{
    lemma_record_layout(a, at);
    lemma_name_at_frame(a, b, at, changed);
    let end = name_at(a, at).unwrap().1;
    assert(b[end] == a[end]);
    assert(b[end + 1] == a[end + 1]);
    assert(b[end + 2] == a[end + 2]);
    assert(b[end + 3] == a[end + 3]);
    assert(b[end + 8] == a[end + 8]);
    assert(b[end + 9] == a[end + 9]);
    lemma_data_frame(
        a,
        b,
        end + 10,
        record_type_of(be16(a, end)),
        be16(a, end + 8),
        changed,
    );
}

/// The records of a run lie one after the other, and with them their TTLs; the
/// run that is one shorter is the run without its last record.
pub proof fn lemma_records_layout(buf: Seq<u8>, at: int, count: nat)
    requires
        records_at(buf, at, count) is Some,
        0 <= at <= buf.len(),
    ensures
        at <= records_at(buf, at, count).unwrap().next <= buf.len(),
        records_at(buf, at, count).unwrap().ttl_indices.len() == count,
        records_at(buf, at, count).unwrap().records.len() == count,
        fields_apart(
            records_at(buf, at, count).unwrap().ttl_indices,
            at + 1,
            records_at(buf, at, count).unwrap().next,
        ),
        count > 0 ==> {
            &&& records_at(buf, at, (count - 1) as nat) is Some
            &&& record_at(buf, records_at(buf, at, (count - 1) as nat).unwrap().next) is Some
            &&& records_at(buf, at, (count - 1) as nat).unwrap().next < records_at(
                buf,
                at,
                count,
            ).unwrap().ttl_indices[count - 1]
            &&& records_at(buf, at, (count - 1) as nat).unwrap().ttl_indices == records_at(
                buf,
                at,
                count,
            ).unwrap().ttl_indices.drop_last()
        },
    decreases count,
{
    if count > 0 {
        lemma_records_layout(buf, at, (count - 1) as nat);
        let before = records_at(buf, at, (count - 1) as nat).unwrap();
        lemma_record_layout(buf, before.next);
        let run = records_at(buf, at, count).unwrap();
        assert(run.ttl_indices.drop_last() =~= before.ttl_indices);
        assert forall|k: int| 0 <= k < run.ttl_indices.len() implies at + 1
            <= #[trigger] run.ttl_indices[k] && run.ttl_indices[k] + 4 <= run.next by {
            if k < count - 1 {
                assert(run.ttl_indices[k] == before.ttl_indices[k]);
            }
        }
        assert forall|j: int, k: int| 0 <= j < k < run.ttl_indices.len() implies
            #[trigger] run.ttl_indices[j] + 4 <= #[trigger] run.ttl_indices[k] by {
            assert(run.ttl_indices[j] == before.ttl_indices[j]);
            if k < count - 1 {
                assert(run.ttl_indices[k] == before.ttl_indices[k]);
            }
        }
    }
}

/// Records whose names avoid what has changed read as before but for their
/// TTLs, where of the octets between their start and their end only their TTLs
/// have changed, and those have been reduced.
pub proof fn lemma_records_frame(
    a: Seq<u8>,
    b: Seq<u8>,
    at: int,
    count: nat,
    changed: Set<int>,
    elapsed: u64,
)
    requires
        same_outside(a, b, changed),
        0 <= at <= a.len(),
        records_at(a, at, count) is Some,
        records_names_avoid(a, at, count, changed),
        forall|i: int|
            at <= i < records_at(a, at, count).unwrap().next && !in_fields(
                records_at(a, at, count).unwrap().ttl_indices,
                i,
            ) ==> !changed.contains(i),
        forall|k: int|
            0 <= k < count ==> be32(b, #[trigger] records_at(a, at, count).unwrap().ttl_indices[k])
                == reduced_ttl(be32(a, records_at(a, at, count).unwrap().ttl_indices[k]), elapsed),
    ensures
        records_at(b, at, count) == Some(
            RecordRun {
                records: aged_records(records_at(a, at, count).unwrap().records, elapsed),
                ttl_indices: records_at(a, at, count).unwrap().ttl_indices,
                next: records_at(a, at, count).unwrap().next,
            },
        ),
        records_names_avoid(b, at, count, changed),
    decreases count,
{
    let run = records_at(a, at, count).unwrap();
    if count == 0 {
        assert(aged_records(run.records, elapsed) =~= Seq::<ResourceRecordView>::empty());
    } else {
        lemma_records_layout(a, at, count);
        lemma_records_layout(a, at, (count - 1) as nat);
        let before = records_at(a, at, (count - 1) as nat).unwrap();
        let span = record_at(a, before.next).unwrap();
        lemma_record_layout(a, before.next);
        assert(run.ttl_indices[count - 1] == span.ttl_index);
        assert(run.next == span.next);
        assert forall|i: int| at <= i < before.next && !in_fields(before.ttl_indices, i)
            implies !changed.contains(i) by {
            if in_fields(run.ttl_indices, i) {
                let k = choose|k: int|
                    0 <= k < run.ttl_indices.len() && #[trigger] run.ttl_indices[k] <= i && i
                        < run.ttl_indices[k] + 4;
                if k < count - 1 {
                    assert(before.ttl_indices[k] == run.ttl_indices[k]);
                }
            }
        }
        assert forall|k: int| 0 <= k < count - 1 implies be32(b, #[trigger] before.ttl_indices[k])
            == reduced_ttl(be32(a, before.ttl_indices[k]), elapsed) by {
            assert(before.ttl_indices[k] == run.ttl_indices[k]);
        }
        lemma_records_frame(a, b, at, (count - 1) as nat, changed, elapsed);
        assert forall|i: int|
            before.next <= i < span.next && !(span.ttl_index <= i < span.ttl_index + 4)
            implies !changed.contains(i) by {
            if in_fields(run.ttl_indices, i) {
                let k = choose|k: int|
                    0 <= k < run.ttl_indices.len() && #[trigger] run.ttl_indices[k] <= i && i
                        < run.ttl_indices[k] + 4;
                if k < count - 1 {
                    assert(before.ttl_indices[k] == run.ttl_indices[k]);
                    assert(before.ttl_indices[k] + 4 <= before.next);
                }
            }
        }
        lemma_record_frame(a, b, before.next, changed, elapsed);
        assert(aged_records(before.records, elapsed).push(aged_record(span.record, elapsed))
            =~= aged_records(run.records, elapsed));
    }
}

/// Reading a reply that was rewritten gives the message of the captured reply
/// with the new identifier and with the TTL of every answer reduced by the
/// time that has passed, by `old_ttl - elapsed` seconds where that is not
/// negative: the same question, the same answers, the same offsets of TTLs.
///
/// This holds of every captured reply that holds a well-formed message of which
/// no name runs, by way of a compression pointer, through the identifier or
/// through the TTL of an answer; and the same then holds of the rewritten
/// reply, which may so be rewritten again.
pub proof fn lemma_rewrite_roundtrip(buf: Seq<u8>, elapsed: u64, new_id: u16)
    requires
        packet_of(buf) is Some,
        names_survive_rewrite(buf),
    ensures
        packet_of(rewritten(buf, packet_of(buf).unwrap().ttl_indices, elapsed, new_id)) == Some(
            PacketSpan {
                packet: aged_packet(packet_of(buf).unwrap().packet, elapsed, new_id),
                ttl_indices: packet_of(buf).unwrap().ttl_indices,
            },
        ),
        rewritten(buf, packet_of(buf).unwrap().ttl_indices, elapsed, new_id).len() == buf.len(),
        names_survive_rewrite(
            rewritten(buf, packet_of(buf).unwrap().ttl_indices, elapsed, new_id),
        ),
{
    let span = packet_of(buf).unwrap();
    let questions = header_of(buf).question_count as nat;
    let answers = header_of(buf).answer_count as nat;
    let asked = questions_at(buf, 12, questions).unwrap();
    lemma_questions_layout(buf, 12, questions);
    let run = records_at(buf, asked.next, answers).unwrap();
    lemma_records_layout(buf, asked.next, answers);
    let starts = span.ttl_indices;
    assert(starts == run.ttl_indices);
    assert(fields_apart(starts, 2, buf.len() as int));
    lemma_rewritten(buf, starts, elapsed, new_id);
    let after = rewritten(buf, starts, elapsed, new_id);
    let changed = rewritten_offsets(starts);
    assert(same_outside(buf, after, changed));
    assert forall|i: int| 2 <= i < asked.next implies !changed.contains(i) by {
        if in_fields(starts, i) {
            let k = choose|k: int|
                0 <= k < starts.len() && #[trigger] starts[k] <= i && i < starts[k] + 4;
        }
    }
    assert(header_of(after) == Header { request_id: new_id, ..header_of(buf) }) by {
        assert(after[2] == buf[2]);
        assert(after[3] == buf[3]);
        assert(after[4] == buf[4]);
        assert(after[5] == buf[5]);
        assert(after[6] == buf[6]);
        assert(after[7] == buf[7]);
        assert(after[8] == buf[8]);
        assert(after[9] == buf[9]);
        assert(after[10] == buf[10]);
        assert(after[11] == buf[11]);
    }
    lemma_questions_frame(buf, after, 12, questions, changed);
    lemma_records_frame(buf, after, asked.next, answers, changed, elapsed);
}

} // verus!
