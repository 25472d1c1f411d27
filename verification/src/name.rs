//! Domain names on the wire: labels, compression pointers, and the dotted text form.

use crate::error::MalformedPacket;
use vstd::prelude::*;
use vstd::string::StringSliceAdditionalSpecFns;

verus! {

/// How many compression pointers may be followed while one name is read.
pub const MAX_POINTER_DEPTH: usize = 20;

/// The longest label, in octets.
pub const MAX_LABEL_LEN: u8 = 63;

/// A first octet from this value on starts a compression pointer.
pub const POINTER_TAG: u8 = 0xC0;

/// The octet that separates labels in the dotted text form.
pub const DOT: u8 = 0x2E;

/// `String::push` appends the character to the text.
pub assume_specification[ String::push ](text: &mut String, ch: char)
    ensures
        final(text)@ == old(text)@.push(ch),
;

/// The characters of the label whose `len` octets start at `start`, one for each octet.
pub open spec fn label_chars(buf: Seq<u8>, start: int, len: int) -> Seq<char> {
    Seq::new(len as nat, |i: int| buf[start + i] as char)
}

/// The text after `label` was added to the labels gathered in `acc`.
pub open spec fn joined(acc: Seq<char>, label: Seq<char>) -> Seq<char> {
    if acc.len() == 0 {
        label
    } else {
        acc + seq!['.'] + label
    }
}

/// The offset that the compression pointer at `at` leads to: the low fourteen bits
/// of its two octets.
pub open spec fn pointer_target(buf: Seq<u8>, at: int) -> int {
    (buf[at] as int - 0xC0) * 256 + buf[at + 1] as int
}

/// Where reading resumes once the name is complete: after the first pointer if one
/// was followed, else after the terminator at `at`.
pub open spec fn resume_or(resume: Option<int>, fallback: int) -> int {
    match resume {
        Some(r) => r,
        None => fallback,
    }
}

/// Reads on in a name from offset `at`, with `acc` the labels gathered so far,
/// `budget` the pointers that may still be followed, and `resume` the offset
/// after the first pointer, if one was followed.
///
/// A zero octet ends the name. An octet of `0xC0` or more starts a pointer, an
/// octet of at most 63 a label of that many octets. The result is the dotted name
/// and the offset of the first octet after the name's inline part; it is `None`
/// where the name runs past the buffer, a label is too long, or more pointers
/// chain than the budget allows.
pub open spec fn name_walk(
    buf: Seq<u8>,
    at: int,
    budget: nat,
    acc: Seq<char>,
    resume: Option<int>,
) -> Option<(Seq<char>, int)>
    decreases budget, buf.len() - at,
{
    if at < 0 || at >= buf.len() {
        None
    } else if buf[at] == 0 {
        Some((acc, resume_or(resume, at + 1)))
    } else if buf[at] >= 0xC0 {
        if budget == 0 || at + 1 >= buf.len() {
            None
        } else {
            name_walk(
                buf,
                pointer_target(buf, at),
                (budget - 1) as nat,
                acc,
                Some(resume_or(resume, at + 2)),
            )
        }
    } else if buf[at] > 63 || at + 1 + buf[at] > buf.len() {
        None
    } else {
        name_walk(
            buf,
            at + 1 + buf[at],
            budget,
            joined(acc, label_chars(buf, at + 1, buf[at] as int)),
            resume,
        )
    }
}

/// The name that starts at `at` and the offset after its inline part.
pub open spec fn name_at(buf: Seq<u8>, at: int) -> Option<(Seq<char>, int)> {
    name_walk(buf, at, MAX_POINTER_DEPTH as nat, Seq::empty(), None)
}

/// A name ends inside the buffer, after the offset at which it starts.
pub proof fn lemma_name_walk_end(
    buf: Seq<u8>,
    at: int,
    budget: nat,
    acc: Seq<char>,
    resume: Option<int>,
)
    requires
        resume matches Some(r) ==> 0 < r <= buf.len(),
    ensures
        name_walk(buf, at, budget, acc, resume) matches Some((_, end)) ==> {
            &&& 0 < end <= buf.len()
            &&& resume matches Some(r) ==> end == r
            &&& resume is None ==> at < end
        },
    decreases budget, buf.len() - at,
{
    if at < 0 || at >= buf.len() {
    } else if buf[at] == 0 {
    } else if buf[at] >= 0xC0 {
        if budget == 0 || at + 1 >= buf.len() {
        } else {
            lemma_name_walk_end(
                buf,
                pointer_target(buf, at),
                (budget - 1) as nat,
                acc,
                Some(resume_or(resume, at + 2)),
            );
        }
    } else if buf[at] > 63 || at + 1 + buf[at] > buf.len() {
    } else {
        lemma_name_walk_end(
            buf,
            at + 1 + buf[at],
            budget,
            joined(acc, label_chars(buf, at + 1, buf[at] as int)),
            resume,
        );
    }
}

/// Whether reading a name from `at` comes to follow `count` compression pointers.
pub open spec fn follows_pointers(buf: Seq<u8>, at: int, count: nat) -> bool
    decreases count, buf.len() - at,
{
    if count == 0 {
        true
    } else if at < 0 || at >= buf.len() || buf[at] == 0 {
        false
    } else if buf[at] >= 0xC0 {
        at + 1 < buf.len() && follows_pointers(buf, pointer_target(buf, at), (count - 1) as nat)
    } else if buf[at] > 63 || at + 1 + buf[at] > buf.len() {
        false
    } else {
        follows_pointers(buf, at + 1 + buf[at], count)
    }
}

/// A name whose reading comes to follow more pointers than the budget allows is
/// rejected, whatever was gathered before.
pub proof fn lemma_pointer_chain_rejected(
    buf: Seq<u8>,
    at: int,
    budget: nat,
    acc: Seq<char>,
    resume: Option<int>,
)
    requires
        follows_pointers(buf, at, budget + 1),
    ensures
        name_walk(buf, at, budget, acc, resume) is None,
    decreases budget, buf.len() - at,
{
    if at < 0 || at >= buf.len() || buf[at] == 0 {
    } else if buf[at] >= 0xC0 {
        if budget > 0 {
            lemma_pointer_chain_rejected(
                buf,
                pointer_target(buf, at),
                (budget - 1) as nat,
                acc,
                Some(resume_or(resume, at + 2)),
            );
        }
    } else if buf[at] > 63 || at + 1 + buf[at] > buf.len() {
    } else {
        lemma_pointer_chain_rejected(
            buf,
            at + 1 + buf[at],
            budget,
            joined(acc, label_chars(buf, at + 1, buf[at] as int)),
            resume,
        );
    }
}

/// A pointer that leads back to itself is followed any number of times.
pub proof fn lemma_pointer_loop_follows(buf: Seq<u8>, at: int, count: nat)
    requires
        0 <= at,
        at + 1 < buf.len(),
        buf[at] >= 0xC0,
        pointer_target(buf, at) == at,
    ensures
        follows_pointers(buf, at, count),
    decreases count,
{
    if count > 0 {
        lemma_pointer_loop_follows(buf, at, (count - 1) as nat);
    }
}

/// No name is read from a chain of more than [`MAX_POINTER_DEPTH`] pointers; in
/// particular none from a pointer that leads back to itself.
pub proof fn lemma_deep_chain_has_no_name(buf: Seq<u8>, at: int)
    requires
        follows_pointers(buf, at, (MAX_POINTER_DEPTH + 1) as nat) || (0 <= at && at + 1 < buf.len()
            && buf[at] >= 0xC0 && pointer_target(buf, at) == at),
    ensures
        name_at(buf, at) is None,
{
    if !follows_pointers(buf, at, (MAX_POINTER_DEPTH + 1) as nat) {
        lemma_pointer_loop_follows(buf, at, (MAX_POINTER_DEPTH + 1) as nat);
    }
    lemma_pointer_chain_rejected(buf, at, MAX_POINTER_DEPTH as nat, Seq::empty(), None);
}

/// Reads the name that starts at `at`, following compression pointers, and
/// returns it with the offset of the first octet after its inline part.
pub fn read_name(buf: &[u8], at: usize) -> (result: Result<(String, usize), MalformedPacket>)
    ensures
        match name_at(buf@, at as int) {
            Some((name, end)) => result matches Ok((text, next)) && text@ == name && next == end
                && at < next <= buf@.len(),
            None => result is Err,
        },
{
    proof {
        lemma_name_walk_end(buf@, at as int, MAX_POINTER_DEPTH as nat, Seq::empty(), None);
    }
    let mut name = String::new();
    let mut started: bool = false;
    let mut pos: usize = at;
    let mut budget: usize = MAX_POINTER_DEPTH;
    let mut resume: Option<usize> = None;
    loop
        invariant
            started == (name@.len() > 0),
            resume matches Some(r) ==> 0 < r <= buf@.len(),
            name_at(buf@, at as int) matches Some((_, end)) ==> at < end <= buf@.len(),
            name_walk(
                buf@,
                pos as int,
                budget as nat,
                name@,
                match resume {
                    Some(r) => Some(r as int),
                    None => None,
                },
            ) == name_at(buf@, at as int),
        decreases budget, buf@.len() - pos,
    {
        if pos >= buf.len() {
            return Err(MalformedPacket);
        }
        let first: u8 = buf[pos];
        if first == 0 {
            let next: usize = match resume {
                Some(r) => r,
                None => pos + 1,
            };
            return Ok((name, next));
        }
        if first >= POINTER_TAG {
            if budget == 0 || pos + 1 >= buf.len() {
                return Err(MalformedPacket);
            }
            let target: usize = (first as usize - 0xC0) * 256 + buf[pos + 1] as usize;
            if resume.is_none() {
                resume = Some(pos + 2);
            }
            pos = target;
            budget = budget - 1;
        } else {
            let len: usize = first as usize;
            if first > MAX_LABEL_LEN || len > buf.len() - pos - 1 {
                return Err(MalformedPacket);
            }
            let ghost before = name@;
            if started {
                name.push('.');
            }
            let ghost head = name@;
            let mut i: usize = 0;
            while i < len
                invariant
                    i <= len,
                    pos + 1 + len <= buf@.len() <= usize::MAX,
                    name@ == head + label_chars(buf@, pos + 1, i as int),
                decreases len - i,
            {
                name.push(buf[pos + 1 + i] as char);
                i = i + 1;
                assert(name@ =~= head + label_chars(buf@, pos + 1, i as int));
            }
            assert(name@ =~= joined(before, label_chars(buf@, pos + 1, len as int)));
            started = true;
            pos = pos + 1 + len;
        }
    }
}

/// The index of the first dot in `text`, or its length if it holds none.
pub open spec fn first_dot(text: Seq<u8>) -> int
    decreases text.len(),
{
    if text.len() == 0 || text[0] == 0x2E {
        0
    } else {
        1 + first_dot(text.drop_first())
    }
}

/// The wire form of a dotted name given as octets: each run between dots becomes
/// a label, preceded by its length reduced modulo 256, and a zero octet ends the name.
pub open spec fn wire_name(text: Seq<u8>) -> Seq<u8>
    decreases text.len(),
{
    let n = first_dot(text);
    let label = seq![(n % 256) as u8] + text.subrange(0, n);
    if 0 <= n < text.len() {
        label + wire_name(text.subrange(n + 1, text.len() as int))
    } else {
        label + seq![0u8]
    }
}

/// `first_dot` is the least index that holds a dot.
pub proof fn lemma_first_dot(text: Seq<u8>, n: int)
    requires
        0 <= n <= text.len(),
        forall|k: int| 0 <= k < n ==> text[k] != 0x2E,
        n < text.len() ==> text[n] == 0x2E,
    ensures
        first_dot(text) == n,
    decreases n,
{
    if n > 0 {
        let rest = text.drop_first();
        assert forall|k: int| 0 <= k < n - 1 implies rest[k] != 0x2E by {
            assert(rest[k] == text[k + 1]);
        }
        lemma_first_dot(rest, n - 1);
    }
}

/// Encodes a dotted name as a sequence of labels without compression.
pub fn encode_domain_name(domain_name: &str) -> (encoded: Vec<u8>)
    ensures
        encoded@ == wire_name(domain_name.spec_bytes()),
{
    let text = domain_name.as_bytes();
    let mut encoded: Vec<u8> = Vec::new();
    let mut start: usize = 0;
    assert(text@.subrange(0, text@.len() as int) =~= text@);
    loop
        invariant
            start <= text@.len(),
            encoded@ + wire_name(text@.subrange(start as int, text@.len() as int)) == wire_name(
                text@,
            ),
            text@ == domain_name.spec_bytes(),
        decreases text@.len() - start,
    {
        let mut end: usize = start;
        while end < text.len() && text[end] != DOT
            invariant
                start <= end <= text@.len(),
                forall|k: int| start <= k < end ==> text@[k] != 0x2E,
            decreases text@.len() - end,
        {
            end = end + 1;
        }
        let ghost tail = text@.subrange(start as int, text@.len() as int);
        let ghost n = end - start;
        proof {
            lemma_first_dot(tail, n);
            assert(text@.subrange(start as int, start as int) =~= Seq::<u8>::empty());
            assert(encoded@ + wire_name(tail) == wire_name(text@));
        }
        let ghost prefix = encoded@;
        encoded.push(((end - start) % 256) as u8);
        let mut i: usize = start;
        while i < end
            invariant
                start <= i <= end <= text@.len(),
                encoded@ == prefix + seq![(n % 256) as u8] + text@.subrange(start as int, i as int),
                n == end - start,
            decreases end - i,
        {
            encoded.push(text[i]);
            i = i + 1;
            assert(encoded@ =~= prefix + seq![(n % 256) as u8] + text@.subrange(
                start as int,
                i as int,
            ));
        }
        assert(text@.subrange(start as int, end as int) =~= tail.subrange(0, n));
        if end < text.len() {
            proof {
                assert(tail.subrange(n + 1, tail.len() as int) =~= text@.subrange(
                    end + 1,
                    text@.len() as int,
                ));
                assert(encoded@ + wire_name(text@.subrange(end + 1, text@.len() as int))
                    =~= prefix + wire_name(tail));
            }
            start = end + 1;
        } else {
            encoded.push(0);
            assert(encoded@ =~= prefix + wire_name(tail));
            return encoded;
        }
    }
}

/// Whether `text` is a dotted name that a message can carry: between its dots
/// stand labels of one to 63 octets.
pub open spec fn is_dotted_name(text: Seq<u8>) -> bool
    decreases text.len(),
{
    1 <= first_dot(text) <= 63 && (first_dot(text) >= text.len() || is_dotted_name(
        text.subrange(first_dot(text) + 1, text.len() as int),
    ))
}

/// The characters that stand for the octets of `text`, one for each octet.
pub open spec fn text_chars(text: Seq<u8>) -> Seq<char> {
    Seq::new(text.len(), |i: int| text[i] as char)
}

/// `first_dot` lies inside the text or at its end, with no dot before it and a
/// dot at it.
pub proof fn lemma_first_dot_found(text: Seq<u8>)
    ensures
        0 <= first_dot(text) <= text.len(),
        forall|k: int| 0 <= k < first_dot(text) ==> text[k] != 0x2E,
        first_dot(text) < text.len() ==> text[first_dot(text)] == 0x2E,
    decreases text.len(),
{
    if text.len() == 0 || text[0] == 0x2E {
    } else {
        let rest = text.drop_first();
        lemma_first_dot_found(rest);
        assert forall|k: int| 0 <= k < first_dot(text) implies text[k] != 0x2E by {
            if k > 0 {
                assert(rest[k - 1] == text[k]);
            }
        }
        if first_dot(text) < text.len() {
            assert(rest[first_dot(rest)] == text[first_dot(text)]);
        }
    }
}

/// The wire form of a dotted name reads back as the name: wherever the wire
/// form stands in a buffer, reading a name at its start gives the text, added to
/// the labels gathered before, and ends behind the wire form.
pub proof fn lemma_wire_name_reads_back(
    before: Seq<u8>,
    text: Seq<u8>,
    after: Seq<u8>,
    budget: nat,
    acc: Seq<char>,
)
    requires
        is_dotted_name(text),
    ensures
        name_walk(before + wire_name(text) + after, before.len() as int, budget, acc, None) == Some(
            (joined(acc, text_chars(text)), (before.len() + wire_name(text).len()) as int),
        ),
    decreases text.len(),
{
    lemma_first_dot_found(text);
    let n = first_dot(text);
    let buf = before + wire_name(text) + after;
    let at = before.len() as int;
    let label = text.subrange(0, n);
    let head = seq![(n % 256) as u8] + label;
    assert(buf[at] == n);
    assert(label_chars(buf, at + 1, n) =~= text_chars(label)) by {
        assert forall|k: int| 0 <= k < n implies buf[at + 1 + k] == label[k] by {
            assert(wire_name(text)[1 + k] == head[1 + k]);
        }
    }
    if n >= text.len() {
        assert(label =~= text);
        assert(wire_name(text) =~= head + seq![0u8]);
        assert(buf[at + 1 + n] == 0);
        assert(name_walk(buf, at + 1 + n, budget, joined(acc, text_chars(text)), None) == Some(
            (joined(acc, text_chars(text)), at + 1 + n + 1),
        ));
    } else {
        let rest = text.subrange(n + 1, text.len() as int);
        assert(wire_name(text) =~= head + wire_name(rest));
        assert(buf =~= (before + head) + wire_name(rest) + after);
        lemma_wire_name_reads_back(
            before + head,
            rest,
            after,
            budget,
            joined(acc, text_chars(label)),
        );
        assert(joined(joined(acc, text_chars(label)), text_chars(rest)) =~= joined(
            acc,
            text_chars(text),
        )) by {
            assert(text_chars(text) =~= text_chars(label) + seq!['.'] + text_chars(rest));
        }
    }
}

} // verus!
