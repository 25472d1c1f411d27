//! A cursor over a reply of any length, as it came from a socket.

use crate::error::MalformedPacket;
use crate::name::{name_at, read_name};
use crate::packet::{question_at, read_header, read_question, read_record, record_at};
use crate::protocol::answer::ResourceRecord;
use crate::protocol::header::{header_of, Header};
use crate::protocol::question::Question;
use crate::wire::{be_value, collate_slice};
use vstd::prelude::*;
use vstd::slice::slice_subrange;

verus! {

/// Reads a reply front to back from the octets that were received.
#[derive(Debug)]
pub struct ResponseParser {
    /// The octets that are read.
    pub buf: Vec<u8>,
    position: usize,
}

/// The end of the `n` octets from `position` on, or of the buffer where it ends before.
pub open spec fn span_end(len: int, position: int, n: int) -> int {
    if position + n <= len {
        position + n
    } else {
        len
    }
}

impl ResponseParser {
    /// The octets that are read.
    pub closed spec fn octets(&self) -> Seq<u8> {
        self.buf@
    }

    /// The offset of the next octet to read.
    pub closed spec fn position(&self) -> usize {
        self.position
    }

    /// A cursor at the start of `buf`.
    pub fn new(buf: Vec<u8>) -> (parser: Self)
        ensures
            parser.octets() == buf@,
            parser.position() == 0,
    {
        Self { buf, position: 0 }
    }

    /// The octets that are read.
    pub fn buffer(&self) -> (buf: &Vec<u8>)
        ensures
            buf@ == self.octets(),
    {
        &self.buf
    }

    /// The offset of the next octet to read.
    pub fn offset(&self) -> (position: usize)
        ensures
            position == self.position(),
    {
        self.position
    }

    /// Tells whether the cursor stands at the end of the buffer.
    pub fn is_done(&self) -> (done: bool)
        ensures
            done == (self.octets().len() == self.position()),
    {
        self.buf.len() == self.position
    }

    /// The big-endian value of the next `n` octets, or of those that are left
    /// where the buffer ends before; the cursor does not move.
    pub fn peek_bytes(&self, n: usize) -> (value: usize)
        requires
            self.position() <= self.octets().len(),
            be_value(
                self.octets().subrange(
                    self.position() as int,
                    span_end(self.octets().len() as int, self.position() as int, n as int),
                ),
            ) <= usize::MAX,
        ensures
            value == be_value(
                self.octets().subrange(
                    self.position() as int,
                    span_end(self.octets().len() as int, self.position() as int, n as int),
                ),
            ),
    {
        let end: usize = if n <= self.buf.len() - self.position {
            self.position + n
        } else {
            self.buf.len()
        };
        collate_slice(slice_subrange(self.buf.as_slice(), self.position, end))
    }

    /// The big-endian value of the next `n` octets, or of those that are left
    /// where the buffer ends before; the cursor moves on by `n`.
    pub fn take_bytes(&mut self, n: usize) -> (value: usize)
        requires
            old(self).position() <= old(self).octets().len(),
            old(self).position() + n <= usize::MAX,
            be_value(
                old(self).octets().subrange(
                    old(self).position() as int,
                    span_end(
                        old(self).octets().len() as int,
                        old(self).position() as int,
                        n as int,
                    ),
                ),
            ) <= usize::MAX,
        ensures
            value == be_value(
                old(self).octets().subrange(
                    old(self).position() as int,
                    span_end(
                        old(self).octets().len() as int,
                        old(self).position() as int,
                        n as int,
                    ),
                ),
            ),
            final(self).position() == old(self).position() + n,
            final(self).octets() == old(self).octets(),
    {
        let value = self.peek_bytes(n);
        self.position = self.position + n;
        value
    }

    /// The next `n` octets, or those that are left where the buffer ends
    /// before; the cursor moves on by `n`.
    pub fn take(&mut self, n: usize) -> (taken: Vec<u8>)
        requires
            old(self).position() <= old(self).octets().len(),
            old(self).position() + n <= usize::MAX,
        ensures
            taken@ == old(self).octets().subrange(
                old(self).position() as int,
                span_end(old(self).octets().len() as int, old(self).position() as int, n as int),
            ),
            final(self).position() == old(self).position() + n,
            final(self).octets() == old(self).octets(),
    {
        let end: usize = if n <= self.buf.len() - self.position {
            self.position + n
        } else {
            self.buf.len()
        };
        let mut taken: Vec<u8> = Vec::new();
        let mut i: usize = self.position;
        while i < end
            invariant
                self.position <= i <= end <= self.buf@.len(),
                taken@ == self.buf@.subrange(self.position as int, i as int),
            decreases end - i,
        {
            taken.push(self.buf[i]);
            i = i + 1;
            assert(taken@ =~= self.buf@.subrange(self.position as int, i as int));
        }
        self.position = self.position + n;
        taken
    }

    /// The next `N` octets as an array; the cursor does not move.
    pub fn get<const N: usize>(&self) -> (octets: [u8; N])
        requires
            self.position() + N <= self.octets().len(),
        ensures
            octets@ == self.octets().subrange(self.position() as int, self.position() + N),
    {
        let len: usize = self.buf.len();
        let mut octets: [u8; N] = [0u8; N];
        let mut i: usize = 0;
        while i < N
            invariant
                i <= N,
                self.position + N <= len == self.buf@.len(),
                forall|k: int| 0 <= k < i ==> octets@[k] == self.buf@[self.position + k],
            decreases N - i,
        {
            octets[i] = self.buf[self.position + i];
            i = i + 1;
        }
        assert(octets@ =~= self.buf@.subrange(self.position as int, self.position + N));
        octets
    }

    /// Reads the domain name at the cursor, following compression pointers. The
    /// cursor moves past the inline part of the name; on failure it stays.
    pub fn parse_domain_name(&mut self) -> (result: Result<String, MalformedPacket>)
        ensures
            final(self).octets() == old(self).octets(),
            match name_at(old(self).octets(), old(self).position() as int) {
                Some((name, end)) => result matches Ok(text) && text@ == name && final(self).position() == end,
                None => result is Err && final(self).position() == old(self).position(),
            },
    {
        match read_name(self.buf.as_slice(), self.position) {
            Ok((name, end)) => {
                self.position = end;
                Ok(name)
            },
            Err(e) => Err(e),
        }
    }

    /// Reads the question at the cursor. The cursor moves past it; on failure it stays.
    pub fn parse_question(&mut self) -> (result: Result<Question, MalformedPacket>)
        ensures
            final(self).octets() == old(self).octets(),
            match question_at(old(self).octets(), old(self).position() as int) {
                Some((question, end)) => result matches Ok(q) && q@ == question && final(self).position() == end,
                None => result is Err && final(self).position() == old(self).position(),
            },
    {
        match read_question(self.buf.as_slice(), self.position) {
            Ok((question, end)) => {
                self.position = end;
                Ok(question)
            },
            Err(e) => Err(e),
        }
    }

    /// Reads the resource record at the cursor. The cursor moves past it; on
    /// failure it stays.
    pub fn parse_answer(&mut self) -> (result: Result<ResourceRecord, MalformedPacket>)
        ensures
            final(self).octets() == old(self).octets(),
            match record_at(old(self).octets(), old(self).position() as int) {
                Some(span) => result matches Ok(record) && record@ == span.record && final(self).position() == span.next,
                None => result is Err && final(self).position() == old(self).position(),
            },
    {
        match read_record(self.buf.as_slice(), self.position) {
            Ok((record, _, next)) => {
                self.position = next;
                Ok(record)
            },
            Err(e) => Err(e),
        }
    }

    /// Reads the header from the start of the buffer and leaves the cursor after
    /// it. Fails, and leaves the cursor where it stood, where fewer than twelve
    /// octets were received.
    pub fn parse_header(&mut self) -> (result: Result<Header, MalformedPacket>)
        ensures
            final(self).octets() == old(self).octets(),
            if old(self).octets().len() >= 12 {
                result == Ok::<Header, MalformedPacket>(header_of(old(self).octets())) && final(self).position() == 12
            } else {
                result is Err && final(self).position() == old(self).position()
            },
    {
        if self.buf.len() < 12 {
            return Err(MalformedPacket);
        }
        self.position = 12;
        Ok(read_header(self.buf.as_slice()))
    }
}

} // verus!
