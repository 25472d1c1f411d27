//! The reply cache: captured replies, kept until the shortest TTL among their
//! answers has run out, and handed out again with a new identifier and reduced TTLs.

use crate::clock::{Clock, NANOS_PER_SECOND};
use crate::digest::{digest_from, digest_octets, stir_u16, stirred_u16, FNV_OFFSET};
use crate::error::MalformedPacket;
use crate::packet::{packet_of, DnsPacket, PacketSpan};
use crate::parser::DnsParser;
use crate::protocol::answer::{ResourceRecord, ResourceRecordView};
use crate::protocol::record_type::{record_type_code, RecordType};
use crate::rewrite::{as_ints, rewrite_packet, rewritten};
use crate::roundtrip::{aged_packet, lemma_rewrite_roundtrip, names_survive_rewrite};
use crate::table::{MatchKey, Table};
use crate::wire::DnsPacketBuffer;
use vstd::prelude::*;
use vstd::utf8::encode_utf8;

verus! {

/// What a reply is cached under: the record type and the name of its question.
#[derive(Debug)]
pub struct CacheKey {
    record_type: RecordType,
    domain: String,
}

impl View for CacheKey {
    type V = (RecordType, Seq<char>);

    closed spec fn view(&self) -> (RecordType, Seq<char>) {
        (self.record_type, self.domain@)
    }
}

impl Clone for CacheKey {
    fn clone(&self) -> (copy: Self)
        ensures
            copy@ == self@,
    {
        CacheKey { record_type: self.record_type, domain: self.domain.clone() }
    }
}

impl MatchKey for CacheKey {
    open spec fn digest_of(view: (RecordType, Seq<char>)) -> u64 {
        digest_from(stirred_u16(FNV_OFFSET, record_type_code(view.0)), encode_utf8(view.1))
    }

    fn matches(&self, other: &Self) -> (same: bool) {
        self.record_type == other.record_type && self.domain == other.domain
    }

    fn digest(&self) -> (digest: u64) {
        let code: u16 = self.record_type.into();
        digest_octets(stir_u16(FNV_OFFSET, code), self.domain.as_str().as_bytes())
    }
}

impl CacheKey {
    /// The key for replies to questions of type `record_type` about `domain`.
    pub fn new(record_type: RecordType, domain: String) -> (key: Self)
        ensures
            key@ == (record_type, domain@),
    {
        CacheKey { record_type, domain }
    }

    /// The key under which replies to the question of `packet` are cached.
    pub fn from_packet(packet: &DnsPacket) -> (key: Self)
        ensures
            key@ == (packet@.question.record_type, packet@.question.domain_name),
    {
        CacheKey::new(packet.question.record_type, packet.question.domain_name.clone())
    }
}

/// A captured reply with the times that decide how long and how it is served.
#[derive(Debug)]
pub struct CacheValue {
    expires_at: u64,
    cached_at: u64,
    packet: DnsPacketBuffer,
    ttl_indices: Vec<usize>,
}

/// What a [`CacheValue`] holds, as mathematical values. Times are nanoseconds on
/// the clock of the cache.
pub struct CacheValueView {
    /// The time after which the entry is no longer served.
    pub expires_at: u64,
    /// The time at which the reply was captured or last served.
    pub cached_at: u64,
    /// The reply as it is held.
    pub packet: Seq<u8>,
    /// For each answer of the reply, the offset of its TTL.
    pub ttl_indices: Seq<int>,
}

/// The least TTL among `records`, and zero where there are none.
pub open spec fn min_ttl(records: Seq<ResourceRecordView>) -> u32
    decreases records.len(),
{
    if records.len() == 0 {
        0
    } else if records.len() == 1 {
        records[0].meta.ttl
    } else {
        let rest = min_ttl(records.drop_last());
        if records.last().meta.ttl < rest {
            records.last().meta.ttl
        } else {
            rest
        }
    }
}

/// The time at which a reply captured at `cached_at` with least TTL `ttl` expires;
/// it stops at `u64::MAX`.
pub open spec fn expiry(cached_at: u64, ttl: u32) -> u64 {
    if cached_at + ttl * NANOS_PER_SECOND > u64::MAX {
        u64::MAX
    } else {
        (cached_at + ttl * NANOS_PER_SECOND) as u64
    }
}

/// The whole seconds from `cached_at` to `now`, and zero where `now` is earlier.
pub open spec fn elapsed_seconds(cached_at: u64, now: u64) -> u64 {
    if now >= cached_at {
        (now - cached_at) as u64 / NANOS_PER_SECOND
    } else {
        0
    }
}

/// The entry made at `now` for the reply `buf`, which holds the message `span`.
pub open spec fn fresh_entry(buf: Seq<u8>, span: PacketSpan, now: u64) -> CacheValueView {
    CacheValueView {
        expires_at: expiry(now, min_ttl(span.packet.answers)),
        cached_at: now,
        packet: buf,
        ttl_indices: span.ttl_indices,
    }
}

/// The entry after it was served at `now` to a query with identifier `new_id`:
/// it holds the reply that was served, and counts the time from `now`.
pub open spec fn served_entry(entry: CacheValueView, new_id: u16, now: u64) -> CacheValueView {
    CacheValueView {
        expires_at: entry.expires_at,
        cached_at: now,
        packet: rewritten(
            entry.packet,
            entry.ttl_indices,
            elapsed_seconds(entry.cached_at, now),
            new_id,
        ),
        ttl_indices: entry.ttl_indices,
    }
}

impl View for CacheValue {
    type V = CacheValueView;

    closed spec fn view(&self) -> CacheValueView {
        CacheValueView {
            expires_at: self.expires_at,
            cached_at: self.cached_at,
            packet: self.packet@,
            ttl_indices: as_ints(self.ttl_indices@),
        }
    }
}

/// Finds the least TTL among `records`.
pub fn least_ttl(records: &Vec<ResourceRecord>) -> (ttl: u32)
    ensures
        ttl == min_ttl(crate::packet::record_views(records@)),
{
    if records.len() == 0 {
        return 0;
    }
    let ghost views = crate::packet::record_views(records@);
    let mut ttl: u32 = records[0].meta.ttl;
    let mut i: usize = 1;
    assert(views.subrange(0, 1).len() == 1);
    while i < records.len()
        invariant
            1 <= i <= records@.len(),
            views == crate::packet::record_views(records@),
            ttl == min_ttl(views.subrange(0, i as int)),
        decreases records@.len() - i,
    {
        proof {
            let longer = views.subrange(0, i + 1);
            assert(longer.drop_last() =~= views.subrange(0, i as int));
            assert(longer.last() == records@[i as int]@);
        }
        if records[i].meta.ttl < ttl {
            ttl = records[i].meta.ttl;
        }
        i = i + 1;
    }
    assert(views.subrange(0, i as int) =~= views);
    ttl
}

/// Computes the time at which a reply captured at `cached_at` with least TTL `ttl` expires.
pub fn expiry_of(cached_at: u64, ttl: u32) -> (expires_at: u64)
    ensures
        expires_at == expiry(cached_at, ttl),
{
    cached_at.saturating_add(ttl as u64 * NANOS_PER_SECOND)
}

impl CacheValue {
    #[verifier::type_invariant]
    spec fn indices_in_bounds(&self) -> bool {
        forall|k: int| 0 <= k < self.ttl_indices@.len() ==> self.ttl_indices@[k] + 4 <= 512
    }

    /// The entry for the reply `reply`, captured at `now`: it expires when the
    /// least TTL among the answers has passed, at once where there are no
    /// answers. Fails where `reply` holds no well-formed message.
    pub fn new(reply: DnsPacketBuffer, now: u64) -> (result: Result<Self, MalformedPacket>)
        ensures
            match packet_of(reply@) {
                Some(span) => result matches Ok(entry) && entry@ == fresh_entry(reply@, span, now),
                None => result is Err,
            },
    {
        let mut parser = DnsParser::new(&reply);
        match parser.parse() {
            Err(e) => Err(e),
            Ok(packet) => {
                let ttl: u32 = least_ttl(&packet.answers);
                let ttl_indices = indices_of(&parser);
                Ok(
                    CacheValue {
                        expires_at: expiry_of(now, ttl),
                        cached_at: now,
                        packet: reply,
                        ttl_indices,
                    },
                )
            },
        }
    }

    /// The time after which the entry is no longer served.
    pub fn expires_at(&self) -> (time: u64)
        ensures
            time == self@.expires_at,
    {
        self.expires_at
    }

    /// The time at which the reply was captured or last served.
    pub fn cached_at(&self) -> (time: u64)
        ensures
            time == self@.cached_at,
    {
        self.cached_at
    }

    /// The reply as it is held.
    pub fn packet(&self) -> (packet: &DnsPacketBuffer)
        ensures
            packet@ == self@.packet,
    {
        &self.packet
    }

    /// Tells whether the entry may still be served at `now`.
    pub fn is_valid(&self, now: u64) -> (valid: bool)
        ensures
            valid == (now <= self@.expires_at),
    {
        now <= self.expires_at
    }

    /// The whole seconds that have passed at `now` since the reply was captured
    /// or last served: the amount by which the TTLs of its answers are to be
    /// reduced before it is served again.
    pub fn get_remaining_ttl(&self, now: u64) -> (seconds: u64)
        ensures
            seconds == elapsed_seconds(self@.cached_at, now),
    {
        if now >= self.cached_at {
            (now - self.cached_at) / NANOS_PER_SECOND
        } else {
            0
        }
    }

    /// Serves the entry at `now` to a query with identifier `new_request_id`:
    /// returns the reply, which the entry holds from then on.
    pub fn serve(&mut self, new_request_id: u16, now: u64) -> (reply: DnsPacketBuffer)
        ensures
            final(self)@ == served_entry(old(self)@, new_request_id, now),
            reply@ == final(self)@.packet,
    {
        proof {
            use_type_invariant(&*self);
        }
        let reply = rewrite_packet(
            &self.packet,
            &self.ttl_indices,
            self.get_remaining_ttl(now),
            new_request_id,
        );
        self.packet = reply;
        self.cached_at = now;
        reply
    }
}

/// Copies the offsets of the TTLs that `parser` has noted.
fn indices_of<'a>(parser: &DnsParser<'a>) -> (indices: Vec<usize>)
    ensures
        indices@ == parser.ttl_indices(),
{
    let noted = parser.answer_ttl_indices();
    let mut indices: Vec<usize> = Vec::new();
    let mut i: usize = 0;
    while i < noted.len()
        invariant
            i <= noted@.len(),
            indices@ == noted@.subrange(0, i as int),
        decreases noted@.len() - i,
    {
        indices.push(noted[i]);
        i = i + 1;
        assert(indices@ =~= noted@.subrange(0, i as int));
    }
    assert(noted@.subrange(0, i as int) =~= noted@);
    indices
}

/// What a lookup at `now` for `key`, with the identifier `new_id` of the query,
/// returns and leaves behind: a miss where the cache holds no entry for the key;
/// a miss, with the entry removed, where the entry has expired; else the entry's
/// reply with the new identifier and reduced TTLs, which the entry holds from
/// then on.
pub open spec fn cache_lookup(
    cache: Map<(RecordType, Seq<char>), CacheValueView>,
    key: (RecordType, Seq<char>),
    new_id: u16,
    now: u64,
) -> (Option<Seq<u8>>, Map<(RecordType, Seq<char>), CacheValueView>) {
    if !cache.contains_key(key) {
        (None, cache)
    } else if now <= cache[key].expires_at {
        (
            Some(served_entry(cache[key], new_id, now).packet),
            cache.insert(key, served_entry(cache[key], new_id, now)),
        )
    } else {
        (None, cache.remove(key))
    }
}

/// What storing the reply `buf` under `key` at `now` leaves behind: a fresh entry for
/// the key where `buf` holds a well-formed message, else the cache as it was.
pub open spec fn cache_store(
    cache: Map<(RecordType, Seq<char>), CacheValueView>,
    key: (RecordType, Seq<char>),
    buf: Seq<u8>,
    now: u64,
) -> Map<(RecordType, Seq<char>), CacheValueView> {
    match packet_of(buf) {
        Some(span) => cache.insert(key, fresh_entry(buf, span, now)),
        None => cache,
    }
}

/// The octets of a reply, if there is one.
pub open spec fn reply_octets(reply: Option<DnsPacketBuffer>) -> Option<Seq<u8>> {
    match reply {
        Some(buf) => Some(buf@),
        None => None,
    }
}

/// The cache of replies, with the clock by which its entries expire.
#[derive(Debug)]
pub struct RequestCache {
    inner: Table<CacheKey, CacheValue>,
    clock: Clock,
}

impl View for RequestCache {
    type V = Map<(RecordType, Seq<char>), CacheValueView>;

    closed spec fn view(&self) -> Map<(RecordType, Seq<char>), CacheValueView> {
        self.inner@.map_values(|entry: CacheValue| entry@)
    }
}

impl RequestCache {
    /// An empty cache, whose clock starts now.
    pub fn new() -> (cache: Self)
        ensures
            cache@ == Map::<(RecordType, Seq<char>), CacheValueView>::empty(),
            cache.time() == 0,
    {
        let cache = RequestCache { inner: Table::new(), clock: Clock::start() };
        assert(cache@ =~= Map::<(RecordType, Seq<char>), CacheValueView>::empty());
        cache
    }

    /// Reads the clock of the cache, which never runs backwards; the entries stay as they are.
    pub fn now(&mut self) -> (time: u64)
        ensures
            time == final(self).time(),
            old(self).time() <= time,
            final(self)@ == old(self)@,
    {
        self.clock.now()
    }

    /// The latest time that the clock of the cache has shown, in nanoseconds
    /// since the cache was made.
    pub closed spec fn time(&self) -> u64 {
        self.clock.reading()
    }

    /// Looks up the reply cached under `key` at the time that the clock shows,
    /// which is not earlier than the clock has shown before. Whatever that time
    /// is, the lookup is [`cache_lookup`] at that time.
    pub fn get(&mut self, key: CacheKey, new_request_id: u16) -> (reply: Option<DnsPacketBuffer>)
        ensures
            old(self).time() <= final(self).time(),
            (reply_octets(reply), final(self)@) == cache_lookup(
                old(self)@,
                key@,
                new_request_id,
                final(self).time(),
            ),
    {
        let now = self.now();
        self.get_at(key, new_request_id, now)
    }

    /// Stores `buffer` under `key` at the time that the clock shows, which is
    /// not earlier than the clock has shown before. Whatever that time is, the
    /// cache is then [`cache_store`] at that time; the call fails exactly where
    /// `buffer` holds no well-formed message.
    pub fn set(&mut self, key: CacheKey, buffer: DnsPacketBuffer) -> (result: Result<
        (),
        MalformedPacket,
    >)
        ensures
            result is Ok <==> packet_of(buffer@) is Some,
            old(self).time() <= final(self).time(),
            final(self)@ == cache_store(old(self)@, key@, buffer@, final(self).time()),
    {
        let now = self.now();
        self.set_at(key, buffer, now)
    }

    /// Looks up the reply cached under `key` at the time `now`.
    pub fn get_at(&mut self, key: CacheKey, new_request_id: u16, now: u64) -> (reply: Option<
        DnsPacketBuffer,
    >)
        ensures
            (reply_octets(reply), final(self)@) == cache_lookup(
                old(self)@,
                key@,
                new_request_id,
                now,
            ),
            final(self).time() == old(self).time(),
    {
        let ghost before = self.inner@;
        match self.inner.remove(&key) {
            None => {
                assert(self.inner@ =~= before);
                None
            },
            Some(mut entry) => {
                if entry.is_valid(now) {
                    let ghost held = entry@;
                    let reply = entry.serve(new_request_id, now);
                    self.inner.insert(key, entry);
                    assert(self@ =~= old(self)@.insert(
                        key@,
                        served_entry(held, new_request_id, now),
                    ));
                    Some(reply)
                } else {
                    assert(self@ =~= old(self)@.remove(key@));
                    None
                }
            },
        }
    }

    /// Stores `buffer` under `key` at the time `now`, in place of the entry that
    /// the key had, if any. Fails, and leaves the cache as it was, where
    /// `buffer` holds no well-formed message.
    pub fn set_at(&mut self, key: CacheKey, buffer: DnsPacketBuffer, now: u64) -> (result: Result<
        (),
        MalformedPacket,
    >)
        ensures
            result is Ok <==> packet_of(buffer@) is Some,
            final(self)@ == cache_store(old(self)@, key@, buffer@, now),
            final(self).time() == old(self).time(),
    {
        match CacheValue::new(buffer, now) {
            Err(e) => Err(e),
            Ok(entry) => {
                let ghost fresh = entry@;
                self.inner.insert(key, entry);
                assert(self@ =~= old(self)@.insert(key@, fresh));
                Ok(())
            },
        }
    }
}

/// Whether an entry holds a reply that can be served: a well-formed message
/// whose TTLs lie where the entry says, and of which no name runs, by way of a
/// compression pointer, through the identifier or through the TTL of an answer.
pub open spec fn servable(entry: CacheValueView) -> bool {
    &&& packet_of(entry.packet) is Some
    &&& packet_of(entry.packet).unwrap().ttl_indices == entry.ttl_indices
    &&& names_survive_rewrite(entry.packet)
}

/// An entry that can be served can be served again after it was served, and
/// what was served holds the message that the entry held, with the identifier
/// of the query and with the TTL of every answer reduced by the whole seconds
/// since the entry was made or last served.
pub proof fn lemma_served_entry_is_servable(entry: CacheValueView, new_id: u16, now: u64)
    requires
        servable(entry),
    ensures
        servable(served_entry(entry, new_id, now)),
        packet_of(served_entry(entry, new_id, now).packet).unwrap().packet == aged_packet(
            packet_of(entry.packet).unwrap().packet,
            elapsed_seconds(entry.cached_at, now),
            new_id,
        ),
{
    lemma_rewrite_roundtrip(entry.packet, elapsed_seconds(entry.cached_at, now), new_id);
}

/// Where every entry of a cache can be served, so can every entry after a
/// lookup, and after a reply was stored of which no name runs through the
/// identifier or through the TTL of an answer.
pub proof fn lemma_cache_stays_servable(
    cache: Map<(RecordType, Seq<char>), CacheValueView>,
    key: (RecordType, Seq<char>),
    buf: Seq<u8>,
    new_id: u16,
    now: u64,
)
    requires
        forall|k: (RecordType, Seq<char>)| #[trigger] cache.contains_key(k) ==> servable(cache[k]),
    ensures
        forall|k: (RecordType, Seq<char>)| #[trigger]
            cache_lookup(cache, key, new_id, now).1.contains_key(k) ==> servable(
                cache_lookup(cache, key, new_id, now).1[k],
            ),
        names_survive_rewrite(buf) ==> forall|k: (RecordType, Seq<char>)| #[trigger]
            cache_store(cache, key, buf, now).contains_key(k) ==> servable(
                cache_store(cache, key, buf, now)[k],
            ),
{
    if cache.contains_key(key) {
        lemma_served_entry_is_servable(cache[key], new_id, now);
    }
    let looked = cache_lookup(cache, key, new_id, now).1;
    assert forall|k: (RecordType, Seq<char>)| #[trigger] looked.contains_key(k) implies servable(
        looked[k],
    ) by {
        if k != key {
            assert(cache.contains_key(k));
        }
    }
    if names_survive_rewrite(buf) {
        let stored = cache_store(cache, key, buf, now);
        assert forall|k: (RecordType, Seq<char>)| #[trigger] stored.contains_key(k) implies servable(
            stored[k],
        ) by {
            if k != key {
                assert(cache.contains_key(k));
            }
        }
    }
}

/// A reply that is looked up after it was stored, and not later than it expires,
/// is found, and what is found holds the message of the stored reply with the
/// identifier of the query and with the TTL of every answer reduced by the
/// whole seconds that have passed.
///
/// This holds of every reply of which no name runs, by way of a compression
/// pointer, through the identifier or through the TTL of an answer.
pub proof fn lemma_hit_after_store(
    cache: Map<(RecordType, Seq<char>), CacheValueView>,
    key: (RecordType, Seq<char>),
    buf: Seq<u8>,
    stored_at: u64,
    new_id: u16,
    now: u64,
)
    requires
        packet_of(buf) is Some,
        names_survive_rewrite(buf),
        now <= expiry(stored_at, min_ttl(packet_of(buf).unwrap().packet.answers)),
    ensures
        cache_lookup(cache_store(cache, key, buf, stored_at), key, new_id, now).0 matches Some(
            reply,
        ) && packet_of(reply) == Some(
            PacketSpan {
                packet: aged_packet(
                    packet_of(buf).unwrap().packet,
                    elapsed_seconds(stored_at, now),
                    new_id,
                ),
                ttl_indices: packet_of(buf).unwrap().ttl_indices,
            },
        ),
{
    lemma_rewrite_roundtrip(buf, elapsed_seconds(stored_at, now), new_id);
}

/// A reply that is looked up after it has expired is not found, and is gone
/// from the cache afterwards.
pub proof fn lemma_miss_after_expiry(
    cache: Map<(RecordType, Seq<char>), CacheValueView>,
    key: (RecordType, Seq<char>),
    buf: Seq<u8>,
    stored_at: u64,
    new_id: u16,
    now: u64,
)
    requires
        packet_of(buf) is Some,
        now > expiry(stored_at, min_ttl(packet_of(buf).unwrap().packet.answers)),
    ensures
        cache_lookup(cache_store(cache, key, buf, stored_at), key, new_id, now).0 is None,
        !cache_lookup(cache_store(cache, key, buf, stored_at), key, new_id, now).1.contains_key(
            key,
        ),
{
}

/// A reply without answers expires at the moment it is stored: every later
/// lookup misses.
pub proof fn lemma_no_answers_expire_at_once(
    cache: Map<(RecordType, Seq<char>), CacheValueView>,
    key: (RecordType, Seq<char>),
    buf: Seq<u8>,
    stored_at: u64,
    new_id: u16,
    now: u64,
)
    requires
        packet_of(buf) is Some,
        packet_of(buf).unwrap().packet.answers.len() == 0,
        now > stored_at,
    ensures
        cache_store(cache, key, buf, stored_at)[key].expires_at == stored_at,
        cache_lookup(cache_store(cache, key, buf, stored_at), key, new_id, now).0 is None,
{
}

} // verus!
