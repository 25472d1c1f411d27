//! The decisions of the forwarding engine: what becomes of a datagram from a
//! client, and what of a reply from the upstream resolver.

use crate::cache::{
    cache_lookup, cache_store, CacheKey, CacheValueView, RequestCache,
};
use crate::cli::ServerArgs;
use crate::digest::{digest_from, digest_octets, stir_u16, stirred_u16, FNV_OFFSET};
use crate::filter::{is_domain_blacklisted, texts, Blocklist};
use crate::packet::{packet_of, DnsPacket, DnsPacketView};
use crate::parser::DnsParser;
use crate::protocol::record_type::{record_type_code, RecordType};
use crate::protocol::response_code::ResponseCode;
use crate::protocol::header::header_of;
use crate::serialize::{
    generate_nx_response, generate_response_with_answer, lemma_minimal_reply, minimal_reply,
};
use crate::table::{MatchKey, Table};
use crate::wire::DnsPacketBuffer;
use vstd::prelude::*;
use vstd::utf8::encode_utf8;

verus! {

/// What tells one query in flight from another: record type, identifier and name.
#[derive(Debug)]
pub struct RequestKey {
    record_type: RecordType,
    request_id: u16,
    domain: String,
}

impl View for RequestKey {
    type V = (RecordType, u16, Seq<char>);

    closed spec fn view(&self) -> (RecordType, u16, Seq<char>) {
        (self.record_type, self.request_id, self.domain@)
    }
}

impl Clone for RequestKey {
    fn clone(&self) -> (copy: Self)
        ensures
            copy@ == self@,
    {
        RequestKey {
            record_type: self.record_type,
            request_id: self.request_id,
            domain: self.domain.clone(),
        }
    }
}

impl MatchKey for RequestKey {
    open spec fn digest_of(view: (RecordType, u16, Seq<char>)) -> u64 {
        digest_from(
            stirred_u16(stirred_u16(FNV_OFFSET, record_type_code(view.0)), view.1),
            encode_utf8(view.2),
        )
    }

    fn matches(&self, other: &Self) -> (same: bool) {
        self.record_type == other.record_type && self.request_id == other.request_id
            && self.domain == other.domain
    }

    fn digest(&self) -> (digest: u64) {
        let code: u16 = self.record_type.into();
        digest_octets(
            stir_u16(stir_u16(FNV_OFFSET, code), self.request_id),
            self.domain.as_str().as_bytes(),
        )
    }
}

/// The key of the query, or of the reply, that `packet` is.
pub open spec fn request_key_of(packet: DnsPacketView) -> (RecordType, u16, Seq<char>) {
    (packet.question.record_type, packet.header.request_id, packet.question.domain_name)
}

/// The key under which the reply to the query `packet` is cached.
pub open spec fn cache_key_of(packet: DnsPacketView) -> (RecordType, Seq<char>) {
    (packet.question.record_type, packet.question.domain_name)
}

impl RequestKey {
    /// The key of a query of type `record_type` with identifier `request_id` about `domain`.
    pub fn new(record_type: RecordType, request_id: u16, domain: String) -> (key: Self)
        ensures
            key@ == (record_type, request_id, domain@),
    {
        RequestKey { record_type, request_id, domain }
    }

    /// The key of the query, or of the reply, that `packet` is.
    pub fn from_packet(packet: &DnsPacket) -> (key: Self)
        ensures
            key@ == request_key_of(packet@),
    {
        RequestKey::new(
            packet.question.record_type,
            packet.header.request_id,
            packet.question.domain_name.clone(),
        )
    }
}

/// What is kept of a query while the upstream resolver works on it. `A` is the
/// address of a client.
#[derive(Debug)]
pub struct PendingQuery<A> {
    /// Where the query came from, and where its reply goes.
    pub client: A,
    /// The query.
    pub request: DnsPacket,
    /// When the query arrived.
    pub arrival: u64,
    /// What the reply will be cached under.
    pub cache_key: CacheKey,
}

/// What a [`PendingQuery`] holds, as mathematical values.
pub struct PendingView<A> {
    pub client: A,
    pub request: DnsPacketView,
    pub arrival: u64,
    pub cache_key: (RecordType, Seq<char>),
}

impl<A> View for PendingQuery<A> {
    type V = PendingView<A>;

    open spec fn view(&self) -> PendingView<A> {
        PendingView {
            client: self.client,
            request: self.request@,
            arrival: self.arrival,
            cache_key: self.cache_key@,
        }
    }
}

/// The queries in flight, each under its key.
pub type RequestAssociationMap<A> = Table<RequestKey, PendingQuery<A>>;

/// What is to be done with a datagram once the forwarder has decided.
#[derive(Debug)]
pub enum Action<A> {
    /// Nothing is sent.
    Drop,
    /// After `delay_ms` milliseconds, `reply` is sent to `client` from the
    /// socket that receives the queries.
    Reply { client: A, reply: DnsPacketBuffer, delay_ms: u64 },
    /// `query` is sent to the upstream resolver, whose reply is then awaited.
    Forward { query: DnsPacketBuffer },
}

/// What an [`Action`] holds, as mathematical values.
pub enum ActionView<A> {
    Drop,
    Reply { client: A, reply: Seq<u8>, delay_ms: u64 },
    Forward { query: Seq<u8> },
}

impl<A> View for Action<A> {
    type V = ActionView<A>;

    open spec fn view(&self) -> ActionView<A> {
        match *self {
            Action::Drop => ActionView::Drop,
            Action::Reply { client, reply, delay_ms } => ActionView::Reply {
                client,
                reply: reply@,
                delay_ms,
            },
            Action::Forward { query } => ActionView::Forward { query: query@ },
        }
    }
}

/// The state of the forwarder, as mathematical values.
pub struct ResolverView<A> {
    /// Whether every query is answered by a made-up reply.
    pub benchmark: bool,
    /// Milliseconds by which a made-up reply is delayed.
    pub resolution_delay_ms: u64,
    /// Whether replies are cached.
    pub caching_enabled: bool,
    /// The names that are not resolved.
    pub blocked_domains: Set<Seq<char>>,
    /// The cached replies.
    pub cache: Map<(RecordType, Seq<char>), CacheValueView>,
    /// The queries in flight.
    pub associations: Map<(RecordType, u16, Seq<char>), PendingView<A>>,
}

/// What the forwarder does at `now` with the datagram `datagram` that `sender`
/// sent, and the state that it is in afterwards.
///
/// A datagram that holds no well-formed message is dropped. In benchmark mode
/// every query gets the minimal reply without error, after the configured
/// delay. A query for a blocked name gets the minimal reply that the name does
/// not exist. Where caching is on and the cache holds a reply that has not
/// expired, the query gets that reply, with its own identifier and reduced
/// TTLs. Every other query is noted under its key, in place of a query with the
/// same key, and forwarded as it came.
pub open spec fn client_step<A>(
    state: ResolverView<A>,
    datagram: Seq<u8>,
    sender: A,
    now: u64,
) -> (ActionView<A>, ResolverView<A>) {
    match packet_of(datagram) {
        None => (ActionView::Drop, state),
        Some(span) => {
            let id = span.packet.header.request_id;
            if state.benchmark {
                (
                    ActionView::Reply {
                        client: sender,
                        reply: minimal_reply(id, ResponseCode::NOERROR),
                        delay_ms: state.resolution_delay_ms,
                    },
                    state,
                )
            } else if state.blocked_domains.contains(span.packet.question.domain_name) {
                (
                    ActionView::Reply {
                        client: sender,
                        reply: minimal_reply(id, ResponseCode::NXDOMAIN),
                        delay_ms: 0,
                    },
                    state,
                )
            } else {
                let looked = if state.caching_enabled {
                    cache_lookup(state.cache, cache_key_of(span.packet), id, now)
                } else {
                    (None, state.cache)
                };
                match looked.0 {
                    Some(reply) => (
                        ActionView::Reply { client: sender, reply, delay_ms: 0 },
                        ResolverView { cache: looked.1, ..state },
                    ),
                    None => (
                        ActionView::Forward { query: datagram },
                        ResolverView {
                            cache: looked.1,
                            associations: state.associations.insert(
                                request_key_of(span.packet),
                                PendingView {
                                    client: sender,
                                    request: span.packet,
                                    arrival: now,
                                    cache_key: cache_key_of(span.packet),
                                },
                            ),
                            ..state
                        },
                    ),
                }
            }
        },
    }
}

/// What the forwarder does at `now` with the datagram `datagram` that the
/// upstream resolver sent, and the state that it is in afterwards.
///
/// A datagram that holds no well-formed message, or the reply to no query in
/// flight, is dropped. Every other reply goes, as it came, to the client whose
/// query is noted under the key of the reply; the query is then no longer in
/// flight, and where caching is on the reply is cached under the key noted with
/// the query.
pub open spec fn upstream_step<A>(state: ResolverView<A>, datagram: Seq<u8>, now: u64) -> (
    ActionView<A>,
    ResolverView<A>,
) {
    match packet_of(datagram) {
        None => (ActionView::Drop, state),
        Some(span) => {
            let key = request_key_of(span.packet);
            if state.associations.contains_key(key) {
                (
                    ActionView::Reply {
                        client: state.associations[key].client,
                        reply: datagram,
                        delay_ms: 0,
                    },
                    ResolverView {
                        associations: state.associations.remove(key),
                        cache: if state.caching_enabled {
                            cache_store(
                                state.cache,
                                state.associations[key].cache_key,
                                datagram,
                                now,
                            )
                        } else {
                            state.cache
                        },
                        ..state
                    },
                )
            } else {
                (ActionView::Drop, state)
            }
        },
    }
}

/// The reply to a query for a blocked name: the minimal reply, sent at once,
/// that the name does not exist.
pub fn handle_filter<A>(request_packet: &DnsPacket, sender: A) -> (action: Action<A>)
    ensures
        action@ == (ActionView::Reply {
            client: sender,
            reply: minimal_reply(request_packet@.header.request_id, ResponseCode::NXDOMAIN),
            delay_ms: 0,
        }),
{
    Action::Reply {
        client: sender,
        reply: generate_nx_response(request_packet.header.request_id),
        delay_ms: 0,
    }
}

/// The reply to a query in benchmark mode: the minimal reply without error,
/// sent after `resolution_delay_ms` milliseconds.
pub fn handle_benchmark<A>(request_id: u16, sender: A, resolution_delay_ms: u64) -> (action: Action<
    A,
>)
    ensures
        action@ == (ActionView::Reply {
            client: sender,
            reply: minimal_reply(request_id, ResponseCode::NOERROR),
            delay_ms: resolution_delay_ms,
        }),
{
    Action::Reply {
        client: sender,
        reply: generate_response_with_answer(request_id, ResponseCode::NOERROR),
        delay_ms: resolution_delay_ms,
    }
}

/// The forwarder: its options, its blocklist, its cached replies and its queries in flight.
#[derive(Debug)]
pub struct Resolver<A> {
    server_args: ServerArgs,
    request_associations: Table<RequestKey, PendingQuery<A>>,
    request_cache: RequestCache,
    blocked_domains: Blocklist,
}

impl<A> View for Resolver<A> {
    type V = ResolverView<A>;

    closed spec fn view(&self) -> ResolverView<A> {
        ResolverView {
            benchmark: self.server_args.benchmark,
            resolution_delay_ms: self.server_args.resolution_delay_ms,
            caching_enabled: self.server_args.caching_enabled,
            blocked_domains: self.blocked_domains@,
            cache: self.request_cache@,
            associations: self.request_associations@.map_values(|p: PendingQuery<A>| p@),
        }
    }
}

impl<A> Resolver<A> {
    /// A forwarder with the options `server_args`, an empty cache and no query in flight.
    pub fn new(server_args: ServerArgs) -> (resolver: Self)
        ensures
            resolver@ == (ResolverView::<A> {
                benchmark: server_args.benchmark,
                resolution_delay_ms: server_args.resolution_delay_ms,
                caching_enabled: server_args.caching_enabled,
                blocked_domains: texts(server_args.blocked_domains@).to_set(),
                cache: Map::empty(),
                associations: Map::empty(),
            }),
            resolver.time() == 0,
    {
        let blocked_domains = Blocklist::from_names(&server_args.blocked_domains);
        let resolver = Resolver {
            server_args,
            request_associations: Table::new(),
            request_cache: RequestCache::new(),
            blocked_domains,
        };
        assert(resolver@.associations =~= Map::empty());
        resolver
    }

    /// Reads the clock by which cached replies expire; it never runs backwards.
    pub fn now(&mut self) -> (time: u64)
        ensures
            time == final(self).time(),
            old(self).time() <= time,
            final(self)@ == old(self)@,
    {
        self.request_cache.now()
    }

    /// The latest time that the clock of the forwarder has shown, in
    /// nanoseconds since the forwarder was made.
    pub closed spec fn time(&self) -> u64 {
        self.request_cache.time()
    }

    /// Decides what becomes of the datagram `client_packet` from `sender`, at
    /// the time that the clock shows, which is not earlier than the clock has
    /// shown before. Whatever that time is, the decision is [`client_step`] at
    /// that time.
    pub fn process(&mut self, client_packet: &DnsPacketBuffer, sender: A) -> (action: Action<A>)
        ensures
            old(self).time() <= final(self).time(),
            (action@, final(self)@) == client_step(
                old(self)@,
                client_packet@,
                sender,
                final(self).time(),
            ),
    {
        let now = self.now();
        self.process_at(client_packet, sender, now)
    }

    /// Decides what becomes of the datagram `reply_buffer` from the upstream
    /// resolver, at the time that the clock shows, which is not earlier than
    /// the clock has shown before. Whatever that time is, the decision is
    /// [`upstream_step`] at that time.
    pub fn process_reply(&mut self, reply_buffer: &DnsPacketBuffer) -> (action: Action<A>)
        ensures
            old(self).time() <= final(self).time(),
            (action@, final(self)@) == upstream_step(
                old(self)@,
                reply_buffer@,
                final(self).time(),
            ),
    {
        let now = self.now();
        self.process_reply_at(reply_buffer, now)
    }

    /// Decides at `now` what becomes of the datagram `client_packet` from `sender`.
    pub fn process_at(&mut self, client_packet: &DnsPacketBuffer, sender: A, now: u64) -> (action:
        Action<A>)
        ensures
            (action@, final(self)@) == client_step(old(self)@, client_packet@, sender, now),
            final(self).time() == old(self).time(),
    {
        let mut parser = DnsParser::new(client_packet);
        let request_packet = match parser.parse() {
            Err(_) => {
                return Action::Drop;
            },
            Ok(packet) => packet,
        };
        if self.server_args.benchmark {
            return handle_benchmark(
                request_packet.header.request_id,
                sender,
                self.server_args.resolution_delay_ms,
            );
        }
        if is_domain_blacklisted(
            &self.blocked_domains,
            request_packet.question.domain_name.as_str(),
        ) {
            return handle_filter(&request_packet, sender);
        }
        let cache_key = CacheKey::from_packet(&request_packet);
        if self.server_args.caching_enabled {
            match self.request_cache.get_at(
                cache_key.clone(),
                request_packet.header.request_id,
                now,
            ) {
                Some(reply) => {
                    return Action::Reply { client: sender, reply, delay_ms: 0 };
                },
                None => {},
            }
        }
        let sender_key = RequestKey::from_packet(&request_packet);
        let ghost noted = PendingView {
            client: sender,
            request: request_packet@,
            arrival: now,
            cache_key: cache_key@,
        };
        self.request_associations.insert(
            sender_key,
            PendingQuery { client: sender, request: request_packet, arrival: now, cache_key },
        );
        assert(self@.associations =~= old(self)@.associations.insert(
            request_key_of(noted.request),
            noted,
        ));
        Action::Forward { query: *client_packet }
    }

    /// Decides at `now` what becomes of the datagram `reply_buffer` from the
    /// upstream resolver.
    pub fn process_reply_at(&mut self, reply_buffer: &DnsPacketBuffer, now: u64) -> (action:
        Action<A>)
        ensures
            (action@, final(self)@) == upstream_step(old(self)@, reply_buffer@, now),
            final(self).time() == old(self).time(),
    {
        let mut parser = DnsParser::new(reply_buffer);
        let reply_packet = match parser.parse() {
            Err(_) => {
                return Action::Drop;
            },
            Ok(packet) => packet,
        };
        let unique_request_key = RequestKey::from_packet(&reply_packet);
        match self.request_associations.remove(&unique_request_key) {
            None => {
                assert(self@.associations =~= old(self)@.associations);
                Action::Drop
            },
            Some(pending) => {
                assert(self@.associations =~= old(self)@.associations.remove(
                    request_key_of(reply_packet@),
                ));
                if self.server_args.caching_enabled {
                    let _ = self.request_cache.set_at(pending.cache_key, *reply_buffer, now);
                }
                Action::Reply { client: pending.client, reply: *reply_buffer, delay_ms: 0 }
            },
        }
    }
}

/// A query for a blocked name, outside benchmark mode, gets at once the minimal
/// reply that the name does not exist, with the identifier of the query;
/// nothing is forwarded, and the forwarder is left as it was.
pub proof fn lemma_blocked_query_is_refused<A>(
    state: ResolverView<A>,
    datagram: Seq<u8>,
    sender: A,
    now: u64,
)
    requires
        packet_of(datagram) is Some,
        !state.benchmark,
        state.blocked_domains.contains(packet_of(datagram).unwrap().packet.question.domain_name),
    ensures
        client_step(state, datagram, sender, now) == (
            ActionView::Reply {
                client: sender,
                reply: minimal_reply(
                    packet_of(datagram).unwrap().packet.header.request_id,
                    ResponseCode::NXDOMAIN,
                ),
                delay_ms: 0,
            },
            state,
        ),
        header_of(
            minimal_reply(
                packet_of(datagram).unwrap().packet.header.request_id,
                ResponseCode::NXDOMAIN,
            ),
        ).request_id == packet_of(datagram).unwrap().packet.header.request_id,
        header_of(
            minimal_reply(
                packet_of(datagram).unwrap().packet.header.request_id,
                ResponseCode::NXDOMAIN,
            ),
        ).flags.response_code == 3,
        !header_of(
            minimal_reply(
                packet_of(datagram).unwrap().packet.header.request_id,
                ResponseCode::NXDOMAIN,
            ),
        ).flags.query,
{
    lemma_minimal_reply(
        packet_of(datagram).unwrap().packet.header.request_id,
        ResponseCode::NXDOMAIN,
    );
}

/// Whether every query in flight is noted under its own key: the record type,
/// the identifier and the name that the reply to it will carry.
pub open spec fn noted_under_own_keys<A>(state: ResolverView<A>) -> bool {
    forall|key: (RecordType, u16, Seq<char>)| #[trigger]
        state.associations.contains_key(key) ==> request_key_of(state.associations[key].request)
            == key
}

/// Queries in flight are noted under their own keys from the start and after
/// every datagram: the reply that finds a query agrees with it in record type,
/// identifier and name.
pub proof fn lemma_queries_stay_under_own_keys<A>(
    state: ResolverView<A>,
    datagram: Seq<u8>,
    sender: A,
    now: u64,
)
    requires
        noted_under_own_keys(state),
    ensures
        noted_under_own_keys(client_step(state, datagram, sender, now).1),
        noted_under_own_keys(upstream_step(state, datagram, now).1),
        noted_under_own_keys(ResolverView::<A> { associations: Map::empty(), ..state }),
{
    let asked = client_step(state, datagram, sender, now).1;
    assert forall|key: (RecordType, u16, Seq<char>)| #[trigger]
        asked.associations.contains_key(key) implies request_key_of(asked.associations[key].request)
        == key by {
        if state.associations.contains_key(key) {
        }
    }
    let answered = upstream_step(state, datagram, now).1;
    assert forall|key: (RecordType, u16, Seq<char>)| #[trigger]
        answered.associations.contains_key(key) implies request_key_of(
        answered.associations[key].request,
    ) == key by {
        assert(state.associations.contains_key(key));
    }
}

/// A datagram that reaches the forwarder: from a client, or from the upstream resolver.
pub enum Event<A> {
    Query { datagram: Seq<u8>, sender: A, now: u64 },
    Reply { datagram: Seq<u8>, now: u64 },
}

/// The key of the message in `datagram`, if it holds one.
pub open spec fn datagram_key(datagram: Seq<u8>) -> Option<(RecordType, u16, Seq<char>)> {
    match packet_of(datagram) {
        Some(span) => Some(request_key_of(span.packet)),
        None => None,
    }
}

/// The key of the message that arrives with `event`, if it holds one.
pub open spec fn event_key<A>(event: Event<A>) -> Option<(RecordType, u16, Seq<char>)> {
    match event {
        Event::Query { datagram, .. } => datagram_key(datagram),
        Event::Reply { datagram, .. } => datagram_key(datagram),
    }
}

/// The state of the forwarder after `event`.
pub open spec fn after_event<A>(state: ResolverView<A>, event: Event<A>) -> ResolverView<A> {
    match event {
        Event::Query { datagram, sender, now } => client_step(state, datagram, sender, now).1,
        Event::Reply { datagram, now } => upstream_step(state, datagram, now).1,
    }
}

/// The state of the forwarder after `events`, in their order.
pub open spec fn after_events<A>(state: ResolverView<A>, events: Seq<Event<A>>) -> ResolverView<A>
    decreases events.len(),
{
    if events.len() == 0 {
        state
    } else {
        after_event(after_events(state, events.drop_last()), events.last())
    }
}

/// What is noted under a key stays as it is while queries and replies with
/// other keys, and datagrams that hold no message, come and go.
pub proof fn lemma_other_keys_keep_entry<A>(
    state: ResolverView<A>,
    events: Seq<Event<A>>,
    key: (RecordType, u16, Seq<char>),
)
    requires
        state.associations.contains_key(key),
        forall|k: int| 0 <= k < events.len() ==> event_key(#[trigger] events[k]) != Some(key),
    ensures
        after_events(state, events).associations.contains_key(key),
        after_events(state, events).associations[key] == state.associations[key],
    decreases events.len(),
{
    if events.len() > 0 {
        let earlier = events.drop_last();
        assert forall|k: int| 0 <= k < earlier.len() implies event_key(#[trigger] earlier[k])
            != Some(key) by {
            assert(earlier[k] == events[k]);
        }
        lemma_other_keys_keep_entry(state, earlier, key);
        assert(event_key(events[events.len() - 1]) != Some(key));
    }
}

/// The reply to a query that was forwarded goes to the client that sent the
/// query, as it came from the upstream resolver, however many queries and
/// replies with other keys have come and gone in between. The reply carries
/// the record type, the identifier and the name of the query.
pub proof fn lemma_reply_reaches_its_client<A>(
    state: ResolverView<A>,
    query: Seq<u8>,
    client: A,
    asked_at: u64,
    others: Seq<Event<A>>,
    reply: Seq<u8>,
    replied_at: u64,
)
    requires
        client_step(state, query, client, asked_at).0 is Forward,
        datagram_key(reply) is Some,
        datagram_key(reply) == datagram_key(query),
        forall|k: int|
            0 <= k < others.len() ==> event_key(#[trigger] others[k]) != datagram_key(query),
    ensures
        upstream_step(
            after_events(client_step(state, query, client, asked_at).1, others),
            reply,
            replied_at,
        ).0 == (ActionView::Reply { client, reply, delay_ms: 0 }),
{
    let key = datagram_key(query).unwrap();
    let noted = client_step(state, query, client, asked_at).1;
    assert(noted.associations.contains_key(key));
    lemma_other_keys_keep_entry(noted, others, key);
}

} // verus!
