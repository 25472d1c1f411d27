use dns_block::cli::{get_acceptor_pool_size, ServerArgs};
use dns_block::digest::{digest_octets, stir, stir_u16, FNV_OFFSET};
use dns_block::name::encode_domain_name;
use dns_block::packet::DnsPacket;
use dns_block::parser::DnsParser;
use dns_block::protocol::answer::ResourceRecordData;
use dns_block::protocol::record_type::RecordType;
use dns_block::protocol::response_code::ResponseCode;
use dns_block::resolution::{handle_benchmark, handle_filter, Action, RequestKey, Resolver};
use dns_block::serialize::{generate_nx_response, generate_response_with_answer};
use dns_block::table::{MatchKey, Table};

const SECOND: u64 = 1_000_000_000;

fn padded(octets: &[u8]) -> [u8; 512] {
    let mut buf = [0u8; 512];
    buf[..octets.len()].copy_from_slice(octets);
    buf
}

/// A recursive query with identifier `id` for the records of type `code` of `name`.
fn query(id: u16, name: &str, code: u16) -> [u8; 512] {
    let mut out = Vec::new();
    out.extend_from_slice(&id.to_be_bytes());
    out.extend_from_slice(&[0x01, 0x00, 0, 1, 0, 0, 0, 0, 0, 0]);
    out.extend_from_slice(&encode_domain_name(name));
    out.extend_from_slice(&code.to_be_bytes());
    out.extend_from_slice(&[0, 1]);
    padded(&out)
}

/// A reply without error to `query(id, name, 1)` with one address and TTL.
fn reply(id: u16, name: &str, address: [u8; 4], ttl: u32) -> [u8; 512] {
    let mut out = Vec::new();
    out.extend_from_slice(&id.to_be_bytes());
    out.extend_from_slice(&[0x81, 0x80, 0, 1, 0, 1, 0, 0, 0, 0]);
    out.extend_from_slice(&encode_domain_name(name));
    out.extend_from_slice(&[0, 1, 0, 1]);
    out.extend_from_slice(&[0xC0, 0x0C, 0, 1, 0, 1]);
    out.extend_from_slice(&ttl.to_be_bytes());
    out.extend_from_slice(&[0, 4]);
    out.extend_from_slice(&address);
    padded(&out)
}

fn parse(buf: &[u8; 512]) -> DnsPacket {
    DnsParser::new(buf).parse().unwrap()
}

fn args(blocked: &[&str], caching: bool) -> ServerArgs {
    ServerArgs {
        blocked_domains: blocked.iter().map(|name| String::from(*name)).collect(),
        caching_enabled: caching,
        ..Default::default()
    }
}

fn forwarded(action: Action<u32>) -> [u8; 512] {
    match action {
        Action::Forward { query } => query,
        other => panic!("{:?} where a query was to be forwarded", other),
    }
}

fn replied(action: Action<u32>) -> (u32, [u8; 512], u64) {
    match action {
        Action::Reply { client, reply, delay_ms } => (client, reply, delay_ms),
        other => panic!("{:?} where a reply was to be sent", other),
    }
}

#[test]
fn default_options() {
    let args = ServerArgs::default();
    assert_eq!(args.dns_relay, "1.1.1.1:53");
    assert_eq!(args.bind_address, "0.0.0.0");
    assert_eq!(args.bind_port, 53000);
    assert!(!args.benchmark);
    assert_eq!(args.resolution_delay_ms, 500);
    assert_eq!(args.recording_folder, None);
    assert!(!args.quiet);
    assert!(!args.caching_enabled);
    assert!(args.blocked_domains.is_empty());
    assert!(args.domain_blacklists.is_empty());
}

#[test]
fn acceptors_are_half_the_cores_and_at_least_one() {
    assert_eq!(get_acceptor_pool_size(0), 1);
    assert_eq!(get_acceptor_pool_size(1), 1);
    assert_eq!(get_acceptor_pool_size(2), 1);
    assert_eq!(get_acceptor_pool_size(3), 1);
    assert_eq!(get_acceptor_pool_size(4), 2);
    assert_eq!(get_acceptor_pool_size(9), 4);
    assert_eq!(get_acceptor_pool_size(512), 256);
}

#[test]
fn minimal_replies() {
    let nx = generate_nx_response(0x0005);
    let mut expected = [0u8; 512];
    expected[..4].copy_from_slice(&[0x00, 0x05, 0x80, 0x03]);
    assert_eq!(nx, expected);
    let fine = generate_response_with_answer(0xABCD, ResponseCode::NOERROR);
    expected[..4].copy_from_slice(&[0xAB, 0xCD, 0x80, 0x00]);
    assert_eq!(fine, expected);
    let failed = generate_response_with_answer(1, ResponseCode::SERVFAIL);
    expected[..4].copy_from_slice(&[0x00, 0x01, 0x80, 0x02]);
    assert_eq!(failed, expected);
    let formerr = generate_response_with_answer(0xFFFF, ResponseCode::FORMERR);
    expected[..4].copy_from_slice(&[0xFF, 0xFF, 0x80, 0x01]);
    assert_eq!(formerr, expected);
    let header = DnsParser::new(&nx).parse_header();
    assert_eq!(header.request_id, 5);
    assert!(!header.flags.query);
    assert_eq!(header.flags.response_code, 3);
    assert_eq!(header.question_count, 0);
    assert_eq!(header.answer_count, 0);
}

#[test]
fn query_for_a_name_that_is_not_blocked_goes_upstream_and_its_reply_back() {
    let mut resolver: Resolver<u32> = Resolver::new(args(&[], false));
    let asked = query(0x1234, "www.example.com", 1);
    let upstream = forwarded(resolver.process_at(&asked, 77, 0));
    assert_eq!(upstream, asked);
    let answer = reply(0x1234, "www.example.com", [93, 184, 216, 34], 3600);
    let (client, delivered, delay_ms) = replied(resolver.process_reply_at(&answer, SECOND));
    assert_eq!(client, 77);
    assert_eq!(delay_ms, 0);
    assert_eq!(delivered, answer);
    let packet = parse(&delivered);
    assert_eq!(packet.header.request_id, 0x1234);
    assert_eq!(packet.question.domain_name, "www.example.com");
    assert_eq!(packet.question.record_type, RecordType::A);
    assert_eq!(packet.answers.len(), 1);
    assert_eq!(packet.answers[0].meta.ttl, 3600);
    assert!(matches!(packet.answers[0].value, ResourceRecordData::A { ipv4: [93, 184, 216, 34] }));
}

#[test]
fn query_for_a_blocked_name_is_refused_at_once() {
    let mut resolver: Resolver<u32> = Resolver::new(args(&["ads.example.net"], true));
    let (client, refusal, delay_ms) =
        replied(resolver.process_at(&query(0x0005, "ads.example.net", 1), 9, 0));
    assert_eq!(client, 9);
    assert_eq!(delay_ms, 0);
    assert_eq!(refusal.len(), 512);
    assert_eq!(refusal, generate_nx_response(0x0005));
    let header = DnsParser::new(&refusal).parse_header();
    assert_eq!(header.request_id, 0x0005);
    assert!(!header.flags.query);
    assert_eq!(header.flags.response_code, u8::from(ResponseCode::NXDOMAIN));
    // nothing was noted for the query: a reply to it finds no client
    let late = reply(0x0005, "ads.example.net", [1, 2, 3, 4], 60);
    assert!(matches!(resolver.process_reply_at(&late, 1), Action::Drop));
}

#[test]
fn blocking_is_by_the_exact_name() {
    let mut resolver: Resolver<u32> = Resolver::new(args(&["ads.example.net"], false));
    for name in ["sub.ads.example.net", "example.net", "ADS.example.net", "ads.example.nets"] {
        let action = resolver.process_at(&query(1, name, 1), 1, 0);
        assert!(matches!(action, Action::Forward { .. }), "{name}");
    }
    let action = resolver.process_at(&query(1, "ads.example.net", 28), 1, 0);
    assert!(matches!(action, Action::Reply { .. }));
}

#[test]
fn second_query_is_served_from_the_cache_with_reduced_ttl() {
    let mut resolver: Resolver<u32> = Resolver::new(args(&[], true));
    forwarded(resolver.process_at(&query(0x1234, "www.example.com", 1), 1, 0));
    let answer = reply(0x1234, "www.example.com", [93, 184, 216, 34], 3600);
    replied(resolver.process_reply_at(&answer, 0));
    let (client, hit, delay_ms) =
        replied(resolver.process_at(&query(0x9ABC, "www.example.com", 1), 2, 10 * SECOND));
    assert_eq!(client, 2);
    assert_eq!(delay_ms, 0);
    let packet = parse(&hit);
    assert_eq!(packet.header.request_id, 0x9ABC);
    assert_eq!(packet.question.domain_name, "www.example.com");
    assert_eq!(packet.answers.len(), 1);
    assert_eq!(packet.answers[0].meta.ttl, 3590);
    assert!(matches!(packet.answers[0].value, ResourceRecordData::A { ipv4: [93, 184, 216, 34] }));
    // another type of the same name is not in the cache
    let other = resolver.process_at(&query(3, "www.example.com", 28), 3, 10 * SECOND);
    assert!(matches!(other, Action::Forward { .. }));
    // after the TTL has run out the query goes upstream again
    let expired = resolver.process_at(&query(4, "www.example.com", 1), 4, 3601 * SECOND);
    assert!(matches!(expired, Action::Forward { .. }));
}

#[test]
fn without_caching_every_query_goes_upstream() {
    let mut resolver: Resolver<u32> = Resolver::new(args(&[], false));
    forwarded(resolver.process_at(&query(1, "www.example.com", 1), 1, 0));
    replied(resolver.process_reply_at(&reply(1, "www.example.com", [1, 1, 1, 1], 3600), 0));
    let again = resolver.process_at(&query(2, "www.example.com", 1), 2, SECOND);
    assert!(matches!(again, Action::Forward { .. }));
}

#[test]
fn replies_in_reverse_order_reach_their_clients() {
    let mut resolver: Resolver<u32> = Resolver::new(args(&[], false));
    for client in 0..10u32 {
        let name = format!("host{client}.example");
        let asked = query(0x0100 + client as u16, &name, 1);
        assert_eq!(forwarded(resolver.process_at(&asked, client, u64::from(client))), asked);
    }
    for client in (0..10u32).rev() {
        let name = format!("host{client}.example");
        let answer = reply(0x0100 + client as u16, &name, [10, 0, 0, client as u8], 60);
        let (to, delivered, _) = replied(resolver.process_reply_at(&answer, 100));
        assert_eq!(to, client);
        assert_eq!(delivered, answer);
        let packet = parse(&delivered);
        assert_eq!(packet.header.request_id, 0x0100 + client as u16);
        assert_eq!(packet.question.domain_name, name);
    }
    // every query is answered once only
    let late = reply(0x0100, "host0.example", [10, 0, 0, 0], 60);
    assert!(matches!(resolver.process_reply_at(&late, 101), Action::Drop));
}

#[test]
fn same_identifier_for_different_names_is_told_apart() {
    let mut resolver: Resolver<u32> = Resolver::new(args(&[], false));
    forwarded(resolver.process_at(&query(7, "one.example", 1), 1, 0));
    forwarded(resolver.process_at(&query(7, "two.example", 1), 2, 0));
    forwarded(resolver.process_at(&query(7, "one.example", 28), 3, 0));
    let (to, _, _) = replied(resolver.process_reply_at(&reply(7, "two.example", [2, 2, 2, 2], 1), 1));
    assert_eq!(to, 2);
    let (to, _, _) = replied(resolver.process_reply_at(&reply(7, "one.example", [1, 1, 1, 1], 1), 1));
    assert_eq!(to, 1);
}

#[test]
fn later_query_with_the_same_key_takes_the_place_of_the_earlier() {
    let mut resolver: Resolver<u32> = Resolver::new(args(&[], false));
    forwarded(resolver.process_at(&query(7, "one.example", 1), 1, 0));
    forwarded(resolver.process_at(&query(7, "one.example", 1), 2, 0));
    let (to, _, _) = replied(resolver.process_reply_at(&reply(7, "one.example", [1, 1, 1, 1], 1), 1));
    assert_eq!(to, 2);
    assert!(matches!(
        resolver.process_reply_at(&reply(7, "one.example", [1, 1, 1, 1], 1), 1),
        Action::Drop
    ));
}

#[test]
fn malformed_datagram_is_dropped_and_the_next_served() {
    let mut resolver: Resolver<u32> = Resolver::new(args(&["ads.example.net"], true));
    let mut broken = [b'a'; 512];
    broken[..12].copy_from_slice(&[0x42, 0x42, 0x01, 0x00, 0, 1, 0, 0, 0, 0, 0, 0]);
    broken[12] = 200;
    assert!(matches!(resolver.process_at(&broken, 1, 0), Action::Drop));
    assert!(matches!(resolver.process_reply_at(&broken, 0), Action::Drop));
    assert!(matches!(resolver.process_at(&[0u8; 512], 1, 0), Action::Drop));
    let asked = query(2, "www.example.com", 1);
    assert_eq!(forwarded(resolver.process_at(&asked, 2, 0)), asked);
    let (client, _, _) = replied(resolver.process_at(&query(3, "ads.example.net", 1), 3, 0));
    assert_eq!(client, 3);
}

#[test]
fn reply_to_no_query_in_flight_is_dropped() {
    let mut resolver: Resolver<u32> = Resolver::new(args(&[], true));
    forwarded(resolver.process_at(&query(1, "a.example", 1), 1, 0));
    for stray in [
        reply(2, "a.example", [1, 1, 1, 1], 60),
        reply(1, "b.example", [1, 1, 1, 1], 60),
        generate_nx_response(1),
    ] {
        assert!(matches!(resolver.process_reply_at(&stray, 1), Action::Drop));
    }
    // a dropped reply is not cached
    assert!(matches!(
        resolver.process_at(&query(5, "b.example", 1), 5, 2),
        Action::Forward { .. }
    ));
    let (to, _, _) = replied(resolver.process_reply_at(&reply(1, "a.example", [1, 1, 1, 1], 60), 3));
    assert_eq!(to, 1);
}

#[test]
fn benchmark_mode_answers_every_query_itself() {
    let mut resolver: Resolver<u32> = Resolver::new(ServerArgs {
        benchmark: true,
        resolution_delay_ms: 50,
        blocked_domains: vec![String::from("ads.example.net")],
        caching_enabled: true,
        ..Default::default()
    });
    for (id, name) in [(0x0A0Bu16, "www.example.com"), (0x0C0D, "ads.example.net")] {
        let (client, made_up, delay_ms) = replied(resolver.process_at(&query(id, name, 1), 4, 0));
        assert_eq!(client, 4);
        assert_eq!(delay_ms, 50);
        assert_eq!(made_up, generate_response_with_answer(id, ResponseCode::NOERROR));
        let header = DnsParser::new(&made_up).parse_header();
        assert_eq!(header.request_id, id);
        assert_eq!(header.flags.response_code, 0);
        assert!(!header.flags.query);
    }
    assert!(matches!(resolver.process_at(&[0u8; 512], 4, 0), Action::Drop));
}

#[test]
fn forwarder_runs_on_its_own_clock() {
    let mut resolver: Resolver<u32> = Resolver::new(args(&["ads.example.net"], true));
    let asked = query(1, "www.example.com", 1);
    assert_eq!(forwarded(resolver.process(&asked, 1)), asked);
    let answer = reply(1, "www.example.com", [5, 6, 7, 8], 3600);
    let (client, delivered, _) = replied(resolver.process_reply(&answer));
    assert_eq!((client, delivered), (1, answer));
    let (client, hit, _) = replied(resolver.process(&query(2, "www.example.com", 1), 2));
    assert_eq!(client, 2);
    let packet = parse(&hit);
    assert_eq!(packet.header.request_id, 2);
    assert!(packet.answers[0].meta.ttl == 3600 || packet.answers[0].meta.ttl == 3599);
    let (client, refusal, _) = replied(resolver.process(&query(3, "ads.example.net", 1), 3));
    assert_eq!((client, refusal), (3, generate_nx_response(3)));
    assert!(resolver.now() < 3600 * SECOND);
}

#[test]
fn made_up_replies_of_the_handlers() {
    let packet = parse(&query(0x0506, "ads.example.net", 1));
    let (client, refusal, delay_ms) = replied(handle_filter(&packet, 8u32));
    assert_eq!((client, refusal, delay_ms), (8, generate_nx_response(0x0506), 0));
    let (client, made_up, delay_ms) = replied(handle_benchmark(0x0708, 9u32, 500));
    assert_eq!(
        (client, made_up, delay_ms),
        (9, generate_response_with_answer(0x0708, ResponseCode::NOERROR), 500)
    );
}

#[test]
fn request_keys_match_by_type_identifier_and_name() {
    let key = RequestKey::new(RecordType::A, 1, String::from("a.example"));
    assert!(key.matches(&RequestKey::new(RecordType::A, 1, String::from("a.example"))));
    assert!(key.matches(&key.clone()));
    assert!(!key.matches(&RequestKey::new(RecordType::AAAA, 1, String::from("a.example"))));
    assert!(!key.matches(&RequestKey::new(RecordType::A, 2, String::from("a.example"))));
    assert!(!key.matches(&RequestKey::new(RecordType::A, 1, String::from("b.example"))));
    let packet = parse(&query(0x0102, "c.example", 15));
    let from_packet = RequestKey::from_packet(&packet);
    assert!(from_packet.matches(&RequestKey::new(RecordType::MX, 0x0102, String::from("c.example"))));
}

#[test]
fn table_holds_one_value_for_each_key() {
    let key = |id: u16| RequestKey::new(RecordType::A, id, String::from("t.example"));
    let mut table: Table<RequestKey, &str> = Table::new();
    assert!(!table.contains_key(&key(1)));
    assert_eq!(table.insert(key(1), "one"), None);
    assert_eq!(table.insert(key(2), "two"), None);
    assert_eq!(table.insert(key(3), "three"), None);
    assert_eq!(table.insert(key(2), "zwei"), Some("two"));
    assert_eq!(table.get(&key(1)), Some(&"one"));
    assert_eq!(table.get(&key(2)), Some(&"zwei"));
    assert_eq!(table.get(&key(4)), None);
    assert!(table.contains_key(&key(3)));
    assert!(!table.contains_key(&key(4)));
    assert_eq!(table.remove(&key(1)), Some("one"));
    assert_eq!(table.remove(&key(1)), None);
    assert_eq!(table.get(&key(3)), Some(&"three"));
    assert_eq!(table.get(&key(2)), Some(&"zwei"));
    assert_eq!(table.remove(&key(3)), Some("three"));
    assert_eq!(table.remove(&key(2)), Some("zwei"));
    assert_eq!(table.remove(&key(4)), None);
    assert!(!table.contains_key(&key(2)));
}

#[test]
fn table_holds_many_keys() {
    let key = |n: u32| RequestKey::new(RecordType::A, (n % 7) as u16, format!("host{}.example", n / 7));
    let mut table: Table<RequestKey, u32> = Table::new();
    for n in 0..2000u32 {
        assert_eq!(table.insert(key(n), n), None);
    }
    for n in 0..2000u32 {
        assert_eq!(table.get(&key(n)), Some(&n));
    }
    for n in (0..2000u32).step_by(2) {
        assert_eq!(table.remove(&key(n)), Some(n));
    }
    for n in 0..2000u32 {
        assert_eq!(table.contains_key(&key(n)), n % 2 == 1);
    }
    for n in 0..2000u32 {
        assert_eq!(table.insert(key(n), n + 1), if n % 2 == 1 { Some(n) } else { None });
    }
}

#[test]
fn digests_are_fnv_1a() {
    assert_eq!(digest_octets(FNV_OFFSET, &[]), 0xcbf29ce484222325);
    assert_eq!(digest_octets(FNV_OFFSET, b"a"), 0xaf63dc4c8601ec8c);
    assert_eq!(digest_octets(FNV_OFFSET, b"foobar"), 0x85944171f73967e8);
    assert_eq!(stir(FNV_OFFSET, b'a'), 0xaf63dc4c8601ec8c);
    assert_eq!(stir_u16(FNV_OFFSET, 0x666f), digest_octets(FNV_OFFSET, b"fo"));
    let key = RequestKey::new(RecordType::A, 0x0102, String::from("ab"));
    assert_eq!(key.digest(), digest_octets(FNV_OFFSET, &[0, 1, 1, 2, b'a', b'b']));
    let other = RequestKey::new(RecordType::A, 0x0102, String::from("ab"));
    assert_eq!(key.digest(), other.digest());
}
