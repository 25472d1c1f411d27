use dns_block::cache::{expiry_of, least_ttl, CacheKey, CacheValue, RequestCache};
use dns_block::clock::{Clock, NANOS_PER_SECOND};
use dns_block::error::MalformedPacket;
use dns_block::name::encode_domain_name;
use dns_block::packet::DnsPacket;
use dns_block::parser::DnsParser;
use dns_block::protocol::record_type::RecordType;
use dns_block::rewrite::{reduce_ttl, rewrite_packet};

const SECOND: u64 = 1_000_000_000;

fn padded(octets: &[u8]) -> [u8; 512] {
    let mut buf = [0u8; 512];
    buf[..octets.len()].copy_from_slice(octets);
    buf
}

/// A reply to a query for the A record of `name` with one answer for each of `ttls`.
fn reply(id: u16, name: &str, ttls: &[u32]) -> [u8; 512] {
    let mut out = Vec::new();
    out.extend_from_slice(&id.to_be_bytes());
    out.extend_from_slice(&[0x81, 0x80, 0, 1]);
    out.extend_from_slice(&(ttls.len() as u16).to_be_bytes());
    out.extend_from_slice(&[0, 0, 0, 0]);
    out.extend_from_slice(&encode_domain_name(name));
    out.extend_from_slice(&[0, 1, 0, 1]);
    for (k, ttl) in ttls.iter().enumerate() {
        out.extend_from_slice(&[0xC0, 0x0C, 0, 1, 0, 1]);
        out.extend_from_slice(&ttl.to_be_bytes());
        out.extend_from_slice(&[0, 4, 10, 0, 0, k as u8]);
    }
    padded(&out)
}

fn parse(buf: &[u8; 512]) -> DnsPacket {
    DnsParser::new(buf).parse().unwrap()
}

fn key(name: &str) -> CacheKey {
    CacheKey::new(RecordType::A, String::from(name))
}

#[test]
fn reduced_ttl_never_falls_below_zero() {
    assert_eq!(reduce_ttl(3600, 10), 3590);
    assert_eq!(reduce_ttl(3600, 0), 3600);
    assert_eq!(reduce_ttl(3600, 3600), 0);
    assert_eq!(reduce_ttl(3600, 3601), 0);
    assert_eq!(reduce_ttl(0, 0), 0);
    assert_eq!(reduce_ttl(u32::MAX, u64::MAX), 0);
    assert_eq!(reduce_ttl(u32::MAX, 1), u32::MAX - 1);
    assert_eq!(reduce_ttl(5, 1 << 32), 0);
}

#[test]
fn rewrite_changes_identifier_and_ttls_only() {
    let captured = reply(0x1234, "www.example.com", &[3600, 60, 5]);
    let mut parser = DnsParser::new(&captured);
    parser.parse().unwrap();
    let indices = parser.answer_ttl_indices().clone();
    assert_eq!(indices, vec![39, 55, 71]);
    let rewritten = rewrite_packet(&captured, &indices, 10, 0x9ABC);
    let mut expected = captured;
    expected[0] = 0x9A;
    expected[1] = 0xBC;
    expected[39..43].copy_from_slice(&3590u32.to_be_bytes());
    expected[55..59].copy_from_slice(&50u32.to_be_bytes());
    expected[71..75].copy_from_slice(&0u32.to_be_bytes());
    assert_eq!(rewritten, expected);
    assert_eq!(rewrite_packet(&captured, &Vec::new(), 10, 0x1234), captured);
}

#[test]
fn update_cached_packet_parses_and_rewrites() {
    let captured = reply(7, "a.example", &[100, 200]);
    let updated = DnsParser::new(&captured).update_cached_packet(30, 8).unwrap();
    let packet = parse(&updated);
    assert_eq!(packet.header.request_id, 8);
    assert_eq!(packet.answers[0].meta.ttl, 70);
    assert_eq!(packet.answers[1].meta.ttl, 170);
    let mut differing = 0;
    for k in 0..512 {
        if updated[k] != captured[k] {
            differing += 1;
            assert!(k == 1 || (33..37).contains(&k) || (49..53).contains(&k));
        }
    }
    assert_eq!(differing, 3);
    let malformed = padded(&[0, 1, 0, 0, 0, 0]);
    assert_eq!(DnsParser::new(&malformed).update_cached_packet(1, 1), Err(MalformedPacket));
}

#[test]
fn rewritten_reply_reads_as_the_captured_one_but_for_identifier_and_ttls() {
    let captured = reply(0x0101, "mail.example.org", &[300, 7200, 86400]);
    let before = parse(&captured);
    for (elapsed, new_id) in [(0u64, 0u16), (1, 0xFFFF), (299, 2), (300, 3), (301, 4), (100_000, 5)] {
        let rewritten = DnsParser::new(&captured).update_cached_packet(elapsed, new_id).unwrap();
        let mut parser = DnsParser::new(&rewritten);
        let after = parser.parse().unwrap();
        assert_eq!(after.header.request_id, new_id);
        assert_eq!(after.header.flags, before.header.flags);
        assert_eq!(after.header.answer_count, before.header.answer_count);
        assert_eq!(after.question.domain_name, before.question.domain_name);
        assert_eq!(after.question.record_type, before.question.record_type);
        assert_eq!(after.question.class, before.question.class);
        assert_eq!(after.answers.len(), before.answers.len());
        for (new, old) in after.answers.iter().zip(before.answers.iter()) {
            assert_eq!(new.meta.name, old.meta.name);
            assert_eq!(new.meta.record_type, old.meta.record_type);
            assert_eq!(new.meta.len, old.meta.len);
            assert_eq!(u64::from(new.meta.ttl), u64::from(old.meta.ttl).saturating_sub(elapsed));
            assert_eq!(format!("{:?}", new.value), format!("{:?}", old.value));
        }
        assert_eq!(parser.answer_ttl_indices(), &vec![40, 56, 72]);
    }
}

#[test]
fn least_ttl_of_answers() {
    assert_eq!(least_ttl(&parse(&reply(1, "a.example", &[])).answers), 0);
    assert_eq!(least_ttl(&parse(&reply(1, "a.example", &[77])).answers), 77);
    assert_eq!(least_ttl(&parse(&reply(1, "a.example", &[300, 20, 4000])).answers), 20);
    assert_eq!(least_ttl(&parse(&reply(1, "a.example", &[5, 5, 0])).answers), 0);
    assert_eq!(least_ttl(&parse(&reply(1, "a.example", &[u32::MAX, u32::MAX])).answers), u32::MAX);
}

#[test]
fn expiry_is_capture_time_plus_ttl() {
    assert_eq!(NANOS_PER_SECOND, SECOND);
    assert_eq!(expiry_of(0, 0), 0);
    assert_eq!(expiry_of(5, 0), 5);
    assert_eq!(expiry_of(5, 3600), 5 + 3600 * SECOND);
    assert_eq!(expiry_of(u64::MAX, 1), u64::MAX);
    assert_eq!(expiry_of(u64::MAX - SECOND, 1), u64::MAX);
    assert_eq!(expiry_of(u64::MAX - SECOND - 1, 1), u64::MAX - 1);
    assert_eq!(expiry_of(0, u32::MAX), u64::from(u32::MAX) * SECOND);
}

#[test]
fn entry_times() {
    let entry = CacheValue::new(reply(1, "a.example", &[90, 30]), 1_000).unwrap();
    assert_eq!(entry.cached_at(), 1_000);
    assert_eq!(entry.expires_at(), 1_000 + 30 * SECOND);
    assert!(entry.is_valid(0));
    assert!(entry.is_valid(1_000 + 30 * SECOND));
    assert!(!entry.is_valid(1_001 + 30 * SECOND));
    assert_eq!(entry.get_remaining_ttl(1_000), 0);
    assert_eq!(entry.get_remaining_ttl(999 + SECOND), 0);
    assert_eq!(entry.get_remaining_ttl(1_000 + SECOND), 1);
    assert_eq!(entry.get_remaining_ttl(1_000 + 29 * SECOND + 999_999_999), 29);
    assert_eq!(entry.get_remaining_ttl(0), 0);
    assert_eq!(entry.packet(), &reply(1, "a.example", &[90, 30]));
    assert!(CacheValue::new([0u8; 512], 0).is_err());
}

#[test]
fn serving_an_entry_restarts_its_count() {
    let mut entry = CacheValue::new(reply(1, "a.example", &[90, 30]), 0).unwrap();
    let served = entry.serve(0x0202, 10 * SECOND);
    let packet = parse(&served);
    assert_eq!(packet.header.request_id, 0x0202);
    assert_eq!(packet.answers[0].meta.ttl, 80);
    assert_eq!(packet.answers[1].meta.ttl, 20);
    assert_eq!(entry.cached_at(), 10 * SECOND);
    assert_eq!(entry.expires_at(), 30 * SECOND);
    assert_eq!(entry.packet(), &served);
    let again = parse(&entry.serve(0x0303, 15 * SECOND));
    assert_eq!(again.header.request_id, 0x0303);
    assert_eq!(again.answers[0].meta.ttl, 75);
    assert_eq!(again.answers[1].meta.ttl, 15);
}

#[test]
fn lookup_of_a_key_never_stored_misses() {
    let mut cache = RequestCache::new();
    assert_eq!(cache.get_at(key("a.example"), 1, 0), None);
    assert_eq!(cache.get(key("a.example"), 1), None);
}

#[test]
fn lookup_before_expiry_hits_with_new_identifier_and_reduced_ttl() {
    let mut cache = RequestCache::new();
    let captured = reply(0x1234, "www.example.com", &[3600]);
    assert_eq!(cache.set_at(key("www.example.com"), captured, 0), Ok(()));
    let hit = cache.get_at(key("www.example.com"), 0x9ABC, 10 * SECOND).unwrap();
    let packet = parse(&hit);
    assert_eq!(packet.header.request_id, 0x9ABC);
    assert_eq!(packet.question.domain_name, "www.example.com");
    assert_eq!(packet.answers.len(), 1);
    assert_eq!(packet.answers[0].meta.ttl, 3590);
    let mut expected = captured;
    expected[0] = 0x9A;
    expected[1] = 0xBC;
    expected[39..43].copy_from_slice(&3590u32.to_be_bytes());
    assert_eq!(hit, expected);
}

#[test]
fn lookup_at_the_moment_of_expiry_hits_and_later_misses() {
    let mut cache = RequestCache::new();
    cache.set_at(key("a.example"), reply(1, "a.example", &[50, 20]), 7).unwrap();
    let hit = cache.get_at(key("a.example"), 2, 7 + 20 * SECOND).unwrap();
    assert_eq!(parse(&hit).answers[1].meta.ttl, 0);
    assert_eq!(parse(&hit).answers[0].meta.ttl, 30);
    assert_eq!(cache.get_at(key("a.example"), 3, 8 + 20 * SECOND), None);
    // the expired entry is gone: not even an earlier time finds it again
    assert_eq!(cache.get_at(key("a.example"), 3, 7), None);
}

#[test]
fn reply_without_answers_expires_at_once() {
    let mut cache = RequestCache::new();
    cache.set_at(key("none.example"), reply(1, "none.example", &[]), 100).unwrap();
    assert_eq!(cache.get_at(key("none.example"), 2, 101), None);
    cache.set_at(key("none.example"), reply(1, "none.example", &[]), 100).unwrap();
    assert!(cache.get_at(key("none.example"), 2, 100).is_some());
}

#[test]
fn hits_count_the_time_from_the_last_hit() {
    let mut cache = RequestCache::new();
    cache.set_at(key("a.example"), reply(1, "a.example", &[100]), 0).unwrap();
    let first = cache.get_at(key("a.example"), 2, 40 * SECOND).unwrap();
    assert_eq!(parse(&first).answers[0].meta.ttl, 60);
    let second = cache.get_at(key("a.example"), 3, 70 * SECOND).unwrap();
    assert_eq!(parse(&second).answers[0].meta.ttl, 30);
    let third = cache.get_at(key("a.example"), 4, 70 * SECOND + SECOND / 2).unwrap();
    assert_eq!(parse(&third).answers[0].meta.ttl, 30);
    assert_eq!(cache.get_at(key("a.example"), 5, 100 * SECOND + 1), None);
}

#[test]
fn keys_differ_by_type_and_by_name() {
    let mut cache = RequestCache::new();
    cache.set_at(key("a.example"), reply(1, "a.example", &[100]), 0).unwrap();
    assert_eq!(cache.get_at(key("b.example"), 2, 0), None);
    assert_eq!(cache.get_at(CacheKey::new(RecordType::AAAA, String::from("a.example")), 2, 0), None);
    assert_eq!(cache.get_at(key("A.example"), 2, 0), None);
    assert!(cache.get_at(key("a.example"), 2, 0).is_some());
}

#[test]
fn storing_again_replaces_the_entry() {
    let mut cache = RequestCache::new();
    cache.set_at(key("a.example"), reply(1, "a.example", &[100]), 0).unwrap();
    cache.set_at(key("b.example"), reply(1, "b.example", &[500]), 0).unwrap();
    cache.set_at(key("a.example"), reply(1, "a.example", &[900]), 50 * SECOND).unwrap();
    let hit = cache.get_at(key("a.example"), 9, 200 * SECOND).unwrap();
    assert_eq!(parse(&hit).answers[0].meta.ttl, 750);
    let other = cache.get_at(key("b.example"), 9, 200 * SECOND).unwrap();
    assert_eq!(parse(&other).answers[0].meta.ttl, 300);
    assert_eq!(parse(&other).question.domain_name, "b.example");
}

#[test]
fn malformed_reply_is_not_stored() {
    let mut cache = RequestCache::new();
    cache.set_at(key("a.example"), reply(1, "a.example", &[100]), 0).unwrap();
    assert_eq!(cache.set_at(key("a.example"), [0u8; 512], 0), Err(MalformedPacket));
    assert_eq!(cache.set(key("b.example"), [0xFFu8; 512]), Err(MalformedPacket));
    assert!(cache.get_at(key("a.example"), 2, 0).is_some());
    assert_eq!(cache.get_at(key("b.example"), 2, 0), None);
}

#[test]
fn cache_runs_on_its_own_clock() {
    let mut cache = RequestCache::new();
    let before = cache.now();
    assert_eq!(cache.set(key("a.example"), reply(1, "a.example", &[3600])), Ok(()));
    let hit = cache.get(key("a.example"), 0x0BAD).unwrap();
    let after = cache.now();
    assert!(before <= after);
    assert!(after < 3600 * SECOND);
    let packet = parse(&hit);
    assert_eq!(packet.header.request_id, 0x0BAD);
    assert_eq!(packet.answers[0].meta.ttl, 3600);
    assert_eq!(cache.set(key("gone.example"), reply(1, "gone.example", &[])), Ok(()));
    let stored = cache.now();
    while cache.now() <= stored {
        std::hint::spin_loop();
    }
    assert_eq!(cache.get(key("gone.example"), 1), None);
}

#[test]
fn clock_does_not_run_backwards() {
    let mut clock = Clock::start();
    let first = clock.now();
    let mut last = first;
    while last < first + 1_000_000 {
        let next = clock.now();
        assert!(next >= last);
        last = next;
    }
    assert!(last < 60 * SECOND);
}

#[test]
fn key_of_a_packet_is_type_and_name_of_its_question() {
    let packet = parse(&reply(1, "key.example", &[1]));
    let mut cache = RequestCache::new();
    cache.set_at(CacheKey::from_packet(&packet), reply(1, "key.example", &[1]), 0).unwrap();
    assert!(cache.get_at(key("key.example"), 1, 0).is_some());
    let copy = key("key.example").clone();
    assert!(cache.get_at(copy, 1, 0).is_some());
}

#[test]
fn name_that_runs_through_the_identifier_changes_with_it() {
    // the answer's name is a pointer to offset 0, where the identifier is read as
    // a label of one octet and the flags as a pointer to the question
    let mut out = vec![0x01, b'a', 0xC0, 0x0C, 0, 1, 0, 1, 0, 0, 0, 0];
    out.extend_from_slice(&encode_domain_name("x.example"));
    out.extend_from_slice(&[0, 1, 0, 1]);
    out.extend_from_slice(&[0xC0, 0x00, 0, 1, 0, 1, 0, 0, 0, 9, 0, 4, 1, 2, 3, 4]);
    let captured = padded(&out);
    let before = parse(&captured);
    assert_eq!(before.answers[0].meta.name, "a.x.example");
    let rewritten = DnsParser::new(&captured).update_cached_packet(1, 0x0162).unwrap();
    let after = parse(&rewritten);
    assert_eq!(after.header.request_id, 0x0162);
    assert_eq!(after.answers[0].meta.ttl, 8);
    assert_eq!(after.answers[0].meta.name, "b.x.example");
    assert_eq!(after.question.domain_name, before.question.domain_name);
}

#[test]
fn clock_moves_forward_only() {
    let mut clock = Clock::start();
    assert_eq!(clock.advance_to(0), 0);
    assert_eq!(clock.advance_to(500), 500);
    assert_eq!(clock.advance_to(499), 500);
    assert_eq!(clock.advance_to(0), 500);
    assert_eq!(clock.advance_to(501), 501);
    assert_eq!(clock.advance_to(u128::from(u64::MAX) - 1), u64::MAX - 1);
    assert_eq!(clock.advance_to(u128::from(u64::MAX) + 1), u64::MAX);
    assert_eq!(clock.advance_to(u128::MAX), u64::MAX);
    assert_eq!(clock.advance_to(7), u64::MAX);
    assert_eq!(clock.now(), u64::MAX);
}

#[test]
fn readings_of_one_clock_never_fall() {
    let mut cache = RequestCache::new();
    let mut last = cache.now();
    cache.set(key("a.example"), reply(1, "a.example", &[60])).unwrap();
    for _ in 0..1000 {
        let next = cache.now();
        assert!(next >= last);
        last = next;
    }
    assert!(cache.get(key("a.example"), 2).is_some());
    assert!(cache.now() >= last);
}
