use dns_block::filter::{
    accepts_blocklist_response, apply_filter, is_domain_blacklisted, keep_present,
    parse_blocklist, valid_blacklist_uris, Blocklist,
};
use dns_block::name::encode_domain_name;
use dns_block::parser::DnsParser;
use dns_block::protocol::question::Question;
use dns_block::protocol::record_type::RecordType;
use dns_block::resolver::{generate_request, parse_query, stub_response};
use dns_block::response_parser::ResponseParser;
use dns_block::serialize::generate_response_with_answer;
use dns_block::protocol::response_code::ResponseCode;

fn strings(items: &[&str]) -> Vec<String> {
    items.iter().map(|item| String::from(*item)).collect()
}

#[test]
fn blocked_names_are_found() {
    let blocked = Blocklist::from_names(&strings(&["ads.example.net", "tracker.example", "ads.example.net"]));
    assert!(is_domain_blacklisted(&blocked, "ads.example.net"));
    assert!(blocked.contains("ads.example.net"));
    assert!(is_domain_blacklisted(&blocked, "tracker.example"));
    assert!(!is_domain_blacklisted(&blocked, "example.net"));
    assert!(!is_domain_blacklisted(&blocked, "www.ads.example.net"));
    assert!(!is_domain_blacklisted(&blocked, "Tracker.example"));
    assert!(!is_domain_blacklisted(&blocked, ""));
    assert!(!is_domain_blacklisted(&Blocklist::new(), "ads.example.net"));
    assert!(!is_domain_blacklisted(&Blocklist::from_names(&Vec::new()), ""));
    let mut grown = Blocklist::new();
    grown.insert(String::from("late.example"));
    grown.insert(String::from(""));
    assert!(grown.contains("late.example"));
    assert!(grown.contains(""));
    assert!(!grown.contains("early.example"));
}

#[test]
fn blocklist_of_many_names() {
    let names: Vec<String> = (0..5000).map(|n| format!("ads{n}.example.net")).collect();
    let blocked = Blocklist::from_names(&names);
    for name in &names {
        assert!(blocked.contains(name));
    }
    for n in 5000..5100 {
        assert!(!blocked.contains(&format!("ads{n}.example.net")));
    }
}

#[test]
fn fixed_filter_blocks_one_name() {
    let question = |name: &str| Question {
        domain_name: String::from(name),
        record_type: RecordType::A,
        class: 1,
    };
    assert!(apply_filter(&question("google.de")));
    assert!(!apply_filter(&question("google.com")));
    assert!(!apply_filter(&question("www.google.de")));
    assert!(!apply_filter(&question("")));
    let copy = question("google.de").clone();
    assert!(apply_filter(&copy));
}

#[test]
fn blocklist_file_names_one_domain_on_each_line() {
    let text = "# a list\nads.example.net\n\n#tracker.example\nab.c\na.b\nnodots\n   .\ntracker.example";
    assert_eq!(
        parse_blocklist(text),
        strings(&["ads.example.net", "ab.c", "   .", "tracker.example"])
    );
}

#[test]
fn blocklist_file_edges() {
    assert_eq!(parse_blocklist(""), Vec::<String>::new());
    assert_eq!(parse_blocklist("\n\n\n"), Vec::<String>::new());
    assert_eq!(parse_blocklist("a.bc"), strings(&["a.bc"]));
    assert_eq!(parse_blocklist("a.bc\n"), strings(&["a.bc"]));
    assert_eq!(parse_blocklist("a.b"), Vec::<String>::new());
    assert_eq!(parse_blocklist("....\n#...\n.#.."), strings(&["....", ".#.."]));
    assert_eq!(parse_blocklist("abcd\nabc.\n"), strings(&["abc."]));
    assert_eq!(parse_blocklist("one.example\r\ntwo.example"), strings(&["one.example\r", "two.example"]));
    // four characters, though more octets
    assert_eq!(parse_blocklist("\u{e4}.\u{f6}\n\u{e4}.\u{f6}\u{fc}"), strings(&["\u{e4}.\u{f6}\u{fc}"]));
    assert_eq!(parse_blocklist("0.0.0.0 ads.example\n"), strings(&["0.0.0.0 ads.example"]));
}

#[test]
fn response_with_a_blocklist_is_plain_text_and_successful() {
    assert!(accepts_blocklist_response(200, Some("text/plain")));
    assert!(accepts_blocklist_response(200, Some("text/plain; charset=utf-8")));
    assert!(accepts_blocklist_response(200, None));
    assert!(accepts_blocklist_response(299, None));
    assert!(accepts_blocklist_response(204, Some("text/plainer")));
    assert!(!accepts_blocklist_response(199, None));
    assert!(!accepts_blocklist_response(300, None));
    assert!(!accepts_blocklist_response(404, Some("text/plain")));
    assert!(!accepts_blocklist_response(500, None));
    assert!(!accepts_blocklist_response(0, None));
    assert!(!accepts_blocklist_response(200, Some("text/html")));
    assert!(!accepts_blocklist_response(200, Some("text/plai")));
    assert!(!accepts_blocklist_response(200, Some("")));
    assert!(!accepts_blocklist_response(200, Some(" text/plain")));
    assert!(!accepts_blocklist_response(200, Some("Text/Plain")));
    assert!(!accepts_blocklist_response(200, Some("application/json; text/plain")));
    assert!(!accepts_blocklist_response(200, Some("text/pl\u{e4}in-and-more")));
}

#[test]
fn texts_that_are_there_are_kept_in_order() {
    assert_eq!(keep_present(Vec::new()), Vec::<String>::new());
    assert_eq!(keep_present(vec![None, None]), Vec::<String>::new());
    assert_eq!(
        keep_present(vec![Some(String::from("b")), None, Some(String::from("a")), Some(String::new())]),
        strings(&["b", "a", ""])
    );
}

#[test]
fn addresses_that_are_no_uris_are_passed_over() {
    let given = strings(&[
        "https://example.com/hosts.txt",
        "not a uri",
        "",
        "http://example.org",
        "https://lists.example/a?b=c#fragment",
        "http://[::1",
        "/path/only",
    ]);
    assert_eq!(
        valid_blacklist_uris(&given),
        strings(&[
            "https://example.com/hosts.txt",
            "http://example.org/",
            "https://lists.example/a?b=c",
            "/path/only",
        ])
    );
    assert_eq!(valid_blacklist_uris(&Vec::new()), Vec::<String>::new());
}

#[test]
fn request_is_header_name_type_and_class() {
    let request = generate_request("www.example.com", Some(0x1234));
    let mut expected = vec![0x12, 0x34, 0x01, 0x00, 0x00, 0x01, 0, 0, 0, 0, 0, 0];
    expected.extend_from_slice(&encode_domain_name("www.example.com"));
    expected.extend_from_slice(&[0, 1, 0, 1]);
    assert_eq!(request, expected);
    assert_eq!(request.len(), 12 + 17 + 4);
    let without = generate_request("a", None);
    assert_eq!(without, vec![83, 57, 0x01, 0x00, 0x00, 0x01, 0, 0, 0, 0, 0, 0, 1, b'a', 0, 0, 1, 0, 1]);
}

#[test]
fn request_is_a_query_for_the_address() {
    let request = generate_request("www.example.com", Some(0xCAFE));
    let mut buf = [0u8; 512];
    buf[..request.len()].copy_from_slice(&request);
    let packet = DnsParser::new(&buf).parse().unwrap();
    assert_eq!(packet.header.request_id, 0xCAFE);
    assert!(packet.header.flags.query);
    assert!(packet.header.flags.recursion_desired);
    assert_eq!(packet.header.question_count, 1);
    assert_eq!(packet.question.domain_name, "www.example.com");
    assert_eq!(packet.question.record_type, RecordType::A);
    assert_eq!(packet.question.class, 1);
    assert!(packet.answers.is_empty());
    let (id, question) = parse_query(buf).unwrap();
    assert_eq!(id, 0xCAFE);
    assert_eq!(question.domain_name, "www.example.com");
    assert_eq!(question.record_type, RecordType::A);
}

#[test]
fn query_that_is_malformed_is_not_parsed() {
    let mut buf = [b'z'; 512];
    buf[12] = 70;
    assert!(parse_query(buf).is_err());
    let mut cut_off = [0u8; 512];
    cut_off[509] = 2;
    cut_off[12] = 0xC1;
    cut_off[13] = 0xFD;
    assert!(parse_query(cut_off).is_err());
}

#[test]
fn stub_is_the_minimal_reply_without_answers() {
    let (answers, reply) = stub_response(Some(0x0E0F));
    assert!(answers.is_empty());
    assert_eq!(reply, generate_response_with_answer(0x0E0F, ResponseCode::NOERROR));
    let (answers, reply) = stub_response(None);
    assert!(answers.is_empty());
    assert_eq!(reply, generate_response_with_answer(1337, ResponseCode::NOERROR));
    assert_eq!(DnsParser::new(&reply).parse_answers().unwrap().len(), 0);
}

#[test]
fn reply_of_any_length_is_read_front_to_back() {
    let mut octets = generate_request("example.com", Some(0x0A0A));
    octets[2] = 0x81;
    octets[3] = 0x80;
    octets[7] = 1;
    octets.extend_from_slice(&[0xC0, 0x0C, 0, 5, 0, 1, 0, 0, 1, 0, 0, 6, 3, b'w', b'w', b'w', 0xC0, 0x0C]);
    let len = octets.len();
    let mut parser = ResponseParser::new(octets);
    assert!(!parser.is_done());
    let header = parser.parse_header().unwrap();
    assert_eq!(header.request_id, 0x0A0A);
    assert_eq!(header.answer_count, 1);
    assert_eq!(parser.offset(), 12);
    let question = parser.parse_question().unwrap();
    assert_eq!(question.domain_name, "example.com");
    let answer = parser.parse_answer().unwrap();
    assert_eq!(answer.meta.name, "example.com");
    assert_eq!(answer.meta.ttl, 256);
    assert_eq!(format!("{:?}", answer.value), "CNAME { cname: \"www.example.com\" }");
    assert!(parser.is_done());
    assert_eq!(parser.offset(), len);
    assert!(parser.parse_answer().is_err());
    assert!(parser.parse_domain_name().is_err());
    assert_eq!(parser.offset(), len);
    assert_eq!(parser.buffer().len(), len);
}

#[test]
fn reply_cursor_steps() {
    let mut parser = ResponseParser::new(vec![1, 2, 3, 4, 5]);
    assert_eq!(parser.peek_bytes(2), 0x0102);
    assert_eq!(parser.take_bytes(1), 1);
    assert_eq!(parser.get::<2>(), [2, 3]);
    assert_eq!(parser.take(2), vec![2, 3]);
    assert_eq!(parser.offset(), 3);
    // where the buffer ends before, what is left is taken
    assert_eq!(parser.peek_bytes(4), 0x0405);
    assert_eq!(parser.take(7), vec![4, 5]);
    assert_eq!(parser.offset(), 10);
    assert!(!parser.is_done());
    let mut short = ResponseParser::new(vec![0; 11]);
    assert!(short.parse_header().is_err());
    assert_eq!(short.offset(), 0);
    assert_eq!(short.parse_domain_name().unwrap(), "");
    assert_eq!(short.offset(), 1);
}
