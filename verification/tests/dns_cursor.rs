use dns_block::name::encode_domain_name;
use dns_block::parser::DnsParser;
use dns_block::protocol::header::{Flags, Header};
use dns_block::wire::Collate;

#[test]
fn dns_test_parser_advance() {
    let mut input = [0u8; 512];
    input[0..3].copy_from_slice(&[0x3, 0x2, 0x1]);

    let mut parser = DnsParser::new(&input);
    assert_eq!(
        parser.advance_n::<3>().collate(),
        (0x3 << 16) | (0x2 << 8) | 0x1
    );
    assert_eq!(parser.buf.len(), 512);
}

#[test]
fn dns_test_parser_peek_n() {
    let mut input = [0u8; 512];
    input[0..3].copy_from_slice(&[0x3, 0x2, 0x1]);

    let parser = DnsParser::new(&input);
    assert_eq!(parser.peek_n::<3>(), [0x3, 0x2, 0x1]);
    assert_eq!(parser.peek(3), [0x3, 0x2, 0x1]);
    assert_eq!(parser.buf.len(), 512);
}

#[test]
fn dns_test_conversion_flags() {
    let raw = 0x8100_u16; // response & recursive resolution desired flags set
    let flags = Flags::from(raw);
    assert_eq!(
        flags,
        Flags {
            query: false,
            recursion_desired: true,
            ..Default::default()
        }
    );

    let encoded: u16 = flags.into();
    assert_eq!(raw, encoded);
}

#[test]
fn dns_test_conversion_header() {
    let header = Header {
        flags: Flags::from(0x8100_u16),
        question_count: 1,
        answer_count: 1,
        request_id: 1234,
        ..Default::default()
    };

    let mut packet = [0u8; 512];
    let serialized_header: [u8; 12] = header.clone().into();
    packet[0..12].copy_from_slice(&serialized_header);

    let mut parser = DnsParser::new(&packet);
    let deserialized_header = parser.parse_header();
    assert_eq!(header, deserialized_header);
}

#[test]
fn dns_test_encode_domain_name() {
    let res = encode_domain_name("www.example.com");
    assert_eq!(
        res,
        vec![
            // www.example.com
            3, 0x77, 0x77, 0x77, 7, 0x65, 0x78, 0x61, 0x6d, 0x70, 0x6c, 0x65, 3, 0x63, 0x6f,
            0x6d, 0
        ]
    );
}
