use dns_codec::errors::DnsError;
use dns_codec::message::build_query;
use dns_codec::message::Message;
use dns_codec::name::encode_name;
use dns_codec::name::extract_name;
use dns_codec::name::name_from_text;
use dns_codec::question::Question;
use dns_codec::rr::format_rdata;
use dns_codec::rr::Class;
use dns_codec::rr::RRType;
use dns_codec::rr::RR;

fn labels(parts: &[&str]) -> Vec<Vec<u8>> {
    parts.iter().map(|p| p.as_bytes().to_vec()).collect()
}

#[test]
fn question_round_trip() {
    let q = Question::new(labels(&["example", "com"]), RRType::A);
    let wire = q.to_wire().expect("encoding failed");
    let (back, end) = Question::from_wire(&wire, 0).expect("decoding failed");
    assert_eq!(back.name, labels(&["example", "com"]));
    assert_eq!(back.qtype, RRType::A);
    assert_eq!(back.qclass, Class::IN);
    assert_eq!(end, wire.len());
}

#[test]
fn question_round_trip_long_name() {
    let name = labels(&["a", "bb", "ccc", "dddd", "eeeee", "ffffff"]);
    let q = Question::new(name.clone(), RRType::TXT);
    let wire = q.to_wire().expect("encoding failed");
    let (back, end) = Question::from_wire(&wire, 0).expect("decoding failed");
    assert_eq!(back.name, name);
    assert_eq!(back.qtype, RRType::TXT);
    assert_eq!(back.qclass, Class::IN);
    assert_eq!(end, wire.len());
}

#[test]
fn pointer_resolution() {
    // "example.com" encoded at offset 0, then a pure pointer to offset 0.
    let mut buf: Vec<u8> = Vec::new();
    buf.push(7);
    buf.extend_from_slice(b"example");
    buf.push(3);
    buf.extend_from_slice(b"com");
    buf.push(0);
    let k = buf.len();
    buf.push(0xC0);
    buf.push(0x00);
    let (name, end) = extract_name(&buf, k).expect("pointer decoding failed");
    assert_eq!(name, labels(&["example", "com"]));
    assert_eq!(end, k + 2);
}

#[test]
fn compression_loop_guard() {
    // A pointer at offset 0 that targets offset 0 itself.
    let buf = vec![0xC0u8, 0x00];
    assert_eq!(extract_name(&buf, 0), Err(DnsError::CompressionLoop));
}

#[test]
fn truncated_record() {
    // Root name, type A, class IN, zero ttl, rdlength 10, only 4 octets left.
    let mut buf: Vec<u8> = vec![0, 0, 1, 0, 1, 0, 0, 0, 0, 0, 10];
    buf.extend_from_slice(&[93, 184, 216, 34]);
    assert!(matches!(RR::from_wire(&buf, 0), Err(DnsError::TruncatedRecord)));
}

#[test]
fn unknown_record_type() {
    let buf: Vec<u8> = vec![0, 0, 99, 0, 1, 0, 0, 0, 0, 0, 0];
    assert!(matches!(RR::from_wire(&buf, 0), Err(DnsError::UnknownRecordType)));
}

#[test]
fn unknown_record_class() {
    let buf: Vec<u8> = vec![0, 0, 1, 0, 9, 0, 0, 0, 0, 0, 0];
    assert!(matches!(RR::from_wire(&buf, 0), Err(DnsError::UnknownRecordClass)));
}

#[test]
fn unsupported_label_type() {
    // Top two bits `01` in the tag octet.
    let buf = vec![0x40u8, 0x00];
    assert_eq!(extract_name(&buf, 0), Err(DnsError::UnsupportedLabelType));
}

#[test]
fn name_truncated() {
    // A label length that claims more octets than the buffer holds.
    let buf = vec![5u8, b'a', b'b'];
    assert_eq!(extract_name(&buf, 0), Err(DnsError::TruncatedMessage));
}

#[test]
fn a_record_rendering() {
    let rr = RR {
        name: labels(&["example", "com"]),
        rrtype: RRType::A,
        class: Class::IN,
        ttl: 300,
        rdlength: 4,
        rdata: vec![93, 184, 216, 34],
    };
    assert_eq!(format_rdata(&rr), "93.184.216.34\n");
}

#[test]
fn a_record_rendering_two_addresses() {
    let rr = RR {
        name: labels(&["example", "com"]),
        rrtype: RRType::A,
        class: Class::IN,
        ttl: 0,
        rdlength: 8,
        rdata: vec![1, 2, 3, 4, 10, 0, 0, 255],
    };
    assert_eq!(format_rdata(&rr), "1.2.3.4\n10.0.0.255\n");
}

#[test]
fn a_record_rendering_truncates_partial_quad() {
    let rr = RR {
        name: labels(&["example", "com"]),
        rrtype: RRType::A,
        class: Class::IN,
        ttl: 0,
        rdlength: 6,
        rdata: vec![1, 2, 3, 4, 5, 6],
    };
    assert_eq!(format_rdata(&rr), "1.2.3.4\n");
}

#[test]
fn other_record_rendering() {
    let rr = RR {
        name: labels(&["example", "com"]),
        rrtype: RRType::TXT,
        class: Class::IN,
        ttl: 0,
        rdlength: 3,
        rdata: vec![1, 2, 3],
    };
    assert_eq!(format_rdata(&rr), "123");
}

#[test]
fn record_display_text() {
    let rr = RR {
        name: labels(&["example", "com"]),
        rrtype: RRType::A,
        class: Class::IN,
        ttl: 300,
        rdlength: 4,
        rdata: vec![93, 184, 216, 34],
    };
    assert_eq!(rr.render(), "example.com\tA\tIN\tTTL: 300, RDLEN: 4\n93.184.216.34\n");
}

#[test]
fn record_display_negative_ttl() {
    let rr = RR {
        name: labels(&["x"]),
        rrtype: RRType::NS,
        class: Class::CH,
        ttl: -1,
        rdlength: 0,
        rdata: vec![],
    };
    assert_eq!(rr.render(), "x\tNS\tCH\tTTL: -1, RDLEN: 0\n");
}

#[test]
fn end_to_end_query() {
    let wire = build_query(0x1234, b"example.com", b"A").expect("query building failed");
    let mut expected: Vec<u8> = vec![
        0x12, 0x34, // transaction id
        0x01, 0x00, // flags: recursion desired
        0x00, 0x01, // qdcount
        0x00, 0x00, // ancount
        0x00, 0x00, // nscount
        0x00, 0x00, // arcount
    ];
    expected.push(7);
    expected.extend_from_slice(b"example");
    expected.push(3);
    expected.extend_from_slice(b"com");
    expected.push(0);
    expected.extend_from_slice(&[0x00, 0x01, 0x00, 0x01]);
    assert_eq!(wire, expected);
}

#[test]
fn decode_full_response() {
    let mut buf: Vec<u8> = vec![
        0x12, 0x34, // transaction id
        0x81, 0x80, // flags: response, recursion desired and available
        0x00, 0x01, // qdcount
        0x00, 0x01, // ancount
        0x00, 0x00, // nscount
        0x00, 0x00, // arcount
    ];
    buf.push(7);
    buf.extend_from_slice(b"example");
    buf.push(3);
    buf.extend_from_slice(b"com");
    buf.push(0);
    buf.extend_from_slice(&[0x00, 0x01, 0x00, 0x01]);
    // Answer: name as a pointer to offset 12, type A, class IN, ttl 300,
    // four octets of address.
    buf.extend_from_slice(&[0xC0, 0x0C]);
    buf.extend_from_slice(&[0x00, 0x01, 0x00, 0x01]);
    buf.extend_from_slice(&[0x00, 0x00, 0x01, 0x2C]);
    buf.extend_from_slice(&[0x00, 0x04]);
    buf.extend_from_slice(&[93, 184, 216, 34]);

    let m = Message::from_wire(&buf).expect("response decoding failed");
    assert_eq!(m.id, 0x1234);
    assert_eq!(m.flags, 0x8180);
    assert_eq!(m.qdcount, 1);
    assert_eq!(m.ancount, 1);
    assert_eq!(m.questions.len(), 1);
    assert_eq!(m.questions[0].name, labels(&["example", "com"]));
    assert_eq!(m.questions[0].qtype, RRType::A);
    assert_eq!(m.questions[0].qclass, Class::IN);
    assert_eq!(m.answers.len(), 1);
    assert_eq!(m.answers[0].name, labels(&["example", "com"]));
    assert_eq!(m.answers[0].rrtype, RRType::A);
    assert_eq!(m.answers[0].class, Class::IN);
    assert_eq!(m.answers[0].ttl, 300);
    assert_eq!(m.answers[0].rdlength, 4);
    assert_eq!(m.answers[0].rdata, vec![93, 184, 216, 34]);
}

#[test]
fn name_from_text_forms() {
    assert_eq!(name_from_text(b"example.com."), labels(&["example", "com"]));
    assert_eq!(name_from_text(b"example.com"), labels(&["example", "com"]));
    assert_eq!(name_from_text(b"."), Vec::<Vec<u8>>::new());
    assert_eq!(name_from_text(b""), Vec::<Vec<u8>>::new());
    assert_eq!(name_from_text(b"www.example.com"), labels(&["www", "example", "com"]));
}

#[test]
fn encode_name_label_too_long() {
    let name = vec![vec![b'a'; 64]];
    assert_eq!(encode_name(&name), Err(DnsError::LabelTooLong));
}

#[test]
fn encode_name_name_too_long() {
    // Five labels of 63 octets: 5 * 64 + 1 = 321 encoded octets.
    let name = vec![vec![b'a'; 63]; 5];
    assert_eq!(encode_name(&name), Err(DnsError::NameTooLong));
}

#[test]
fn encode_name_exact_bytes() {
    let bytes = encode_name(&labels(&["ab", "c"])).expect("encoding failed");
    assert_eq!(bytes, vec![2, b'a', b'b', 1, b'c', 0]);
}

#[test]
fn root_name_decodes_empty() {
    let buf = vec![0u8];
    let (name, end) = extract_name(&buf, 0).expect("root decoding failed");
    assert_eq!(name, Vec::<Vec<u8>>::new());
    assert_eq!(end, 1);
}

#[test]
fn byte_utilities() {
    assert_eq!(dns_codec::byte_combine(0x12, 0x34), 0x1234);
    assert_eq!(dns_codec::bytes_to_name_offset(0xF2, 0x34), 0x3234);
    assert_eq!(dns_codec::bytes_to_name_offset(0xC0, 0x0C), 0x000C);
}

#[test]
fn ttl_extraction() {
    let buf = vec![0x00, 0x00, 0x01, 0x2C];
    assert_eq!(dns_codec::rr::extract_ttl(&buf, 0), 300);
    let buf = vec![0xFF, 0xFF, 0xFF, 0xFF];
    assert_eq!(dns_codec::rr::extract_ttl(&buf, 0), -1);
    let buf = vec![0x80, 0x00, 0x00, 0x00];
    assert_eq!(dns_codec::rr::extract_ttl(&buf, 0), i32::MIN);
}

#[test]
fn numeric_type_and_class_mapping() {
    assert_eq!(RRType::from_u16(5), Some(RRType::CNAME));
    assert_eq!(RRType::from_u16(99), None);
    assert_eq!(Class::from_u16(4), Some(Class::HS));
    assert_eq!(Class::from_u16(0), None);
    assert_eq!(RRType::A.code(), 1);
    assert_eq!(RRType::TXT.code(), 16);
    assert_eq!(Class::IN.code(), 1);
}

#[test]
fn textual_type_mapping() {
    assert_eq!(RRType::from_name(b"A"), Some(RRType::A));
    assert_eq!(RRType::from_name(b"MX"), Some(RRType::MX));
    assert_eq!(RRType::from_name(b"CNAME"), Some(RRType::CNAME));
    assert_eq!(RRType::from_name(b"ZZ"), None);
    assert_eq!(RRType::from_name(b""), None);
}

#[test]
fn unknown_type_name_fails_query() {
    assert!(matches!(build_query(1, b"example.com", b"ZZ"), Err(DnsError::UnknownRecordType)));
}

#[test]
fn query_decodes_back() {
    let wire = build_query(7, b"example.com", b"MX").expect("query building failed");
    let m = Message::from_wire(&wire).expect("query decoding failed");
    assert_eq!(m.id, 7);
    assert_eq!(m.flags, 0x0100);
    assert_eq!(m.qdcount, 1);
    assert_eq!(m.ancount, 0);
    assert_eq!(m.questions.len(), 1);
    assert_eq!(m.questions[0].name, labels(&["example", "com"]));
    assert_eq!(m.questions[0].qtype, RRType::MX);
    assert_eq!(m.questions[0].qclass, Class::IN);
    assert_eq!(m.answers.len(), 0);
}

#[test]
fn truncated_message_header() {
    let buf = vec![0u8; 5];
    assert!(matches!(Message::from_wire(&buf), Err(DnsError::TruncatedMessage)));
}
