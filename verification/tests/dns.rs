use netproto::dns::header::DnsHeader;
use netproto::dns::message::DnsMessage;
use netproto::dns::name::{decode_domain_name, push_name};
use netproto::dns::question::DnsQuestion;
use netproto::dns::record::DnsResourceRecord;
use netproto::dns::resolver::{first_address, handle_query, queried_name, random_u16};

fn s(text: &str) -> String {
    text.to_string()
}

fn wire_name(name: &str) -> Vec<u8> {
    let mut out = Vec::new();
    push_name(&mut out, &s(name));
    out
}

#[test]
fn query_header_asks_one_question_with_recursion() {
    let h = DnsHeader::new_query(0xBEEF);
    assert_eq!(
        h,
        DnsHeader { id: 0xBEEF, flags: 0x0100, qdcount: 1, ancount: 0, nscount: 0, arcount: 0 }
    );
    assert_eq!(h.to_bytes(), vec![0xBE, 0xEF, 0x01, 0x00, 0, 1, 0, 0, 0, 0, 0, 0]);
}

#[test]
fn response_header_counts_questions_and_answers() {
    let h = DnsHeader::new_response(7, 2, 3);
    assert_eq!(
        h,
        DnsHeader { id: 7, flags: 0x8180, qdcount: 2, ancount: 3, nscount: 0, arcount: 0 }
    );
    assert_eq!(h.to_bytes(), vec![0, 7, 0x81, 0x80, 0, 2, 0, 3, 0, 0, 0, 0]);
}

#[test]
fn header_round_trips_and_needs_twelve_bytes() {
    let h = DnsHeader {
        id: 0x1234,
        flags: 0xFFFF,
        qdcount: 0x0102,
        ancount: 0x0304,
        nscount: 0x0506,
        arcount: 0x0708,
    };
    let mut bytes = h.to_bytes();
    assert_eq!(bytes.len(), 12);
    assert_eq!(DnsHeader::from_bytes(&bytes), Some(h));
    bytes.extend_from_slice(&[9, 9, 9]);
    assert_eq!(DnsHeader::from_bytes(&bytes), Some(h));
    assert_eq!(DnsHeader::from_bytes(&bytes[..11]), None);
    assert_eq!(DnsHeader::from_bytes(&[]), None);
}

#[test]
fn names_are_written_label_by_label() {
    assert_eq!(
        wire_name("example.com"),
        vec![7, b'e', b'x', b'a', b'm', b'p', b'l', b'e', 3, b'c', b'o', b'm', 0]
    );
    assert_eq!(wire_name("localhost"), {
        let mut v = vec![9];
        v.extend_from_slice(b"localhost");
        v.push(0);
        v
    });
    assert_eq!(wire_name(""), vec![0]);
    assert_eq!(wire_name("."), vec![0]);
    assert_eq!(wire_name("a..b."), vec![1, b'a', 1, b'b', 0]);
    assert_eq!(wire_name(".a"), vec![1, b'a', 0]);
    assert_eq!(wire_name("é.x"), vec![2, 0xC3, 0xA9, 1, b'x', 0]);
}

#[test]
fn long_label_length_is_reduced_to_one_byte() {
    let label = "a".repeat(300);
    let bytes = wire_name(&label);
    assert_eq!(bytes.len(), 302);
    assert_eq!(bytes[0], 44);
    assert_eq!(bytes[301], 0);
}

#[test]
fn question_is_name_type_and_class() {
    let q = DnsQuestion::new(s("test.local"), 28);
    assert_eq!(q.qname, "test.local");
    assert_eq!(q.qtype, 28);
    assert_eq!(q.qclass, 1);
    let bytes = q.to_bytes();
    let mut expected = wire_name("test.local");
    expected.extend_from_slice(&[0, 28, 0, 1]);
    assert_eq!(bytes, expected);

    let mut offset = 0;
    let back = DnsQuestion::from_bytes(&bytes, &mut offset).unwrap();
    assert_eq!(back.qname, "test.local");
    assert_eq!(back.qtype, 28);
    assert_eq!(back.qclass, 1);
    assert_eq!(offset, bytes.len());
}

#[test]
fn question_cut_short_gives_nothing_and_leaves_the_offset() {
    let bytes = DnsQuestion::new(s("test.local"), 1).to_bytes();
    for cut in 0..bytes.len() {
        let mut offset = 0;
        assert!(DnsQuestion::from_bytes(&bytes[..cut], &mut offset).is_none());
        assert_eq!(offset, 0);
    }
    let mut offset = bytes.len() + 5;
    assert!(DnsQuestion::from_bytes(&bytes, &mut offset).is_none());
    assert_eq!(offset, bytes.len() + 5);
}

#[test]
fn name_follows_compression_pointers() {
    // offset 0: "com"; offset 5: "example" then a pointer to 0
    let mut data = vec![3, b'c', b'o', b'm', 0];
    data.push(7);
    data.extend_from_slice(b"example");
    data.extend_from_slice(&[0xC0, 0x00]);
    data.extend_from_slice(&[0xAA, 0xBB]);
    let mut offset = 5;
    assert_eq!(decode_domain_name(&data, &mut offset), Some(s("example.com")));
    assert_eq!(offset, 15);
    let mut offset = 0;
    assert_eq!(decode_domain_name(&data, &mut offset), Some(s("com")));
    assert_eq!(offset, 5);
    let mut offset = 13;
    assert_eq!(decode_domain_name(&data, &mut offset), Some(s("com")));
    assert_eq!(offset, 15);
}

#[test]
fn pointer_uses_fourteen_bits() {
    let mut data = vec![0u8; 0x0234];
    data.extend_from_slice(&[1, b'z', 0]);
    data.extend_from_slice(&[0xC2, 0x34]);
    let mut offset = 0x0237;
    assert_eq!(decode_domain_name(&data, &mut offset), Some(s("z")));
    assert_eq!(offset, 0x0239);
}

#[test]
fn name_without_labels_is_empty() {
    let mut offset = 0;
    assert_eq!(decode_domain_name(&[0, 1, 2], &mut offset), Some(s("")));
    assert_eq!(offset, 1);
}

#[test]
fn pointer_cycle_gives_nothing() {
    let data = vec![0xC0, 0x00];
    let mut offset = 0;
    assert_eq!(decode_domain_name(&data, &mut offset), None);
    assert_eq!(offset, 0);
    let data = vec![0xC0, 0x02, 0xC0, 0x00];
    let mut offset = 0;
    assert_eq!(decode_domain_name(&data, &mut offset), None);
    assert_eq!(offset, 0);
    let data = vec![1, b'a', 0xC0, 0x00];
    let mut offset = 0;
    assert_eq!(decode_domain_name(&data, &mut offset), None);
    assert_eq!(offset, 0);
}

#[test]
fn long_chain_of_pointers_is_followed() {
    // each pointer points at the one before it; the first name is "a"
    let mut data = vec![1, b'a', 0];
    for i in 0..20u8 {
        let target = if i == 0 { 0 } else { 3 + 2 * (i - 1) };
        data.extend_from_slice(&[0xC0, target]);
    }
    let mut offset = data.len() - 2;
    assert_eq!(decode_domain_name(&data, &mut offset), Some(s("a")));
    assert_eq!(offset, data.len());
}

#[test]
fn malformed_names_give_nothing() {
    for data in [
        vec![],
        vec![3, b'a', b'b'],
        vec![3, b'a', b'b', b'c'],
        vec![0xC0],
        vec![0xC0, 0x10],
        vec![2, 0xFF, 0xFE, 0],
        vec![1, 0xC3, 1, 0xA9, 0],
    ] {
        let mut offset = 0;
        assert_eq!(decode_domain_name(&data, &mut offset), None, "{:?}", data);
        assert_eq!(offset, 0);
    }
}

#[test]
fn labels_may_hold_utf8_and_dots() {
    let data = vec![2, 0xC3, 0xA9, 3, b'a', b'.', b'b', 0];
    let mut offset = 0;
    assert_eq!(decode_domain_name(&data, &mut offset), Some(s("é.a.b")));
    assert_eq!(offset, 8);
}

#[test]
fn address_record_holds_the_four_bytes() {
    let r = DnsResourceRecord::new_a_record(s("example.com"), [93, 184, 216, 34], 300);
    assert_eq!(r.name, "example.com");
    assert_eq!(r.rtype, 1);
    assert_eq!(r.rclass, 1);
    assert_eq!(r.ttl, 300);
    assert_eq!(r.rdlength, 4);
    assert_eq!(r.rdata, vec![93, 184, 216, 34]);
    let bytes = r.to_bytes();
    let mut expected = wire_name("example.com");
    expected.extend_from_slice(&[0, 1, 0, 1, 0, 0, 1, 44, 0, 4, 93, 184, 216, 34]);
    assert_eq!(bytes, expected);

    let mut offset = 0;
    let back = DnsResourceRecord::from_bytes(&bytes, &mut offset).unwrap();
    assert_eq!(offset, bytes.len());
    assert_eq!(back.name, "example.com");
    assert_eq!(back.rtype, 1);
    assert_eq!(back.rclass, 1);
    assert_eq!(back.ttl, 300);
    assert_eq!(back.rdlength, 4);
    assert_eq!(back.rdata, vec![93, 184, 216, 34]);
    let copy = back.clone();
    assert_eq!(copy.rdata, back.rdata);
    assert_eq!(copy.name, back.name);
}

#[test]
fn record_cut_short_gives_nothing_and_leaves_the_offset() {
    let bytes = DnsResourceRecord::new_a_record(s("a.b"), [1, 2, 3, 4], 0x01020304).to_bytes();
    for cut in 0..bytes.len() {
        let mut offset = 0;
        assert!(DnsResourceRecord::from_bytes(&bytes[..cut], &mut offset).is_none());
        assert_eq!(offset, 0);
    }
    let mut offset = 0;
    let back = DnsResourceRecord::from_bytes(&bytes, &mut offset).unwrap();
    assert_eq!(back.ttl, 0x01020304);
}

#[test]
fn query_message_round_trips() {
    let query = DnsMessage::new_query(0x4242, "example.com");
    assert_eq!(query.header, DnsHeader::new_query(0x4242));
    assert_eq!(query.questions.len(), 1);
    assert_eq!(query.questions[0].qname, "example.com");
    assert_eq!(query.questions[0].qtype, 1);
    assert_eq!(query.questions[0].qclass, 1);
    assert!(query.answers.is_empty());
    assert!(query.authority.is_empty());
    assert!(query.additional.is_empty());

    let bytes = query.to_bytes();
    let mut expected = vec![0x42, 0x42, 0x01, 0x00, 0, 1, 0, 0, 0, 0, 0, 0];
    expected.extend_from_slice(&wire_name("example.com"));
    expected.extend_from_slice(&[0, 1, 0, 1]);
    assert_eq!(bytes, expected);

    let back = DnsMessage::from_bytes(&bytes).unwrap();
    assert_eq!(back.header, query.header);
    assert_eq!(back.questions.len(), 1);
    assert_eq!(back.questions[0].qname, "example.com");
    assert!(back.answers.is_empty());
}

#[test]
fn message_with_fewer_entries_than_counted_gives_nothing() {
    let mut bytes = DnsMessage::new_query(1, "a.b").to_bytes();
    bytes[5] = 2;
    assert!(DnsMessage::from_bytes(&bytes).is_none());
    bytes[5] = 1;
    bytes[7] = 1;
    assert!(DnsMessage::from_bytes(&bytes).is_none());
    bytes[7] = 0;
    assert!(DnsMessage::from_bytes(&bytes).is_some());
    assert!(DnsMessage::from_bytes(&bytes[..11]).is_none());
}

#[test]
fn server_answers_a_known_name() {
    let query = DnsMessage::new_query(99, "test.local");
    assert_eq!(queried_name(&query), Some(s("test.local")));
    let response = handle_query(&query, Some([192, 168, 1, 100]));
    assert_eq!(response.header, DnsHeader::new_response(99, 1, 1));
    assert_eq!(response.questions.len(), 1);
    assert_eq!(response.questions[0].qname, "test.local");
    assert_eq!(response.answers.len(), 1);
    assert_eq!(response.answers[0].name, "test.local");
    assert_eq!(response.answers[0].ttl, 300);
    assert_eq!(response.answers[0].rdata, vec![192, 168, 1, 100]);

    let wire = response.to_bytes();
    let back = DnsMessage::from_bytes(&wire).unwrap();
    assert_eq!(first_address(&back, 99), Some([192, 168, 1, 100]));
    assert_eq!(first_address(&back, 98), None);
}

#[test]
fn server_answers_nothing_for_an_unknown_name_or_another_type() {
    let query = DnsMessage::new_query(5, "unknown.domain");
    let response = handle_query(&query, None);
    assert_eq!(response.header, DnsHeader::new_response(5, 1, 0));
    assert!(response.answers.is_empty());
    assert_eq!(first_address(&response, 5), None);

    let mut other = DnsMessage::new_query(6, "example.com");
    other.questions[0].qtype = 28;
    assert_eq!(queried_name(&other), None);
    let response = handle_query(&other, Some([1, 2, 3, 4]));
    assert_eq!(response.header, DnsHeader::new_response(6, 1, 0));
    assert!(response.answers.is_empty());
    assert_eq!(response.questions[0].qtype, 28);

    let mut empty = DnsMessage::new_query(7, "x");
    empty.questions.clear();
    assert_eq!(queried_name(&empty), None);
    let response = handle_query(&empty, Some([1, 2, 3, 4]));
    assert_eq!(response.header, DnsHeader::new_response(7, 1, 0));
    assert!(response.questions.is_empty());
}

#[test]
fn first_address_skips_records_that_are_no_addresses() {
    let mut response = DnsMessage::new_query(3, "a");
    let mut text = DnsResourceRecord::new_a_record(s("a"), [9, 9, 9, 9], 1);
    text.rtype = 16;
    let mut short = DnsResourceRecord::new_a_record(s("a"), [8, 8, 8, 8], 1);
    short.rdata.pop();
    response.answers.push(text);
    response.answers.push(short);
    assert_eq!(first_address(&response, 3), None);
    response.answers.push(DnsResourceRecord::new_a_record(s("a"), [10, 0, 0, 1], 1));
    response.answers.push(DnsResourceRecord::new_a_record(s("a"), [10, 0, 0, 2], 1));
    assert_eq!(first_address(&response, 3), Some([10, 0, 0, 1]));
}

#[test]
fn query_identifier_is_low_bits_of_counter_times_31_plus_time() {
    assert_eq!(random_u16(1, 0), 31);
    assert_eq!(random_u16(2, 100), 162);
    assert_eq!(random_u16(0, 0x1_2345), 0x2345);
    assert_eq!(random_u16(u32::MAX, u32::MAX), {
        let wrapped = u32::MAX.wrapping_mul(31).wrapping_add(u32::MAX);
        (wrapped & 0xFFFF) as u16
    });
    assert_eq!(random_u16(3000, 1_700_000_000), {
        let wrapped = 3000u32.wrapping_mul(31).wrapping_add(1_700_000_000);
        (wrapped & 0xFFFF) as u16
    });
}
