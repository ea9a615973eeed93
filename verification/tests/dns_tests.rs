use pdnsd::dns::parse_txn_id;
use pdnsd::dns::Error;
use pdnsd::dns::Message;
use pdnsd::dns::MessageBuilder;
use pdnsd::dns::Question;
use pdnsd::dns::QuestionClass;
use pdnsd::dns::QuestionType;
use pdnsd::dns::ResourceData;
use pdnsd::dns::ResourceRecord;
use pdnsd::dns::is_name;
use pdnsd::dns::to_name;
use pdnsd::dns::Parser;

/// A query for `fark.com`, type A, class IN, recursion desired.
fn dns_request() -> Vec<u8> {
    vec![
        0x12, 0x34, 0x01, 0x00, 0x00, 0x01, 0x00, 0x00, 0x00, 0x00, 0x00, 0x00, 4, b'f', b'a',
        b'r', b'k', 3, b'c', b'o', b'm', 0, 0x00, 0x01, 0x00, 0x01,
    ]
}

/// The response to `dns_request`: one address, the name as a pointer.
fn dns_response() -> Vec<u8> {
    let mut v = dns_request();
    v[2] = 0x81;
    v[3] = 0x80;
    v[7] = 0x01;
    v.extend_from_slice(&[
        0xc0, 0x0c, 0x00, 0x01, 0x00, 0x01, 0x00, 0x00, 0x01, 0x2c, 0x00, 0x04, 64, 191, 171, 200,
    ]);
    v
}

/// A query for `shops.shopify.com`, type A, class IN.
fn multi_a_request() -> Vec<u8> {
    let mut v = vec![0xab, 0xcd, 0x01, 0x00, 0x00, 0x01, 0x00, 0x00, 0x00, 0x00, 0x00, 0x00];
    v.push(5);
    v.extend_from_slice(b"shops");
    v.push(7);
    v.extend_from_slice(b"shopify");
    v.push(3);
    v.extend_from_slice(b"com");
    v.push(0);
    v.extend_from_slice(&[0x00, 0x01, 0x00, 0x01]);
    v
}

/// The response to `multi_a_request`: four addresses.
fn multi_a_response() -> Vec<u8> {
    let mut v = multi_a_request();
    v[2] = 0x81;
    v[3] = 0x80;
    v[7] = 0x04;
    for last in [71u8, 70, 69, 68] {
        v.extend_from_slice(&[
            0xc0, 0x0c, 0x00, 0x01, 0x00, 0x01, 0x00, 0x00, 0x00, 0x3c, 0x00, 0x04, 23, 227, 38,
            last,
        ]);
    }
    v
}

#[test]
fn simple_query() {
    let bytes = dns_request();

    let msg = Message::new(&bytes).unwrap();
    assert_eq!(true, msg.is_query());
    assert_eq!(0, msg.opcode());
    assert_eq!(true, msg.is_recursion_desired());
    assert_eq!(false, msg.recursion_available());
    assert_eq!(0, msg.return_code());

    assert_eq!("fark.com", msg.questions()[0].name());
    assert_eq!(QuestionType::A, msg.questions()[0].q_type);
    assert_eq!(QuestionClass::IN, msg.questions()[0].q_class);
}

#[test]
fn simple_response() {
    let bytes = dns_response();

    let msg = Message::new(&bytes).unwrap();

    assert!(msg.is_response());
    assert_eq!(1, msg.answers().len());
    assert_eq!("fark.com", msg.answers()[0].name());
    assert_eq!(1, msg.answers()[0].r_type);
    assert_eq!(1, msg.answers()[0].r_class);
    assert!(matches!(msg.answers()[0].r_data, ResourceData::A([64, 191, 171, 200])));
}

#[test]
fn multi_request() {
    let bytes = multi_a_request();

    let msg = Message::new(&bytes).unwrap();

    assert!(msg.is_query());
    assert_eq!(0, msg.opcode());
    assert_eq!(0, msg.return_code());
    assert_eq!("shops.shopify.com", msg.questions()[0].name());
}

#[test]
fn multi_response() {
    let bytes = multi_a_response();

    let msg = Message::new(&bytes).unwrap();

    assert!(msg.is_response());
    assert_eq!(0, msg.opcode());
    assert_eq!(0, msg.return_code());

    assert_eq!(4, msg.answers().len());

    for answer in msg.answers().iter() {
        assert_eq!(1, answer.r_type);
        assert_eq!(1, answer.r_class);
        assert_eq!("shops.shopify.com", answer.name());
    }
    assert!(matches!(msg.answers()[0].r_data, ResourceData::A([23, 227, 38, 71])));
    assert!(matches!(msg.answers()[1].r_data, ResourceData::A([23, 227, 38, 70])));
    assert!(matches!(msg.answers()[2].r_data, ResourceData::A([23, 227, 38, 69])));
    assert!(matches!(msg.answers()[3].r_data, ResourceData::A([23, 227, 38, 68])));
}

#[test]
fn header_words_are_big_endian() {
    let msg = Message::new(&dns_response()).unwrap();
    assert_eq!(0x1234, msg.tx_id);
    assert_eq!(0x8180, msg.flags);
    assert_eq!(300, msg.answers()[0].r_ttl);
}

#[test]
fn negative_ttl_is_kept() {
    let mut bytes = dns_response();
    bytes[32] = 0xff;
    bytes[33] = 0xff;
    bytes[34] = 0xff;
    bytes[35] = 0xfe;
    let msg = Message::new(&bytes).unwrap();
    assert_eq!(-2, msg.answers()[0].r_ttl);
    assert_eq!(bytes, msg.write().unwrap());
}

#[test]
fn emit_of_parse_gives_the_octets_back() {
    for bytes in [dns_request(), dns_response(), multi_a_request(), multi_a_response()] {
        let msg = Message::new(&bytes).unwrap();
        assert_eq!(bytes, msg.write().unwrap());
    }
}

#[test]
fn parse_of_emit_gives_the_message_back() {
    let q = Question::new(b"example.org", QuestionType::MX, QuestionClass::IN).unwrap();
    let a = ResourceRecord::new(b"example.org", 15, 1, 7200, ResourceData::Bytes(vec![0, 10, 1, b'm', 0]))
        .unwrap();
    let b = ResourceRecord::new(b"mail.example.org", 1, 1, -1, ResourceData::A([10, 0, 0, 1])).unwrap();
    let m = MessageBuilder::new()
        .tx_id(0xbeef)
        .response()
        .recursion_desired()
        .recursion_available()
        .questions(&[q])
        .answers(&[&a, &b])
        .build()
        .unwrap();
    let bytes = m.write().unwrap();
    let back = Message::new(&bytes).unwrap();
    assert_eq!(0xbeef, back.tx_id);
    assert_eq!(0x8180, back.flags);
    assert_eq!(1, back.questions().len());
    assert_eq!(b"example.org", back.questions()[0].name_bytes());
    assert_eq!(QuestionType::MX, back.questions()[0].q_type);
    assert_eq!(2, back.answers().len());
    assert_eq!(b"example.org", back.answers()[0].name_bytes());
    assert_eq!(15, back.answers()[0].r_type);
    assert_eq!(7200, back.answers()[0].r_ttl);
    assert!(matches!(&back.answers()[0].r_data, ResourceData::Bytes(d) if d == &vec![0, 10, 1, b'm', 0]));
    assert_eq!(b"mail.example.org", back.answers()[1].name_bytes());
    assert_eq!(-1, back.answers()[1].r_ttl);
    assert!(matches!(back.answers()[1].r_data, ResourceData::A([10, 0, 0, 1])));
    assert_eq!(0, back.name_server().len());
    assert_eq!(0, back.additional().len());
}

#[test]
fn second_occurrence_of_a_name_is_a_pointer() {
    let q = Question::new(b"fark.com", QuestionType::A, QuestionClass::IN).unwrap();
    let a = ResourceRecord::new(b"fark.com", 1, 1, 300, ResourceData::A([64, 191, 171, 200])).unwrap();
    let m = MessageBuilder::new().tx_id(0x1234).response().recursion_desired().recursion_available()
        .questions(&[q]).answer(&a).build().unwrap();
    let bytes = m.write().unwrap();
    assert_eq!(dns_response(), bytes);
    assert_eq!(&[0xc0, 0x0c], &bytes[26..28]);
}

#[test]
fn pointer_goes_to_the_earliest_occurrence() {
    let a = ResourceRecord::new(b"a.b", 1, 1, 0, ResourceData::A([1, 2, 3, 4])).unwrap();
    let m = MessageBuilder::new().answers(&[&a, &a, &a]).build().unwrap();
    let bytes = m.write().unwrap();
    // header 12, then "a.b" in full at 12 (5 octets), ten fixed octets, four of data
    assert_eq!(&[1, b'a', 1, b'b', 0], &bytes[12..17]);
    assert_eq!(&[0xc0, 12], &bytes[31..33]);
    assert_eq!(&[0xc0, 12], &bytes[47..49]);
    assert_eq!(12 + 19 + 16 + 16, bytes.len());
}

#[test]
fn section_counts_come_from_the_lists() {
    let a = ResourceRecord::new(b"x", 16, 1, 1, ResourceData::Bytes(vec![1, b'z'])).unwrap();
    let m = MessageBuilder::new().answers(&[&a, &a]).build().unwrap();
    let bytes = m.write().unwrap();
    assert_eq!(&[0, 0, 0, 2, 0, 0, 0, 0], &bytes[4..12]);
}

#[test]
fn all_four_sections_are_read() {
    let mut bytes = vec![0, 1, 0, 0, 0, 0, 0, 1, 0, 1, 0, 1];
    for t in [2u8, 6, 41] {
        bytes.extend_from_slice(&[1, b'x', 0, 0, t, 0, 1, 0, 0, 0, 9, 0, 2, 7, 8]);
    }
    let m = Message::new(&bytes).unwrap();
    assert_eq!(1, m.answers().len());
    assert_eq!(1, m.name_server().len());
    assert_eq!(1, m.additional().len());
    assert_eq!(2, m.answers()[0].r_type);
    assert_eq!(6, m.name_server()[0].r_type);
    assert_eq!(41, m.additional()[0].r_type);
    assert!(matches!(&m.additional()[0].r_data, ResourceData::Bytes(d) if d == &vec![7, 8]));
    // the second and third `x` are written as pointers to the first
    let out = m.write().unwrap();
    assert_eq!(12 + 15 + 14 + 14, out.len());
    assert_eq!(3, Message::new(&out).unwrap().write().unwrap()[7] as usize + 2);
}

#[test]
fn trailing_octets_are_ignored() {
    let mut bytes = dns_request();
    bytes.extend_from_slice(&[1, 2, 3]);
    let m = Message::new(&bytes).unwrap();
    assert_eq!(1, m.questions().len());
    assert_eq!(0, m.answers().len());
}

#[test]
fn root_name_is_one_zero_octet() {
    let q = Question::new(b"", QuestionType::NS, QuestionClass::IN).unwrap();
    let m = MessageBuilder::new().questions(&[q]).build().unwrap();
    let bytes = m.write().unwrap();
    assert_eq!(17, bytes.len());
    assert_eq!(0, bytes[12]);
    let back = Message::new(&bytes).unwrap();
    assert_eq!(b"", back.questions()[0].name_bytes());
}

#[test]
fn short_header_is_truncated() {
    assert!(matches!(Message::new(&[0u8; 11]), Err(Error::Truncated)));
    assert!(matches!(Message::new(&[]), Err(Error::Truncated)));
    assert!(Message::new(&[0u8; 12]).is_ok());
}

#[test]
fn record_cut_short_is_truncated() {
    let bytes = dns_response();
    assert!(matches!(Message::new(&bytes[..bytes.len() - 1]), Err(Error::Truncated)));
    assert!(matches!(Message::new(&bytes[..30]), Err(Error::Truncated)));
    let q = dns_request();
    assert!(matches!(Message::new(&q[..23]), Err(Error::Truncated)));
}

#[test]
fn name_that_runs_off_the_end_is_malformed() {
    let q = dns_request();
    assert!(matches!(Message::new(&q[..15]), Err(Error::MalformedName)));
    assert!(matches!(Message::new(&q[..21]), Err(Error::MalformedName)));
}

#[test]
fn reserved_label_types_are_malformed() {
    for first in [0x40u8, 0x7f, 0x80, 0xbf] {
        let mut q = dns_request();
        q[12] = first;
        assert!(matches!(Message::new(&q), Err(Error::MalformedName)));
    }
}

#[test]
fn label_of_63_octets_is_read() {
    let mut bytes = vec![0, 0, 0, 0, 0, 1, 0, 0, 0, 0, 0, 0, 63];
    bytes.extend_from_slice(&[b'a'; 63]);
    bytes.extend_from_slice(&[0, 0, 1, 0, 1]);
    let m = Message::new(&bytes).unwrap();
    assert_eq!(63, m.questions()[0].name_bytes().len());
    assert_eq!(bytes, m.write().unwrap());
}

#[test]
fn pointer_past_the_end_is_malformed() {
    let mut r = dns_response();
    r[26] = 0xc0;
    r[27] = 200;
    assert!(matches!(Message::new(&r), Err(Error::MalformedName)));
}

#[test]
fn pointer_cycle_is_malformed() {
    let mut r = dns_response();
    // the answer's name points at itself
    r[27] = 26;
    assert!(matches!(Message::new(&r), Err(Error::MalformedName)));
    // two pointers that point at each other
    let mut bytes = vec![0, 0, 0, 0, 0, 1, 0, 0, 0, 0, 0, 0, 0xc0, 14, 0xc0, 12, 0, 1, 0, 1];
    assert!(matches!(Message::new(&bytes), Err(Error::MalformedName)));
    bytes[15] = 16;
    bytes[16] = 0;
    assert!(Message::new(&bytes).is_err());
}

#[test]
fn pointer_into_a_name_gives_its_suffix() {
    let mut r = dns_response();
    // point at "com" inside "fark.com"
    r[27] = 17;
    let m = Message::new(&r).unwrap();
    assert_eq!("com", m.answers()[0].name());
}

#[test]
fn name_longer_than_255_octets_is_malformed() {
    let mut bytes = vec![0, 0, 0, 0, 0, 1, 0, 0, 0, 0, 0, 0];
    for _ in 0..4 {
        bytes.push(63);
        bytes.extend_from_slice(&[b'a'; 63]);
    }
    bytes.extend_from_slice(&[1, b'z', 0, 0, 1, 0, 1]);
    assert!(matches!(Message::new(&bytes), Err(Error::MalformedName)));
    // 63 + 1 + 63 + 1 + 63 + 1 + 63 = 255 octets are a name
    let mut ok = vec![0, 0, 0, 0, 0, 1, 0, 0, 0, 0, 0, 0];
    for _ in 0..3 {
        ok.push(63);
        ok.extend_from_slice(&[b'a'; 63]);
    }
    ok.push(63);
    ok.extend_from_slice(&[b'b'; 63]);
    ok.extend_from_slice(&[0, 0, 1, 0, 1]);
    let m = Message::new(&ok).unwrap();
    assert_eq!(255, m.questions()[0].name_bytes().len());
}

#[test]
fn unknown_question_type_is_refused() {
    let mut q = dns_request();
    q[23] = 0x06;
    assert!(matches!(Message::new(&q), Err(Error::UnknownQType)));
    q[23] = 0x63;
    assert!(matches!(Message::new(&q), Err(Error::UnknownQType)));
}

#[test]
fn class_other_than_in_is_refused() {
    let mut q = dns_request();
    q[25] = 3;
    assert!(matches!(Message::new(&q), Err(Error::UnknownQClass)));
}

#[test]
fn address_record_needs_four_octets() {
    let mut r = dns_response();
    r[37] = 5;
    r.push(0);
    assert!(matches!(Message::new(&r), Err(Error::Parse)));
}

#[test]
fn question_type_codes() {
    let known = [
        (0x01u16, QuestionType::A),
        (0x02, QuestionType::NS),
        (0x05, QuestionType::CNAME),
        (0x0c, QuestionType::PTR),
        (0x0f, QuestionType::MX),
        (0x21, QuestionType::SRV),
        (0xfb, QuestionType::IXFR),
        (0xfc, QuestionType::AXFR),
        (0xff, QuestionType::ALL),
    ];
    for (code, t) in known {
        assert_eq!(Some(t), QuestionType::new(code));
        assert_eq!(code, t.code());
    }
    assert_eq!(None, QuestionType::new(0));
    assert_eq!(None, QuestionType::new(0x06));
    assert_eq!(None, QuestionType::new(0x10));
    assert_eq!(0x06, QuestionType::SOA.code());
    assert_eq!(0x10, QuestionType::TXT.code());
    assert_eq!(Some(QuestionClass::IN), QuestionClass::new(1));
    assert_eq!(None, QuestionClass::new(2));
    assert_eq!(1, QuestionClass::IN.code());
}

#[test]
fn flags_are_set_and_cleared_bit_by_bit() {
    let mut m = Message::create(7, 0);
    assert!(m.is_query());
    m.set_response();
    assert_eq!(0x8000, m.flags);
    m.set_auth_answer(true);
    assert_eq!(0x8400, m.flags);
    m.set_truncated(true);
    assert_eq!(0x8600, m.flags);
    m.set_recursion_desired(true);
    assert_eq!(0x8700, m.flags);
    m.set_recursion_available(true);
    assert_eq!(0x8780, m.flags);
    assert!(m.is_auth_answer() && m.is_truncated() && m.is_recursion_desired());
    assert!(m.recursion_available() && m.is_response());
    m.set_truncated(false);
    m.set_auth_answer(false);
    m.set_recursion_desired(false);
    m.set_recursion_available(false);
    m.set_query();
    assert_eq!(0, m.flags);
    assert_eq!(7, m.tx_id);
    let n = Message::create(0, 0x7803);
    assert_eq!(15, n.opcode());
    assert_eq!(3, n.return_code());
}

#[test]
fn message_that_cannot_be_written_is_refused() {
    let bad = Question::new(b"a..b", QuestionType::A, QuestionClass::IN).unwrap();
    let m = MessageBuilder::new().questions(&[bad]).build().unwrap();
    assert!(!m.is_encodable());
    assert!(matches!(m.write(), Err(Error::Unencodable)));
    let soa = Question::new(b"a.b", QuestionType::SOA, QuestionClass::IN).unwrap();
    let m = MessageBuilder::new().questions(&[soa]).build().unwrap();
    assert!(matches!(m.write(), Err(Error::Unencodable)));
    let wrong = ResourceRecord::new(b"a.b", 1, 1, 0, ResourceData::Bytes(vec![1, 2, 3, 4])).unwrap();
    let m = MessageBuilder::new().answer(&wrong).build().unwrap();
    assert!(matches!(m.write(), Err(Error::Unencodable)));
    let wrong = ResourceRecord::new(b"a.b", 2, 1, 0, ResourceData::A([1, 2, 3, 4])).unwrap();
    let m = MessageBuilder::new().answer(&wrong).build().unwrap();
    assert!(matches!(m.write(), Err(Error::Unencodable)));
}

#[test]
fn names_and_what_are_none() {
    assert!(is_name(b""));
    assert!(is_name(b"fark.com"));
    assert!(is_name(&[b'a'; 63]));
    assert!(!is_name(&[b'a'; 64]));
    assert!(!is_name(b"."));
    assert!(!is_name(b"a."));
    assert!(!is_name(b".a"));
    assert!(!is_name(b"a..b"));
    assert!(Question::new(&[b'a'; 256], QuestionType::A, QuestionClass::IN).is_none());
    assert!(Question::new(&[b'a'; 255], QuestionType::A, QuestionClass::IN).is_some());
}

#[test]
fn builder_copies_what_it_is_given() {
    let q = Question::new(b"fark.com", QuestionType::A, QuestionClass::IN).unwrap();
    let a = ResourceRecord::new(b"fark.com", 1, 1, 5, ResourceData::A([1, 1, 1, 1])).unwrap();
    let b = ResourceRecord::new(b"fark.com", 1, 1, 6, ResourceData::A([2, 2, 2, 2])).unwrap();
    let m = MessageBuilder::new().tx_id(9).questions(&[q.clone(), q]).answer(&a).answers(&[&b, &a])
        .build().unwrap();
    assert_eq!(9, m.tx_id);
    assert_eq!(0, m.flags);
    assert_eq!(2, m.questions().len());
    assert_eq!(3, m.answers().len());
    assert_eq!(5, m.answers()[0].r_ttl);
    assert_eq!(6, m.answers()[1].r_ttl);
    assert_eq!(5, m.answers()[2].r_ttl);
    let d = Message::default();
    assert_eq!(0, d.tx_id);
    assert_eq!(0, d.questions().len());
}

#[test]
fn failed_parse_leaves_the_message_alone() {
    let mut m = Message::new(&dns_response()).unwrap();
    assert!(m.parse(&[1, 2, 3]).is_err());
    assert_eq!(0x1234, m.tx_id);
    assert_eq!(1, m.answers().len());
    assert!(m.parse(&multi_a_response()).is_ok());
    assert_eq!(0xabcd, m.tx_id);
    assert_eq!(4, m.answers().len());
}

#[test]
fn transaction_id_of_raw_octets() {
    assert_eq!(Some(0x1234), parse_txn_id(&dns_request()));
    assert_eq!(Some(0x0102), parse_txn_id(&[1, 2]));
    assert_eq!(None, parse_txn_id(&[1]));
    assert_eq!(None, parse_txn_id(&[]));
}

#[test]
fn text_of_a_name() {
    let q = Question::new(b"fark.com", QuestionType::A, QuestionClass::IN).unwrap();
    assert_eq!("fark.com", q.name());
    let r = ResourceRecord::new(b"shops.shopify.com", 1, 1, 0, ResourceData::A([0, 0, 0, 0])).unwrap();
    assert_eq!("shops.shopify.com", r.name());
}

#[test]
fn parser_reads_items_one_behind_the_other() {
    let bytes = dns_response();
    let mut p = Parser::new(&bytes[12..]);
    // the answer's pointer is an offset into what the parser holds
    let q = p.parse_question().unwrap();
    assert_eq!(b"fark.com", q.name_bytes());
    assert_eq!(QuestionType::A, q.q_type);
    let mut p = Parser::new(&bytes);
    let mut name = to_name(b"www").unwrap();
    assert!(matches!(p.parse_encoded_string(&mut name), Err(Error::MalformedName)));
    let mut p = Parser::new(&bytes[26..]);
    assert!(matches!(p.parse_resource_record(), Err(Error::MalformedName)));
    let mut own = vec![3, b'w', b'w', b'w', 0xc0, 0];
    own.extend_from_slice(&[0, 1, 0, 1, 0, 0, 0, 7, 0, 4, 9, 9, 9, 9]);
    let mut p = Parser::new(&own);
    assert!(matches!(p.parse_resource_record(), Err(Error::MalformedName)));
    let mut ok = vec![3, b'w', b'w', b'w', 0];
    ok.extend_from_slice(&[0, 1, 0, 1, 0, 0, 0, 7, 0, 4, 9, 9, 9, 9]);
    let mut p = Parser::new(&ok);
    let r = p.parse_resource_record().unwrap();
    assert_eq!(b"www", r.name_bytes());
    assert_eq!(7, r.r_ttl);
    assert!(matches!(p.parse_resource_record(), Err(Error::MalformedName)));
}

#[test]
fn name_is_read_behind_what_is_there() {
    let bytes = [3, b'c', b'o', b'm', 0, 9];
    let mut p = Parser::new(&bytes);
    let mut name = to_name(b"fark").unwrap();
    p.parse_encoded_string(&mut name).unwrap();
    assert_eq!(b"fark.com", name.as_slice());
    assert!(to_name(&[0; 256]).is_none());
    assert_eq!(255, to_name(&[1; 255]).unwrap().len());
}

#[test]
fn clone_keeps_the_whole_message() {
    let m = Message::new(&multi_a_response()).unwrap();
    let c = m.clone();
    assert_eq!(m.write().unwrap(), c.write().unwrap());
    assert_eq!(4, c.answers().len());
    assert_eq!(0xabcd, c.tx_id);
    assert_eq!(0x8180, c.flags);
}
