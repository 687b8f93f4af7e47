use bytes::BytesMut;
use dns_codec::message::EncodeError;
use dns_codec::text;
use dns_codec::{
    Class, DecodeError, Flags, Header, Invalid, Name, NameError, QClass, QType, Query, QueryCodec,
    Question, RData, Record, Response, ResponseCodec, Type,
};

const QUERY_BYTES: &[u8] =
    b"\x82\x98\x01\x00\x00\x01\x00\x00\x00\x00\x00\x00\x07example\x03com\x00\x00\x01\x00\x01";

const GOOGLE_RESPONSE: &[u8] = b"\x00\x01\x80\x80\x00\x01\x00\x01\x00\x00\x00\x00\x06google\x03com\x00\x00\x01\x00\x01\xc0\x0c\x00\x01\x00\x01\x00\x00\x00\xc2\x00\x04\xac\xd9\x10\xae";

fn name(s: &str) -> Name {
    Name::new(s.as_bytes().to_vec()).unwrap()
}

fn example_query() -> Query {
    Query {
        header: Header {
            id: 0x8298,
            flags: Flags(1 << 8),
            qdcount: 1,
            ancount: 0,
            arcount: 0,
            ncount: 0,
        },
        question: Question { name: name("example.com"), kind: QType::A, class: QClass::IN },
    }
}

#[test]
fn query() {
    let query = example_query();
    let bytes = QUERY_BYTES;

    // Decoding
    {
        let mut src = BytesMut::from(&bytes[..]);
        let value = QueryCodec.decode(&mut src).unwrap().unwrap();
        assert_eq!(value, query);
    }

    // Encoding
    {
        let mut b = BytesMut::new();
        QueryCodec.encode(query, &mut b).unwrap();
        assert_eq!(&b[..], bytes, "{b:x?} != {bytes:x?}");
    }
}

#[test]
fn header_round_trip() {
    let h = Header {
        id: 0xbeef,
        flags: Flags(0x8180),
        qdcount: 1,
        ancount: 2,
        ncount: 3,
        arcount: 0xffff,
    };
    let mut out = Vec::new();
    h.encode(&mut out);
    assert_eq!(out.len(), 12);
    assert_eq!(out, vec![0xbe, 0xef, 0x81, 0x80, 0, 1, 0, 2, 0, 3, 0xff, 0xff]);
    let (back, end) = Header::decode(&out, 0).unwrap();
    assert_eq!(back, h);
    assert_eq!(end, 12);
}

#[test]
fn header_short_needs_more() {
    assert_eq!(Header::decode(&[0u8; 11], 0), Err(DecodeError::NeedMore));
}

#[test]
fn question_round_trip() {
    let q = Question { name: name("mail.Example.org"), kind: QType::MX, class: QClass::STAR };
    let mut out = Vec::new();
    q.encode(&mut out).unwrap();
    assert_eq!(out.len(), 1 + 4 + 1 + 7 + 1 + 3 + 1 + 4);
    let (back, end) = Question::decode(&out, 0).unwrap();
    assert_eq!(back, q);
    assert_eq!(back.name.as_bytes(), b"mail.Example.org");
    assert_eq!(end, out.len());
}

#[test]
fn question_with_qtype_only_codes() {
    for kind in [QType::AXFR, QType::MAILB, QType::MAILA, QType::STAR] {
        let q = Question { name: name("a"), kind, class: QClass::IN };
        let mut out = Vec::new();
        q.encode(&mut out).unwrap();
        let (back, _) = Question::decode(&out, 0).unwrap();
        assert_eq!(back.kind, kind);
    }
}

#[test]
fn root_name_encodes_as_single_zero() {
    let mut out = Vec::new();
    Name::new(Vec::new()).unwrap().encode(&mut out).unwrap();
    assert_eq!(out, vec![0]);
    let (n, end) = Name::decode(&out, 0).unwrap();
    assert_eq!(n.as_bytes(), b"");
    assert_eq!(end, 1);
}

#[test]
fn query_encoding_is_exact() {
    let mut out = Vec::new();
    example_query().encode(&mut out).unwrap();
    assert_eq!(out, QUERY_BYTES);
}

#[test]
fn compressed_name_decodes_to_question_name() {
    let (resp, end) = Response::decode(GOOGLE_RESPONSE, 0).unwrap();
    assert_eq!(end, GOOGLE_RESPONSE.len());
    assert_eq!(resp.questions.len(), 1);
    assert_eq!(resp.answers.len(), 1);
    assert_eq!(resp.answers[0].name, resp.questions[0].name);
    assert_eq!(resp.answers[0].name.as_bytes(), b"google.com");
}

#[test]
fn name_after_label_then_pointer() {
    // "google.com" at 0, then "www" followed by a pointer to it.
    let msg = b"\x06google\x03com\x00\x03www\xc0\x00";
    let (n, end) = Name::decode(msg, 12).unwrap();
    assert_eq!(n.as_bytes(), b"www.google.com");
    assert_eq!(end, msg.len());
}

#[test]
fn self_pointer_is_a_loop() {
    let mut msg = vec![0u8, 1, 0, 0, 0, 1, 0, 0, 0, 0, 0, 0];
    msg.extend_from_slice(&[0xc0, 0x0c, 0, 1, 0, 1]);
    let mut src = BytesMut::from(&msg[..]);
    assert_eq!(ResponseCodec.decode(&mut src), Err(Invalid::PointerLoop));
    assert!(src.is_empty());
}

fn pointer_chain(pointers: usize) -> (Vec<u8>, usize) {
    let mut msg = vec![1u8, b'a', 0];
    let mut target = 0usize;
    for _ in 0..pointers {
        let here = msg.len();
        msg.push(0xc0 | (target >> 8) as u8);
        msg.push(target as u8);
        target = here;
    }
    (msg, target)
}

#[test]
fn pointer_chain_of_128_is_followed() {
    let (msg, start) = pointer_chain(128);
    let (n, end) = Name::decode(&msg, start).unwrap();
    assert_eq!(n.as_bytes(), b"a");
    assert_eq!(end, start + 2);
}

#[test]
fn pointer_chain_of_129_is_a_loop() {
    let (msg, start) = pointer_chain(129);
    assert_eq!(Name::decode(&msg, start).unwrap_err(), DecodeError::Invalid(Invalid::PointerLoop));
}

#[test]
fn pointer_out_of_range() {
    let msg = [0xc0u8, 0x02];
    assert_eq!(
        Name::decode(&msg, 0).unwrap_err(),
        DecodeError::Invalid(Invalid::PointerOutOfRange)
    );
}

#[test]
fn reserved_label_forms() {
    assert_eq!(
        Name::decode(&[0x40, 0], 0).unwrap_err(),
        DecodeError::Invalid(Invalid::ReservedLabelForm)
    );
    assert_eq!(
        Name::decode(&[0x80, 0], 0).unwrap_err(),
        DecodeError::Invalid(Invalid::ReservedLabelForm)
    );
}

#[test]
fn partial_read_needs_more_until_whole() {
    let mut src = BytesMut::new();
    for (i, b) in QUERY_BYTES.iter().enumerate() {
        src.extend_from_slice(&[*b]);
        let r = QueryCodec.decode(&mut src);
        if i + 1 < QUERY_BYTES.len() {
            assert_eq!(r, Ok(None));
            assert_eq!(src.len(), i + 1);
        } else {
            assert_eq!(r, Ok(Some(example_query())));
        }
    }
    assert!(src.is_empty());
}

#[test]
fn decode_consumes_only_one_message() {
    let mut src = BytesMut::from(QUERY_BYTES);
    src.extend_from_slice(&[0xaa, 0xbb]);
    assert_eq!(QueryCodec.decode(&mut src), Ok(Some(example_query())));
    assert_eq!(&src[..], &[0xaa, 0xbb]);
}

fn record_bytes(kind: u16, class: u16, ttl: u32, rdata: &[u8]) -> Vec<u8> {
    let mut b = vec![1u8, b'x', 0];
    b.extend_from_slice(&kind.to_be_bytes());
    b.extend_from_slice(&class.to_be_bytes());
    b.extend_from_slice(&ttl.to_be_bytes());
    b.extend_from_slice(&(rdata.len() as u16).to_be_bytes());
    b.extend_from_slice(rdata);
    b
}

#[test]
fn negative_ttl_is_rejected() {
    let b = record_bytes(1, 1, 0x8000_0000, &[1, 2, 3, 4]);
    assert_eq!(Record::decode(&b, 0).unwrap_err(), DecodeError::Invalid(Invalid::NegativeTtl));
    let b = record_bytes(1, 1, 0x7fff_ffff, &[1, 2, 3, 4]);
    assert_eq!(Record::decode(&b, 0).unwrap().0.ttl.seconds(), 0x7fff_ffff);
}

#[test]
fn rdata_kinds() {
    let b = record_bytes(28, 1, 60, &[0x20, 0x01, 0x0d, 0xb8, 0, 0, 0, 0, 0, 0, 0, 0, 0, 0, 0, 1]);
    let (r, end) = Record::decode(&b, 0).unwrap();
    assert_eq!(end, b.len());
    assert_eq!(r.kind, Type::AAAA);
    assert_eq!(r.rdata, RData::Ipv6([0x20, 0x01, 0x0d, 0xb8, 0, 0, 0, 0, 0, 0, 0, 0, 0, 0, 0, 1]));

    let b = record_bytes(5, 1, 60, b"\x03www\x00");
    let (r, _) = Record::decode(&b, 0).unwrap();
    assert_eq!(r.rdata, RData::Name(name("www")));

    let b = record_bytes(16, 1, 60, b"\x02hi");
    let (r, _) = Record::decode(&b, 0).unwrap();
    assert_eq!(r.rdata, RData::Opaque(b"\x02hi".to_vec()));
    assert_eq!(r.length, 3);

    let b = record_bytes(1, 3, 60, &[9, 9, 9, 9]);
    let (r, _) = Record::decode(&b, 0).unwrap();
    assert_eq!(r.class, Class::CH);
    assert_eq!(r.rdata, RData::Opaque(vec![9, 9, 9, 9]));
}

#[test]
fn rdata_truncated() {
    let b = record_bytes(1, 1, 60, &[1, 2]);
    assert_eq!(Record::decode(&b, 0).unwrap_err(), DecodeError::Invalid(Invalid::RDataTruncated));
    // The name runs two octets past its three-octet frame.
    let mut short = record_bytes(2, 1, 60, b"\x03ns");
    short.extend_from_slice(b"1\x00");
    assert_eq!(
        Record::decode(&short, 0).unwrap_err(),
        DecodeError::Invalid(Invalid::RDataTruncated)
    );
}

#[test]
fn record_waits_for_whole_rdata() {
    let b = record_bytes(1, 1, 60, &[1, 2, 3, 4]);
    assert_eq!(Record::decode(&b[..b.len() - 1], 0).unwrap_err(), DecodeError::NeedMore);
}

#[test]
fn unsupported_codes() {
    let b = record_bytes(999, 1, 60, &[]);
    assert_eq!(
        Record::decode(&b, 0).unwrap_err(),
        DecodeError::Invalid(Invalid::UnsupportedType(999))
    );
    let b = record_bytes(1, 9, 60, &[]);
    assert_eq!(
        Record::decode(&b, 0).unwrap_err(),
        DecodeError::Invalid(Invalid::UnsupportedClass(9))
    );
    // AXFR is a QTYPE but not a TYPE.
    let b = record_bytes(252, 1, 60, &[]);
    assert_eq!(
        Record::decode(&b, 0).unwrap_err(),
        DecodeError::Invalid(Invalid::UnsupportedType(252))
    );
    assert_eq!(Type::from_code(257), Some(Type::CAA));
    assert_eq!(QType::from_code(255), Some(QType::STAR));
    assert_eq!(QClass::from_code(255), Some(QClass::STAR));
    assert_eq!(Class::from_code(255), None);
    assert_eq!(Type::DLV.code(), 32769);
}

#[test]
fn oversize_buffer_is_refused() {
    let mut src = BytesMut::from(&vec![0u8; 65536][..]);
    assert_eq!(ResponseCodec.decode(&mut src), Err(Invalid::Oversize));
    assert!(src.is_empty());
}

#[test]
fn query_with_two_questions_is_a_count_mismatch() {
    let mut b = QUERY_BYTES.to_vec();
    b[5] = 2;
    let mut src = BytesMut::from(&b[..]);
    assert_eq!(QueryCodec.decode(&mut src), Err(Invalid::CountMismatch));
    assert!(src.is_empty());
}

#[test]
fn names_compare_without_case() {
    let upper = name("Example.COM");
    let lower = name("example.com");
    assert_eq!(upper, lower);
    assert_ne!(upper, name("example.org"));
    let (mut a, mut b) = (Vec::new(), Vec::new());
    upper.encode(&mut a).unwrap();
    lower.encode(&mut b).unwrap();
    assert_ne!(a, b);
    let (da, _) = Name::decode(&a, 0).unwrap();
    let (db, _) = Name::decode(&b, 0).unwrap();
    assert_eq!(da, db);
    assert_eq!(da.as_bytes(), b"Example.COM");
}

#[test]
fn name_errors() {
    assert_eq!(Name::new(vec![b'a', 0xc3]).unwrap_err(), NameError::NotAscii);
    let long = name(&"a".repeat(64));
    let mut out = vec![7u8];
    assert_eq!(long.encode(&mut out), Err(NameError::LabelTooLong));
    assert_eq!(out, vec![7u8]);
    let ok = name(&"a".repeat(63));
    assert!(ok.encode(&mut out).is_ok());
    let q = Query {
        header: example_query().header,
        question: Question { name: long, kind: QType::A, class: QClass::IN },
    };
    let mut dst = BytesMut::new();
    assert_eq!(QueryCodec.encode(q, &mut dst), Err(EncodeError::LabelTooLong));
    assert!(dst.is_empty());
}

#[test]
fn utf8_helpers() {
    assert_eq!(text::len(b'a'), Some(1));
    assert_eq!(text::len(0x80), None);
    assert_eq!(text::len(0xc3), Some(2));
    assert_eq!(text::len(0xe2), Some(3));
    assert_eq!(text::len(0xf0), Some(4));
    assert_eq!(text::len(0xf8), None);
    assert_eq!(text::decode(b""), None);
    assert_eq!(text::decode(b"a"), Some(Ok('a')));
    assert_eq!(text::decode("é!".as_bytes()), Some(Ok('é')));
    assert_eq!(text::decode("€".as_bytes()), Some(Ok('€')));
    assert_eq!(text::decode(&[0xc3]), Some(Err(0xc3)));
    assert_eq!(text::decode(&[0xc3, 0x28]), Some(Err(0xc3)));
    assert_eq!(text::decode(&[0xbf]), Some(Err(0xbf)));
}

#[test]
fn names_order_without_case() {
    assert!(name("Alpha.com") < name("beta.com"));
    assert!(name("alpha.com") < name("BETA.com"));
    assert!(name("abc") < name("abcd"));
    assert!(name("ABD") > name("abc"));
    assert_eq!(name("Example.COM").partial_cmp(&name("example.com")), Some(std::cmp::Ordering::Equal));
}

#[test]
fn every_type_is_a_qtype() {
    assert_eq!(QType::from(Type::AAAA), QType::AAAA);
    assert_eq!(QType::from(Type::DLV).code(), Type::DLV.code());
    assert_eq!(QType::from(Type::NS), QType::NS);
}
