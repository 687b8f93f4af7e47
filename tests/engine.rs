use dns_codec::engine::{DnsSansIo, Endpoint, IpAddress, Outcome, Transmit, UnknownId};
use dns_codec::{Class, QType, RData, Response, Type};

const GOOGLE_RESPONSE: &[u8] = b"\x00\x01\x80\x80\x00\x01\x00\x01\x00\x00\x00\x00\x06google\x03com\x00\x00\x01\x00\x01\xc0\x0c\x00\x01\x00\x01\x00\x00\x00\xc2\x00\x04\xac\xd9\x10\xae";

fn google_dns() -> Endpoint {
    Endpoint { ip: IpAddress::V4([8, 8, 8, 8]), port: 53 }
}

fn decode(bytes: &[u8]) -> Response {
    let (resp, end) = Response::decode(bytes, 0).unwrap();
    assert_eq!(end, bytes.len());
    resp
}

/// Header (id, qd=1, an=0, ns=1, ar), question google.com A IN, an NS record
/// for google.com naming ns1.google.com, and `ar` A records for ns1.
fn referral(id: u16, ar: u8) -> Vec<u8> {
    let mut b = vec![(id >> 8) as u8, id as u8, 0x80, 0x00, 0, 1, 0, 0, 0, 1, 0, ar];
    b.extend_from_slice(b"\x06google\x03com\x00\x00\x01\x00\x01");
    // Authority: name -> 12, NS, IN, ttl 3600, rdata "ns1" + pointer to 12.
    b.extend_from_slice(b"\xc0\x0c\x00\x02\x00\x01\x00\x00\x0e\x10\x00\x06");
    let ns1 = b.len();
    b.extend_from_slice(b"\x03ns1\xc0\x0c");
    for i in 0..ar {
        b.extend_from_slice(&[0xc0, ns1 as u8, 0x00, 0x01, 0x00, 0x01, 0, 0, 0x0e, 0x10, 0, 4]);
        b.extend_from_slice(&[216, 239, 32, 10 + i]);
    }
    b
}

#[test]
fn resolve_ip() {
    let nameserver = google_dns();
    let mut resolver = DnsSansIo::new();

    resolver.enqueue_query(nameserver, 0x8298, QType::A, b"google.com".to_vec());

    let Transmit { target, query: _ } = resolver.poll_query().unwrap();

    let origin = target;
    let mut bytes = GOOGLE_RESPONSE.to_vec();
    bytes[0] = 0x82;
    bytes[1] = 0x98;
    let response = decode(&bytes);

    let dns_codec::engine::Response { source, target, outcome } =
        resolver.handle_response(origin, response).unwrap();
    assert_eq!(source, origin);
    assert_eq!(target, nameserver);
    assert!(matches!(outcome, Outcome::Resolved(ref records) if records.len() == 1));
}

#[test]
fn resolved_outcome() {
    let mut engine = DnsSansIo::new();
    engine.enqueue_query(google_dns(), 0x01, QType::A, b"google.com".to_vec());
    let t = engine.poll_query().unwrap();
    assert_eq!(t.query.header.id, 0x01);
    assert_eq!(t.query.header.qdcount, 1);
    let out = engine.handle_response(t.target, decode(GOOGLE_RESPONSE)).unwrap();
    match out.outcome {
        Outcome::Resolved(records) => {
            assert_eq!(records.len(), 1);
            let rec = &records[0];
            assert_eq!(rec.name.as_bytes(), b"google.com");
            assert_eq!(rec.kind, Type::A);
            assert_eq!(rec.class, Class::IN);
            assert_eq!(rec.ttl.seconds(), 194);
            assert_eq!(rec.rdata, RData::Ipv4([172, 217, 16, 174]));
        }
        other => panic!("unexpected outcome {other:?}"),
    }
}

#[test]
fn referral_outcome() {
    let mut engine = DnsSansIo::new();
    engine.enqueue_query(google_dns(), 7, QType::A, b"google.com".to_vec());
    let t = engine.poll_query().unwrap();
    let out = engine.handle_response(t.target, decode(&referral(7, 0))).unwrap();
    match out.outcome {
        Outcome::NamespaceNames(records) => {
            assert_eq!(records.len(), 1);
            assert_eq!(records[0].kind, Type::NS);
            match &records[0].rdata {
                RData::Name(n) => assert_eq!(n.as_bytes(), b"ns1.google.com"),
                other => panic!("unexpected rdata {other:?}"),
            }
        }
        other => panic!("unexpected outcome {other:?}"),
    }
}

#[test]
fn glue_outcome() {
    let mut engine = DnsSansIo::new();
    engine.enqueue_query(google_dns(), 9, QType::A, b"google.com".to_vec());
    let t = engine.poll_query().unwrap();
    let out = engine.handle_response(t.target, decode(&referral(9, 2))).unwrap();
    match out.outcome {
        Outcome::NamespaceIp(records) => {
            assert_eq!(records.len(), 2);
            assert_eq!(records[0].name.as_bytes(), b"ns1.google.com");
            assert_eq!(records[0].rdata, RData::Ipv4([216, 239, 32, 10]));
            assert_eq!(records[1].rdata, RData::Ipv4([216, 239, 32, 11]));
        }
        other => panic!("unexpected outcome {other:?}"),
    }
}

#[test]
fn unresolved_outcome() {
    let mut engine = DnsSansIo::new();
    engine.enqueue_query(google_dns(), 1, QType::AAAA, b"google.com".to_vec());
    let t = engine.poll_query().unwrap();
    let out = engine.handle_response(t.target, decode(GOOGLE_RESPONSE)).unwrap();
    assert!(matches!(out.outcome, Outcome::Unresolved));
}

#[test]
fn unknown_id() {
    let mut engine = DnsSansIo::new();
    assert_eq!(engine.handle_response(google_dns(), decode(GOOGLE_RESPONSE)).unwrap_err(), UnknownId(1));
    // A transaction ends with its first response.
    engine.enqueue_query(google_dns(), 1, QType::A, b"google.com".to_vec());
    let t = engine.poll_query().unwrap();
    assert!(engine.handle_response(t.target, decode(GOOGLE_RESPONSE)).is_ok());
    assert_eq!(engine.handle_response(t.target, decode(GOOGLE_RESPONSE)).unwrap_err(), UnknownId(1));
}

#[test]
fn enqueued_but_not_polled_is_unknown() {
    let mut engine = DnsSansIo::new();
    engine.enqueue_query(google_dns(), 1, QType::A, b"google.com".to_vec());
    assert!(engine.handle_response(google_dns(), decode(GOOGLE_RESPONSE)).is_err());
}

#[test]
fn polls_in_enqueue_order() {
    let mut engine = DnsSansIo::new();
    let other = Endpoint { ip: IpAddress::V6([0, 0, 0, 0, 0, 0, 0, 0, 0, 0, 0, 0, 0, 0, 0, 1]), port: 5353 };
    engine.enqueue_query(google_dns(), 1, QType::A, b"a.example".to_vec());
    engine.enqueue_query(other, 2, QType::NS, b"b.example".to_vec());
    let first = engine.poll_query().unwrap();
    let second = engine.poll_query().unwrap();
    assert_eq!(first.query.header.id, 1);
    assert_eq!(first.target, google_dns());
    assert_eq!(first.query.question.name.as_bytes(), b"a.example");
    assert_eq!(second.query.header.id, 2);
    assert_eq!(second.target, other);
    assert_eq!(second.query.question.kind, QType::NS);
    assert!(engine.poll_query().is_none());
}

#[test]
fn timeout_ends_transaction() {
    let mut engine = DnsSansIo::new();
    engine.enqueue_query(google_dns(), 1, QType::A, b"google.com".to_vec());
    let _ = engine.poll_query().unwrap();
    assert_eq!(engine.handle_timeout(1), Some((google_dns(), QType::A)));
    assert_eq!(engine.handle_timeout(1), None);
    assert!(engine.handle_response(google_dns(), decode(GOOGLE_RESPONSE)).is_err());
}

#[test]
fn duplicate_id_last_write_wins() {
    let mut engine = DnsSansIo::new();
    let other = Endpoint { ip: IpAddress::V4([1, 1, 1, 1]), port: 53 };
    engine.enqueue_query(google_dns(), 1, QType::AAAA, b"google.com".to_vec());
    engine.enqueue_query(other, 1, QType::A, b"google.com".to_vec());
    let _ = engine.poll_query().unwrap();
    let _ = engine.poll_query().unwrap();
    let out = engine.handle_response(other, decode(GOOGLE_RESPONSE)).unwrap();
    assert_eq!(out.target, other);
    assert!(matches!(out.outcome, Outcome::Resolved(_)));
}
