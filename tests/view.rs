use bytes::BytesMut;
use dns_codec::view::ResponseView;
use dns_codec::{DecodeError, Invalid, RData, Response, ResponseCodec};

const GOOGLE_RESPONSE: &[u8] = b"\x00\x01\x80\x80\x00\x01\x00\x01\x00\x00\x00\x00\x06google\x03com\x00\x00\x01\x00\x01\xc0\x0c\x00\x01\x00\x01\x00\x00\x00\xc2\x00\x04\xac\xd9\x10\xae";

#[test]
fn view_matches_eager_decoding() {
    let view = ResponseView::parse(GOOGLE_RESPONSE.to_vec()).unwrap();
    assert_eq!(view.len(), GOOGLE_RESPONSE.len());
    assert_eq!(view.header().id, 1);
    assert_eq!(view.header().ancount, 1);
    let questions = view.questions().unwrap();
    assert_eq!(questions[0].name.as_bytes(), b"google.com");
    let answers = view.answers().unwrap();
    assert_eq!(answers.len(), 1);
    assert_eq!(answers[0].rdata, RData::Ipv4([172, 217, 16, 174]));
    assert!(view.authorities().unwrap().is_empty());
    assert!(view.additionals().unwrap().is_empty());
    let (eager, _) = Response::decode(GOOGLE_RESPONSE, 0).unwrap();
    assert_eq!(view.to_response().unwrap(), eager);
}

#[test]
fn skim_does_not_follow_pointers() {
    // The answer's name points to itself: the skim steps over it, decoding
    // the section finds the loop.
    let mut b = GOOGLE_RESPONSE.to_vec();
    b[28] = 0xc0;
    b[29] = 28;
    let view = ResponseView::parse(b).unwrap();
    assert!(view.questions().is_ok());
    assert_eq!(view.answers().unwrap_err(), DecodeError::Invalid(Invalid::PointerLoop));
    assert!(view.to_response().is_err());
}

#[test]
fn view_framing() {
    let mut src = BytesMut::from(&GOOGLE_RESPONSE[..GOOGLE_RESPONSE.len() - 1]);
    assert!(matches!(ResponseCodec.decode_view(&mut src), Ok(None)));
    assert_eq!(src.len(), GOOGLE_RESPONSE.len() - 1);
    src.extend_from_slice(&GOOGLE_RESPONSE[GOOGLE_RESPONSE.len() - 1..]);
    src.extend_from_slice(&[1, 2, 3]);
    let view = ResponseCodec.decode_view(&mut src).unwrap().unwrap();
    assert_eq!(view.len(), GOOGLE_RESPONSE.len());
    assert_eq!(&src[..], &[1, 2, 3]);
    assert_eq!(view.answers().unwrap()[0].ttl.seconds(), 194);
}

#[test]
fn view_reserved_label_is_invalid() {
    let mut b = GOOGLE_RESPONSE.to_vec();
    b[12] = 0x40;
    assert_eq!(
        ResponseView::parse(b.clone()).err(),
        Some(DecodeError::Invalid(Invalid::ReservedLabelForm))
    );
    let mut src = BytesMut::from(&b[..]);
    assert!(matches!(ResponseCodec.decode_view(&mut src), Err(Invalid::ReservedLabelForm)));
    assert!(src.is_empty());
}
