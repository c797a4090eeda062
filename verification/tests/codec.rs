use session_core::codec::decode;
use session_core::codec::encode;
use session_core::codec::FrameError;
use session_core::codec::MAX_FRAME_LEN;
use session_core::messages::Message;

fn round_trip(m: Message) {
    let mut buf: Vec<u8> = Vec::new();
    encode(&m, &mut buf).expect("message fits a frame");
    let got = decode(&mut buf).expect("frame is well formed").expect("frame is complete");
    assert_eq!(got, m);
    assert_eq!(buf.len(), 0);
}

#[test]
fn round_trip_handshake_request() {
    round_trip(Message::HandshakeRequest { steam_id: 76561198000000001 });
}

#[test]
fn round_trip_handshake_response() {
    round_trip(Message::HandshakeResponse);
}

#[test]
fn round_trip_application_payload() {
    round_trip(Message::Application { payload: vec![0, 1, 2, 3, 255, 128, 7] });
}

#[test]
fn round_trip_empty_application_payload() {
    round_trip(Message::Application { payload: Vec::new() });
}

#[test]
fn round_trip_unknown_tag() {
    round_trip(Message::Unknown { tag: 9, payload: vec![42, 43] });
}

#[test]
fn handshake_request_wire_shape() {
    let mut buf: Vec<u8> = Vec::new();
    encode(&Message::HandshakeRequest { steam_id: 0x0102030405060708 }, &mut buf).unwrap();
    assert_eq!(
        buf,
        vec![0, 0, 0, 9, 1, 0x01, 0x02, 0x03, 0x04, 0x05, 0x06, 0x07, 0x08]
    );
}

#[test]
fn partial_frame_one_byte_at_a_time() {
    let mut full: Vec<u8> = Vec::new();
    let m = Message::Application { payload: vec![10, 20, 30] };
    encode(&m, &mut full).unwrap();
    assert!(full.len() > 1);

    let mut buf: Vec<u8> = Vec::new();
    for (i, byte) in full.iter().enumerate() {
        buf.push(*byte);
        let step = decode(&mut buf).expect("a prefix of a frame is never malformed");
        if i + 1 < full.len() {
            assert!(step.is_none(), "no message before the final byte");
        } else {
            assert_eq!(step, Some(m.clone()), "exactly one message on the final byte");
            assert_eq!(buf.len(), 0);
        }
    }
}

#[test]
fn fifo_decoding_order() {
    let a = Message::Application { payload: vec![1] };
    let b = Message::HandshakeResponse;
    let c = Message::Application { payload: vec![3, 3, 3] };
    let mut buf: Vec<u8> = Vec::new();
    encode(&a, &mut buf).unwrap();
    encode(&b, &mut buf).unwrap();
    encode(&c, &mut buf).unwrap();
    assert_eq!(decode(&mut buf).unwrap(), Some(a));
    assert_eq!(decode(&mut buf).unwrap(), Some(b));
    assert_eq!(decode(&mut buf).unwrap(), Some(c));
    assert_eq!(decode(&mut buf).unwrap(), None);
    assert_eq!(buf.len(), 0);
}

#[test]
fn empty_buffer_needs_more() {
    let mut buf: Vec<u8> = Vec::new();
    assert_eq!(decode(&mut buf), Ok(None));
}

#[test]
fn zero_length_field_is_malformed() {
    let mut buf: Vec<u8> = vec![0, 0, 0, 0];
    assert_eq!(decode(&mut buf), Err(FrameError::BadLength));
    assert_eq!(buf.len(), 4, "a malformed buffer is left untouched");
}

#[test]
fn oversize_length_field_is_malformed() {
    // Length field of MAX_FRAME_LEN + 1 == 0x100001.
    let mut buf: Vec<u8> = vec![0x00, 0x10, 0x00, 0x01];
    assert_eq!(decode(&mut buf), Err(FrameError::BadLength));
}

#[test]
fn handshake_request_with_short_body_is_malformed() {
    // Tag 1 demands an 8-byte body; here the body is empty.
    let mut buf: Vec<u8> = vec![0, 0, 0, 1, 1];
    assert_eq!(decode(&mut buf), Err(FrameError::BadBody));
}

#[test]
fn handshake_response_with_body_is_malformed() {
    // Tag 2 demands an empty body; here one byte follows.
    let mut buf: Vec<u8> = vec![0, 0, 0, 2, 2, 9];
    assert_eq!(decode(&mut buf), Err(FrameError::BadBody));
}

#[test]
fn oversize_message_is_refused_by_encode() {
    let m = Message::Application { payload: vec![0u8; MAX_FRAME_LEN as usize] };
    let mut buf: Vec<u8> = Vec::new();
    assert_eq!(encode(&m, &mut buf), Err(FrameError::TooLong));
    assert_eq!(buf.len(), 0, "a refused message leaves the buffer untouched");
}

#[test]
fn largest_message_round_trips() {
    round_trip(Message::Application { payload: vec![7u8; (MAX_FRAME_LEN - 1) as usize] });
}
