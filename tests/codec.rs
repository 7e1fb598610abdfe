use websocket_engine::frame::{
    decode, encode, encode_masked, opcode_code, opcode_from, DecodeError, EncodeError, Frame,
    Opcode, ProtocolError,
};

fn unmasked(op: u8, fin: bool, payload: &[u8]) -> Vec<u8> {
    let mut b = vec![if fin { 0x80 | op } else { op }];
    assert!(payload.len() < 126);
    b.push(payload.len() as u8);
    b.extend_from_slice(payload);
    b
}

#[test]
fn round_trip_through_decode() {
    for (op, payload) in [
        (Opcode::Text, b"Hello".to_vec()),
        (Opcode::Binary, vec![0u8, 255, 7, 9, 11]),
        (Opcode::Ping, vec![]),
        (Opcode::Close, vec![3, 232]),
        (Opcode::Binary, vec![0xAB; 300]),
        (Opcode::Binary, vec![0x5A; 70000]),
    ] {
        let bytes = encode(op, &payload, true).unwrap();
        let (frame, used) = decode(&bytes, false).unwrap();
        assert_eq!(used, bytes.len());
        assert!(frame.fin);
        assert_eq!(frame.opcode, op);
        assert_eq!(frame.payload, payload);
        assert!(frame.mask_key.is_some());
    }
}

#[test]
fn client_frames_are_masked_and_refused_from_server() {
    let bytes = encode(Opcode::Text, &b"hi".to_vec(), true).unwrap();
    assert!(bytes[1] & 0x80 != 0);
    assert_eq!(decode(&bytes, true), Err(DecodeError::Protocol(ProtocolError::MaskedFrame)));
}

#[test]
fn masked_encoding_is_exact() {
    let bytes = encode_masked(Opcode::Text, &b"Hello".to_vec(), true, [0x37, 0xfa, 0x21, 0x3d]).unwrap();
    assert_eq!(bytes, vec![0x81, 0x85, 0x37, 0xfa, 0x21, 0x3d, 0x7f, 0x9f, 0x4d, 0x51, 0x58]);
}

#[test]
fn length_field_encodings() {
    let key = [1, 2, 3, 4];
    let b = encode_masked(Opcode::Binary, &vec![0u8; 125], true, key).unwrap();
    assert_eq!(b[1], 0x80 | 125);
    assert_eq!(b.len(), 2 + 4 + 125);
    let b = encode_masked(Opcode::Binary, &vec![0u8; 126], true, key).unwrap();
    assert_eq!(&b[1..4], &[0x80 | 126, 0, 126]);
    assert_eq!(b.len(), 4 + 4 + 126);
    let b = encode_masked(Opcode::Binary, &vec![0u8; 65535], true, key).unwrap();
    assert_eq!(&b[1..4], &[0x80 | 126, 0xff, 0xff]);
    let b = encode_masked(Opcode::Binary, &vec![0u8; 65536], false, key).unwrap();
    assert_eq!(b[0], 0x02);
    assert_eq!(&b[1..10], &[0x80 | 127, 0, 0, 0, 0, 0, 1, 0, 0]);
    assert_eq!(&b[10..14], &key);
    assert_eq!(b.len(), 10 + 4 + 65536);
}

#[test]
fn control_payload_too_large() {
    let r = encode(Opcode::Ping, &vec![0u8; 200], true);
    assert_eq!(r, Err(EncodeError::PayloadTooLarge));
    let r = encode_masked(Opcode::Close, &vec![0u8; 126], true, [0; 4]);
    assert_eq!(r, Err(EncodeError::PayloadTooLarge));
    assert!(encode_masked(Opcode::Close, &vec![0u8; 125], true, [0; 4]).is_ok());
}

#[test]
fn control_frame_must_be_final() {
    let r = encode_masked(Opcode::Pong, &vec![1u8], false, [0; 4]);
    assert_eq!(r, Err(EncodeError::FragmentedControl));
}

#[test]
fn decode_unmasked_server_text() {
    let b = unmasked(1, true, b"Hello");
    let (f, n) = decode(&b, true).unwrap();
    assert_eq!(n, 7);
    assert_eq!(
        f,
        Frame { fin: true, opcode: Opcode::Text, mask_key: None, payload: b"Hello".to_vec() }
    );
}

#[test]
fn decode_leaves_following_bytes() {
    let mut b = unmasked(2, false, &[9, 8]);
    b.extend_from_slice(&[0x81, 0x00]);
    let (f, n) = decode(&b, true).unwrap();
    assert_eq!(n, 4);
    assert!(!f.fin);
    assert_eq!(f.payload, vec![9, 8]);
}

#[test]
fn decode_needs_more_data() {
    assert_eq!(decode(&vec![], true), Err(DecodeError::NeedMoreData));
    assert_eq!(decode(&vec![0x81], true), Err(DecodeError::NeedMoreData));
    assert_eq!(decode(&vec![0x81, 0x05, b'H'], true), Err(DecodeError::NeedMoreData));
    assert_eq!(decode(&vec![0x82, 126, 0x01], true), Err(DecodeError::NeedMoreData));
    let mut b = vec![0x82, 127, 0, 0, 0, 0, 0, 0, 1, 0];
    b.extend_from_slice(&[0u8; 100]);
    assert_eq!(decode(&b, true), Err(DecodeError::NeedMoreData));
}

#[test]
fn decode_sixteen_bit_length() {
    let mut b = vec![0x82, 126, 0x01, 0x00];
    b.extend_from_slice(&vec![7u8; 256]);
    let (f, n) = decode(&b, true).unwrap();
    assert_eq!(n, 260);
    assert_eq!(f.payload.len(), 256);
}

#[test]
fn decode_protocol_errors() {
    let p = |e| Err(DecodeError::Protocol(e));
    assert_eq!(decode(&vec![0xC1, 0x00], true), p(ProtocolError::ReservedBits));
    assert_eq!(decode(&vec![0x83, 0x00], true), p(ProtocolError::UnknownOpcode));
    assert_eq!(decode(&vec![0x09, 0x00], true), p(ProtocolError::FragmentedControl));
    assert_eq!(decode(&vec![0x89, 126, 0, 200], true), p(ProtocolError::ControlTooLong));
    assert_eq!(decode(&vec![0x81, 0x00], false), p(ProtocolError::UnmaskedFrame));
    assert_eq!(
        decode(&vec![0x82, 127, 0x80, 0, 0, 0, 0, 0, 0, 1], true),
        p(ProtocolError::LengthHighBit)
    );
}

#[test]
fn opcode_codes() {
    assert_eq!(opcode_code(Opcode::Continuation), 0);
    assert_eq!(opcode_code(Opcode::Pong), 10);
    assert_eq!(opcode_from(8), Some(Opcode::Close));
    assert_eq!(opcode_from(3), None);
}

#[test]
fn fresh_keys_differ() {
    let a = encode(Opcode::Binary, &vec![0u8; 16], true).unwrap();
    let b = encode(Opcode::Binary, &vec![0u8; 16], true).unwrap();
    let c = encode(Opcode::Binary, &vec![0u8; 16], true).unwrap();
    assert!(a[2..6] != b[2..6] || b[2..6] != c[2..6]);
}
