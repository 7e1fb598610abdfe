use websocket_engine::frame::{Frame, Opcode, ProtocolError};
use websocket_engine::reassembly::{Message, Reassembler};

fn frame(fin: bool, opcode: Opcode, payload: &[u8]) -> Frame {
    Frame { fin, opcode, mask_key: None, payload: payload.to_vec() }
}

#[test]
fn fragments_join_around_a_ping() {
    let mut r = Reassembler::new(100);
    assert_eq!(r.feed(frame(false, Opcode::Text, b"He")), Ok(None));
    assert_eq!(r.feed(frame(false, Opcode::Continuation, b"ll")), Ok(None));
    assert_eq!(
        r.feed(frame(true, Opcode::Ping, b"p")),
        Ok(Some(Message { opcode: Opcode::Ping, payload: b"p".to_vec() }))
    );
    assert_eq!(
        r.feed(frame(true, Opcode::Continuation, b"o")),
        Ok(Some(Message { opcode: Opcode::Text, payload: b"Hello".to_vec() }))
    );
    assert_eq!(r.current, None);
    assert!(r.buffer.is_empty());
}

#[test]
fn continuation_without_start() {
    let mut r = Reassembler::new(100);
    assert_eq!(
        r.feed(frame(true, Opcode::Continuation, b"x")),
        Err(ProtocolError::UnexpectedContinuation)
    );
}

#[test]
fn new_data_frame_inside_message() {
    let mut r = Reassembler::new(100);
    assert_eq!(r.feed(frame(false, Opcode::Binary, b"a")), Ok(None));
    assert_eq!(r.feed(frame(true, Opcode::Text, b"b")), Err(ProtocolError::UnexpectedDataFrame));
    assert_eq!(r.current, None);
}

#[test]
fn oversized_message_aborts() {
    let mut r = Reassembler::new(4);
    assert_eq!(r.feed(frame(false, Opcode::Binary, b"abc")), Ok(None));
    assert_eq!(
        r.feed(frame(true, Opcode::Continuation, b"de")),
        Err(ProtocolError::MessageTooLarge)
    );
    assert!(r.buffer.is_empty());
    assert_eq!(
        r.feed(frame(true, Opcode::Binary, b"abcd")),
        Ok(Some(Message { opcode: Opcode::Binary, payload: b"abcd".to_vec() }))
    );
}

#[test]
fn invalid_utf8_text() {
    let mut r = Reassembler::new(100);
    assert_eq!(r.feed(frame(true, Opcode::Text, &[0xff, 0xfe])), Err(ProtocolError::InvalidUtf8));
    assert_eq!(
        r.feed(frame(true, Opcode::Binary, &[0xff, 0xfe])),
        Ok(Some(Message { opcode: Opcode::Binary, payload: vec![0xff, 0xfe] }))
    );
}

#[test]
fn utf8_split_across_fragments() {
    let mut r = Reassembler::new(100);
    let euro = "€".as_bytes();
    assert_eq!(r.feed(frame(false, Opcode::Text, &euro[..1])), Ok(None));
    assert_eq!(
        r.feed(frame(true, Opcode::Continuation, &euro[1..])),
        Ok(Some(Message { opcode: Opcode::Text, payload: euro.to_vec() }))
    );
}
