use websocket_engine::connection::{
    CloseInfo, Connection, ConnectionError, ConnectionState, Event, SendError,
};
use websocket_engine::frame::{decode, encode_masked, Frame, Opcode, ProtocolError};
use websocket_engine::handshake::HandshakeError;
use websocket_engine::reassembly::Message;

fn frame(fin: bool, opcode: Opcode, payload: &[u8]) -> Frame {
    Frame { fin, opcode, mask_key: None, payload: payload.to_vec() }
}

const KEY: &str = "dGhlIHNhbXBsZSBub25jZQ==";

const GOOD_RESPONSE: &str = "HTTP/1.1 101 Switching Protocols\r\nUpgrade: websocket\r\nConnection: Upgrade\r\nSec-WebSocket-Accept: s3pPLMBiTxaQ9kYGzzhZRbK+xOo=\r\n\r\n";

fn open_with(max_message: usize, max_outgoing: usize) -> Connection {
    let mut c = Connection::new(max_message, max_outgoing);
    let r = c.complete_handshake(&KEY.as_bytes().to_vec(), &GOOD_RESPONSE.as_bytes().to_vec(), &vec![]);
    assert_eq!(r, Ok(None));
    assert_eq!(c.pop_event(), Some(Event::Open));
    c
}

fn open(max_message: usize) -> Connection {
    open_with(max_message, 8)
}

fn sent(c: &mut Connection) -> Frame {
    let bytes = c.pop_outgoing().expect("a queued frame");
    let (f, n) = decode(&bytes, false).unwrap();
    assert_eq!(n, bytes.len());
    f
}

#[test]
fn handshake_opens() {
    let c = open(10);
    assert_eq!(c.state(), ConnectionState::Open);
}

#[test]
fn incomplete_handshake_waits() {
    let mut c = Connection::new(10, 8);
    let partial = GOOD_RESPONSE.as_bytes()[..40].to_vec();
    let r = c.complete_handshake(&KEY.as_bytes().to_vec(), &partial, &vec![]);
    assert_eq!(r, Err(HandshakeError::Incomplete));
    assert_eq!(c.state(), ConnectionState::Connecting);
    assert_eq!(c.pop_event(), None);
}

#[test]
fn handshake_failure_closes_without_frames() {
    let mut c = Connection::new(10, 8);
    let bad = b"HTTP/1.1 101 Switching Protocols\r\nSec-WebSocket-Accept: wrong\r\n\r\n".to_vec();
    let r = c.complete_handshake(&KEY.as_bytes().to_vec(), &bad, &vec![]);
    assert_eq!(r, Err(HandshakeError::AcceptMismatch));
    assert_eq!(c.state(), ConnectionState::Closed);
    assert_eq!(c.pop_outgoing(), None);
    assert_eq!(c.pop_event(), Some(Event::Error(ConnectionError::Handshake)));
    assert_eq!(c.pop_event(), Some(Event::Close(CloseInfo { code: 1006, reason: vec![] })));
}

#[test]
fn fragmented_text_with_ping_between() {
    let mut c = open(100);
    c.receive(frame(false, Opcode::Text, b"He"));
    c.receive(frame(false, Opcode::Continuation, b"ll"));
    c.receive(frame(true, Opcode::Ping, b"ping"));
    let pong = sent(&mut c);
    assert_eq!(pong.opcode, Opcode::Pong);
    assert_eq!(pong.payload, b"ping".to_vec());
    assert_eq!(c.pop_event(), None);
    c.receive(frame(true, Opcode::Continuation, b"o"));
    assert_eq!(
        c.pop_event(),
        Some(Event::Message(Message { opcode: Opcode::Text, payload: b"Hello".to_vec() }))
    );
    assert_eq!(c.state(), ConnectionState::Open);
}

#[test]
fn peer_close_is_echoed_once() {
    let mut c = open(100);
    c.receive(frame(true, Opcode::Close, &[0x03, 0xe8]));
    assert_eq!(c.state(), ConnectionState::Closing);
    let echo = sent(&mut c);
    assert_eq!(echo.opcode, Opcode::Close);
    assert_eq!(echo.payload, vec![0x03, 0xe8]);
    assert_eq!(c.pop_outgoing(), None);
    c.transport_closed();
    assert_eq!(c.state(), ConnectionState::Closed);
    assert_eq!(c.pop_event(), Some(Event::Close(CloseInfo { code: 1000, reason: vec![] })));
    assert_eq!(c.pop_outgoing(), None);
}

#[test]
fn invalid_peer_code_echoed_as_normal() {
    let mut c = open(100);
    c.receive(frame(true, Opcode::Close, &[0x03, 0xed, b'x']));
    let echo = sent(&mut c);
    assert_eq!(echo.payload, vec![0x03, 0xe8]);
    assert_eq!(c.close_info, Some(CloseInfo { code: 1005, reason: b"x".to_vec() }));
}

#[test]
fn control_send_over_limit_queues_nothing() {
    let mut c = open(100);
    assert_eq!(c.send(Opcode::Ping, &vec![0u8; 200]), Err(SendError::PayloadTooLarge));
    assert_eq!(c.pop_outgoing(), None);
    assert_eq!(c.state(), ConnectionState::Open);
}

#[test]
fn send_requires_open() {
    let mut c = Connection::new(100, 8);
    assert_eq!(c.send(Opcode::Text, &b"x".to_vec()), Err(SendError::InvalidState));
    assert_eq!(c.pop_outgoing(), None);
}

#[test]
fn send_queues_masked_frame() {
    let mut c = open(100);
    assert_eq!(c.send_with_key(Opcode::Text, &b"Hello".to_vec(), [0x37, 0xfa, 0x21, 0x3d]), Ok(()));
    assert_eq!(
        c.pop_outgoing(),
        Some(vec![0x81, 0x85, 0x37, 0xfa, 0x21, 0x3d, 0x7f, 0x9f, 0x4d, 0x51, 0x58])
    );
}

#[test]
fn send_backpressure() {
    let mut c = open_with(100, 2);
    assert_eq!(c.send(Opcode::Binary, &vec![1]), Ok(()));
    assert_eq!(c.send(Opcode::Binary, &vec![2]), Ok(()));
    assert_eq!(c.send(Opcode::Binary, &vec![3]), Err(SendError::Backpressure));
    assert_eq!(sent(&mut c).payload, vec![1]);
    assert_eq!(sent(&mut c).payload, vec![2]);
    assert_eq!(c.pop_outgoing(), None);
}

#[test]
fn oversized_message_closes_with_1009() {
    let mut c = open(4);
    c.receive(frame(false, Opcode::Binary, b"abc"));
    c.receive(frame(true, Opcode::Continuation, b"de"));
    assert_eq!(c.state(), ConnectionState::Closed);
    let close = sent(&mut c);
    assert_eq!(close.opcode, Opcode::Close);
    assert_eq!(close.payload, vec![0x03, 0xf1]);
    assert_eq!(c.pop_event(), Some(Event::Error(ConnectionError::Protocol(ProtocolError::MessageTooLarge))));
    assert_eq!(c.pop_event(), Some(Event::Close(CloseInfo { code: 1009, reason: vec![] })));
}

#[test]
fn invalid_utf8_closes_with_1007() {
    let mut c = open(100);
    c.receive(frame(true, Opcode::Text, &[0xc3]));
    assert_eq!(c.state(), ConnectionState::Closed);
    assert_eq!(sent(&mut c).payload, vec![0x03, 0xef]);
}

#[test]
fn unexpected_continuation_closes_with_1002() {
    let mut c = open(100);
    c.receive(frame(true, Opcode::Continuation, b"x"));
    assert_eq!(sent(&mut c).payload, vec![0x03, 0xea]);
    assert_eq!(c.state(), ConnectionState::Closed);
}

#[test]
fn client_close_then_peer_echo() {
    let mut c = open(100);
    assert_eq!(c.close(1000, &b"bye".to_vec()), Ok(()));
    assert_eq!(c.state(), ConnectionState::Closing);
    let f = sent(&mut c);
    assert_eq!(f.payload, vec![0x03, 0xe8, b'b', b'y', b'e']);
    c.receive(frame(true, Opcode::Text, b"late"));
    assert_eq!(c.pop_event(), None);
    c.receive(frame(true, Opcode::Close, &[0x03, 0xe8]));
    assert_eq!(c.state(), ConnectionState::Closed);
    assert_eq!(c.pop_outgoing(), None);
    assert_eq!(c.pop_event(), Some(Event::Close(CloseInfo { code: 1000, reason: b"bye".to_vec() })));
}

#[test]
fn close_request_checks() {
    let mut c = open(100);
    assert_eq!(c.close(1006, &vec![]), Err(SendError::InvalidCode));
    assert_eq!(c.close(1000, &vec![b'r'; 124]), Err(SendError::PayloadTooLarge));
    assert_eq!(c.close(3000, &vec![b'r'; 123]), Ok(()));
    assert_eq!(c.close(1000, &vec![]), Err(SendError::InvalidState));
}

#[test]
fn transport_error_is_abnormal() {
    let mut c = open(100);
    c.transport_error();
    assert_eq!(c.state(), ConnectionState::Closed);
    assert_eq!(c.pop_event(), Some(Event::Error(ConnectionError::Transport)));
    assert_eq!(c.pop_event(), Some(Event::Close(CloseInfo { code: 1006, reason: vec![] })));
    c.transport_error();
    assert_eq!(c.pop_event(), None);
}

#[test]
fn closed_connection_ignores_frames() {
    let mut c = open(100);
    c.transport_error();
    c.receive(frame(true, Opcode::Ping, b"x"));
    assert_eq!(c.pop_outgoing(), None);
}

#[test]
fn malformed_bytes_fail_with_1002() {
    let mut c = open(100);
    c.protocol_failure(ProtocolError::ReservedBits);
    assert_eq!(c.state(), ConnectionState::Closed);
    assert_eq!(sent(&mut c).payload, vec![0x03, 0xea]);
    assert_eq!(c.pop_event(), Some(Event::Error(ConnectionError::Protocol(ProtocolError::ReservedBits))));
    assert_eq!(c.pop_event(), Some(Event::Close(CloseInfo { code: 1002, reason: vec![] })));
}

#[test]
fn unanswered_close_times_out_as_abnormal() {
    let mut c = open(100);
    c.close_timed_out();
    assert_eq!(c.state(), ConnectionState::Open);
    assert_eq!(c.close(1000, &vec![]), Ok(()));
    c.close_timed_out();
    assert_eq!(c.state(), ConnectionState::Closed);
    assert_eq!(c.pop_event(), Some(Event::Close(CloseInfo { code: 1006, reason: vec![] })));
}

#[test]
fn close_info_stays_with_the_initiator() {
    let mut c = open(100);
    assert_eq!(c.close(1000, &vec![]), Ok(()));
    assert_eq!(c.close_info, Some(CloseInfo { code: 1000, reason: vec![] }));
    c.receive(frame(true, Opcode::Close, &[0x0b, 0xb8]));
    assert_eq!(c.state(), ConnectionState::Closed);
    assert_eq!(c.close_info, Some(CloseInfo { code: 1000, reason: vec![] }));
    assert_eq!(c.pop_event(), Some(Event::Close(CloseInfo { code: 1000, reason: vec![] })));
}

#[test]
fn close_with_long_reason_is_too_large() {
    let mut c = open(100);
    assert_eq!(c.close(1000, &vec![b'a'; 198]), Err(SendError::PayloadTooLarge));
    assert_eq!(c.pop_outgoing(), None);
    assert_eq!(c.state(), ConnectionState::Open);
    assert_eq!(c.close_info, None);
}

#[test]
fn close_frame_bytes_exact() {
    let mut c = open(100);
    assert_eq!(c.close_with_key(1000, &b"bye".to_vec(), [1, 2, 3, 4]), Ok(()));
    assert_eq!(
        c.pop_outgoing(),
        Some(vec![0x88, 0x85, 0x01, 0x02, 0x03, 0x04, 0x02, 0xEA, 0x61, 0x7D, 0x64])
    );
}

#[test]
fn transport_error_drops_queued_frames() {
    let mut c = open(100);
    assert_eq!(c.send(Opcode::Text, &b"x".to_vec()), Ok(()));
    c.transport_error();
    assert_eq!(c.pop_outgoing(), None);
}

#[test]
fn receive_next_reads_one_frame_at_a_time() {
    let mut c = open(100);
    let mut inbox = vec![0x01, 0x02, b'H', b'e', 0x89, 0x01, b'p', 0x80, 0x03, b'l', b'l', b'o', 0x82, 0x05, 1];
    let mut total = 0;
    loop {
        let used = c.receive_next(&inbox);
        if used == 0 {
            break;
        }
        total += used;
        inbox.drain(..used);
    }
    assert_eq!(total, 12);
    assert_eq!(sent(&mut c).opcode, Opcode::Pong);
    assert_eq!(
        c.pop_event(),
        Some(Event::Message(Message { opcode: Opcode::Text, payload: b"Hello".to_vec() }))
    );
    assert_eq!(inbox, vec![0x82, 0x05, 1]);
}

#[test]
fn receive_next_fails_on_masked_server_frame() {
    let mut c = open(100);
    let masked = encode_masked(Opcode::Text, &b"Hello".to_vec(), true, [0x37, 0xfa, 0x21, 0x3d]).unwrap();
    assert_eq!(c.receive_next(&masked), masked.len());
    assert_eq!(c.state(), ConnectionState::Closed);
    assert_eq!(sent(&mut c).payload, vec![0x03, 0xea]);
    assert_eq!(c.pop_event(), Some(Event::Error(ConnectionError::Protocol(ProtocolError::MaskedFrame))));
}

#[test]
fn masked_frame_handed_directly_fails() {
    let mut c = open(100);
    c.receive(Frame { fin: true, opcode: Opcode::Ping, mask_key: Some([1, 2, 3, 4]), payload: b"x".to_vec() });
    assert_eq!(c.state(), ConnectionState::Closed);
    assert_eq!(sent(&mut c).opcode, Opcode::Close);
}

#[test]
fn close_accepts_any_sendable_code() {
    let mut c = open(100);
    assert_eq!(c.close(1001, &vec![b'r'; 124]), Err(SendError::PayloadTooLarge));
    assert_eq!(c.close(1005, &vec![]), Err(SendError::InvalidCode));
    assert_eq!(c.close(1001, &b"away".to_vec()), Ok(()));
    assert_eq!(sent(&mut c).payload, vec![0x03, 0xe9, b'a', b'w', b'a', b'y']);
}

#[test]
fn sixteen_bit_message_delivered() {
    let mut c = open(1000);
    let mut inbox = vec![0x82, 0x7e, 0x01, 0x00];
    inbox.extend_from_slice(&[7u8; 256]);
    assert_eq!(c.receive_next(&inbox), 260);
    assert_eq!(c.pop_event(), Some(Event::Message(Message { opcode: Opcode::Binary, payload: vec![7u8; 256] })));
    assert_eq!(c.pop_outgoing(), None);
}
