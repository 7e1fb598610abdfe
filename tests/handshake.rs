use websocket_engine::handshake::{
    accept_key, build_request, check_response, generate_key, validate_response, Header,
    HandshakeError, Response, Target,
};
use websocket_engine::websocket::{resolve_url, UrlError, WebSocket};
use websocket_engine::connection::{ConnectionState, SendError};

fn header(name: &str, value: &str) -> Header {
    Header { name: name.as_bytes().to_vec(), value: value.as_bytes().to_vec() }
}

const KEY: &str = "dGhlIHNhbXBsZSBub25jZQ==";
const ACCEPT: &str = "s3pPLMBiTxaQ9kYGzzhZRbK+xOo=";

#[test]
fn accept_value_of_sample_key() {
    assert_eq!(accept_key(&KEY.as_bytes().to_vec()), ACCEPT.as_bytes().to_vec());
}

#[test]
fn generated_key_is_base64_of_sixteen_bytes() {
    let k = generate_key();
    assert_eq!(k.len(), 24);
    assert!(k.ends_with(b"=="));
    assert_ne!(generate_key(), k);
}

#[test]
fn response_accepted() {
    let resp = Response {
        status: 101,
        headers: vec![
            header("Upgrade", "websocket"),
            header("SEC-WebSocket-Accept", ACCEPT),
            header("Sec-WebSocket-Protocol", "chat"),
        ],
    };
    let offered = vec![b"superchat".to_vec(), b"chat".to_vec()];
    assert_eq!(validate_response(&KEY.as_bytes().to_vec(), &resp, &offered), Ok(Some(b"chat".to_vec())));
    assert_eq!(validate_response(&KEY.as_bytes().to_vec(), &Response { status: 101, headers: vec![header("sec-websocket-accept", ACCEPT)] }, &offered), Ok(None));
}

#[test]
fn response_rejections() {
    let key = KEY.as_bytes().to_vec();
    let bad_status = Response { status: 200, headers: vec![header("Sec-WebSocket-Accept", ACCEPT)] };
    assert_eq!(validate_response(&key, &bad_status, &vec![]), Err(HandshakeError::BadStatus));
    let wrong = Response { status: 101, headers: vec![header("Sec-WebSocket-Accept", "AAAA")] };
    assert_eq!(validate_response(&key, &wrong, &vec![]), Err(HandshakeError::AcceptMismatch));
    let missing = Response { status: 101, headers: vec![] };
    assert_eq!(validate_response(&key, &missing, &vec![]), Err(HandshakeError::AcceptMismatch));
    let proto = Response {
        status: 101,
        headers: vec![header("Sec-WebSocket-Accept", ACCEPT), header("Sec-WebSocket-Protocol", "mqtt")],
    };
    assert_eq!(
        validate_response(&key, &proto, &vec![b"chat".to_vec()]),
        Err(HandshakeError::UnsupportedSubprotocol)
    );
}

#[test]
fn first_of_repeated_headers_counts() {
    let resp = Response {
        status: 101,
        headers: vec![header("Sec-WebSocket-Accept", "abc"), header("Sec-WebSocket-Accept", "xyz")],
    };
    assert_eq!(check_response(&b"abc".to_vec(), &resp, &vec![]), Ok(None));
    assert_eq!(check_response(&b"xyz".to_vec(), &resp, &vec![]), Err(HandshakeError::AcceptMismatch));
}

#[test]
fn request_bytes_exact() {
    let t = Target { secure: false, host: b"example.com".to_vec(), port: 8080, resource: b"/chat?x=1".to_vec() };
    let r = build_request(&t, &KEY.as_bytes().to_vec(), &vec![b"chat".to_vec(), b"superchat".to_vec()]);
    let want = "GET /chat?x=1 HTTP/1.1\r\nHost: example.com:8080\r\nUpgrade: websocket\r\nConnection: Upgrade\r\nSec-WebSocket-Key: dGhlIHNhbXBsZSBub25jZQ==\r\nSec-WebSocket-Version: 13\r\nSec-WebSocket-Protocol: chat, superchat\r\n\r\n";
    assert_eq!(String::from_utf8(r).unwrap(), want);
    let t = Target { secure: true, host: b"h".to_vec(), port: 443, resource: b"/".to_vec() };
    let r = build_request(&t, &b"k".to_vec(), &vec![]);
    let want = "GET / HTTP/1.1\r\nHost: h\r\nUpgrade: websocket\r\nConnection: Upgrade\r\nSec-WebSocket-Key: k\r\nSec-WebSocket-Version: 13\r\n\r\n";
    assert_eq!(String::from_utf8(r).unwrap(), want);
}

#[test]
fn url_resolution() {
    let t = resolve_url("wss://Example.com/a/b?q=1").unwrap();
    assert_eq!(t, Target { secure: true, host: b"example.com".to_vec(), port: 443, resource: b"/a/b?q=1".to_vec() });
    let t = resolve_url("ws://h:9000").unwrap();
    assert_eq!(t, Target { secure: false, host: b"h".to_vec(), port: 9000, resource: b"/".to_vec() });
    assert_eq!(resolve_url("http://h/"), Err(UrlError::BadScheme));
    assert_eq!(resolve_url("ws://h/#frag"), Err(UrlError::Fragment));
    assert_eq!(resolve_url("not a url"), Err(UrlError::Syntax));
}

#[test]
fn websocket_object() {
    let mut ws = WebSocket::Constructor("ws://localhost:8000/echo".to_string()).unwrap();
    assert_eq!(ws.Url(), "ws://localhost:8000/echo");
    assert_eq!(ws.connection.state(), ConnectionState::Connecting);
    assert_eq!(ws.Send(&"hi".to_string()), Err(SendError::InvalidState));
    let req = String::from_utf8(ws.handshake_request()).unwrap();
    assert!(req.starts_with("GET /echo HTTP/1.1\r\nHost: localhost:8000\r\n"));
    let accept = String::from_utf8(accept_key(&ws.key)).unwrap();
    let response = format!("HTTP/1.1 101 Switching Protocols\r\nSec-WebSocket-Accept: {}\r\n\r\n", accept);
    assert_eq!(ws.connection.complete_handshake(&ws.key, &response.into_bytes(), &vec![]), Ok(None));
    assert_eq!(ws.Send(&"hi".to_string()), Ok(()));
    assert_eq!(ws.Close(1000, &b"bye".to_vec()), Ok(()));
    assert_eq!(ws.Close(1000, &vec![]), Err(SendError::InvalidState));
    assert_eq!(ws.Url(), "ws://localhost:8000/echo");
    assert_eq!(ws.connection.state(), ConnectionState::Closing);
    assert!(WebSocket::new("ftp://x/".to_string()).is_err());
}
