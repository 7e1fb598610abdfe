// A client-side WebSocket protocol engine.
//
// - frame: the wire format of frames, encoding (masked) and decoding
// - reassembly: joining fragmented data frames into messages
// - connection: the connection state machine and its closing handshake
// - handshake: the opening handshake request and the server's accept value
// - http: reading the head of the server's response
// - websocket: the scripting-facing WebSocket object and its URL
pub mod frame;
pub mod reassembly;
pub mod connection;
pub mod handshake;
pub mod http;
pub mod websocket;
