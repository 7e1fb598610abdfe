use vstd::prelude::*;

use crate::frame::{
    append_bytes, copy_bytes, encode_masked, frame_key, is_client_frame, is_control, is_control_opcode,
    lemma_client_frame_fields, random_mask_key, decode, frame_error, frame_len, frame_payload,
    b_fin, b_opcode, DecodeError, Frame, Opcode,
    ProtocolError, MAX_PAYLOAD,
};
use crate::handshake::HandshakeError;
use crate::http::{response_verdict, validate_response_bytes};
use crate::reassembly::{data_error, message_kind, Message, Reassembler};

verus! {

/// Lifecycle of a connection; `Closed` is terminal.
#[derive(Clone, Copy, Debug, PartialEq, Eq, Structural)]
pub enum ConnectionState {
    Connecting,
    Open,
    Closing,
    Closed,
}

/// The status code and reason of a closing handshake.
#[derive(Clone, Debug, PartialEq, Eq)]
pub struct CloseInfo {
    pub code: u16,
    pub reason: Vec<u8>,
}

/// A fatal condition reported to the application.
#[derive(Clone, Copy, Debug, PartialEq, Eq, Structural)]
pub enum ConnectionError {
    Handshake,
    Protocol(ProtocolError),
    Transport,
}

/// What the application is told, in the order it happened.
#[derive(Clone, Debug, PartialEq, Eq)]
pub enum Event {
    Open,
    Message(Message),
    Error(ConnectionError),
    Close(CloseInfo),
}

/// Why a send or close request was refused; the connection is unaffected.
#[derive(Clone, Copy, Debug, PartialEq, Eq, Structural)]
pub enum SendError {
    InvalidState,
    PayloadTooLarge,
    FragmentedControl,
    Backpressure,
    InvalidCode,
}

pub const NORMAL_CLOSURE: u16 = 1000;

pub const NO_STATUS: u16 = 1005;

pub const ABNORMAL_CLOSURE: u16 = 1006;

pub const PROTOCOL_ERROR: u16 = 1002;

pub const INVALID_PAYLOAD: u16 = 1007;

pub const MESSAGE_TOO_BIG: u16 = 1009;

/// Longest close reason that fits a control frame after the status code.
pub const MAX_CLOSE_REASON: usize = 123;

/// Status codes a peer may put in a Close frame.
pub open spec fn valid_close_code(c: u16) -> bool {
    (1000 <= c <= 1003) || (1007 <= c <= 1011) || (3000 <= c <= 4999)
}

/// The payload of a Close frame: status code big-endian, then the reason.
pub open spec fn close_payload(code: u16, reason: Seq<u8>) -> Seq<u8> {
    seq![(code / 256) as u8, (code % 256) as u8] + reason
}

/// The status code a received Close payload carries.
pub open spec fn received_code(p: Seq<u8>) -> u16 {
    if p.len() >= 2 {
        (p[0] * 256 + p[1]) as u16
    } else {
        NO_STATUS
    }
}

pub open spec fn received_reason(p: Seq<u8>) -> Seq<u8> {
    if p.len() >= 2 {
        p.subrange(2, p.len() as int)
    } else {
        Seq::empty()
    }
}

/// The code echoed back: the peer's own when valid, else normal closure.
pub open spec fn echo_code(p: Seq<u8>) -> u16 {
    if p.len() >= 2 && valid_close_code(received_code(p)) {
        received_code(p)
    } else {
        NORMAL_CLOSURE
    }
}

/// The close code a protocol failure is reported with.
pub open spec fn failure_code(e: ProtocolError) -> u16 {
    match e {
        ProtocolError::MessageTooLarge => MESSAGE_TOO_BIG,
        ProtocolError::InvalidUtf8 => INVALID_PAYLOAD,
        _ => PROTOCOL_ERROR,
    }
}

/// A data frame that would take the message in progress past the maximum
/// size is refused as too large, whether or not it is final, and the
/// connection then fails with code 1009 in a Close frame of its own.
pub proof fn lemma_oversized_message(
    current: Option<Opcode>,
    buffered: Seq<u8>,
    max_size: nat,
    fin: bool,
    op: Opcode,
    payload: Seq<u8>,
)
    requires
        !is_control(op),
        op is Continuation <==> current is Some,
        buffered.len() + payload.len() > max_size,
    ensures
        data_error(current, buffered, max_size, fin, op, payload) == Some(ProtocolError::MessageTooLarge),
        failure_code(ProtocolError::MessageTooLarge) == MESSAGE_TOO_BIG,
        MESSAGE_TOO_BIG == 1009,
        close_payload(MESSAGE_TOO_BIG, Seq::empty()) == seq![3u8, 241u8],
{
    assert(close_payload(MESSAGE_TOO_BIG, Seq::empty()) =~= seq![3u8, 241u8]);
}

/// `new_q` is `old_q` with one client frame of the given fields appended.
pub open spec fn queued_frame(
    old_q: Seq<Vec<u8>>,
    new_q: Seq<Vec<u8>>,
    fin: bool,
    op: Opcode,
    payload: Seq<u8>,
    key: Seq<u8>,
) -> bool {
    &&& new_q.len() == old_q.len() + 1
    &&& new_q.subrange(0, old_q.len() as int) == old_q
    &&& is_client_frame(new_q.last()@, fin, op, payload, key)
}

pub open spec fn is_close_event(e: Event, code: u16, reason: Seq<u8>) -> bool {
    e matches Event::Close(info) && info.code == code && info.reason@ == reason
}

pub open spec fn is_message_event(e: Event, op: Opcode, payload: Seq<u8>) -> bool {
    e matches Event::Message(m) && m.opcode == op && m.payload@ == payload
}

/// The state of one connection: frames waiting for the transport, oldest
/// first, and events waiting for the application, oldest first.
pub struct Connection {
    pub state: ConnectionState,
    pub reassembler: Reassembler,
    pub outgoing: Vec<Vec<u8>>,
    pub max_outgoing: usize,
    pub events: Vec<Event>,
    pub close_info: Option<CloseInfo>,
}

/// Status code and reason as the two-plus-n bytes of a Close payload.
pub fn close_payload_bytes(code: u16, reason: &Vec<u8>) -> (r: Vec<u8>)
    ensures
        r@ == close_payload(code, reason@),
{
    let mut r: Vec<u8> = Vec::new();
    r.push((code / 256) as u8);
    r.push((code % 256) as u8);
    append_bytes(&mut r, reason);
    assert(r@ =~= close_payload(code, reason@));
    r
}

/// Splits a received Close payload into status code and reason.
pub fn parse_close_payload(p: &Vec<u8>) -> (r: (u16, Vec<u8>))
    ensures
        r.0 == received_code(p@),
        r.1@ == received_reason(p@),
{
    if p.len() < 2 {
        return (NO_STATUS, Vec::new());
    }
    let code: u16 = p[0] as u16 * 256 + p[1] as u16;
    let mut reason: Vec<u8> = Vec::new();
    let mut i: usize = 2;
    while i < p.len()
        invariant
            2 <= i <= p@.len(),
            reason@ == p@.subrange(2, i as int),
        decreases p@.len() - i,
    {
        reason.push(p[i]);
        i = i + 1;
        assert(reason@ =~= p@.subrange(2, i as int));
    }
    (code, reason)
}

/// Whether a peer's status code is one it may send.
pub fn is_valid_close_code(c: u16) -> (r: bool)
    ensures
        r == valid_close_code(c),
{
    (1000 <= c && c <= 1003) || (1007 <= c && c <= 1011) || (3000 <= c && c <= 4999)
}

/// The close code for a protocol failure.
pub fn failure_close_code(e: ProtocolError) -> (r: u16)
    ensures
        r == failure_code(e),
{
    match e {
        ProtocolError::MessageTooLarge => MESSAGE_TOO_BIG,
        ProtocolError::InvalidUtf8 => INVALID_PAYLOAD,
        _ => PROTOCOL_ERROR,
    }
}


/// Why a send of one whole message is refused, checked in this order.
pub open spec fn send_refusal(
    state: ConnectionState,
    op: Opcode,
    n: nat,
    queued: nat,
    max_queued: nat,
) -> Option<SendError> {
    if !(state is Open) {
        Some(SendError::InvalidState)
    } else if is_control(op) && n > 125 {
        Some(SendError::PayloadTooLarge)
    } else if queued >= max_queued {
        Some(SendError::Backpressure)
    } else {
        None
    }
}

/// Why a close request is refused, checked in this order.
pub open spec fn close_refusal(state: ConnectionState, code: u16, reason_len: nat) -> Option<
    SendError,
> {
    if !(state is Open) {
        Some(SendError::InvalidState)
    } else if reason_len > 123 {
        Some(SendError::PayloadTooLarge)
    } else if !valid_close_code(code) {
        Some(SendError::InvalidCode)
    } else {
        None
    }
}

/// `new_e` is `old_e` with an error event and then a close event appended.
pub open spec fn error_then_close(
    old_e: Seq<Event>,
    new_e: Seq<Event>,
    err: ConnectionError,
    code: u16,
) -> bool {
    &&& new_e.len() == old_e.len() + 2
    &&& new_e.subrange(0, old_e.len() as int) == old_e
    &&& new_e[old_e.len() as int] == Event::Error(err)
    &&& is_close_event(new_e.last(), code, Seq::empty())
}

/// The connection after a protocol failure: a Close frame with the failure's
/// code goes out unless one went out before, and the application sees the
/// error and then the close.
pub open spec fn fail_post(old: Connection, new: Connection, e: ProtocolError, key: Seq<u8>) -> bool {
    let code = failure_code(e);
    &&& new.state is Closed
    &&& new.max_outgoing == old.max_outgoing
    &&& new.close_info == old.close_info
    &&& if old.state is Open {
        queued_frame(old.outgoing@, new.outgoing@, true, Opcode::Close, close_payload(code, Seq::empty()), key)
    } else {
        new.outgoing@ == old.outgoing@
    }
    &&& error_then_close(old.events@, new.events@, ConnectionError::Protocol(e), code)
}

/// The code of the closing handshake once a Close payload `p` arrived: the
/// one recorded by the side that started it, else the peer's.
pub open spec fn kept_code(info: Option<CloseInfo>, p: Seq<u8>) -> u16 {
    match info {
        Some(i) => i.code,
        None => received_code(p),
    }
}

pub open spec fn kept_reason(info: Option<CloseInfo>, p: Seq<u8>) -> Seq<u8> {
    match info {
        Some(i) => i.reason@,
        None => received_reason(p),
    }
}

/// The connection after a complete message or a control frame with opcode
/// `op` and payload `p` reached it.
pub open spec fn dispatch_post(old: Connection, new: Connection, op: Opcode, p: Seq<u8>, key: Seq<u8>) -> bool {
    let same_state = new.state == old.state && new.close_info == old.close_info;
    &&& new.max_outgoing == old.max_outgoing
    &&& match op {
        Opcode::Text | Opcode::Binary => {
            &&& same_state
            &&& new.outgoing@ == old.outgoing@
            &&& new.events@.len() == old.events@.len() + 1
            &&& new.events@.subrange(0, old.events@.len() as int) == old.events@
            &&& is_message_event(new.events@.last(), op, p)
        },
        Opcode::Ping => if p.len() > 125 {
            fail_post(old, new, ProtocolError::ControlTooLong, key)
        } else {
            &&& same_state
            &&& queued_frame(old.outgoing@, new.outgoing@, true, Opcode::Pong, p, key)
            &&& new.events@ == old.events@
        },
        Opcode::Close => if p.len() > 125 {
            fail_post(old, new, ProtocolError::ControlTooLong, key)
        } else if old.state is Open {
            &&& new.state is Closing
            &&& queued_frame(
                old.outgoing@,
                new.outgoing@,
                true,
                Opcode::Close,
                close_payload(echo_code(p), Seq::empty()),
                key,
            )
            &&& new.events@ == old.events@
            &&& new.close_info matches Some(i) && i.code == kept_code(old.close_info, p) && i.reason@
                == kept_reason(old.close_info, p)
        } else {
            &&& new.state is Closed
            &&& new.outgoing@ == old.outgoing@
            &&& new.close_info matches Some(i) && i.code == kept_code(old.close_info, p) && i.reason@
                == kept_reason(old.close_info, p)
            &&& new.events@.len() == old.events@.len() + 1
            &&& new.events@.subrange(0, old.events@.len() as int) == old.events@
            &&& is_close_event(new.events@.last(), kept_code(old.close_info, p), kept_reason(old.close_info, p))
        },
        _ => {
            &&& same_state
            &&& new.outgoing@ == old.outgoing@
            &&& new.events@ == old.events@
        },
    }
}

/// The connection after an unmasked frame with the given fields reached an
/// open or closing connection, replies masked with `key`. A closing
/// connection discards data frames. Control frames are acted on at once;
/// data frames join the message in progress, and a complete message goes to
/// the application; a violation fails the connection.
pub open spec fn frame_post(
    old: Connection,
    new: Connection,
    fin: bool,
    op: Opcode,
    payload: Seq<u8>,
    key: Seq<u8>,
) -> bool {
    let r = old.reassembler;
    let kind = message_kind(r.current, op);
    let assembled = r.buffer@ + payload;
    &&& new.reassembler.max_size == r.max_size
    &&& old.state is Closing && !is_control(op) ==> new == old
    &&& is_control(op) ==> {
        &&& dispatch_post(old, new, op, payload, key)
        &&& new.reassembler.current == r.current
        &&& new.reassembler.buffer@ == r.buffer@
    }
    &&& old.state is Open && !is_control(op) ==> match data_error(
        r.current,
        r.buffer@,
        r.max_size as nat,
        fin,
        op,
        payload,
    ) {
        Some(e) => fail_post(old, new, e, key) && new.reassembler.is_idle(),
        None => if fin {
            &&& dispatch_post(old, new, kind, assembled, key)
            &&& new.reassembler.is_idle()
        } else {
            &&& new.state == old.state
            &&& new.outgoing@ == old.outgoing@
            &&& new.events@ == old.events@
            &&& new.close_info == old.close_info
            &&& new.max_outgoing == old.max_outgoing
            &&& new.reassembler.current == Some(kind)
            &&& new.reassembler.buffer@ == assembled
        },
    }
}

/// Position of a state along Connecting, Open, Closing, Closed.
pub open spec fn state_rank(s: ConnectionState) -> int {
    match s {
        ConnectionState::Connecting => 0,
        ConnectionState::Open => 1,
        ConnectionState::Closing => 2,
        ConnectionState::Closed => 3,
    }
}

/// A frame that reaches an open or closing connection, or a failure of it,
/// never moves its state backwards and never back to Connecting.
pub proof fn lemma_states_move_forward(
    old: Connection,
    new: Connection,
    fin: bool,
    op: Opcode,
    payload: Seq<u8>,
    key: Seq<u8>,
    e: ProtocolError,
)
    requires
        old.state is Open || old.state is Closing,
        old.reassembler.wf(),
        frame_post(old, new, fin, op, payload, key) || fail_post(old, new, e, key),
    ensures
        state_rank(new.state) >= state_rank(old.state),
        !(new.state is Connecting),
{
}

/// A message that a data frame completes holds exactly the payloads of its
/// fragments and is no longer than the connection's maximum.
pub proof fn lemma_delivered_message_whole(
    old: Connection,
    new: Connection,
    fin: bool,
    op: Opcode,
    payload: Seq<u8>,
    key: Seq<u8>,
)
    requires
        old.state is Open,
        old.reassembler.wf(),
        !is_control(op),
        frame_post(old, new, fin, op, payload, key),
        new.events@.len() == old.events@.len() + 1,
        new.events@.last() is Message,
    ensures
        new.events@.last()->Message_0.payload@ == old.reassembler.buffer@ + payload,
        new.events@.last()->Message_0.payload@.len() <= old.reassembler.max_size,
{
    let r = old.reassembler;
    let kind = message_kind(r.current, op);
    assert(data_error(r.current, r.buffer@, r.max_size as nat, fin, op, payload) is None);
    assert(fin);
    assert(kind is Text || kind is Binary);
}

impl Connection {
    pub open spec fn wf(&self) -> bool {
        self.reassembler.wf()
    }

    /// A connection waiting for its opening handshake.
    pub fn new(max_message: usize, max_outgoing: usize) -> (r: Connection)
        ensures
            r.wf(),
            r.state is Connecting,
            r.reassembler.is_idle(),
            r.reassembler.max_size == max_message,
            r.max_outgoing == max_outgoing,
            r.outgoing@.len() == 0,
            r.events@.len() == 0,
            r.close_info is None,
    {
        Connection {
            state: ConnectionState::Connecting,
            reassembler: Reassembler::new(max_message),
            outgoing: Vec::new(),
            max_outgoing,
            events: Vec::new(),
            close_info: None,
        }
    }

    /// The current lifecycle state.
    pub fn state(&self) -> (r: ConnectionState)
        ensures
            r == self.state,
    {
        self.state
    }

    /// Takes the server's response to a handshake sent with `key` offering
    /// `protocols`. A connecting connection opens exactly when the response
    /// is valid (status 101, the accept value owed for `key`, and a
    /// subprotocol, if any, among those offered); it waits when the head is
    /// incomplete, and otherwise closes without any Close frame. Any other
    /// connection is left alone.
    pub fn complete_handshake(&mut self, key: &Vec<u8>, response: &Vec<u8>, protocols: &Vec<Vec<u8>>) -> (r:
        Result<Option<Vec<u8>>, HandshakeError>)
        requires
            old(self).wf(),
        ensures
            final(self).wf(),
            response_verdict(key@, response@, protocols@, r),
            !(old(self).state is Connecting) || r == Err::<Option<Vec<u8>>, HandshakeError>(
                HandshakeError::Incomplete,
            ) ==> *final(self) == *old(self),
            old(self).state is Connecting && r is Ok ==> {
                &&& final(self).state is Open
                &&& final(self).events@ == old(self).events@.push(Event::Open)
                &&& final(self).outgoing@ == old(self).outgoing@
                &&& final(self).reassembler == old(self).reassembler
                &&& final(self).close_info == old(self).close_info
                &&& final(self).max_outgoing == old(self).max_outgoing
            },
            old(self).state is Connecting && r is Err && r != Err::<Option<Vec<u8>>, HandshakeError>(
                HandshakeError::Incomplete,
            ) ==> {
                &&& final(self).state is Closed
                &&& error_then_close(old(self).events@, final(self).events@, ConnectionError::Handshake, ABNORMAL_CLOSURE)
                &&& final(self).outgoing@.len() == 0
                &&& final(self).reassembler == old(self).reassembler
                &&& final(self).close_info == old(self).close_info
                &&& final(self).max_outgoing == old(self).max_outgoing
            },
    {
        let r = validate_response_bytes(key, response, protocols);
        if let ConnectionState::Connecting = self.state {
            match &r {
                Ok(_) => self.handshake_succeeded(),
                Err(HandshakeError::Incomplete) => {},
                Err(_) => self.handshake_failed(),
            }
        }
        r
    }

    /// The opening handshake succeeded: a connecting connection opens.
    fn handshake_succeeded(&mut self)
        requires
            old(self).wf(),
        ensures
            final(self).wf(),
            old(self).state is Connecting ==> {
                &&& final(self).state is Open
                &&& final(self).events@ == old(self).events@.push(Event::Open)
                &&& final(self).outgoing@ == old(self).outgoing@
                &&& final(self).reassembler == old(self).reassembler
                &&& final(self).close_info == old(self).close_info
                &&& final(self).max_outgoing == old(self).max_outgoing
            },
            !(old(self).state is Connecting) ==> *final(self) == *old(self),
    {
        if let ConnectionState::Connecting = self.state {
            self.state = ConnectionState::Open;
            self.events.push(Event::Open);
        }
    }

    /// The opening handshake failed: a connecting connection closes without
    /// any Close frame, reporting the error and an abnormal closure.
    fn handshake_failed(&mut self)
        requires
            old(self).wf(),
        ensures
            final(self).wf(),
            old(self).state is Connecting ==> {
                &&& final(self).state is Closed
                &&& error_then_close(old(self).events@, final(self).events@, ConnectionError::Handshake, ABNORMAL_CLOSURE)
                &&& final(self).outgoing@.len() == 0
                &&& final(self).reassembler == old(self).reassembler
                &&& final(self).close_info == old(self).close_info
                &&& final(self).max_outgoing == old(self).max_outgoing
            },
            !(old(self).state is Connecting) ==> *final(self) == *old(self),
    {
        if let ConnectionState::Connecting = self.state {
            self.abort(ConnectionError::Handshake);
        }
    }

    /// The transport failed: any connection not yet closed closes, reporting
    /// the error and an abnormal closure; nothing queued goes out any more.
    pub fn transport_error(&mut self)
        requires
            old(self).wf(),
        ensures
            final(self).wf(),
            !(old(self).state is Closed) ==> {
                &&& final(self).state is Closed
                &&& error_then_close(old(self).events@, final(self).events@, ConnectionError::Transport, ABNORMAL_CLOSURE)
                &&& final(self).outgoing@.len() == 0
                &&& final(self).reassembler == old(self).reassembler
                &&& final(self).close_info == old(self).close_info
                &&& final(self).max_outgoing == old(self).max_outgoing
            },
            old(self).state is Closed ==> *final(self) == *old(self),
    {
        if let ConnectionState::Closed = self.state {
            return;
        }
        self.abort(ConnectionError::Transport);
    }

    fn abort(&mut self, err: ConnectionError)
        requires
            old(self).wf(),
        ensures
            final(self).wf(),
            final(self).state is Closed,
            error_then_close(old(self).events@, final(self).events@, err, ABNORMAL_CLOSURE),
            final(self).outgoing@.len() == 0,
            final(self).reassembler == old(self).reassembler,
            final(self).close_info == old(self).close_info,
            final(self).max_outgoing == old(self).max_outgoing,
    {
        self.state = ConnectionState::Closed;
        self.outgoing = Vec::new();
        self.events.push(Event::Error(err));
        self.events.push(Event::Close(CloseInfo { code: ABNORMAL_CLOSURE, reason: Vec::new() }));
        assert(self.events@.subrange(0, old(self).events@.len() as int) =~= old(self).events@);
    }

    /// The transport reached its end. A closing connection closes with the
    /// peer's code if it sent one, else as abnormal; an open or connecting one
    /// closes as abnormal.
    pub fn transport_closed(&mut self)
        requires
            old(self).wf(),
        ensures
            final(self).wf(),
            old(self).state is Closed ==> *final(self) == *old(self),
            !(old(self).state is Closed) ==> {
                let (code, reason) = match old(self).close_info {
                    Some(i) => if old(self).state is Closing {
                        (i.code, i.reason@)
                    } else {
                        (ABNORMAL_CLOSURE, Seq::<u8>::empty())
                    },
                    None => (ABNORMAL_CLOSURE, Seq::<u8>::empty()),
                };
                &&& final(self).state is Closed
                &&& final(self).events@.len() == old(self).events@.len() + 1
                &&& final(self).events@.subrange(0, old(self).events@.len() as int) == old(self).events@
                &&& is_close_event(final(self).events@.last(), code, reason)
                &&& final(self).outgoing@ == old(self).outgoing@
                &&& final(self).reassembler == old(self).reassembler
                &&& final(self).close_info == old(self).close_info
                &&& final(self).max_outgoing == old(self).max_outgoing
            },
    {
        let info = match self.state {
            ConnectionState::Closed => {
                return;
            },
            ConnectionState::Closing => match &self.close_info {
                Some(i) => CloseInfo { code: i.code, reason: copy_bytes(&i.reason) },
                None => CloseInfo { code: ABNORMAL_CLOSURE, reason: Vec::new() },
            },
            _ => CloseInfo { code: ABNORMAL_CLOSURE, reason: Vec::new() },
        };
        self.state = ConnectionState::Closed;
        self.events.push(Event::Close(info));
        assert(self.events@.subrange(0, old(self).events@.len() as int) =~= old(self).events@);
    }

    /// The peer did not answer a Close frame in time: a closing connection
    /// closes as abnormal; any other is left alone.
    pub fn close_timed_out(&mut self)
        requires
            old(self).wf(),
        ensures
            final(self).wf(),
            !(old(self).state is Closing) ==> *final(self) == *old(self),
            old(self).state is Closing ==> {
                &&& final(self).state is Closed
                &&& final(self).events@.len() == old(self).events@.len() + 1
                &&& final(self).events@.subrange(0, old(self).events@.len() as int) == old(self).events@
                &&& is_close_event(final(self).events@.last(), ABNORMAL_CLOSURE, Seq::empty())
                &&& final(self).outgoing@ == old(self).outgoing@
                &&& final(self).reassembler == old(self).reassembler
                &&& final(self).close_info == old(self).close_info
                &&& final(self).max_outgoing == old(self).max_outgoing
            },
    {
        if let ConnectionState::Closing = self.state {
            self.state = ConnectionState::Closed;
            self.events.push(Event::Close(CloseInfo { code: ABNORMAL_CLOSURE, reason: Vec::new() }));
            assert(self.events@.subrange(0, old(self).events@.len() as int) =~= old(self).events@);
        }
    }

    /// Queues a final frame that `encode_masked` accepts.
    fn queue_frame(&mut self, op: Opcode, payload: &Vec<u8>, key: [u8; 4])
        requires
            payload@.len() <= 125 || !is_control(op),
            payload@.len() <= MAX_PAYLOAD,
        ensures
            queued_frame(old(self).outgoing@, final(self).outgoing@, true, op, payload@, key@),
            final(self).state == old(self).state,
            final(self).events@ == old(self).events@,
            final(self).reassembler == old(self).reassembler,
            final(self).close_info == old(self).close_info,
            final(self).max_outgoing == old(self).max_outgoing,
    {
        match encode_masked(op, payload, true, key) {
            Ok(bytes) => {
                self.outgoing.push(bytes);
                assert(self.outgoing@.subrange(0, old(self).outgoing@.len() as int) =~= old(self).outgoing@);
            },
            Err(_) => {
                assert(false);
            },
        }
    }

    /// Sends `data` as one whole message of the given opcode, masked with
    /// `key`. Only an open connection sends; a control message carries at
    /// most 125 bytes; a full queue refuses. A refused send queues nothing.
    pub fn send_with_key(&mut self, opcode: Opcode, data: &Vec<u8>, key: [u8; 4]) -> (r: Result<(), SendError>)
        requires
            old(self).wf(),
            data@.len() <= MAX_PAYLOAD,
        ensures
            final(self).wf(),
            final(self).state == old(self).state,
            final(self).events@ == old(self).events@,
            final(self).reassembler == old(self).reassembler,
            final(self).close_info == old(self).close_info,
            final(self).max_outgoing == old(self).max_outgoing,
            match send_refusal(old(self).state, opcode, data@.len(), old(self).outgoing@.len(), old(self).max_outgoing as nat) {
                Some(e) => r == Err::<(), SendError>(e) && final(self).outgoing@ == old(self).outgoing@,
                None => r is Ok && queued_frame(old(self).outgoing@, final(self).outgoing@, true, opcode, data@, key@),
            },
    {
        match self.state {
            ConnectionState::Open => {},
            _ => {
                return Err(SendError::InvalidState);
            },
        }
        if is_control_opcode(opcode) && data.len() > 125 {
            return Err(SendError::PayloadTooLarge);
        }
        if self.outgoing.len() >= self.max_outgoing {
            return Err(SendError::Backpressure);
        }
        self.queue_frame(opcode, data, key);
        Ok(())
    }

    /// Sends `data` as one whole message under a fresh mask key, which stands
    /// in the queued frame's key field.
    pub fn send(&mut self, opcode: Opcode, data: &Vec<u8>) -> (r: Result<(), SendError>)
        requires
            old(self).wf(),
            data@.len() <= MAX_PAYLOAD,
        ensures
            final(self).wf(),
            final(self).state == old(self).state,
            final(self).events@ == old(self).events@,
            final(self).reassembler == old(self).reassembler,
            final(self).close_info == old(self).close_info,
            final(self).max_outgoing == old(self).max_outgoing,
            match send_refusal(old(self).state, opcode, data@.len(), old(self).outgoing@.len(), old(self).max_outgoing as nat) {
                Some(e) => r == Err::<(), SendError>(e) && final(self).outgoing@ == old(self).outgoing@,
                None => r is Ok && queued_frame(old(self).outgoing@, final(self).outgoing@, true, opcode, data@, frame_key(final(self).outgoing@.last()@)),
            },
    {
        let key = random_mask_key();
        let r = self.send_with_key(opcode, data, key);
        proof {
            if r is Ok {
                lemma_client_frame_fields(self.outgoing@.last()@, true, opcode, data@, key@);
            }
        }
        r
    }

    /// Starts the closing handshake: queues a Close frame with `code` and
    /// `reason` masked with `key`, and the connection is closing. Only an open
    /// connection closes this way, with a reason of at most 123 bytes (so
    /// the payload fits a control frame) and a code an endpoint may send.
    pub fn close_with_key(&mut self, code: u16, reason: &Vec<u8>, key: [u8; 4]) -> (r: Result<(), SendError>)
        requires
            old(self).wf(),
        ensures
            final(self).wf(),
            final(self).events@ == old(self).events@,
            final(self).reassembler == old(self).reassembler,
            final(self).max_outgoing == old(self).max_outgoing,
            match close_refusal(old(self).state, code, reason@.len()) {
                Some(e) => {
                    &&& r == Err::<(), SendError>(e)
                    &&& final(self).outgoing@ == old(self).outgoing@
                    &&& final(self).state == old(self).state
                    &&& final(self).close_info == old(self).close_info
                },
                None => {
                    &&& r is Ok
                    &&& final(self).state is Closing
                    &&& final(self).close_info matches Some(i) && i.code == code && i.reason@ == reason@
                    &&& queued_frame(old(self).outgoing@, final(self).outgoing@, true, Opcode::Close, close_payload(code, reason@), key@)
                },
            },
    {
        match self.state {
            ConnectionState::Open => {},
            _ => {
                return Err(SendError::InvalidState);
            },
        }
        if reason.len() > MAX_CLOSE_REASON {
            return Err(SendError::PayloadTooLarge);
        }
        if !is_valid_close_code(code) {
            return Err(SendError::InvalidCode);
        }
        let payload = close_payload_bytes(code, reason);
        self.queue_frame(Opcode::Close, &payload, key);
        self.state = ConnectionState::Closing;
        self.close_info = Some(CloseInfo { code, reason: copy_bytes(reason) });
        Ok(())
    }

    /// Starts the closing handshake under a fresh mask key.
    pub fn close(&mut self, code: u16, reason: &Vec<u8>) -> (r: Result<(), SendError>)
        requires
            old(self).wf(),
        ensures
            final(self).wf(),
            final(self).events@ == old(self).events@,
            final(self).reassembler == old(self).reassembler,
            final(self).max_outgoing == old(self).max_outgoing,
            match close_refusal(old(self).state, code, reason@.len()) {
                Some(e) => {
                    &&& r == Err::<(), SendError>(e)
                    &&& final(self).outgoing@ == old(self).outgoing@
                    &&& final(self).state == old(self).state
                    &&& final(self).close_info == old(self).close_info
                },
                None => {
                    &&& r is Ok
                    &&& final(self).state is Closing
                    &&& final(self).close_info matches Some(i) && i.code == code && i.reason@ == reason@
                    &&& queued_frame(old(self).outgoing@, final(self).outgoing@, true, Opcode::Close, close_payload(code, reason@), frame_key(final(self).outgoing@.last()@))
                },
            },
    {
        let key = random_mask_key();
        let r = self.close_with_key(code, reason, key);
        proof {
            if r is Ok {
                lemma_client_frame_fields(self.outgoing@.last()@, true, Opcode::Close, close_payload(code, reason@), key@);
            }
        }
        r
    }

    /// Takes the oldest frame waiting for the transport.
    pub fn pop_outgoing(&mut self) -> (r: Option<Vec<u8>>)
        requires
            old(self).wf(),
        ensures
            final(self).wf(),
            final(self).state == old(self).state,
            final(self).events@ == old(self).events@,
            final(self).reassembler == old(self).reassembler,
            final(self).close_info == old(self).close_info,
            final(self).max_outgoing == old(self).max_outgoing,
            old(self).outgoing@.len() == 0 ==> r is None && final(self).outgoing@ == old(self).outgoing@,
            old(self).outgoing@.len() > 0 ==> r == Some(old(self).outgoing@[0]) && final(self).outgoing@ == old(self).outgoing@.drop_first(),
    {
        if self.outgoing.len() == 0 {
            return None;
        }
        let f = self.outgoing.remove(0);
        assert(self.outgoing@ =~= old(self).outgoing@.drop_first());
        Some(f)
    }

    /// Takes the oldest event waiting for the application.
    pub fn pop_event(&mut self) -> (r: Option<Event>)
        requires
            old(self).wf(),
        ensures
            final(self).wf(),
            final(self).state == old(self).state,
            final(self).outgoing@ == old(self).outgoing@,
            final(self).reassembler == old(self).reassembler,
            final(self).close_info == old(self).close_info,
            final(self).max_outgoing == old(self).max_outgoing,
            old(self).events@.len() == 0 ==> r is None && final(self).events@ == old(self).events@,
            old(self).events@.len() > 0 ==> r == Some(old(self).events@[0]) && final(self).events@ == old(self).events@.drop_first(),
    {
        if self.events.len() == 0 {
            return None;
        }
        let e = self.events.remove(0);
        assert(self.events@ =~= old(self).events@.drop_first());
        Some(e)
    }
    /// Fails the connection on a protocol error.
    fn fail(&mut self, e: ProtocolError, key: [u8; 4])
        requires
            old(self).wf(),
        ensures
            final(self).wf(),
            final(self).reassembler == old(self).reassembler,
            fail_post(*old(self), *final(self), e, key@),
    {
        let code = failure_close_code(e);
        if let ConnectionState::Open = self.state {
            let empty: Vec<u8> = Vec::new();
            let payload = close_payload_bytes(code, &empty);
            assert(close_payload(code, Seq::empty()) =~= payload@);
            self.queue_frame(Opcode::Close, &payload, key);
        }
        self.state = ConnectionState::Closed;
        let ghost before = self.events@;
        self.events.push(Event::Error(ConnectionError::Protocol(e)));
        self.events.push(Event::Close(CloseInfo { code, reason: Vec::new() }));
        assert(self.events@.subrange(0, before.len() as int) =~= before);
    }

    /// The peer's bytes broke the protocol before a frame could be read: an
    /// open or closing connection fails with the error's close code; any
    /// other is left alone.
    pub fn protocol_failure(&mut self, e: ProtocolError)
        requires
            old(self).wf(),
        ensures
            final(self).wf(),
            final(self).reassembler == old(self).reassembler,
            (old(self).state is Open || old(self).state is Closing) ==> exists|key: Seq<u8>|
                key.len() == 4 && #[trigger] fail_post(*old(self), *final(self), e, key),
            !(old(self).state is Open || old(self).state is Closing) ==> *final(self) == *old(self),
    {
        match self.state {
            ConnectionState::Open | ConnectionState::Closing => {
                let key = random_mask_key();
                self.fail(e, key);
                assert(key@.len() == 4);
            },
            _ => {},
        }
    }

    /// Reads the frame at the front of `inbox`, as sent by a server, and
    /// acts on it; returns how many bytes it used. An incomplete frame uses
    /// nothing and changes nothing; bytes the protocol forbids fail the
    /// connection and use the whole inbox. A connection that is not open or
    /// closing reads nothing.
    pub fn receive_next(&mut self, inbox: &Vec<u8>) -> (r: usize)
        requires
            old(self).wf(),
        ensures
            final(self).wf(),
            !(old(self).state is Open || old(self).state is Closing) ==> r == 0 && *final(self)
                == *old(self),
            (old(self).state is Open || old(self).state is Closing) ==> match frame_error(inbox@, true) {
                Some(DecodeError::NeedMoreData) => r == 0 && *final(self) == *old(self),
                Some(DecodeError::Protocol(e)) => {
                    &&& r == inbox@.len()
                    &&& final(self).reassembler == old(self).reassembler
                    &&& exists|key: Seq<u8>| key.len() == 4 && #[trigger] fail_post(*old(self), *final(self), e, key)
                },
                None => {
                    &&& r == frame_len(inbox@)
                    &&& exists|key: Seq<u8>| key.len() == 4 && #[trigger] frame_post(*old(self), *final(self), b_fin(inbox@), b_opcode(inbox@)->0, frame_payload(inbox@), key)
                },
            },
    {
        match self.state {
            ConnectionState::Open | ConnectionState::Closing => {},
            _ => {
                return 0;
            },
        }
        match decode(inbox, true) {
            Ok((f, n)) => {
                let ghost fin = f.fin;
                let ghost op = f.opcode;
                let ghost pl = f.payload@;
                let ghost before = *self;
                self.receive(f);
                proof {
                    let k = choose|k: Seq<u8>| k.len() == 4 && frame_post(before, *self, fin, op, pl, k);
                    assert(frame_post(before, *self, b_fin(inbox@), b_opcode(inbox@)->0, frame_payload(inbox@), k));
                }
                n
            },
            Err(DecodeError::NeedMoreData) => 0,
            Err(DecodeError::Protocol(e)) => {
                self.protocol_failure(e);
                inbox.len()
            },
        }
    }

    /// Acts on a complete message or a control frame.
    fn dispatch(&mut self, m: Message, key: [u8; 4])
        requires
            old(self).wf(),
        ensures
            final(self).wf(),
            final(self).reassembler == old(self).reassembler,
            dispatch_post(*old(self), *final(self), m.opcode, m.payload@, key@),
    {
        let ghost before = self.events@;
        match m.opcode {
            Opcode::Text | Opcode::Binary => {
                self.events.push(Event::Message(m));
                assert(self.events@.subrange(0, before.len() as int) =~= before);
            },
            Opcode::Ping => {
                if m.payload.len() > 125 {
                    self.fail(ProtocolError::ControlTooLong, key);
                } else {
                    self.queue_frame(Opcode::Pong, &m.payload, key);
                }
            },
            Opcode::Close => {
                if m.payload.len() > 125 {
                    self.fail(ProtocolError::ControlTooLong, key);
                    return;
                }
                let (code, reason) = parse_close_payload(&m.payload);
                let info = match &self.close_info {
                    Some(i) => CloseInfo { code: i.code, reason: copy_bytes(&i.reason) },
                    None => CloseInfo { code, reason },
                };
                match self.state {
                    ConnectionState::Open => {
                        let echo = if m.payload.len() >= 2 && is_valid_close_code(code) {
                            code
                        } else {
                            NORMAL_CLOSURE
                        };
                        let empty: Vec<u8> = Vec::new();
                        let payload = close_payload_bytes(echo, &empty);
                        self.queue_frame(Opcode::Close, &payload, key);
                        assert(close_payload(echo, Seq::empty()) =~= payload@);
                        self.state = ConnectionState::Closing;
                        self.close_info = Some(info);
                    },
                    _ => {
                        let kept = CloseInfo { code: info.code, reason: copy_bytes(&info.reason) };
                        self.state = ConnectionState::Closed;
                        self.close_info = Some(kept);
                        self.events.push(Event::Close(info));
                        assert(self.events@.subrange(0, before.len() as int) =~= before);
                    },
                }
            },
            _ => {},
        }
    }

    /// Takes one frame decoded from the peer, masking any reply with `key`.
    /// Only an open or closing connection reads frames, and a closing one
    /// discards data frames. Control frames are acted on at once: a Ping is
    /// answered by a Pong with its payload, a Close is echoed (with its code
    /// if valid, else 1000) while open and ends the closing handshake while
    /// closing. Data frames join the message in progress; a complete message
    /// goes to the application; a violation fails the connection.
    pub fn receive_with_key(&mut self, frame: Frame, key: [u8; 4])
        requires
            old(self).wf(),
        ensures
            final(self).wf(),
            final(self).reassembler.max_size == old(self).reassembler.max_size,
            !(old(self).state is Open || old(self).state is Closing) ==> *final(self) == *old(self),
            (old(self).state is Open || old(self).state is Closing) && frame.mask_key is Some ==> {
                &&& fail_post(*old(self), *final(self), ProtocolError::MaskedFrame, key@)
                &&& final(self).reassembler == old(self).reassembler
            },
            (old(self).state is Open || old(self).state is Closing) && frame.mask_key is None
                ==> frame_post(*old(self), *final(self), frame.fin, frame.opcode, frame.payload@, key@),
    {
        match self.state {
            ConnectionState::Open | ConnectionState::Closing => {},
            _ => {
                return;
            },
        }
        if frame.mask_key.is_some() {
            self.fail(ProtocolError::MaskedFrame, key);
            return;
        }
        if let ConnectionState::Closing = self.state {
            if !is_control_opcode(frame.opcode) {
                return;
            }
        }
        match self.reassembler.feed(frame) {
            Err(e) => self.fail(e, key),
            Ok(None) => {},
            Ok(Some(m)) => self.dispatch(m, key),
        }
    }

    /// Takes one frame decoded from the peer; any reply goes out under a
    /// fresh mask key.
    pub fn receive(&mut self, frame: Frame)
        requires
            old(self).wf(),
        ensures
            final(self).wf(),
            final(self).reassembler.max_size == old(self).reassembler.max_size,
            !(old(self).state is Open || old(self).state is Closing) ==> *final(self) == *old(self),
            (old(self).state is Open || old(self).state is Closing) && frame.mask_key is Some ==> {
                &&& final(self).reassembler == old(self).reassembler
                &&& exists|key: Seq<u8>| key.len() == 4 && #[trigger] fail_post(*old(self), *final(self), ProtocolError::MaskedFrame, key)
            },
            (old(self).state is Open || old(self).state is Closing) && frame.mask_key is None
                ==> exists|key: Seq<u8>| key.len() == 4 && #[trigger] frame_post(*old(self), *final(self), frame.fin, frame.opcode, frame.payload@, key),
    {
        let key = random_mask_key();
        self.receive_with_key(frame, key);
        assert(key@.len() == 4);
    }
}

} // verus!
