use vstd::prelude::*;

use crate::connection::{
    close_payload, close_refusal, queued_frame, send_refusal, Connection, ConnectionState,
    SendError,
};
use crate::frame::{frame_key, Opcode, MAX_PAYLOAD};
use crate::handshake::{base64_standard, build_request, generate_key, request_bytes, Target};
use vstd::string::StringSliceAdditionalSpecFns;
use vstd::utf8::encode_utf8;

verus! {

/// What `url::Url::parse` makes of a text, if it parses: the scheme, whether
/// a fragment is present, the host, the port (explicit or the scheme's
/// default), the path and the query.
pub uninterp spec fn url_parts(s: Seq<char>) -> Option<
    (Seq<char>, bool, Option<Seq<char>>, Option<u16>, Seq<char>, Option<Seq<char>>),
>;

/// The parts of a parsed URL that a connection target is made from.
pub struct UrlParts {
    pub scheme: String,
    pub fragment: bool,
    pub host: Option<String>,
    pub port: Option<u16>,
    pub path: String,
    pub query: Option<String>,
}

pub open spec fn opt_view(o: Option<String>) -> Option<Seq<char>> {
    match o {
        Some(t) => Some(t@),
        None => None,
    }
}

pub open spec fn parts_view(p: UrlParts) -> (
    Seq<char>,
    bool,
    Option<Seq<char>>,
    Option<u16>,
    Seq<char>,
    Option<Seq<char>>,
) {
    (p.scheme@, p.fragment, opt_view(p.host), p.port, p.path@, opt_view(p.query))
}

/// Relies on url::Url::parse and the accessors scheme, fragment, host_str,
/// port_or_known_default, path and query; the result depends on the text
/// alone, and parsing does not panic.
#[verifier::external_body]
fn parse_url(s: &str) -> (r: Option<UrlParts>)
    ensures
        match url_parts(s@) {
            None => r is None,
            Some(t) => r matches Some(p) && parts_view(p) == t,
        },
{
    url::Url::parse(s).ok().map(|u| UrlParts {
        scheme: u.scheme().to_string(),
        fragment: u.fragment().is_some(),
        host: u.host_str().map(|h| h.to_string()),
        port: u.port_or_known_default(),
        path: u.path().to_string(),
        query: u.query().map(|q| q.to_string()),
    })
}

/// Why a URL cannot be the target of a WebSocket connection.
#[derive(Clone, Copy, Debug, PartialEq, Eq, Structural)]
pub enum UrlError {
    Syntax,
    BadScheme,
    Fragment,
    MissingHost,
    MissingPort,
}

/// Whether two strings hold the same bytes.
pub fn str_is(a: &str, b: &str) -> (r: bool)
    ensures
        r == (a.spec_bytes() == b.spec_bytes()),
{
    let x = a.as_bytes();
    let y = b.as_bytes();
    if x.len() != y.len() {
        return false;
    }
    let mut i: usize = 0;
    while i < x.len()
        invariant
            i <= x@.len(),
            x@ == a.spec_bytes(),
            y@ == b.spec_bytes(),
            x@.len() == y@.len(),
            forall|j: int| 0 <= j < i ==> x@[j] == y@[j],
        decreases x@.len() - i,
    {
        if x[i] != y[i] {
            return false;
        }
        i = i + 1;
    }
    assert(x@ =~= y@);
    true
}

fn str_bytes(s: &str) -> (r: Vec<u8>)
    ensures
        r@ == s.spec_bytes(),
{
    let mut r: Vec<u8> = Vec::new();
    crate::handshake::append_str(&mut r, s);
    assert(r@ =~= s.spec_bytes());
    r
}

/// What the parts of a parsed URL make of a connection target, or why
/// they make none, checked in this order.
pub open spec fn target_error(
    scheme: Seq<u8>,
    fragment: bool,
    host: bool,
    port: bool,
) -> Option<UrlError> {
    if scheme != "ws".spec_bytes() && scheme != "wss".spec_bytes() {
        Some(UrlError::BadScheme)
    } else if fragment {
        Some(UrlError::Fragment)
    } else if !host {
        Some(UrlError::MissingHost)
    } else if !port {
        Some(UrlError::MissingPort)
    } else {
        None
    }
}

/// The resource a request names: the path, then '?' and the query if any.
pub open spec fn resource_of(path: Seq<u8>, query: Option<Seq<u8>>) -> Seq<u8> {
    match query {
        Some(q) => path + "?".spec_bytes() + q,
        None => path,
    }
}

/// The fields of a target: secure, host, port, resource.
pub open spec fn target_view(t: Target) -> (bool, Seq<u8>, u16, Seq<u8>) {
    (t.secure, t.host@, t.port, t.resource@)
}

/// The target the parts of a parsed URL make: scheme ws or wss, no fragment,
/// a host and a port.
pub open spec fn target_of(
    t: (Seq<char>, bool, Option<Seq<char>>, Option<u16>, Seq<char>, Option<Seq<char>>),
) -> Result<(bool, Seq<u8>, u16, Seq<u8>), UrlError> {
    let scheme = encode_utf8(t.0);
    match target_error(scheme, t.1, t.2 is Some, t.3 is Some) {
        Some(e) => Err(e),
        None => Ok(
            (
                scheme == "wss".spec_bytes(),
                encode_utf8(t.2->0),
                t.3->0,
                resource_of(
                    encode_utf8(t.4),
                    match t.5 {
                        Some(q) => Some(encode_utf8(q)),
                        None => None,
                    },
                ),
            ),
        ),
    }
}

/// The target a URL text resolves to.
pub open spec fn resolved(s: Seq<char>) -> Result<(bool, Seq<u8>, u16, Seq<u8>), UrlError> {
    match url_parts(s) {
        None => Err(UrlError::Syntax),
        Some(t) => target_of(t),
    }
}

/// Makes a connection target from the parts of a parsed URL.
pub fn target_from_parts(p: &UrlParts) -> (r: Result<Target, UrlError>)
    ensures
        match target_of(parts_view(*p)) {
            Err(e) => r == Err::<Target, UrlError>(e),
            Ok(v) => r matches Ok(t) && target_view(t) == v,
        },
{
    let scheme = p.scheme.as_str();
    let secure = str_is(scheme, "wss");
    if !secure && !str_is(scheme, "ws") {
        return Err(UrlError::BadScheme);
    }
    if p.fragment {
        return Err(UrlError::Fragment);
    }
    let h = match &p.host {
        Some(h) => h.as_str(),
        None => {
            return Err(UrlError::MissingHost);
        },
    };
    let port = match p.port {
        Some(n) => n,
        None => {
            return Err(UrlError::MissingPort);
        },
    };
    let mut resource = str_bytes(p.path.as_str());
    match &p.query {
        Some(q) => {
            crate::handshake::append_str(&mut resource, "?");
            crate::handshake::append_str(&mut resource, q.as_str());
        },
        None => {},
    }
    Ok(Target { secure, host: str_bytes(h), port, resource })
}

/// Resolves a URL given as text into a connection target.
pub fn resolve_url(url: &str) -> (r: Result<Target, UrlError>)
    ensures
        match resolved(url@) {
            Err(e) => r == Err::<Target, UrlError>(e),
            Ok(v) => r matches Ok(t) && target_view(t) == v,
        },
{
    match parse_url(url) {
        Some(p) => target_from_parts(&p),
        None => Err(UrlError::Syntax),
    }
}

/// Largest message a WebSocket object accepts from its peer.
pub const MAX_MESSAGE: usize = 0x100_0000;

/// Most frames a WebSocket object holds for its transport.
pub const MAX_QUEUED: usize = 1024;

/// A client WebSocket: the URL it was made with, where it connects, the key
/// of its opening handshake, and its connection.
pub struct WebSocket {
    pub url: String,
    pub target: Target,
    pub key: Vec<u8>,
    pub connection: Connection,
}

impl WebSocket {
    pub open spec fn wf(&self) -> bool {
        self.connection.wf()
    }

    /// A WebSocket for `url` at `target` whose handshake uses `key`; its
    /// connection waits for the handshake.
    #[allow(non_snake_case)]
    pub fn new_inherited(url: String, target: Target, key: Vec<u8>) -> (r: WebSocket)
        ensures
            r.wf(),
            r.url@ == url@,
            r.target == target,
            r.key@ == key@,
            r.connection.state is Connecting,
            r.connection.outgoing@.len() == 0,
            r.connection.events@.len() == 0,
            r.connection.reassembler.max_size == MAX_MESSAGE,
            r.connection.max_outgoing == MAX_QUEUED,
            r.connection.reassembler.is_idle(),
            r.connection.close_info is None,
    {
        WebSocket { url, target, key, connection: Connection::new(MAX_MESSAGE, MAX_QUEUED) }
    }

    /// A WebSocket for `url` with a fresh handshake key, or why the URL
    /// names no WebSocket endpoint.
    pub fn new(url: String) -> (r: Result<WebSocket, UrlError>)
        ensures
            match resolved(url@) {
                Err(e) => r matches Err(x) && x == e,
                Ok(v) => r matches Ok(ws) && {
                    &&& ws.wf()
                    &&& ws.url@ == url@
                    &&& target_view(ws.target) == v
                    &&& exists|n: Seq<u8>| n.len() == 16 && ws.key@ == base64_standard(n)
                    &&& ws.connection.state is Connecting
                    &&& ws.connection.outgoing@.len() == 0
                    &&& ws.connection.events@.len() == 0
                    &&& ws.connection.reassembler.is_idle()
                    &&& ws.connection.reassembler.max_size == MAX_MESSAGE
                    &&& ws.connection.max_outgoing == MAX_QUEUED
                    &&& ws.connection.close_info is None
                },
            },
    {
        let target = match resolve_url(url.as_str()) {
            Ok(t) => t,
            Err(e) => {
                return Err(e);
            },
        };
        let key = generate_key();
        Ok(WebSocket::new_inherited(url, target, key))
    }

    /// The constructor scripts call: the same as `new`.
    #[allow(non_snake_case)]
    pub fn Constructor(url: String) -> (r: Result<WebSocket, UrlError>)
        ensures
            match resolved(url@) {
                Err(e) => r matches Err(x) && x == e,
                Ok(v) => r matches Ok(ws) && {
                    &&& ws.wf()
                    &&& ws.url@ == url@
                    &&& target_view(ws.target) == v
                    &&& exists|n: Seq<u8>| n.len() == 16 && ws.key@ == base64_standard(n)
                    &&& ws.connection.state is Connecting
                    &&& ws.connection.outgoing@.len() == 0
                    &&& ws.connection.events@.len() == 0
                    &&& ws.connection.reassembler.is_idle()
                    &&& ws.connection.reassembler.max_size == MAX_MESSAGE
                    &&& ws.connection.max_outgoing == MAX_QUEUED
                    &&& ws.connection.close_info is None
                },
            },
    {
        WebSocket::new(url)
    }

    /// The opening handshake request, offering no subprotocol.
    pub fn handshake_request(&self) -> (r: Vec<u8>)
        ensures
            r@ == request_bytes(self.target, self.key@, Seq::empty()),
    {
        let none: Vec<Vec<u8>> = Vec::new();
        assert(none@ =~= Seq::<Vec<u8>>::empty());
        build_request(&self.target, &self.key, &none)
    }

    /// Sends a text message as one masked Text frame under a fresh key. Only
    /// an open connection sends; a refused send is reported and queues nothing.
    #[allow(non_snake_case)]
    pub fn Send(&mut self, message: &String) -> (r: Result<(), SendError>)
        requires
            old(self).wf(),
        ensures
            final(self).wf(),
            final(self).url == old(self).url,
            final(self).target == old(self).target,
            final(self).key == old(self).key,
            final(self).connection.state == old(self).connection.state,
            final(self).connection.events@ == old(self).connection.events@,
            final(self).connection.reassembler == old(self).connection.reassembler,
            final(self).connection.close_info == old(self).connection.close_info,
            final(self).connection.max_outgoing == old(self).connection.max_outgoing,
            ({
                let data = encode_utf8(message@);
                let c = old(self).connection;
                let refusal = if !(c.state is Open) {
                    Some(SendError::InvalidState)
                } else if data.len() > MAX_PAYLOAD {
                    Some(SendError::PayloadTooLarge)
                } else {
                    send_refusal(c.state, Opcode::Text, data.len(), c.outgoing@.len(), c.max_outgoing as nat)
                };
                match refusal {
                    Some(e) => r == Err::<(), SendError>(e) && final(self).connection.outgoing@ == c.outgoing@,
                    None => r is Ok && queued_frame(
                        c.outgoing@,
                        final(self).connection.outgoing@,
                        true,
                        Opcode::Text,
                        data,
                        frame_key(final(self).connection.outgoing@.last()@),
                    ),
                }
            }),
    {
        let bytes = message.as_str().as_bytes();
        let mut data: Vec<u8> = Vec::new();
        let mut i: usize = 0;
        while i < bytes.len()
            invariant
                i <= bytes@.len(),
                data@ == bytes@.subrange(0, i as int),
            decreases bytes@.len() - i,
        {
            data.push(bytes[i]);
            i = i + 1;
            assert(data@ =~= bytes@.subrange(0, i as int));
        }
        assert(data@ =~= bytes@);
        if data.len() as u64 > MAX_PAYLOAD {
            return match self.connection.state {
                ConnectionState::Open => Err(SendError::PayloadTooLarge),
                _ => Err(SendError::InvalidState),
            };
        }
        self.connection.send(Opcode::Text, &data)
    }

    /// Starts the closing handshake with `code` and `reason` under a fresh
    /// mask key. Only an open socket closes this way, with a Close payload of
    /// at most 125 bytes and a code an endpoint may send; a refused request
    /// changes nothing.
    #[allow(non_snake_case)]
    pub fn Close(&mut self, code: u16, reason: &Vec<u8>) -> (r: Result<(), SendError>)
        requires
            old(self).wf(),
        ensures
            final(self).wf(),
            final(self).url == old(self).url,
            final(self).target == old(self).target,
            final(self).key == old(self).key,
            final(self).connection.events@ == old(self).connection.events@,
            final(self).connection.reassembler == old(self).connection.reassembler,
            final(self).connection.max_outgoing == old(self).connection.max_outgoing,
            match close_refusal(old(self).connection.state, code, reason@.len()) {
                Some(e) => {
                    &&& r == Err::<(), SendError>(e)
                    &&& final(self).connection.outgoing@ == old(self).connection.outgoing@
                    &&& final(self).connection.state == old(self).connection.state
                    &&& final(self).connection.close_info == old(self).connection.close_info
                },
                None => {
                    &&& r is Ok
                    &&& final(self).connection.state is Closing
                    &&& final(self).connection.close_info matches Some(i) && i.code == code
                        && i.reason@ == reason@
                    &&& queued_frame(
                        old(self).connection.outgoing@,
                        final(self).connection.outgoing@,
                        true,
                        Opcode::Close,
                        close_payload(code, reason@),
                        frame_key(final(self).connection.outgoing@.last()@),
                    )
                },
            },
    {
        self.connection.close(code, reason)
    }

    /// The URL the WebSocket was made with.
    #[allow(non_snake_case)]
    pub fn Url(&self) -> (r: String)
        ensures
            r@ == self.url@,
    {
        self.url.clone()
    }
}

} // verus!
