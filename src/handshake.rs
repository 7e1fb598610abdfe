use vstd::prelude::*;

use crate::frame::{append_bytes, copy_bytes, random_byte};
use vstd::string::StringSliceAdditionalSpecFns;

verus! {

/// The fixed string a server appends to the client's key before hashing.
pub const WEBSOCKET_GUID: &'static str = "258EAFA5-E914-47DA-95CA-C5AB0DC85B11";

/// The SHA-1 digest of `b`, as `sha1::Sha1::digest` computes it.
pub uninterp spec fn sha1_digest(b: Seq<u8>) -> Seq<u8>;

/// The character of the standard base64 alphabet for a six-bit value.
pub open spec fn base64_char(v: int) -> u8 {
    if v < 26 {
        (65 + v) as u8
    } else if v < 52 {
        (97 + v - 26) as u8
    } else if v < 62 {
        (48 + v - 52) as u8
    } else if v == 62 {
        43
    } else {
        47
    }
}

/// The padded standard base64 text of `b`, as bytes: each group of three
/// bytes becomes four characters, and a final group of one or two bytes is
/// padded with '='.
pub open spec fn base64_standard(b: Seq<u8>) -> Seq<u8>
    decreases b.len(),
{
    if b.len() == 0 {
        Seq::empty()
    } else if b.len() == 1 {
        seq![base64_char((b[0] as int) / 4), base64_char(((b[0] as int) % 4) * 16), 61u8, 61u8]
    } else if b.len() == 2 {
        seq![
            base64_char((b[0] as int) / 4),
            base64_char(((b[0] as int) % 4) * 16 + (b[1] as int) / 16),
            base64_char(((b[1] as int) % 16) * 4),
            61u8,
        ]
    } else {
        seq![
            base64_char((b[0] as int) / 4),
            base64_char(((b[0] as int) % 4) * 16 + (b[1] as int) / 16),
            base64_char(((b[1] as int) % 16) * 4 + (b[2] as int) / 64),
            base64_char((b[2] as int) % 64),
        ] + base64_standard(b.subrange(3, b.len() as int))
    }
}

/// Relies on sha1's `Digest::digest`: the 20-byte SHA-1 digest of the input.
#[verifier::external_body]
fn sha1(b: &Vec<u8>) -> (r: Vec<u8>)
    ensures
        r@ == sha1_digest(b@),
        r@.len() == 20,
{
    <sha1::Sha1 as sha1::Digest>::digest(b.as_slice()).to_vec()
}

/// Relies on base64's `Engine::encode` with the STANDARD engine (standard
/// alphabet, padded): four characters for each started group of three bytes.
/// It panics only when the output length overflows.
#[verifier::external_body]
fn base64_encode(b: &Vec<u8>) -> (r: Vec<u8>)
    requires
        b@.len() <= 0x3000_0000,
    ensures
        r@ == base64_standard(b@),
        r@.len() == 4 * ((b@.len() + 2) / 3),
{
    base64::Engine::encode(&base64::engine::general_purpose::STANDARD, b.as_slice()).into_bytes()
}

/// The bytes of the handshake GUID.
pub open spec fn guid_bytes() -> Seq<u8> {
    WEBSOCKET_GUID.spec_bytes()
}

/// The `Sec-WebSocket-Accept` value a server owes for `key`.
pub open spec fn expected_accept(key: Seq<u8>) -> Seq<u8> {
    base64_standard(sha1_digest(key + guid_bytes()))
}

/// Appends the bytes of `s` to `out`.
pub fn append_str(out: &mut Vec<u8>, s: &str)
    ensures
        final(out)@ == old(out)@ + s.spec_bytes(),
{
    let b = s.as_bytes();
    let mut i: usize = 0;
    while i < b.len()
        invariant
            i <= b@.len(),
            b@ == s.spec_bytes(),
            out@ == old(out)@ + b@.subrange(0, i as int),
        decreases b@.len() - i,
    {
        out.push(b[i]);
        i = i + 1;
        assert(out@ =~= old(out)@ + b@.subrange(0, i as int));
    }
    assert(b@.subrange(0, b@.len() as int) =~= b@);
}

/// The `Sec-WebSocket-Accept` value for `key`: base64 of the SHA-1 digest of
/// the key followed by the handshake GUID.
pub fn accept_key(key: &Vec<u8>) -> (r: Vec<u8>)
    ensures
        r@ == expected_accept(key@),
{
    let mut input: Vec<u8> = Vec::new();
    append_bytes(&mut input, key);
    append_str(&mut input, WEBSOCKET_GUID);
    assert(input@ =~= key@ + guid_bytes());
    let digest = sha1(&input);
    base64_encode(&digest)
}

/// A fresh `Sec-WebSocket-Key`: base64 of sixteen unpredictable bytes.
pub fn generate_key() -> (r: Vec<u8>)
    ensures
        exists|nonce: Seq<u8>| nonce.len() == 16 && r@ == base64_standard(nonce),
{
    let mut nonce: Vec<u8> = Vec::new();
    let mut i: usize = 0;
    while i < 16
        invariant
            i <= 16,
            nonce@.len() == i,
        decreases 16 - i,
    {
        nonce.push(random_byte());
        i = i + 1;
    }
    let r = base64_encode(&nonce);
    assert(nonce@.len() == 16 && r@ == base64_standard(nonce@));
    r
}

/// One header line of the server's response.
#[derive(Clone, Debug, PartialEq, Eq)]
pub struct Header {
    pub name: Vec<u8>,
    pub value: Vec<u8>,
}

/// The status code and headers of the server's response.
#[derive(Clone, Debug, PartialEq, Eq)]
pub struct Response {
    pub status: u16,
    pub headers: Vec<Header>,
}

/// Why the server's response does not complete the handshake.
#[derive(Clone, Copy, Debug, PartialEq, Eq, Structural)]
pub enum HandshakeError {
    Incomplete,
    Malformed,
    BadStatus,
    AcceptMismatch,
    UnsupportedSubprotocol,
}

pub open spec fn ascii_lower(c: u8) -> u8 {
    if 65 <= c <= 90 {
        (c + 32) as u8
    } else {
        c
    }
}

/// Equal up to ASCII letter case.
pub open spec fn same_ignoring_case(a: Seq<u8>, b: Seq<u8>) -> bool {
    a.len() == b.len() && forall|i: int| 0 <= i < a.len() ==> ascii_lower(a[i]) == ascii_lower(b[i])
}

/// `i` is the first header named `name`, ignoring case.
pub open spec fn first_header(hs: Seq<Header>, name: Seq<u8>, i: int) -> bool {
    &&& 0 <= i < hs.len()
    &&& same_ignoring_case(hs[i].name@, name)
    &&& forall|j: int| 0 <= j < i ==> !same_ignoring_case(#[trigger] hs[j].name@, name)
}

pub open spec fn no_header(hs: Seq<Header>, name: Seq<u8>) -> bool {
    forall|j: int| 0 <= j < hs.len() ==> !same_ignoring_case(#[trigger] hs[j].name@, name)
}

/// The value of the first header named `name`, ignoring case.
pub open spec fn header_value(hs: Seq<Header>, name: Seq<u8>) -> Option<Seq<u8>> {
    if no_header(hs, name) {
        None
    } else {
        Some(hs[choose|i: int| first_header(hs, name, i)].value@)
    }
}

pub open spec fn offered(protocols: Seq<Vec<u8>>, p: Seq<u8>) -> bool {
    exists|k: int| 0 <= k < protocols.len() && #[trigger] protocols[k]@ == p
}

pub open spec fn accept_name() -> Seq<u8> {
    "sec-websocket-accept".spec_bytes()
}

pub open spec fn protocol_name() -> Seq<u8> {
    "sec-websocket-protocol".spec_bytes()
}

/// What a response means, given the accept value owed: the subprotocol the
/// server chose, if any, or why the handshake fails.
pub open spec fn response_outcome(accept: Seq<u8>, resp: Response, protocols: Seq<Vec<u8>>) -> Result<
    Option<Seq<u8>>,
    HandshakeError,
> {
    let hs = resp.headers@;
    if resp.status != 101 {
        Err(HandshakeError::BadStatus)
    } else if header_value(hs, accept_name()) != Some(accept) {
        Err(HandshakeError::AcceptMismatch)
    } else {
        match header_value(hs, protocol_name()) {
            None => Ok(None),
            Some(p) => if offered(protocols, p) {
                Ok(Some(p))
            } else {
                Err(HandshakeError::UnsupportedSubprotocol)
            },
        }
    }
}

/// Whether two byte strings are equal up to ASCII letter case.
pub fn eq_ignore_case(a: &[u8], b: &[u8]) -> (r: bool)
    ensures
        r == same_ignoring_case(a@, b@),
{
    if a.len() != b.len() {
        return false;
    }
    let mut i: usize = 0;
    while i < a.len()
        invariant
            i <= a@.len(),
            a@.len() == b@.len(),
            forall|j: int| 0 <= j < i ==> ascii_lower(a@[j]) == ascii_lower(b@[j]),
        decreases a@.len() - i,
    {
        let x = if 65 <= a[i] && a[i] <= 90 {
            a[i] + 32
        } else {
            a[i]
        };
        let y = if 65 <= b[i] && b[i] <= 90 {
            b[i] + 32
        } else {
            b[i]
        };
        if x != y {
            return false;
        }
        i = i + 1;
    }
    true
}

/// The index of the first header named `name`, ignoring case.
pub fn find_header(hs: &Vec<Header>, name: &str) -> (r: Option<usize>)
    ensures
        match r {
            Some(i) => first_header(hs@, name.spec_bytes(), i as int),
            None => no_header(hs@, name.spec_bytes()),
        },
{
    let n = name.as_bytes();
    let mut i: usize = 0;
    while i < hs.len()
        invariant
            i <= hs@.len(),
            n@ == name.spec_bytes(),
            forall|j: int| 0 <= j < i ==> !same_ignoring_case(#[trigger] hs@[j].name@, n@),
        decreases hs@.len() - i,
    {
        if eq_ignore_case(hs[i].name.as_slice(), n) {
            return Some(i);
        }
        i = i + 1;
    }
    None
}

/// Whether `p` is one of `protocols`.
pub fn is_offered(protocols: &Vec<Vec<u8>>, p: &Vec<u8>) -> (r: bool)
    ensures
        r == offered(protocols@, p@),
{
    let mut k: usize = 0;
    while k < protocols.len()
        invariant
            k <= protocols@.len(),
            forall|j: int| 0 <= j < k ==> protocols@[j]@ != p@,
        decreases protocols@.len() - k,
    {
        if bytes_equal(&protocols[k], p) {
            return true;
        }
        k = k + 1;
    }
    false
}

/// Whether two byte strings are equal.
pub fn bytes_equal(a: &Vec<u8>, b: &Vec<u8>) -> (r: bool)
    ensures
        r == (a@ == b@),
{
    if a.len() != b.len() {
        return false;
    }
    let mut i: usize = 0;
    while i < a.len()
        invariant
            i <= a@.len(),
            a@.len() == b@.len(),
            forall|j: int| 0 <= j < i ==> a@[j] == b@[j],
        decreases a@.len() - i,
    {
        if a[i] != b[i] {
            return false;
        }
        i = i + 1;
    }
    assert(a@ =~= b@);
    true
}

/// Checks the server's response against the accept value owed and the
/// subprotocols offered: status 101, a matching `Sec-WebSocket-Accept`, and
/// a `Sec-WebSocket-Protocol`, if any, among those offered.
pub fn check_response(accept: &Vec<u8>, resp: &Response, protocols: &Vec<Vec<u8>>) -> (r: Result<
    Option<Vec<u8>>,
    HandshakeError,
>)
    ensures
        match r {
            Ok(Some(p)) => response_outcome(accept@, *resp, protocols@) == Ok::<
                Option<Seq<u8>>,
                HandshakeError,
            >(Some(p@)),
            Ok(None) => response_outcome(accept@, *resp, protocols@) == Ok::<
                Option<Seq<u8>>,
                HandshakeError,
            >(None),
            Err(e) => response_outcome(accept@, *resp, protocols@) == Err::<Option<Seq<u8>>, HandshakeError>(e),
        },
{
    let ghost hs = resp.headers@;
    if resp.status != 101 {
        return Err(HandshakeError::BadStatus);
    }
    match find_header(&resp.headers, "sec-websocket-accept") {
        None => {
            return Err(HandshakeError::AcceptMismatch);
        },
        Some(i) => {
            proof {
                assert(first_header(hs, accept_name(), i as int));
                let c = choose|c: int| first_header(hs, accept_name(), c);
                lemma_first_header_unique(hs, accept_name(), i as int, c);
            }
            if !bytes_equal(&resp.headers[i].value, accept) {
                return Err(HandshakeError::AcceptMismatch);
            }
        },
    }
    match find_header(&resp.headers, "sec-websocket-protocol") {
        None => Ok(None),
        Some(i) => {
            proof {
                assert(first_header(hs, protocol_name(), i as int));
                let c = choose|c: int| first_header(hs, protocol_name(), c);
                lemma_first_header_unique(hs, protocol_name(), i as int, c);
            }
            if is_offered(protocols, &resp.headers[i].value) {
                Ok(Some(copy_bytes(&resp.headers[i].value)))
            } else {
                Err(HandshakeError::UnsupportedSubprotocol)
            }
        },
    }
}

/// There is only one first header of a name.
pub proof fn lemma_first_header_unique(hs: Seq<Header>, name: Seq<u8>, i: int, j: int)
    requires
        first_header(hs, name, i),
        first_header(hs, name, j),
    ensures
        i == j,
{
    if i < j {
        assert(!same_ignoring_case(hs[i].name@, name));
    } else if j < i {
        assert(!same_ignoring_case(hs[j].name@, name));
    }
}

/// Validates the server's response to a handshake sent with `key`.
pub fn validate_response(key: &Vec<u8>, resp: &Response, protocols: &Vec<Vec<u8>>) -> (r: Result<
    Option<Vec<u8>>,
    HandshakeError,
>)
    ensures
        match r {
            Ok(Some(p)) => response_outcome(expected_accept(key@), *resp, protocols@) == Ok::<
                Option<Seq<u8>>,
                HandshakeError,
            >(Some(p@)),
            Ok(None) => response_outcome(expected_accept(key@), *resp, protocols@) == Ok::<
                Option<Seq<u8>>,
                HandshakeError,
            >(None),
            Err(e) => response_outcome(expected_accept(key@), *resp, protocols@) == Err::<Option<Seq<u8>>, HandshakeError>(e),
        },
{
    let accept = accept_key(key);
    check_response(&accept, resp, protocols)
}


/// Where the opening handshake goes: host, port and the resource requested.
#[derive(Clone, Debug, PartialEq, Eq)]
pub struct Target {
    pub secure: bool,
    pub host: Vec<u8>,
    pub port: u16,
    pub resource: Vec<u8>,
}

/// The decimal digits of `n`.
pub open spec fn decimal(n: nat) -> Seq<u8>
    decreases n,
{
    if n < 10 {
        seq![(48 + n) as u8]
    } else {
        decimal(n / 10).push((48 + n % 10) as u8)
    }
}

/// The subprotocols joined by ", ".
pub open spec fn joined(ps: Seq<Vec<u8>>) -> Seq<u8>
    decreases ps.len(),
{
    if ps.len() == 0 {
        Seq::empty()
    } else if ps.len() == 1 {
        ps[0]@
    } else {
        joined(ps.drop_last()) + ", ".spec_bytes() + ps.last()@
    }
}

/// The port as the Host header shows it: nothing for the scheme's default.
pub open spec fn port_suffix(t: Target) -> Seq<u8> {
    if (t.secure && t.port == 443) || (!t.secure && t.port == 80) {
        Seq::empty()
    } else {
        ":".spec_bytes() + decimal(t.port as nat)
    }
}

pub open spec fn protocol_lines(ps: Seq<Vec<u8>>) -> Seq<u8> {
    if ps.len() == 0 {
        Seq::empty()
    } else {
        "Sec-WebSocket-Protocol: ".spec_bytes() + joined(ps) + "\r\n".spec_bytes()
    }
}

/// The opening handshake request: an HTTP/1.1 GET that asks to upgrade to
/// the WebSocket protocol, version 13.
pub open spec fn request_bytes(t: Target, key: Seq<u8>, ps: Seq<Vec<u8>>) -> Seq<u8> {
    "GET ".spec_bytes() + t.resource@ + " HTTP/1.1\r\nHost: ".spec_bytes() + t.host@ + port_suffix(t)
        + "\r\nUpgrade: websocket\r\nConnection: Upgrade\r\nSec-WebSocket-Key: ".spec_bytes() + key
        + "\r\nSec-WebSocket-Version: 13\r\n".spec_bytes() + protocol_lines(ps) + "\r\n".spec_bytes()
}

/// Appends the decimal digits of `n`.
pub fn append_decimal(out: &mut Vec<u8>, n: u16)
    ensures
        final(out)@ == old(out)@ + decimal(n as nat),
    decreases n,
{
    if n >= 10 {
        append_decimal(out, n / 10);
    }
    out.push(48 + (n % 10) as u8);
    assert(final(out)@ =~= old(out)@ + decimal(n as nat)) by {
        if n >= 10 {
            assert(decimal(n as nat) == decimal((n / 10) as nat).push((48 + n % 10) as u8));
        }
    }
}

/// Builds the opening handshake request for `target` with `key`, offering
/// the given subprotocols.
pub fn build_request(target: &Target, key: &Vec<u8>, protocols: &Vec<Vec<u8>>) -> (r: Vec<u8>)
    ensures
        r@ == request_bytes(*target, key@, protocols@),
{
    let mut out: Vec<u8> = Vec::new();
    append_str(&mut out, "GET ");
    append_bytes(&mut out, &target.resource);
    append_str(&mut out, " HTTP/1.1\r\nHost: ");
    append_bytes(&mut out, &target.host);
    let ghost before_port = out@;
    if !((target.secure && target.port == 443) || (!target.secure && target.port == 80)) {
        append_str(&mut out, ":");
        append_decimal(&mut out, target.port);
    }
    assert(out@ =~= before_port + port_suffix(*target));
    append_str(&mut out, "\r\nUpgrade: websocket\r\nConnection: Upgrade\r\nSec-WebSocket-Key: ");
    append_bytes(&mut out, key);
    append_str(&mut out, "\r\nSec-WebSocket-Version: 13\r\n");
    let ghost before_protocols = out@;
    if protocols.len() > 0 {
        append_str(&mut out, "Sec-WebSocket-Protocol: ");
        let ghost start = out@;
        let mut i: usize = 0;
        while i < protocols.len()
            invariant
                i <= protocols@.len(),
                out@ == start + joined(protocols@.subrange(0, i as int)),
            decreases protocols@.len() - i,
        {
            let ghost prev = out@;
            if i > 0 {
                append_str(&mut out, ", ");
            }
            append_bytes(&mut out, &protocols[i]);
            proof {
                let sub = protocols@.subrange(0, i + 1);
                assert(sub.drop_last() =~= protocols@.subrange(0, i as int));
                if i == 0 {
                    assert(protocols@.subrange(0, 0) =~= Seq::<Vec<u8>>::empty());
                    assert(out@ =~= start + joined(sub));
                } else {
                    assert(out@ =~= start + joined(sub));
                }
            }
            i = i + 1;
        }
        assert(protocols@.subrange(0, protocols@.len() as int) =~= protocols@);
        append_str(&mut out, "\r\n");
    }
    assert(out@ =~= before_protocols + protocol_lines(protocols@));
    append_str(&mut out, "\r\n");
    assert(out@ =~= request_bytes(*target, key@, protocols@));
    out
}

} // verus!
