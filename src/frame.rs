use vstd::prelude::*;

verus! {

/// The frame type carried in the low four bits of a frame's first byte.
#[derive(Clone, Copy, Debug, PartialEq, Eq, Structural)]
pub enum Opcode {
    Continuation,
    Text,
    Binary,
    Close,
    Ping,
    Pong,
}

/// Why a peer's bytes or a frame sequence violate the protocol.
#[derive(Clone, Copy, Debug, PartialEq, Eq, Structural)]
pub enum ProtocolError {
    ReservedBits,
    UnknownOpcode,
    FragmentedControl,
    ControlTooLong,
    MaskedFrame,
    UnmaskedFrame,
    LengthHighBit,
    UnexpectedDataFrame,
    UnexpectedContinuation,
    MessageTooLarge,
    InvalidUtf8,
}

/// Outcome of a decode attempt that yields no frame.
#[derive(Clone, Copy, Debug, PartialEq, Eq, Structural)]
pub enum DecodeError {
    NeedMoreData,
    Protocol(ProtocolError),
}

/// Why a frame cannot be encoded.
#[derive(Clone, Copy, Debug, PartialEq, Eq, Structural)]
pub enum EncodeError {
    PayloadTooLarge,
    FragmentedControl,
}

/// One frame. `mask_key` is present exactly when the frame is masked;
/// `payload` always holds the unmasked application bytes.
#[derive(Clone, Debug, PartialEq, Eq)]
pub struct Frame {
    pub fin: bool,
    pub opcode: Opcode,
    pub mask_key: Option<[u8; 4]>,
    pub payload: Vec<u8>,
}

/// Largest payload a control frame may carry.
pub const MAX_CONTROL_PAYLOAD: usize = 125;

/// Largest payload length the 64-bit length field can express.
pub const MAX_PAYLOAD: u64 = 0x7fff_ffff_ffff_ffff;

pub open spec fn opcode_value(op: Opcode) -> u8 {
    match op {
        Opcode::Continuation => 0,
        Opcode::Text => 1,
        Opcode::Binary => 2,
        Opcode::Close => 8,
        Opcode::Ping => 9,
        Opcode::Pong => 10,
    }
}

pub open spec fn opcode_of(v: int) -> Option<Opcode> {
    if v == 0 {
        Some(Opcode::Continuation)
    } else if v == 1 {
        Some(Opcode::Text)
    } else if v == 2 {
        Some(Opcode::Binary)
    } else if v == 8 {
        Some(Opcode::Close)
    } else if v == 9 {
        Some(Opcode::Ping)
    } else if v == 10 {
        Some(Opcode::Pong)
    } else {
        None
    }
}

pub open spec fn is_control(op: Opcode) -> bool {
    op is Close || op is Ping || op is Pong
}

/// The four-bit code of an opcode.
pub fn opcode_code(op: Opcode) -> (r: u8)
    ensures
        r == opcode_value(op),
        opcode_of(r as int) == Some(op),
{
    match op {
        Opcode::Continuation => 0,
        Opcode::Text => 1,
        Opcode::Binary => 2,
        Opcode::Close => 8,
        Opcode::Ping => 9,
        Opcode::Pong => 10,
    }
}

/// The opcode with the given four-bit code, if it is a known one.
pub fn opcode_from(v: u8) -> (r: Option<Opcode>)
    ensures
        r == opcode_of(v as int),
{
    if v == 0 {
        Some(Opcode::Continuation)
    } else if v == 1 {
        Some(Opcode::Text)
    } else if v == 2 {
        Some(Opcode::Binary)
    } else if v == 8 {
        Some(Opcode::Close)
    } else if v == 9 {
        Some(Opcode::Ping)
    } else if v == 10 {
        Some(Opcode::Pong)
    } else {
        None
    }
}

/// Whether frames of this opcode are control frames.
pub fn is_control_opcode(op: Opcode) -> (r: bool)
    ensures
        r == is_control(op),
{
    match op {
        Opcode::Close | Opcode::Ping | Opcode::Pong => true,
        _ => false,
    }
}

pub open spec fn pow256(k: nat) -> nat
    decreases k,
{
    if k == 0 {
        1
    } else {
        256 * pow256((k - 1) as nat)
    }
}

/// The big-endian value of a byte sequence.
pub open spec fn be_value(s: Seq<u8>) -> nat
    decreases s.len(),
{
    if s.len() == 0 {
        0
    } else {
        (be_value(s.drop_last()) * 256 + s.last()) as nat
    }
}

/// Each byte of `p` XORed with the key byte at its position modulo four.
pub open spec fn apply_mask(p: Seq<u8>, key: Seq<u8>) -> Seq<u8> {
    Seq::new(p.len(), |i: int| p[i] ^ key[i % 4])
}

pub open spec fn b_fin(b: Seq<u8>) -> bool {
    b[0] >= 128
}

pub open spec fn b_rsv(b: Seq<u8>) -> int {
    (b[0] as int / 16) % 8
}

pub open spec fn b_opcode(b: Seq<u8>) -> Option<Opcode> {
    opcode_of(b[0] as int % 16)
}

pub open spec fn b_masked(b: Seq<u8>) -> bool {
    b[1] >= 128
}

pub open spec fn b_len7(b: Seq<u8>) -> int {
    b[1] as int % 128
}

/// Bytes of the extended length field.
pub open spec fn ext_len(b: Seq<u8>) -> int {
    if b_len7(b) == 126 {
        2
    } else if b_len7(b) == 127 {
        8
    } else {
        0
    }
}

pub open spec fn header_len(b: Seq<u8>) -> int {
    2 + ext_len(b) + if b_masked(b) {
        4int
    } else {
        0int
    }
}

pub open spec fn payload_len(b: Seq<u8>) -> int {
    if b_len7(b) < 126 {
        b_len7(b)
    } else {
        be_value(b.subrange(2, 2 + ext_len(b))) as int
    }
}

pub open spec fn frame_len(b: Seq<u8>) -> int {
    header_len(b) + payload_len(b)
}

/// Why the front of `b` holds no acceptable frame, checked in this order;
/// `None` when it holds one. Server frames must be unmasked, client frames masked.
pub open spec fn frame_error(b: Seq<u8>, from_server: bool) -> Option<DecodeError> {
    if b.len() < 2 {
        Some(DecodeError::NeedMoreData)
    } else if b_rsv(b) != 0 {
        Some(DecodeError::Protocol(ProtocolError::ReservedBits))
    } else if b_opcode(b) is None {
        Some(DecodeError::Protocol(ProtocolError::UnknownOpcode))
    } else if is_control(b_opcode(b)->0) && !b_fin(b) {
        Some(DecodeError::Protocol(ProtocolError::FragmentedControl))
    } else if is_control(b_opcode(b)->0) && b_len7(b) > 125 {
        Some(DecodeError::Protocol(ProtocolError::ControlTooLong))
    } else if from_server && b_masked(b) {
        Some(DecodeError::Protocol(ProtocolError::MaskedFrame))
    } else if !from_server && !b_masked(b) {
        Some(DecodeError::Protocol(ProtocolError::UnmaskedFrame))
    } else if b.len() < header_len(b) {
        Some(DecodeError::NeedMoreData)
    } else if b_len7(b) == 127 && b[2] >= 128 {
        Some(DecodeError::Protocol(ProtocolError::LengthHighBit))
    } else if b.len() < frame_len(b) {
        Some(DecodeError::NeedMoreData)
    } else {
        None
    }
}

pub open spec fn frame_key(b: Seq<u8>) -> Seq<u8> {
    b.subrange(2 + ext_len(b), 2 + ext_len(b) + 4)
}

/// The application bytes of the frame at the front of `b`, unmasked.
pub open spec fn frame_payload(b: Seq<u8>) -> Seq<u8> {
    let raw = b.subrange(header_len(b), frame_len(b));
    if b_masked(b) {
        apply_mask(raw, frame_key(b))
    } else {
        raw
    }
}

pub open spec fn length_byte(n: nat) -> int {
    if n < 126 {
        n as int
    } else if n <= 65535 {
        126
    } else {
        127
    }
}

pub open spec fn length_ext(n: nat) -> int {
    if n < 126 {
        0
    } else if n <= 65535 {
        2
    } else {
        8
    }
}

/// `out` is the masked client frame for the given fields, with the shortest
/// length encoding: first byte, mask bit and length, extended length
/// (big-endian), key, masked payload.
pub open spec fn is_client_frame(
    out: Seq<u8>,
    fin: bool,
    op: Opcode,
    payload: Seq<u8>,
    key: Seq<u8>,
) -> bool {
    let n = payload.len();
    let e = length_ext(n);
    &&& key.len() == 4
    &&& out.len() == 2 + e + 4 + n
    &&& out[0] == (if fin { 128int } else { 0int }) + opcode_value(op)
    &&& out[1] == 128 + length_byte(n)
    &&& e > 0 ==> be_value(out.subrange(2, 2 + e)) == n
    &&& out.subrange(2 + e, 6 + e) == key
    &&& out.subrange(6 + e, out.len() as int) == apply_mask(payload, key)
}

pub proof fn lemma_be_value_bound(s: Seq<u8>)
    ensures
        be_value(s) < pow256(s.len()),
    decreases s.len(),
{
    if s.len() > 0 {
        lemma_be_value_bound(s.drop_last());
        let v = be_value(s.drop_last());
        let p = pow256(s.drop_last().len());
        let c = s.last() as int;
        assert(v * 256 + c < 256 * p) by (nonlinear_arith)
            requires
                v < p,
                0 <= c < 256,
        ;
    }
}

pub proof fn lemma_be_value_prepend(c: u8, s: Seq<u8>)
    ensures
        be_value(seq![c] + s) == c * pow256(s.len()) + be_value(s),
    decreases s.len(),
{
    let t = seq![c] + s;
    if s.len() == 0 {
        assert(t.drop_last() =~= Seq::<u8>::empty());
        assert(be_value(t) == be_value(t.drop_last()) * 256 + t.last());
        assert(t.last() == c);
        assert(pow256(0) == 1);
    } else {
        assert(t.drop_last() =~= seq![c] + s.drop_last());
        lemma_be_value_prepend(c, s.drop_last());
        let p = pow256(s.drop_last().len());
        let v = be_value(s.drop_last());
        assert(t.last() == s.last());
        assert(pow256(s.len()) == 256 * p);
        assert(be_value(s) == v * 256 + s.last());
        assert(be_value(t) == be_value(t.drop_last()) * 256 + t.last());
        assert((c * p + v) * 256 + s.last() == c * (256 * p) + (v * 256 + s.last()))
            by (nonlinear_arith);
        assert(be_value(t.drop_last()) == c * p + v);
    }
}

pub proof fn lemma_pow256_8()
    ensures
        pow256(7) == 0x100_0000_0000_0000,
        pow256(8) == 0x1_0000_0000_0000_0000,
{
    reveal_with_fuel(pow256, 9);
}

pub proof fn lemma_pow256_mono(i: nat, j: nat)
    requires
        i <= j,
    ensures
        pow256(i) <= pow256(j),
    decreases j,
{
    if i < j {
        lemma_pow256_mono(i, (j - 1) as nat);
    }
}


/// Appends every byte of `src` to `out`.
pub fn append_bytes(out: &mut Vec<u8>, src: &Vec<u8>)
    ensures
        final(out)@ == old(out)@ + src@,
{
    let mut i: usize = 0;
    while i < src.len()
        invariant
            i <= src@.len(),
            out@ == old(out)@ + src@.subrange(0, i as int),
        decreases src@.len() - i,
    {
        out.push(src[i]);
        i = i + 1;
        assert(out@ =~= old(out)@ + src@.subrange(0, i as int));
    }
    assert(src@.subrange(0, src@.len() as int) =~= src@);
}

/// A copy of `b`.
pub fn copy_bytes(b: &Vec<u8>) -> (r: Vec<u8>)
    ensures
        r@ == b@,
{
    let mut r: Vec<u8> = Vec::new();
    append_bytes(&mut r, b);
    assert(r@ =~= b@);
    r
}

/// Reads the big-endian value of `k` bytes of `b` starting at `start`.
pub fn read_be(b: &Vec<u8>, start: usize, k: usize) -> (v: u64)
    requires
        k <= 8,
        start + k <= b@.len(),
    ensures
        v == be_value(b@.subrange(start as int, start + k)),
{
    let mut v: u64 = 0;
    let blen = b.len();
    let end = start + k;
    let mut i: usize = start;
    proof {
        assert(b@.subrange(start as int, start as int) =~= Seq::<u8>::empty());
        lemma_pow256_8();
    }
    while i < end
        invariant
            end == start + k,
            start <= i <= start + k,
            start + k <= b@.len(),
            k <= 8,
            pow256(8) == 0x1_0000_0000_0000_0000,
            v == be_value(b@.subrange(start as int, i as int)),
            v < pow256((i - start) as nat),
        decreases start + k - i,
    {
        let c = b[i];
        proof {
            lemma_pow256_mono((i - start + 1) as nat, 8);
            let p = pow256((i - start) as nat);
            assert(pow256((i - start + 1) as nat) == 256 * p);
            assert(v * 256 + c < 256 * p) by (nonlinear_arith)
                requires
                    v < p,
                    c < 256,
            ;
            let t = b@.subrange(start as int, i + 1);
            assert(t.drop_last() =~= b@.subrange(start as int, i as int));
        }
        v = v * 256 + c as u64;
        i = i + 1;
    }
    v
}

/// The eight big-endian bytes of `n`.
pub fn be_bytes8(n: u64) -> (r: Vec<u8>)
    ensures
        r@.len() == 8,
        be_value(r@) == n,
{
    let mut r: Vec<u8> = Vec::new();
    let mut j: usize = 0;
    while j < 8
        invariant
            j <= 8,
            r@.len() == j,
        decreases 8 - j,
    {
        r.push(0);
        j = j + 1;
    }
    let mut x: u64 = n;
    let mut i: usize = 0;
    proof {
        assert(r@.subrange(8, 8) =~= Seq::<u8>::empty());
        assert(pow256(0) == 1);
    }
    while i < 8
        invariant
            i <= 8,
            r@.len() == 8,
            n == x * pow256(i as nat) + be_value(r@.subrange(8 - i, 8)),
        decreases 8 - i,
    {
        let c: u8 = (x % 256) as u8;
        let ghost old_tail = r@.subrange(8 - i, 8);
        let ghost q = x / 256;
        proof {
            lemma_be_value_prepend(c, old_tail);
            let p = pow256(i as nat);
            assert(pow256((i + 1) as nat) == 256 * p);
            assert(x == q * 256 + c);
            assert(x * p == q * (256 * p) + c * p) by (nonlinear_arith)
                requires
                    x == q * 256 + c,
            ;
        }
        r.set(7 - i, c);
        proof {
            assert(r@.subrange(7 - i, 8) =~= seq![c] + old_tail);
        }
        x = x / 256;
        i = i + 1;
    }
    proof {
        lemma_pow256_8();
        assert(r@.subrange(0, 8) =~= r@);
        assert(x == 0) by (nonlinear_arith)
            requires
                n == x * 0x1_0000_0000_0000_0000nat + be_value(r@),
                n < 0x1_0000_0000_0000_0000nat,
        ;
    }
    r
}

/// Encodes a client frame masked with `key`. Control frames must be final
/// and carry at most 125 bytes.
pub fn encode_masked(opcode: Opcode, payload: &Vec<u8>, fin: bool, key: [u8; 4]) -> (r: Result<
    Vec<u8>,
    EncodeError,
>)
    requires
        payload@.len() <= MAX_PAYLOAD,
    ensures
        match r {
            Ok(out) => {
                &&& !(is_control(opcode) && (payload@.len() > 125 || !fin))
                &&& is_client_frame(out@, fin, opcode, payload@, key@)
            },
            Err(e) => {
                &&& is_control(opcode)
                &&& e == if payload@.len() > 125 {
                    EncodeError::PayloadTooLarge
                } else {
                    EncodeError::FragmentedControl
                }
                &&& payload@.len() <= 125 ==> !fin
            },
        },
{
    let ctl = is_control_opcode(opcode);
    if ctl && payload.len() > MAX_CONTROL_PAYLOAD {
        return Err(EncodeError::PayloadTooLarge);
    }
    if ctl && !fin {
        return Err(EncodeError::FragmentedControl);
    }
    let n = payload.len();
    let code = opcode_code(opcode);
    let b0: u8 = if fin {
        128 + code
    } else {
        code
    };
    let mut out: Vec<u8> = Vec::new();
    out.push(b0);
    if n < 126 {
        out.push(128 + n as u8);
    } else if n <= 65535 {
        out.push(254);
        let hi = (n / 256) as u8;
        let lo = (n % 256) as u8;
        out.push(hi);
        out.push(lo);
        proof {
            let e = out@.subrange(2, 4);
            assert(e.drop_last() =~= seq![hi]);
            assert(e.drop_last().drop_last() =~= Seq::<u8>::empty());
            assert(be_value(e.drop_last().drop_last()) == 0);
            assert(e.drop_last().last() == hi);
            assert(be_value(e.drop_last()) == hi);
            assert(be_value(e) == hi * 256 + lo);
            assert(hi * 256 + lo == n);
        }
    } else {
        out.push(255);
        let ext = be_bytes8(n as u64);
        append_bytes(&mut out, &ext);
        assert(out@.subrange(2, 10) =~= ext@);
    }
    let ghost e = length_ext(n as nat);
    let ghost head = out@;
    assert(head.len() == 2 + e);
    out.push(key[0]);
    out.push(key[1]);
    out.push(key[2]);
    out.push(key[3]);
    assert(out@.subrange(2 + e, 6 + e) =~= key@);
    assert(out@.subrange(0, 2 + e) =~= head);
    let ghost keyed = out@;
    let mut i: usize = 0;
    while i < n
        invariant
            n == payload@.len(),
            i <= n,
            keyed.len() == 6 + e,
            out@ == keyed + apply_mask(payload@, key@).subrange(0, i as int),
        decreases n - i,
    {
        out.push(payload[i] ^ key[i % 4]);
        i = i + 1;
        assert(out@ =~= keyed + apply_mask(payload@, key@).subrange(0, i as int));
    }
    proof {
        assert(out@[0] == keyed[0]);
        assert(out@[1] == keyed[1]);
        assert(apply_mask(payload@, key@).subrange(0, n as int) =~= apply_mask(payload@, key@));
        assert(out@.subrange(6 + e, out@.len() as int) =~= apply_mask(payload@, key@));
        assert(out@.subrange(2 + e, 6 + e) =~= keyed.subrange(2 + e, 6 + e));
        assert(out@.subrange(2, 2 + e) =~= head.subrange(2, 2 + e));
    }
    Ok(out)
}


/// Relies on rand::random: one byte drawn from the thread-local generator,
/// which the operating system seeds. Nothing is promised of its value. It
/// panics only if the operating system's random source fails, which no
/// argument can rule out.
#[verifier::external_body]
pub(crate) fn random_byte() -> (r: u8) {
    rand::random::<u8>()
}

/// A fresh unpredictable mask key.
pub fn random_mask_key() -> (r: [u8; 4]) {
    [random_byte(), random_byte(), random_byte(), random_byte()]
}

/// Encodes a client frame under a freshly drawn mask key; the key stands in
/// the frame's key field.
pub fn encode(opcode: Opcode, payload: &Vec<u8>, fin: bool) -> (r: Result<Vec<u8>, EncodeError>)
    requires
        payload@.len() <= MAX_PAYLOAD,
    ensures
        match r {
            Ok(out) => {
                &&& !(is_control(opcode) && (payload@.len() > 125 || !fin))
                &&& is_client_frame(out@, fin, opcode, payload@, frame_key(out@))
            },
            Err(e) => {
                &&& is_control(opcode)
                &&& e == if payload@.len() > 125 {
                    EncodeError::PayloadTooLarge
                } else {
                    EncodeError::FragmentedControl
                }
                &&& payload@.len() <= 125 ==> !fin
            },
        },
{
    let key = random_mask_key();
    let r = encode_masked(opcode, payload, fin, key);
    proof {
        if r is Ok {
            lemma_client_frame_fields(r->Ok_0@, fin, opcode, payload@, key@);
        }
    }
    r
}

/// Parses one frame from the front of `b`. Frames from a server must be
/// unmasked and frames from a client masked. On success it returns the frame,
/// with its payload unmasked, and the number of bytes it took.
pub fn decode(b: &Vec<u8>, from_server: bool) -> (r: Result<(Frame, usize), DecodeError>)
    ensures
        match r {
            Ok((f, n)) => {
                &&& frame_error(b@, from_server) is None
                &&& n == frame_len(b@)
                &&& f.fin == b_fin(b@)
                &&& Some(f.opcode) == b_opcode(b@)
                &&& (f.mask_key is Some) == b_masked(b@)
                &&& b_masked(b@) ==> f.mask_key->0@ == frame_key(b@)
                &&& f.payload@ == frame_payload(b@)
            },
            Err(e) => frame_error(b@, from_server) == Some(e),
        },
{
    let blen = b.len();
    if blen < 2 {
        return Err(DecodeError::NeedMoreData);
    }
    let b0 = b[0];
    let b1 = b[1];
    if (b0 / 16) % 8 != 0 {
        return Err(DecodeError::Protocol(ProtocolError::ReservedBits));
    }
    let opcode = match opcode_from(b0 % 16) {
        Some(o) => o,
        None => {
            return Err(DecodeError::Protocol(ProtocolError::UnknownOpcode));
        },
    };
    let fin = b0 >= 128;
    let ctl = is_control_opcode(opcode);
    if ctl && !fin {
        return Err(DecodeError::Protocol(ProtocolError::FragmentedControl));
    }
    let len7 = b1 % 128;
    let masked = b1 >= 128;
    if ctl && len7 > 125 {
        return Err(DecodeError::Protocol(ProtocolError::ControlTooLong));
    }
    if from_server && masked {
        return Err(DecodeError::Protocol(ProtocolError::MaskedFrame));
    }
    if !from_server && !masked {
        return Err(DecodeError::Protocol(ProtocolError::UnmaskedFrame));
    }
    let ext: usize = if len7 == 126 {
        2
    } else if len7 == 127 {
        8
    } else {
        0
    };
    let hl: usize = if masked {
        6 + ext
    } else {
        2 + ext
    };
    if blen < hl {
        return Err(DecodeError::NeedMoreData);
    }
    if len7 == 127 && b[2] >= 128 {
        return Err(DecodeError::Protocol(ProtocolError::LengthHighBit));
    }
    let plen: u64 = if len7 < 126 {
        len7 as u64
    } else {
        read_be(b, 2, ext)
    };
    if plen > (blen - hl) as u64 {
        return Err(DecodeError::NeedMoreData);
    }
    let total: usize = hl + plen as usize;
    let mut key: [u8; 4] = [0u8; 4];
    let mut mask_key: Option<[u8; 4]> = None;
    if masked {
        key = [b[2 + ext], b[3 + ext], b[4 + ext], b[5 + ext]];
        mask_key = Some(key);
        assert(key@ =~= frame_key(b@));
    }
    let mut payload: Vec<u8> = Vec::new();
    let mut i: usize = hl;
    while i < total
        invariant
            hl <= i <= total,
            total <= b@.len(),
            hl == header_len(b@),
            total == frame_len(b@),
            masked == b_masked(b@),
            masked ==> key@ == frame_key(b@),
            payload@ == frame_payload(b@).subrange(0, i - hl),
        decreases total - i,
    {
        let c = if masked {
            b[i] ^ key[(i - hl) % 4]
        } else {
            b[i]
        };
        payload.push(c);
        i = i + 1;
        assert(payload@ =~= frame_payload(b@).subrange(0, i - hl));
    }
    assert(payload@ =~= frame_payload(b@));
    Ok((Frame { fin, opcode, mask_key, payload }, total))
}

/// What `is_client_frame` states, read field by field as the decoder does.
pub proof fn lemma_client_frame_fields(
    out: Seq<u8>,
    fin: bool,
    op: Opcode,
    payload: Seq<u8>,
    key: Seq<u8>,
)
    requires
        is_client_frame(out, fin, op, payload, key),
        payload.len() <= MAX_PAYLOAD,
    ensures
        out.len() >= 6,
        b_fin(out) == fin,
        b_rsv(out) == 0,
        b_opcode(out) == Some(op),
        b_masked(out),
        b_len7(out) == length_byte(payload.len()),
        ext_len(out) == length_ext(payload.len()),
        header_len(out) == 6 + length_ext(payload.len()),
        payload_len(out) == payload.len(),
        frame_len(out) == out.len(),
        frame_key(out) == key,
        out.len() > 2 && b_len7(out) == 127 ==> out[2] < 128,
{
    let n = payload.len();
    let e = length_ext(n);
    assert(opcode_of(opcode_value(op) as int) == Some(op));
    if e == 8 {
        let ext = out.subrange(2, 10);
        lemma_be_value_prepend(ext[0], ext.subrange(1, 8));
        assert(seq![ext[0]] + ext.subrange(1, 8) =~= ext);
        lemma_be_value_bound(ext.subrange(1, 8));
        lemma_pow256_8();
        if ext[0] >= 128 {
            assert(ext[0] * pow256(7) >= 128 * pow256(7)) by (nonlinear_arith)
                requires
                    ext[0] >= 128,
            ;
        }
    }
}

/// Decoding, as a server does, a frame that a client encoded gives back its
/// finality, opcode and payload, and consumes exactly its bytes.
pub proof fn lemma_round_trip(out: Seq<u8>, fin: bool, op: Opcode, payload: Seq<u8>, key: Seq<u8>)
    requires
        is_client_frame(out, fin, op, payload, key),
        payload.len() <= MAX_PAYLOAD,
        is_control(op) ==> fin && payload.len() <= 125,
    ensures
        frame_error(out, false) is None,
        b_fin(out) == fin,
        b_opcode(out) == Some(op),
        frame_len(out) == out.len(),
        frame_payload(out) == payload,
{
    lemma_client_frame_fields(out, fin, op, payload, key);
    let e = length_ext(payload.len());
    assert forall|i: int| 0 <= i < payload.len() implies #[trigger] frame_payload(out)[i]
        == payload[i] by {
        let k = key[i % 4];
        let p = payload[i];
        assert((p ^ k) ^ k == p) by (bit_vector);
    }
    assert(frame_payload(out) =~= payload);
}

/// A frame is decoded from its own bytes alone: bytes that follow it change
/// nothing, and every shorter prefix of it is incomplete rather than an
/// error. So a stream split into reads at any points decodes alike.
pub proof fn lemma_decode_prefix_independent(b: Seq<u8>, c: Seq<u8>, k: int, from_server: bool)
    requires
        frame_error(b, from_server) is None,
        0 <= k < frame_len(b),
    ensures
        frame_error(b + c, from_server) is None,
        frame_len(b + c) == frame_len(b),
        b_fin(b + c) == b_fin(b),
        b_opcode(b + c) == b_opcode(b),
        frame_payload(b + c) == frame_payload(b),
        frame_error(b.subrange(0, k), from_server) == Some(DecodeError::NeedMoreData),
{
    let t = b + c;
    let p = b.subrange(0, k);
    assert(t[0] == b[0] && t[1] == b[1]);
    if b_len7(b) >= 126 {
        assert(t.subrange(2, 2 + ext_len(b)) =~= b.subrange(2, 2 + ext_len(b)));
    }
    if b_len7(b) == 127 {
        assert(t[2] == b[2]);
    }
    assert(t.subrange(header_len(b), frame_len(b)) =~= b.subrange(header_len(b), frame_len(b)));
    if b_masked(b) {
        assert(frame_key(t) =~= frame_key(b));
    }
    assert(frame_payload(t) =~= frame_payload(b));
    if k >= 2 {
        assert(p[0] == b[0] && p[1] == b[1]);
        if k >= header_len(b) {
            if b_len7(b) >= 126 {
                assert(p.subrange(2, 2 + ext_len(b)) =~= b.subrange(2, 2 + ext_len(b)));
            }
            if b_len7(b) == 127 {
                assert(p[2] == b[2]);
            }
        }
    }
}

/// Every frame a client encodes is masked, and no masked frame is accepted
/// from a server.
pub proof fn lemma_masking_direction(out: Seq<u8>, fin: bool, op: Opcode, payload: Seq<u8>, key: Seq<u8>, b: Seq<u8>)
    requires
        is_client_frame(out, fin, op, payload, key),
        payload.len() <= MAX_PAYLOAD,
    ensures
        b_masked(out),
        frame_error(b, true) is None ==> !b_masked(b),
{
    lemma_client_frame_fields(out, fin, op, payload, key);
}

} // verus!
