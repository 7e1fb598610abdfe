use vstd::prelude::*;

use crate::handshake::{
    check_response, expected_accept, accept_key, response_outcome, Header, HandshakeError, Response,
};
use vstd::string::StringSliceAdditionalSpecFns;

verus! {

pub open spec fn is_ws(c: u8) -> bool {
    c == 32 || c == 9
}

/// The first index at or after `i` holding `c`, or -1.
pub open spec fn find_byte(s: Seq<u8>, c: u8, i: int) -> int
    decreases s.len() - i,
{
    if i < 0 || i >= s.len() {
        -1
    } else if s[i] == c {
        i
    } else {
        find_byte(s, c, i + 1)
    }
}

/// The first index at or after `i` that holds no space or tab.
pub open spec fn skip_ws(s: Seq<u8>, i: int) -> int
    decreases s.len() - i,
{
    if 0 <= i < s.len() && is_ws(s[i]) {
        skip_ws(s, i + 1)
    } else {
        i
    }
}

/// `j` moved back over the spaces and tabs that end `s[lo..j]`.
pub open spec fn back_ws(s: Seq<u8>, lo: int, j: int) -> int
    decreases j - lo,
{
    if lo < j <= s.len() && is_ws(s[j - 1]) {
        back_ws(s, lo, j - 1)
    } else {
        j
    }
}

/// The first CRLF at or after `i`, or -1.
pub open spec fn find_crlf(s: Seq<u8>, i: int) -> int
    decreases s.len() - i,
{
    if i < 0 || i + 1 >= s.len() {
        -1
    } else if s[i] == 13 && s[i + 1] == 10 {
        i
    } else {
        find_crlf(s, i + 1)
    }
}

/// The first blank line (CRLF CRLF) at or after `i`, or -1.
pub open spec fn find_blank(s: Seq<u8>, i: int) -> int
    decreases s.len() - i,
{
    if i < 0 || i + 3 >= s.len() {
        -1
    } else if s[i] == 13 && s[i + 1] == 10 && s[i + 2] == 13 && s[i + 3] == 10 {
        i
    } else {
        find_blank(s, i + 1)
    }
}

/// The CRLF-separated lines of `s` from index `i` on.
pub open spec fn lines_from(s: Seq<u8>, i: int) -> Seq<Seq<u8>>
    decreases s.len() - i,
{
    let k = find_crlf(s, i);
    if i < 0 || i > s.len() {
        Seq::empty()
    } else if k < i || k + 2 > s.len() {
        seq![s.subrange(i, s.len() as int)]
    } else {
        seq![s.subrange(i, k)] + lines_from(s, k + 2)
    }
}

pub open spec fn is_digit(c: u8) -> bool {
    48 <= c <= 57
}

/// The status code of a status line `HTTP/1.1 ddd` (then nothing, or a
/// space and a reason).
pub open spec fn status_of(line: Seq<u8>) -> Option<u16> {
    if line.len() >= 12 && line.subrange(0, 9) == "HTTP/1.1 ".spec_bytes() && is_digit(line[9])
        && is_digit(line[10]) && is_digit(line[11]) && (line.len() == 12 || line[12] == 32) {
        Some(((line[9] - 48) * 100 + (line[10] - 48) * 10 + (line[11] - 48)) as u16)
    } else {
        None
    }
}

/// The name (before the first ':') and the value (after it, without
/// surrounding spaces and tabs) of a header line.
pub open spec fn header_of(line: Seq<u8>) -> Option<(Seq<u8>, Seq<u8>)> {
    let c = find_byte(line, 58, 0);
    if c < 0 {
        None
    } else {
        let a = skip_ws(line, c + 1);
        let b = back_ws(line, a, line.len() as int);
        Some((line.subrange(0, c), line.subrange(a, b)))
    }
}

/// Parses a status line into its status code.
pub fn parse_status_line(line: &Vec<u8>) -> (r: Option<u16>)
    ensures
        r == status_of(line@),
{
    if line.len() < 12 {
        return None;
    }
    let prefix = "HTTP/1.1 ".as_bytes();
    proof {
        reveal_strlit("HTTP/1.1 ");
        vstd::string::is_ascii_spec_bytes("HTTP/1.1 ");
        assert(prefix@.len() == 9);
    }
    let mut i: usize = 0;
    while i < 9
        invariant
            i <= 9,
            line@.len() >= 12,
            prefix@ == "HTTP/1.1 ".spec_bytes(),
            prefix@.len() == 9,
            forall|j: int| 0 <= j < i ==> line@[j] == prefix@[j],
        decreases 9 - i,
    {
        if line[i] != prefix[i] {
            assert(line@.subrange(0, 9)[i as int] != prefix@[i as int]);
            return None;
        }
        i = i + 1;
    }
    assert(line@.subrange(0, 9) =~= prefix@);
    let (d0, d1, d2) = (line[9], line[10], line[11]);
    if !(48 <= d0 && d0 <= 57 && 48 <= d1 && d1 <= 57 && 48 <= d2 && d2 <= 57) {
        return None;
    }
    if line.len() > 12 && line[12] != 32 {
        return None;
    }
    Some(((d0 - 48) as u16) * 100 + ((d1 - 48) as u16) * 10 + (d2 - 48) as u16)
}

/// The bytes of `s` from `a` up to `b`.
pub fn copy_range(s: &Vec<u8>, a: usize, b: usize) -> (r: Vec<u8>)
    requires
        a <= b <= s@.len(),
    ensures
        r@ == s@.subrange(a as int, b as int),
{
    let mut r: Vec<u8> = Vec::new();
    let mut i: usize = a;
    while i < b
        invariant
            a <= i <= b,
            b <= s@.len(),
            r@ == s@.subrange(a as int, i as int),
        decreases b - i,
    {
        r.push(s[i]);
        i = i + 1;
        assert(r@ =~= s@.subrange(a as int, i as int));
    }
    r
}

/// Parses a header line into name and trimmed value.
pub fn parse_header_line(line: &Vec<u8>) -> (r: Option<Header>)
    ensures
        match header_of(line@) {
            None => r is None,
            Some((name, value)) => r matches Some(h) && h.name@ == name && h.value@ == value,
        },
{
    let n = line.len();
    let mut c: usize = 0;
    while c < n && line[c] != 58
        invariant
            c <= n,
            n == line@.len(),
            find_byte(line@, 58, c as int) == find_byte(line@, 58, 0),
        decreases n - c,
    {
        c = c + 1;
    }
    if c == n {
        return None;
    }
    let mut a: usize = c + 1;
    while a < n && (line[a] == 32 || line[a] == 9)
        invariant
            c + 1 <= a <= n,
            n == line@.len(),
            skip_ws(line@, a as int) == skip_ws(line@, c + 1),
        decreases n - a,
    {
        a = a + 1;
    }
    let mut b: usize = n;
    while b > a && (line[b - 1] == 32 || line[b - 1] == 9)
        invariant
            a <= b <= n,
            n == line@.len(),
            back_ws(line@, a as int, b as int) == back_ws(line@, a as int, n as int),
        decreases b - a,
    {
        b = b - 1;
    }
    Some(Header { name: copy_range(line, 0, c), value: copy_range(line, a, b) })
}


/// Why a response head cannot be read: no blank line yet, or a bad status
/// line or header line.
pub open spec fn response_error(b: Seq<u8>) -> Option<HandshakeError> {
    let e = find_blank(b, 0);
    let ls = lines_from(b.subrange(0, e), 0);
    if e < 0 {
        Some(HandshakeError::Incomplete)
    } else if status_of(ls[0]) is None {
        Some(HandshakeError::Malformed)
    } else if exists|i: int| 1 <= i < ls.len() && #[trigger] header_of(ls[i]) is None {
        Some(HandshakeError::Malformed)
    } else {
        None
    }
}

/// `resp` is what the head of `b` says: the status line's code and, in
/// order, each header line's name and value.
pub open spec fn parsed_as(b: Seq<u8>, resp: Response) -> bool {
    let e = find_blank(b, 0);
    let ls = lines_from(b.subrange(0, e), 0);
    &&& status_of(ls[0]) == Some(resp.status)
    &&& resp.headers@.len() + 1 == ls.len()
    &&& forall|j: int| 0 <= j < resp.headers@.len() ==> #[trigger] header_of(ls[j + 1])
        == Some((resp.headers@[j].name@, resp.headers@[j].value@))
}

/// Parses the head of the server's response: the status line and header
/// lines up to the first blank line. On success it returns the response and
/// the number of bytes the head took, blank line included.
pub fn parse_response(b: &Vec<u8>) -> (r: Result<(Response, usize), HandshakeError>)
    ensures
        match r {
            Ok((resp, n)) => {
                &&& response_error(b@) is None
                &&& n == find_blank(b@, 0) + 4
                &&& parsed_as(b@, resp)
            },
            Err(e) => response_error(b@) == Some(e),
        },
{
    let n = b.len();
    let mut e: usize = 0;
    while n - e > 3 && !(b[e] == 13 && b[e + 1] == 10 && b[e + 2] == 13 && b[e + 3] == 10)
        invariant
            n == b@.len(),
            e <= n,
            find_blank(b@, e as int) == find_blank(b@, 0),
        decreases n - e,
    {
        e = e + 1;
    }
    if n - e <= 3 {
        return Err(HandshakeError::Incomplete);
    }
    let head = copy_range(b, 0, e);
    let ghost all = lines_from(head@, 0);
    let hn = head.len();
    let mut pos: usize = 0;
    let mut status: u16 = 0;
    let mut headers: Vec<Header> = Vec::new();
    let ghost mut done: Seq<Seq<u8>> = Seq::empty();
    let mut first = true;
    loop
        invariant
            first == (done.len() == 0),
            head@ == b@.subrange(0, find_blank(b@, 0)),
            e as int == find_blank(b@, 0),
            n == b@.len(),
            e + 3 < b@.len(),
            hn == head@.len(),
            pos <= hn,
            all == lines_from(head@, 0),
            all == done + lines_from(head@, pos as int),
            done.len() == 0 ==> headers@.len() == 0,
            done.len() > 0 ==> {
                &&& status_of(done[0]) == Some(status)
                &&& headers@.len() + 1 == done.len()
                &&& forall|j: int| 0 <= j < headers@.len() ==> #[trigger] header_of(done[j + 1])
                    == Some((headers@[j].name@, headers@[j].value@))
            },
        decreases hn - pos,
    {
        let mut k: usize = pos;
        while hn - k > 1 && !(head[k] == 13 && head[k + 1] == 10)
            invariant
                pos <= k <= hn,
                hn == head@.len(),
                find_crlf(head@, k as int) == find_crlf(head@, pos as int),
            decreases hn - k,
        {
            k = k + 1;
        }
        let last = hn - k <= 1;
        let end = if last {
            hn
        } else {
            k
        };
        let line = copy_range(&head, pos, end);
        let ghost rest = lines_from(head@, pos as int);
        proof {
            if last {
                assert(rest == seq![line@]);
            } else {
                assert(rest == seq![line@] + lines_from(head@, k + 2));
            }
        }
        if first {
            match parse_status_line(&line) {
                Some(st) => {
                    status = st;
                },
                None => {
                    assert(all[0] == line@);
                    return Err(HandshakeError::Malformed);
                },
            }
        } else {
            match parse_header_line(&line) {
                Some(h) => {
                    headers.push(h);
                },
                None => {
                    assert(all[done.len() as int] == line@);
                    assert(header_of(all[done.len() as int]) is None);
                    return Err(HandshakeError::Malformed);
                },
            }
        }
        first = false;
        proof {
            let old_done = done;
            done = done.push(line@);
            if last {
                assert(all =~= done);
            } else {
                assert(all =~= done + lines_from(head@, k + 2));
            }
            assert forall|j: int| 0 <= j < headers@.len() implies #[trigger] header_of(done[j + 1])
                == Some((headers@[j].name@, headers@[j].value@)) by {
                if j + 1 < old_done.len() {
                    assert(done[j + 1] == old_done[j + 1]);
                }
            }
        }
        if last {
            proof {
                assert forall|i: int| 1 <= i < all.len() implies !(#[trigger] header_of(all[i]) is None) by {
                    assert(header_of(done[(i - 1) + 1]) == Some((headers@[i - 1].name@, headers@[i - 1].value@)));
                }
            }
            return Ok((Response { status, headers }, e + 4));
        }
        pos = k + 2;
    }
}

/// The result `r` of validating the response `b` to a handshake sent with
/// `key` and offering `protocols`: the head's own error, else what its
/// status and headers decide.
pub open spec fn response_verdict(
    key: Seq<u8>,
    b: Seq<u8>,
    protocols: Seq<Vec<u8>>,
    r: Result<Option<Vec<u8>>, HandshakeError>,
) -> bool {
    &&& response_error(b) matches Some(e) ==> r == Err::<Option<Vec<u8>>, HandshakeError>(e)
    &&& response_error(b) is None ==> exists|resp: Response| {
        &&& #[trigger] parsed_as(b, resp)
        &&& match r {
            Ok(Some(p)) => response_outcome(expected_accept(key), resp, protocols) == Ok::<
                Option<Seq<u8>>,
                HandshakeError,
            >(Some(p@)),
            Ok(None) => response_outcome(expected_accept(key), resp, protocols) == Ok::<
                Option<Seq<u8>>,
                HandshakeError,
            >(None),
            Err(e) => response_outcome(expected_accept(key), resp, protocols) == Err::<
                Option<Seq<u8>>,
                HandshakeError,
            >(e),
        }
    }
}

/// Reads the server's response head and validates it against `key` and the
/// subprotocols offered.
pub fn validate_response_bytes(key: &Vec<u8>, b: &Vec<u8>, protocols: &Vec<Vec<u8>>) -> (r: Result<
    Option<Vec<u8>>,
    HandshakeError,
>)
    ensures
        response_verdict(key@, b@, protocols@, r),
{
    match parse_response(b) {
        Err(e) => Err(e),
        Ok((resp, _)) => {
            let accept = accept_key(key);
            let r = check_response(&accept, &resp, protocols);
            r
        },
    }
}

} // verus!
