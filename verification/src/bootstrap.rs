//! Bootstrap negotiation: what the first bytes of a new connection ask for.
//!
//! The first chunk starts with a request line, `METHOD SP TARGET SP VERSION`,
//! closed by CR LF. A `CONNECT` request names `host:port` and asks for an
//! opaque tunnel. Any other request is forwarded as it is: its host is the
//! authority of an absolute `http://` target, or the `Host` header when the
//! target is a path, and its port is 80 unless one is given.

use vstd::prelude::*;
use vstd::slice::{slice_subrange, slice_to_vec};
use vstd::string::StringSliceAdditionalSpecFns;

use crate::error::ProxyError;

verus! {

pub const HTAB: u8 = 9;

pub const LF: u8 = 10;

pub const CR: u8 = 13;

pub const SP: u8 = 32;

pub const HASH: u8 = 35;

pub const SLASH: u8 = 47;

pub const COLON: u8 = 58;

pub const QUESTION: u8 = 63;

pub const AT: u8 = 64;

pub const CLOSE_BRACKET: u8 = 93;

/// The port of a request that names none.
pub const DEFAULT_PORT: u16 = 80;

/// The bytes of `CONNECT`.
pub open spec fn connect_method() -> Seq<u8> {
    seq![67u8, 79, 78, 78, 69, 67, 84]
}

/// The bytes of `http://`.
pub open spec fn http_scheme() -> Seq<u8> {
    seq![104u8, 116, 116, 112, 58, 47, 47]
}

/// The bytes of `HTTP/`.
pub open spec fn version_prefix() -> Seq<u8> {
    seq![72u8, 84, 84, 80, 47]
}

/// The bytes of `host`.
pub open spec fn host_name() -> Seq<u8> {
    seq![104u8, 111, 115, 116]
}

/// `s` begins with `p`.
pub open spec fn has_prefix(s: Seq<u8>, p: Seq<u8>) -> bool {
    s.len() >= p.len() && s.subrange(0, p.len() as int) == p
}

/// The first index from `i` on at which `s` holds `a`, `b` or `c`; the
/// length of `s` if there is none.
pub open spec fn first_of(s: Seq<u8>, a: u8, b: u8, c: u8, i: int) -> int
    decreases s.len() - i,
{
    if i < 0 || i >= s.len() {
        s.len() as int
    } else if s[i] == a || s[i] == b || s[i] == c {
        i
    } else {
        first_of(s, a, b, c, i + 1)
    }
}

/// The first index at which `s` holds `b`; the length of `s` if there is
/// none.
pub open spec fn first_byte(s: Seq<u8>, b: u8) -> int {
    first_of(s, b, b, b, 0)
}

/// The first index from `i` on at which CR LF stands in `s`; the length of
/// `s` if there is none.
pub open spec fn line_end(s: Seq<u8>, i: int) -> int
    decreases s.len() - i,
{
    if i < 0 || i + 1 >= s.len() {
        s.len() as int
    } else if s[i] == CR && s[i + 1] == LF {
        i
    } else {
        line_end(s, i + 1)
    }
}

/// The index just behind the last `b` among the first `i` bytes of `s`; 0
/// if there is none.
pub open spec fn last_after(s: Seq<u8>, b: u8, i: int) -> int
    decreases i,
{
    if i <= 0 || i > s.len() {
        0
    } else if s[i - 1] == b {
        i
    } else {
        last_after(s, b, i - 1)
    }
}

/// The index of the colon that sets a port apart, looking at the first `i`
/// bytes of `s`: the last colon, unless a closing bracket follows it (then
/// the colon belongs to an address in brackets).
pub open spec fn port_colon(s: Seq<u8>, i: int) -> Option<int>
    decreases i,
{
    if i <= 0 || i > s.len() {
        None
    } else if s[i - 1] == COLON {
        Some(i - 1)
    } else if s[i - 1] == CLOSE_BRACKET {
        None
    } else {
        port_colon(s, i - 1)
    }
}

/// A token of the request line: not empty, visible ASCII only.
pub open spec fn is_token(s: Seq<u8>) -> bool {
    s.len() > 0 && forall|i: int| 0 <= i < s.len() ==> 0x21 <= #[trigger] s[i] <= 0x7e
}

/// Every byte of `s` is a decimal digit.
pub open spec fn is_digits(s: Seq<u8>) -> bool {
    forall|i: int| 0 <= i < s.len() ==> 48 <= #[trigger] s[i] <= 57
}

/// The number that the decimal digits `s` write.
pub open spec fn dec_value(s: Seq<u8>) -> nat
    decreases s.len(),
{
    if s.len() == 0 {
        0
    } else {
        (dec_value(s.drop_last()) * 10 + (s.last() - 48)) as nat
    }
}

/// The port that `s` writes: one to five decimal digits, no more than 65535.
pub open spec fn port_of(s: Seq<u8>) -> Option<u16> {
    if 1 <= s.len() <= 5 && is_digits(s) && dec_value(s) <= 65535 {
        Some(dec_value(s) as u16)
    } else {
        None
    }
}

/// Host and port of `host[:port]`. The host must not be empty. A port that
/// is given must be valid; where none is given, `default_port` is taken, and
/// there is no result without one.
pub open spec fn host_port(s: Seq<u8>, default_port: Option<u16>) -> Option<(Seq<u8>, u16)> {
    match port_colon(s, s.len() as int) {
        Some(c) => {
            match port_of(s.subrange(c + 1, s.len() as int)) {
                Some(p) => if c > 0 {
                    Some((s.subrange(0, c), p))
                } else {
                    None
                },
                None => None,
            }
        },
        None => {
            match default_port {
                Some(p) => if s.len() > 0 {
                    Some((s, p))
                } else {
                    None
                },
                None => None,
            }
        },
    }
}

/// The host and port part of an absolute `http://` target: what stands
/// between the scheme and the first `/`, `?` or `#`, without user
/// information (all up to the last `@`).
pub open spec fn uri_authority(target: Seq<u8>) -> Seq<u8>
    recommends
        has_prefix(target, http_scheme()),
{
    let rest = target.subrange(7, target.len() as int);
    let auth = rest.subrange(0, first_of(rest, SLASH, QUESTION, HASH, 0));
    auth.subrange(last_after(auth, AT, auth.len() as int), auth.len() as int)
}

/// A space or a tab.
pub open spec fn is_blank(b: u8) -> bool {
    b == SP || b == HTAB
}

/// `s` without the blanks at its front.
pub open spec fn trim_start(s: Seq<u8>) -> Seq<u8>
    decreases s.len(),
{
    if s.len() > 0 && is_blank(s[0]) {
        trim_start(s.drop_first())
    } else {
        s
    }
}

/// `s` without the blanks at its end.
pub open spec fn trim_end(s: Seq<u8>) -> Seq<u8>
    decreases s.len(),
{
    if s.len() > 0 && is_blank(s.last()) {
        trim_end(s.drop_last())
    } else {
        s
    }
}

/// An ASCII capital as its small letter, any other byte as it is.
pub open spec fn lower(b: u8) -> u8 {
    if 65 <= b <= 90 {
        (b + 32) as u8
    } else {
        b
    }
}

/// `a` and `b` are the same but for the case of ASCII letters.
pub open spec fn same_name(a: Seq<u8>, b: Seq<u8>) -> bool {
    a.len() == b.len() && forall|i: int| 0 <= i < a.len() ==> lower(#[trigger] a[i]) == lower(b[i])
}

/// The value of the header in `line`, without the blanks around it, if the
/// header's name is `name`.
pub open spec fn header_value(line: Seq<u8>, name: Seq<u8>) -> Option<Seq<u8>> {
    let c = first_byte(line, COLON);
    if 0 <= c < line.len() && same_name(line.subrange(0, c), name) {
        Some(trim_end(trim_start(line.subrange(c + 1, line.len() as int))))
    } else {
        None
    }
}

/// The value of the first `Host` header among the header lines `s`. The
/// lines end at an empty line; a line that is not closed by CR LF is not
/// read.
pub open spec fn host_header(s: Seq<u8>) -> Option<Seq<u8>>
    decreases s.len(),
{
    let e = line_end(s, 0);
    if e <= 0 || e + 2 > s.len() {
        None
    } else {
        match header_value(s.subrange(0, e), host_name()) {
            Some(v) => Some(v),
            None => host_header(s.subrange(e + 2, s.len() as int)),
        }
    }
}

/// Where a request is to be sent.
pub struct TargetModel {
    /// The request is `CONNECT`: the connection becomes an opaque tunnel.
    pub tunnel: bool,
    pub host: Seq<u8>,
    pub port: u16,
}

/// What the first chunk `s` of a connection asks for, if it is well formed.
pub open spec fn request_target(s: Seq<u8>) -> Option<TargetModel> {
    let e = line_end(s, 0);
    let line = s.subrange(0, e);
    let a = first_byte(line, SP);
    let method = line.subrange(0, a);
    let rest = line.subrange(a + 1, line.len() as int);
    let b = first_byte(rest, SP);
    let target = rest.subrange(0, b);
    let version = rest.subrange(b + 1, rest.len() as int);
    if !(0 <= e && e + 2 <= s.len() && 0 <= a < line.len() && 0 <= b < rest.len()) {
        None
    } else if !(is_token(method) && is_token(target) && is_token(version) && has_prefix(
        version,
        version_prefix(),
    )) {
        None
    } else if method == connect_method() {
        match host_port(target, None) {
            Some((host, port)) => Some(TargetModel { tunnel: true, host, port }),
            None => None,
        }
    } else if has_prefix(target, http_scheme()) {
        match host_port(uri_authority(target), Some(DEFAULT_PORT)) {
            Some((host, port)) => Some(TargetModel { tunnel: false, host, port }),
            None => None,
        }
    } else if target[0] == SLASH {
        match host_header(s.subrange(e + 2, s.len() as int)) {
            Some(value) => match host_port(value, Some(DEFAULT_PORT)) {
                Some((host, port)) => Some(TargetModel { tunnel: false, host, port }),
                None => None,
            },
            None => None,
        }
    } else {
        None
    }
}

/// Where a request is to be sent.
#[derive(Debug, PartialEq, Eq)]
pub struct Target {
    /// The request is `CONNECT`: the connection becomes an opaque tunnel.
    pub tunnel: bool,
    pub host: Vec<u8>,
    pub port: u16,
}

impl View for Target {
    type V = TargetModel;

    open spec fn view(&self) -> TargetModel {
        TargetModel { tunnel: self.tunnel, host: self.host@, port: self.port }
    }
}

fn find_any(s: &[u8], a: u8, b: u8, c: u8) -> (r: usize)
    ensures
        r == first_of(s@, a, b, c, 0),
        r <= s@.len(),
{
    let mut i: usize = 0;
    while i < s.len()
        invariant
            i <= s@.len(),
            first_of(s@, a, b, c, 0) == first_of(s@, a, b, c, i as int),
        decreases s.len() - i,
    {
        if s[i] == a || s[i] == b || s[i] == c {
            return i;
        }
        i += 1;
    }
    i
}

fn find_line_end(s: &[u8]) -> (r: usize)
    ensures
        r == line_end(s@, 0),
        r == s@.len() || r + 2 <= s@.len(),
{
    let n = s.len();
    if n < 2 {
        return n;
    }
    let mut i: usize = 0;
    while i < n - 1
        invariant
            n == s@.len(),
            n >= 2,
            i <= n - 1,
            line_end(s@, 0) == line_end(s@, i as int),
        decreases n - i,
    {
        if s[i] == CR && s[i + 1] == LF {
            return i;
        }
        i += 1;
    }
    n
}

fn find_last_after(s: &[u8], b: u8) -> (r: usize)
    ensures
        r == last_after(s@, b, s@.len() as int),
        r <= s@.len(),
{
    let mut i: usize = s.len();
    while i > 0
        invariant
            i <= s@.len(),
            last_after(s@, b, s@.len() as int) == last_after(s@, b, i as int),
        decreases i,
    {
        if s[i - 1] == b {
            return i;
        }
        i -= 1;
    }
    0
}

fn find_port_colon(s: &[u8]) -> (r: Option<usize>)
    ensures
        match r {
            Some(c) => c < s@.len() && port_colon(s@, s@.len() as int) == Some(c as int),
            None => port_colon(s@, s@.len() as int) is None,
        },
{
    let mut i: usize = s.len();
    while i > 0
        invariant
            i <= s@.len(),
            port_colon(s@, s@.len() as int) == port_colon(s@, i as int),
        decreases i,
    {
        if s[i - 1] == COLON {
            return Some(i - 1);
        }
        if s[i - 1] == CLOSE_BRACKET {
            return None;
        }
        i -= 1;
    }
    None
}

fn check_token(s: &[u8]) -> (r: bool)
    ensures
        r == is_token(s@),
{
    if s.len() == 0 {
        return false;
    }
    let mut i: usize = 0;
    while i < s.len()
        invariant
            i <= s@.len(),
            forall|j: int| 0 <= j < i ==> 0x21 <= #[trigger] s@[j] <= 0x7e,
        decreases s.len() - i,
    {
        if s[i] < 0x21 || s[i] > 0x7e {
            return false;
        }
        i += 1;
    }
    true
}

fn parse_port(s: &[u8]) -> (r: Option<u16>)
    ensures
        r == port_of(s@),
{
    let n = s.len();
    if n < 1 || n > 5 {
        return None;
    }
    let mut acc: u32 = 0;
    let mut i: usize = 0;
    while i < n
        invariant
            i <= n <= 5,
            n == s@.len(),
            forall|j: int| 0 <= j < i ==> 48 <= #[trigger] s@[j] <= 57,
            acc == dec_value(s@.subrange(0, i as int)),
            i == 0 ==> acc == 0,
            i == 1 ==> acc <= 9,
            i == 2 ==> acc <= 99,
            i == 3 ==> acc <= 999,
            i == 4 ==> acc <= 9_999,
            i == 5 ==> acc <= 99_999,
        decreases n - i,
    {
        let d = s[i];
        if d < 48 || d > 57 {
            return None;
        }
        acc = acc * 10 + (d - 48) as u32;
        i += 1;
        assert(s@.subrange(0, i as int).drop_last() =~= s@.subrange(0, i - 1));
    }
    assert(s@.subrange(0, n as int) =~= s@);
    if acc > 65535 {
        None
    } else {
        Some(acc as u16)
    }
}

fn split_host_port<'a>(s: &'a [u8], default_port: Option<u16>) -> (r: Option<(&'a [u8], u16)>)
    ensures
        match r {
            Some((host, port)) => host_port(s@, default_port) == Some((host@, port)),
            None => host_port(s@, default_port) is None,
        },
{
    let n = s.len();
    match find_port_colon(s) {
        Some(c) => {
            match parse_port(slice_subrange(s, c + 1, n)) {
                Some(port) => if c > 0 {
                    Some((slice_subrange(s, 0, c), port))
                } else {
                    None
                },
                None => None,
            }
        },
        None => {
            match default_port {
                Some(port) => if s.len() > 0 {
                    Some((s, port))
                } else {
                    None
                },
                None => None,
            }
        },
    }
}

fn starts_with(s: &[u8], p: &[u8]) -> (r: bool)
    ensures
        r == has_prefix(s@, p@),
{
    if s.len() < p.len() {
        return false;
    }
    let mut i: usize = 0;
    while i < p.len()
        invariant
            i <= p@.len() <= s@.len(),
            s@.subrange(0, i as int) == p@.subrange(0, i as int),
        decreases p.len() - i,
    {
        if s[i] != p[i] {
            assert(s@.subrange(0, p@.len() as int)[i as int] != p@[i as int]);
            return false;
        }
        i += 1;
        assert(s@.subrange(0, i as int) =~= s@.subrange(0, i - 1).push(s@[i - 1]));
        assert(p@.subrange(0, i as int) =~= p@.subrange(0, i - 1).push(p@[i - 1]));
    }
    assert(p@.subrange(0, p@.len() as int) =~= p@);
    true
}

fn to_lower(b: u8) -> (r: u8)
    ensures
        r == lower(b),
{
    if 65 <= b && b <= 90 {
        b + 32
    } else {
        b
    }
}

fn names_match(a: &[u8], b: &[u8]) -> (r: bool)
    ensures
        r == same_name(a@, b@),
{
    if a.len() != b.len() {
        return false;
    }
    let mut i: usize = 0;
    while i < a.len()
        invariant
            i <= a@.len(),
            a@.len() == b@.len(),
            forall|j: int| 0 <= j < i ==> lower(#[trigger] a@[j]) == lower(b@[j]),
        decreases a.len() - i,
    {
        if to_lower(a[i]) != to_lower(b[i]) {
            return false;
        }
        i += 1;
    }
    true
}

fn trim(s: &[u8]) -> (r: &[u8])
    ensures
        r@ == trim_end(trim_start(s@)),
{
    let mut v = s;
    while v.len() > 0 && (v[0] == SP || v[0] == HTAB)
        invariant
            trim_start(v@) == trim_start(s@),
        decreases v@.len(),
    {
        let w = slice_subrange(v, 1, v.len());
        assert(w@ =~= v@.drop_first());
        v = w;
    }
    let ghost front = v@;
    while v.len() > 0 && (v[v.len() - 1] == SP || v[v.len() - 1] == HTAB)
        invariant
            trim_end(v@) == trim_end(front),
        decreases v@.len(),
    {
        let w = slice_subrange(v, 0, v.len() - 1);
        assert(w@ =~= v@.drop_last());
        v = w;
    }
    v
}

fn find_header<'a>(line: &'a [u8], name: &[u8]) -> (r: Option<&'a [u8]>)
    ensures
        match r {
            Some(v) => header_value(line@, name@) == Some(v@),
            None => header_value(line@, name@) is None,
        },
{
    let c = find_any(line, COLON, COLON, COLON);
    if c < line.len() && names_match(slice_subrange(line, 0, c), name) {
        Some(trim(slice_subrange(line, c + 1, line.len())))
    } else {
        None
    }
}

fn find_host_header(s: &[u8]) -> (r: Option<&[u8]>)
    ensures
        match r {
            Some(v) => host_header(s@) == Some(v@),
            None => host_header(s@) is None,
        },
{
    let name: [u8; 4] = [104, 111, 115, 116];
    assert(name@ =~= host_name());
    let mut rest = s;
    loop
        invariant
            host_header(rest@) == host_header(s@),
            name@ == host_name(),
        decreases rest@.len(),
    {
        let e = find_line_end(rest);
        if e == 0 || e == rest.len() {
            return None;
        }
        match find_header(slice_subrange(rest, 0, e), name.as_slice()) {
            Some(v) => {
                return Some(v);
            },
            None => {},
        }
        rest = slice_subrange(rest, e + 2, rest.len());
    }
}

fn authority(target: &[u8]) -> (r: &[u8])
    requires
        has_prefix(target@, http_scheme()),
    ensures
        r@ == uri_authority(target@),
{
    let rest = slice_subrange(target, 7, target.len());
    let auth = slice_subrange(rest, 0, find_any(rest, SLASH, QUESTION, HASH));
    slice_subrange(auth, find_last_after(auth, AT), auth.len())
}

fn make_target(tunnel: bool, found: Option<(&[u8], u16)>) -> (r: Result<Target, ProxyError>)
    ensures
        match r {
            Ok(t) => found matches Some((host, port)) && t@ == (TargetModel {
                tunnel,
                host: host@,
                port,
            }),
            Err(e) => e == ProxyError::MalformedRequest && found is None,
        },
{
    match found {
        Some((host, port)) => Ok(Target { tunnel, host: slice_to_vec(host), port }),
        None => Err(ProxyError::MalformedRequest),
    }
}

/// Reads the first chunk of a connection and says where its request is to
/// be sent.
///
/// Fails with `MalformedRequest` when the chunk has no request line of three
/// tokens closed by CR LF, when the target of a `CONNECT` is not
/// `host:port`, and when no host can be found for another request.
pub fn parse_request(bytes: &[u8]) -> (r: Result<Target, ProxyError>)
    ensures
        match r {
            Ok(t) => request_target(bytes@) == Some(t@),
            Err(e) => e == ProxyError::MalformedRequest && request_target(bytes@) is None,
        },
{
    let e = find_line_end(bytes);
    if e == bytes.len() {
        return Err(ProxyError::MalformedRequest);
    }
    let line = slice_subrange(bytes, 0, e);
    let a = find_any(line, SP, SP, SP);
    if a == line.len() {
        return Err(ProxyError::MalformedRequest);
    }
    let method = slice_subrange(line, 0, a);
    let rest = slice_subrange(line, a + 1, line.len());
    let b = find_any(rest, SP, SP, SP);
    if b == rest.len() {
        return Err(ProxyError::MalformedRequest);
    }
    let target = slice_subrange(rest, 0, b);
    let version = slice_subrange(rest, b + 1, rest.len());
    let connect: [u8; 7] = [67, 79, 78, 78, 69, 67, 84];
    let scheme: [u8; 7] = [104, 116, 116, 112, 58, 47, 47];
    let http: [u8; 5] = [72, 84, 84, 80, 47];
    assert(connect@ =~= connect_method());
    assert(scheme@ =~= http_scheme());
    assert(http@ =~= version_prefix());
    if !(check_token(method) && check_token(target) && check_token(version) && starts_with(
        version,
        http.as_slice(),
    )) {
        return Err(ProxyError::MalformedRequest);
    }
    let is_connect = method.len() == 7 && starts_with(method, connect.as_slice());
    proof {
        if method@.len() == 7 {
            assert(method@.subrange(0, 7) =~= method@);
        }
        assert(is_connect == (method@ == connect_method()));
    }
    if is_connect {
        make_target(true, split_host_port(target, None))
    } else if starts_with(target, scheme.as_slice()) {
        make_target(false, split_host_port(authority(target), Some(DEFAULT_PORT)))
    } else if target[0] == SLASH {
        match find_host_header(slice_subrange(bytes, e + 2, bytes.len())) {
            Some(value) => make_target(false, split_host_port(value, Some(DEFAULT_PORT))),
            None => Err(ProxyError::MalformedRequest),
        }
    } else {
        Err(ProxyError::MalformedRequest)
    }
}

/// What is sent to the client once the tunnel of a `CONNECT` request
/// stands.
pub const ESTABLISHED: &'static str = "HTTP/1.1 200 Connection Established\r\n\r\n";

/// What is to be done for a new connection once the origin is reached.
pub struct PlanModel {
    pub target: TargetModel,
    /// What the client is sent.
    pub reply: Seq<u8>,
    /// What the origin is sent.
    pub forward: Seq<u8>,
}

/// What is to be done for a new connection whose first chunk is `s`. For a
/// tunnel the client is told that it stands and the origin is sent nothing;
/// any other request goes to the origin as it was read.
pub open spec fn plan_for(s: Seq<u8>) -> Option<PlanModel> {
    match request_target(s) {
        Some(target) => Some(
            if target.tunnel {
                PlanModel { target, reply: ESTABLISHED.spec_bytes(), forward: Seq::empty() }
            } else {
                PlanModel { target, reply: Seq::empty(), forward: s }
            },
        ),
        None => None,
    }
}

/// What is to be done for a new connection once the origin is reached.
#[derive(Debug, PartialEq, Eq)]
pub struct Plan {
    pub target: Target,
    /// What the client is sent.
    pub reply: Vec<u8>,
    /// What the origin is sent.
    pub forward: Vec<u8>,
}

impl View for Plan {
    type V = PlanModel;

    open spec fn view(&self) -> PlanModel {
        PlanModel { target: self.target@, reply: self.reply@, forward: self.forward@ }
    }
}

/// Reads the first chunk of a connection and says which origin to reach
/// and what to send once it is reached.
///
/// Fails with `MalformedRequest` exactly when `parse_request` does.
pub fn negotiate(bytes: &[u8]) -> (r: Result<Plan, ProxyError>)
    ensures
        match r {
            Ok(plan) => plan_for(bytes@) == Some(plan@),
            Err(e) => e == ProxyError::MalformedRequest && plan_for(bytes@) is None,
        },
{
    match parse_request(bytes) {
        Ok(target) => {
            if target.tunnel {
                Ok(Plan { target, reply: slice_to_vec(ESTABLISHED.as_bytes()), forward: Vec::new() })
            } else {
                Ok(Plan { target, reply: Vec::new(), forward: slice_to_vec(bytes) })
            }
        },
        Err(e) => Err(e),
    }
}

} // verus!
