//! Per-connection and per-request decisions of the proxy data plane:
//! dual-stack stream classification, request dispatch, authority and URL
//! parsing, header sanitation, and the full preflight of the tunnel,
//! plain-forward and delegate handlers.
//!
//! Every function here is pure decision logic. The caller owns the
//! sockets: it peeks the first byte, performs the dials and the
//! streaming, and turns a returned denial into the HTTP response.

use vstd::prelude::*;
use vstd::utf8::encode_utf8;

use crate::auth::spec_header_bytes;
use crate::auth::spec_validate_auth;
use crate::auth::validate_proxy_auth_at;
use crate::auth::AuthError;
use crate::crypto::base64_decode;
use crate::crypto::spec_base64_decode;
use crate::filter::spec_validate_target;
use crate::filter::validate_target;
use crate::filter::Endpoint;
use crate::filter::FilterError;
use crate::filter::TargetCheck;
use crate::text::bytes_eq;
use crate::text::clone_bytes;
use crate::text::spec_ascii_lower;
use crate::text::str_eq;

verus! {

// ---------------------------------------------------------------------
// Dual-stack demultiplexing
// ---------------------------------------------------------------------

/// What an accepted connection turned out to carry.
#[derive(Debug, PartialEq, Eq, Structural, Clone, Copy)]
pub enum StreamKind {
    /// The first byte was a TLS handshake record: run the TLS handshake.
    Tls,
    /// Anything else, or no byte before the peek deadline: serve
    /// cleartext HTTP.
    Plain,
}

/// Classifies a freshly accepted connection from its first byte, peeked
/// without being consumed. The TLS handshake record type 0x16 selects
/// TLS; any other first byte, or none within the peek deadline, selects
/// cleartext.
pub fn classify_first_byte(first: Option<u8>) -> (r: StreamKind)
    ensures
        r == (match first {
            Some(b) => if b == 22 {
                StreamKind::Tls
            } else {
                StreamKind::Plain
            },
            None => StreamKind::Plain,
        }),
        r is Tls <==> first == Some(22u8),
{
    match first {
        Some(b) => if b == 22 {
            StreamKind::Tls
        } else {
            StreamKind::Plain
        },
        None => StreamKind::Plain,
    }
}

// ---------------------------------------------------------------------
// Request dispatch
// ---------------------------------------------------------------------

/// Which handler serves a request.
#[derive(Debug, PartialEq, Eq, Structural, Clone, Copy)]
pub enum Route {
    /// A CONNECT request: the tunnel handler.
    ConnectTunnel,
    /// A POST to the delegate endpoint: the delegate handler.
    Delegate,
    /// Everything else: the plain forward handler.
    PlainForward,
}

/// The route a method and path select.
pub open spec fn spec_route(method: Seq<char>, path: Seq<char>) -> Route {
    if method == "CONNECT"@ {
        Route::ConnectTunnel
    } else if method == "POST"@ && path == "/_aether/delegate"@ {
        Route::Delegate
    } else {
        Route::PlainForward
    }
}

/// Dispatches a request: CONNECT goes to the tunnel handler, a POST to
/// the delegate endpoint to the delegate handler, everything else to the
/// plain forward handler.
pub fn route_request(method: &str, path: &str) -> (r: Route)
    ensures
        r == spec_route(method@, path@),
{
    if str_eq(method, "CONNECT") {
        Route::ConnectTunnel
    } else if str_eq(method, "POST") && str_eq(path, "/_aether/delegate") {
        Route::Delegate
    } else {
        Route::PlainForward
    }
}

// ---------------------------------------------------------------------
// Error responses
// ---------------------------------------------------------------------

/// An HTTP denial, as the data plane hands it back to the server loop:
/// the status, the `X-Error` text, and whether a
/// `Proxy-Authenticate: HMAC-SHA256` header is owed.
#[derive(Debug)]
pub struct ErrorResponse {
    pub status: u16,
    pub x_error: String,
    pub proxy_authenticate: bool,
}

/// 407, with the authentication challenge.
pub fn proxy_auth_required(msg: &str) -> (r: ErrorResponse)
    ensures
        r.status == 407 && r.proxy_authenticate && r.x_error@ == msg@,
{
    ErrorResponse { status: 407, x_error: msg.to_owned(), proxy_authenticate: true }
}

/// 403, for a policy rejection.
pub fn forbidden(msg: &str) -> (r: ErrorResponse)
    ensures
        r.status == 403 && !r.proxy_authenticate && r.x_error@ == msg@,
{
    ErrorResponse { status: 403, x_error: msg.to_owned(), proxy_authenticate: false }
}

/// 400, for a malformed request.
pub fn bad_request(msg: &str) -> (r: ErrorResponse)
    ensures
        r.status == 400 && !r.proxy_authenticate && r.x_error@ == msg@,
{
    ErrorResponse { status: 400, x_error: msg.to_owned(), proxy_authenticate: false }
}

/// 502, for an upstream failure.
pub fn bad_gateway(msg: &str) -> (r: ErrorResponse)
    ensures
        r.status == 502 && !r.proxy_authenticate && r.x_error@ == msg@,
{
    ErrorResponse { status: 502, x_error: msg.to_owned(), proxy_authenticate: false }
}

/// The response owed for a failed authentication: always 407 with the
/// challenge.
pub fn auth_denial(e: &AuthError) -> (r: ErrorResponse)
    ensures
        r.status == 407 && r.proxy_authenticate && r.x_error@ == e.spec_message(),
{
    proxy_auth_required(e.message())
}

/// The response owed for a filter rejection: 502 when resolution failed,
/// 403 for the policy itself.
pub fn filter_denial(e: &FilterError) -> (r: ErrorResponse)
    ensures
        r.status == (if e is ResolutionFailed {
            502int
        } else {
            403int
        }),
        !r.proxy_authenticate,
        r.x_error@ == e.spec_message(),
{
    match e {
        FilterError::ResolutionFailed => bad_gateway(e.message()),
        _ => forbidden(e.message()),
    }
}

// ---------------------------------------------------------------------
// Header sanitation
// ---------------------------------------------------------------------

/// One request header: its name and its raw value bytes.
#[derive(Debug)]
pub struct Header {
    pub name: String,
    pub value: Vec<u8>,
}

/// The abstract content of a header.
pub open spec fn spec_header_view(h: Header) -> (Seq<char>, Seq<u8>) {
    (h.name@, h.value@)
}

/// The name bytes, ASCII-lowercased.
pub open spec fn spec_lower_bytes(s: Seq<u8>) -> Seq<u8> {
    s.map_values(|b: u8| spec_ascii_lower(b))
}

/// The two hop headers the proxy strips before forwarding, matched
/// case-insensitively.
pub open spec fn spec_is_hop_header(name: Seq<u8>) -> bool {
    spec_lower_bytes(name) == encode_utf8("proxy-authorization"@) || spec_lower_bytes(name)
        == encode_utf8("proxy-connection"@)
}

/// ASCII-lowercases a byte string.
fn lower_bytes(s: &[u8]) -> (r: Vec<u8>)
    ensures
        r@ == spec_lower_bytes(s@),
{
    let n = s.len();
    let mut out: Vec<u8> = Vec::new();
    let mut i: usize = 0;
    proof {
        assert(out@ =~= spec_lower_bytes(s@.take(0)));
    }
    while i < n
        invariant
            n == s@.len(),
            0 <= i <= n,
            out@ == spec_lower_bytes(s@.take(i as int)),
        decreases n - i,
    {
        let b = s[i];
        out.push(if 65 <= b && b <= 90 {
            b + 32
        } else {
            b
        });
        proof {
            assert(spec_lower_bytes(s@.take(i + 1)) =~= spec_lower_bytes(s@.take(i as int)).push(
                spec_ascii_lower(s@[i as int]),
            ));
        }
        i = i + 1;
    }
    proof {
        assert(s@.take(n as int) =~= s@);
    }
    out
}

/// Whether a header name is one of the stripped hop headers.
pub fn is_hop_header(name: &str) -> (r: bool)
    ensures
        r == spec_is_hop_header(encode_utf8(name@)),
{
    let lowered = lower_bytes(name.as_bytes());
    bytes_eq(lowered.as_slice(), "proxy-authorization".as_bytes()) || bytes_eq(
        lowered.as_slice(),
        "proxy-connection".as_bytes(),
    )
}

/// Whether a header survives forwarding.
pub open spec fn spec_header_kept(p: (Seq<char>, Seq<u8>)) -> bool {
    !spec_is_hop_header(encode_utf8(p.0))
}

/// The abstract contents of a header list.
pub open spec fn spec_header_views(hs: Seq<Header>) -> Seq<(Seq<char>, Seq<u8>)> {
    hs.map_values(|h: Header| spec_header_view(h))
}

/// The abstract contents of the headers that survive forwarding.
pub open spec fn spec_forwarded_headers(hs: Seq<Header>) -> Seq<(Seq<char>, Seq<u8>)> {
    spec_header_views(hs).filter(|p: (Seq<char>, Seq<u8>)| spec_header_kept(p))
}

/// Copies the headers that are forwarded upstream: everything except
/// `Proxy-Authorization` and `Proxy-Connection`, byte for byte and in
/// order.
pub fn forward_headers(headers: &Vec<Header>) -> (r: Vec<Header>)
    ensures
        spec_header_views(r@) == spec_forwarded_headers(headers@),
        forall|i: int|
            0 <= i < r@.len() ==> !spec_is_hop_header(encode_utf8(#[trigger] r@[i].name@)),
{
    let n = headers.len();
    let mut out: Vec<Header> = Vec::new();
    let mut i: usize = 0;
    proof {
        reveal(Seq::filter);
        assert(spec_header_views(headers@.take(0)) =~= Seq::<(Seq<char>, Seq<u8>)>::empty());
        assert(spec_header_views(out@) =~= spec_forwarded_headers(headers@.take(0)));
    }
    while i < n
        invariant
            n == headers@.len(),
            0 <= i <= n,
            spec_header_views(out@) == spec_forwarded_headers(headers@.take(i as int)),
            forall|k: int|
                0 <= k < out@.len() ==> !spec_is_hop_header(
                    encode_utf8(#[trigger] out@[k].name@),
                ),
        decreases n - i,
    {
        let h = &headers[i];
        proof {
            reveal(Seq::filter);
            assert(spec_header_views(headers@.take(i + 1)).drop_last() =~= spec_header_views(
                headers@.take(i as int),
            ));
            assert(spec_header_views(headers@.take(i + 1)).last() == spec_header_view(
                headers@[i as int],
            ));
        }
        if !is_hop_header(h.name.as_str()) {
            let copied = Header { name: h.name.clone(), value: clone_bytes(&h.value) };
            proof {
                assert(spec_header_view(copied) == spec_header_view(headers@[i as int]));
            }
            out.push(copied);
            proof {
                assert(spec_header_views(out@) =~= spec_header_views(out@.drop_last()).push(
                    spec_header_view(out@.last()),
                ));
            }
        }
        i = i + 1;
    }
    proof {
        assert(headers@.take(n as int) =~= headers@);
    }
    out
}

// ---------------------------------------------------------------------
// Authority, port and URL parsing
// ---------------------------------------------------------------------

/// First index of `c` in `s`, if any.
pub open spec fn spec_find_char(s: Seq<char>, c: char) -> Option<int>
    decreases s.len(),
{
    if s.len() == 0 {
        None
    } else if s[0] == c {
        Some(0)
    } else {
        match spec_find_char(s.drop_first(), c) {
            Some(i) => Some(i + 1),
            None => None,
        }
    }
}

/// `spec_find_char` returns the first occurrence, if any.
proof fn lemma_find_char_first(s: Seq<char>, c: char)
    ensures
        match spec_find_char(s, c) {
            Some(i) => 0 <= i < s.len() && s[i] == c && (forall|j: int|
                0 <= j < i ==> s[j] != c),
            None => forall|j: int| 0 <= j < s.len() ==> s[j] != c,
        },
    decreases s.len(),
{
    if s.len() != 0 && s[0] != c {
        let t = s.drop_first();
        lemma_find_char_first(t, c);
        match spec_find_char(t, c) {
            Some(i) => {
                assert(s[i + 1] == t[i]);
                assert forall|j: int| 0 <= j < i + 1 implies s[j] != c by {
                    if j > 0 {
                        assert(s[j] == t[j - 1]);
                    }
                }
            },
            None => {
                assert forall|j: int| 0 <= j < s.len() implies s[j] != c by {
                    if j > 0 {
                        assert(s[j] == t[j - 1]);
                    }
                }
            },
        }
    }
}

/// Finds the first occurrence of `c` in `s`, by character position.
fn find_char(s: &str, c: char) -> (r: Option<usize>)
    ensures
        match r {
            Some(i) => spec_find_char(s@, c) == Some(i as int),
            None => spec_find_char(s@, c) is None,
        },
{
    let n = s.unicode_len();
    let mut i: usize = 0;
    while i < n
        invariant
            n == s@.len(),
            0 <= i <= n,
            forall|j: int| 0 <= j < i ==> s@[j] != c,
        decreases n - i,
    {
        if s.get_char(i) == c {
            proof {
                lemma_find_char_first(s@, c);
            }
            return Some(i);
        }
        i = i + 1;
    }
    proof {
        lemma_find_char_first(s@, c);
    }
    None
}

/// ASCII decimal digit, as a character.
pub open spec fn spec_char_is_digit(c: char) -> bool {
    '0' <= c <= '9'
}

/// All characters are decimal digits.
pub open spec fn spec_all_char_digits(s: Seq<char>) -> bool {
    forall|i: int| 0 <= i < s.len() ==> spec_char_is_digit(#[trigger] s[i])
}

/// Numeric value of a digit string.
pub open spec fn spec_char_digits_val(s: Seq<char>) -> int
    decreases s.len(),
{
    if s.len() == 0 {
        0
    } else {
        spec_char_digits_val(s.drop_last()) * 10 + (s.last() as u32 - 48)
    }
}

/// Value of a port numeral: one to five decimal digits, at most 65535.
pub open spec fn spec_parse_port(s: Seq<char>) -> Option<u16> {
    if 1 <= s.len() <= 5 && spec_all_char_digits(s) && spec_char_digits_val(s) <= 65535 {
        Some(spec_char_digits_val(s) as u16)
    } else {
        None
    }
}

/// Parses a port numeral.
fn parse_port(s: &str) -> (r: Option<u16>)
    ensures
        r == spec_parse_port(s@),
{
    let n = s.unicode_len();
    if n == 0 || n > 5 {
        return None;
    }
    let mut val: u32 = 0;
    let mut i: usize = 0;
    while i < n
        invariant
            n == s@.len(),
            n <= 5,
            0 <= i <= n,
            forall|k: int| 0 <= k < i ==> spec_char_is_digit(#[trigger] s@[k]),
            val == spec_char_digits_val(s@.take(i as int)),
            (val as int) <= (if i == 0 {
                0int
            } else if i == 1 {
                9int
            } else if i == 2 {
                99int
            } else if i == 3 {
                999int
            } else if i == 4 {
                9999int
            } else {
                99999int
            }),
        decreases n - i,
    {
        let c = s.get_char(i);
        if c < '0' || c > '9' {
            proof {
                assert(!spec_all_char_digits(s@));
            }
            return None;
        }
        proof {
            assert(s@.take(i + 1).drop_last() =~= s@.take(i as int));
            assert(s@.take(i + 1).last() == s@[i as int]);
        }
        val = val * 10 + ((c as u32) - 48);
        i = i + 1;
    }
    proof {
        assert(s@.take(n as int) =~= s@);
    }
    if val > 65535 {
        return None;
    }
    Some(val as u16)
}

/// Host and optional port of a request authority. A bracketed IPv6 host
/// keeps its brackets; the port, when present, follows a colon.
pub open spec fn spec_parse_authority(s: Seq<char>) -> Option<(Seq<char>, Option<u16>)> {
    if s.len() > 0 && s[0] == '[' {
        match spec_find_char(s, ']') {
            None => None,
            Some(i) => {
                let host = s.take(i + 1);
                let rest = s.skip(i + 1);
                if rest.len() == 0 {
                    Some((host, None))
                } else if rest[0] == ':' {
                    match spec_parse_port(rest.skip(1)) {
                        Some(p) => Some((host, Some(p))),
                        None => None,
                    }
                } else {
                    None
                }
            },
        }
    } else {
        match spec_find_char(s, ':') {
            None => if s.len() > 0 {
                Some((s, None))
            } else {
                None
            },
            Some(i) => {
                if i == 0 {
                    None
                } else {
                    match spec_parse_port(s.skip(i + 1)) {
                        Some(p) => Some((s.take(i), Some(p))),
                        None => None,
                    }
                }
            },
        }
    }
}

/// Splits a request authority into host and optional port.
pub fn parse_authority(s: &str) -> (r: Option<(String, Option<u16>)>)
    ensures
        match r {
            Some(hp) => spec_parse_authority(s@) == Some((hp.0@, hp.1)),
            None => spec_parse_authority(s@) is None,
        },
{
    let n = s.unicode_len();
    if n > 0 && s.get_char(0) == '[' {
        let i = match find_char(s, ']') {
            Some(i) => i,
            None => {
                return None;
            },
        };
        proof {
            lemma_find_char_first(s@, ']');
        }
        let host = s.substring_char(0, i + 1).to_owned();
        proof {
            assert(s@.subrange(0, i + 1) =~= s@.take(i + 1));
        }
        if i + 1 == n {
            return Some((host, None));
        }
        if s.get_char(i + 1) == ':' {
            let ps = s.substring_char(i + 2, n);
            proof {
                assert(s@.subrange(i + 2, n as int) =~= s@.skip(i + 1).skip(1));
                assert(s@.skip(i + 1)[0] == s@[i + 1]);
            }
            match parse_port(ps) {
                Some(p) => Some((host, Some(p))),
                None => None,
            }
        } else {
            proof {
                assert(s@.skip(i + 1)[0] == s@[i + 1]);
                assert(s@.skip(i + 1).len() > 0);
            }
            None
        }
    } else {
        match find_char(s, ':') {
            None => {
                if n > 0 {
                    Some((s.to_owned(), None))
                } else {
                    None
                }
            },
            Some(i) => {
                if i == 0 {
                    return None;
                }
                proof {
                    lemma_find_char_first(s@, ':');
                }
                let host = s.substring_char(0, i).to_owned();
                let ps = s.substring_char(i + 1, n);
                proof {
                    assert(s@.subrange(0, i as int) =~= s@.take(i as int));
                    assert(s@.subrange(i + 1, n as int) =~= s@.skip(i + 1));
                }
                match parse_port(ps) {
                    Some(p) => Some((host, Some(p))),
                    None => None,
                }
            },
        }
    }
}

/// Scheme of a delegate URL: the character count of the prefix and the
/// scheme's default port.
pub open spec fn spec_url_scheme(s: Seq<char>) -> Option<(int, u16)> {
    if s.len() >= 8 && s[0] == 'h' && s[1] == 't' && s[2] == 't' && s[3] == 'p' && s[4] == 's'
        && s[5] == ':' && s[6] == '/' && s[7] == '/' {
        Some((8int, 443u16))
    } else if s.len() >= 7 && s[0] == 'h' && s[1] == 't' && s[2] == 't' && s[3] == 'p' && s[4]
        == ':' && s[5] == '/' && s[6] == '/' {
        Some((7int, 80u16))
    } else {
        None
    }
}

/// Host and port of a delegate URL: an `http` or `https` scheme, then
/// the authority up to the first slash, with the scheme's default port
/// when none is given.
pub open spec fn spec_parse_url(s: Seq<char>) -> Option<(Seq<char>, u16)> {
    match spec_url_scheme(s) {
        None => None,
        Some((k, default_port)) => {
            let rest = s.skip(k);
            let alen = match spec_find_char(rest, '/') {
                Some(i) => i,
                None => rest.len() as int,
            };
            match spec_parse_authority(rest.take(alen)) {
                None => None,
                Some((host, popt)) => Some(
                    (
                        host,
                        match popt {
                            Some(p) => p,
                            None => default_port,
                        },
                    ),
                ),
            }
        },
    }
}

/// Extracts host and port from a delegate URL.
pub fn parse_url(s: &str) -> (r: Option<(String, u16)>)
    ensures
        match r {
            Some(hp) => spec_parse_url(s@) == Some((hp.0@, hp.1)),
            None => spec_parse_url(s@) is None,
        },
{
    let n = s.unicode_len();
    let (k, default_port): (usize, u16) = if n >= 8 && s.get_char(0) == 'h' && s.get_char(1)
        == 't' && s.get_char(2) == 't' && s.get_char(3) == 'p' && s.get_char(4) == 's'
        && s.get_char(5) == ':' && s.get_char(6) == '/' && s.get_char(7) == '/' {
        (8, 443)
    } else if n >= 7 && s.get_char(0) == 'h' && s.get_char(1) == 't' && s.get_char(2) == 't'
        && s.get_char(3) == 'p' && s.get_char(4) == ':' && s.get_char(5) == '/' && s.get_char(6)
        == '/' {
        (7, 80)
    } else {
        return None;
    };
    let rest = s.substring_char(k, n);
    proof {
        assert(rest@ =~= s@.skip(k as int));
    }
    let alen = match find_char(rest, '/') {
        Some(i) => i,
        None => rest.unicode_len(),
    };
    proof {
        lemma_find_char_first(rest@, '/');
    }
    let authority = rest.substring_char(0, alen);
    proof {
        assert(authority@ =~= rest@.take(alen as int));
    }
    match parse_authority(authority) {
        None => None,
        Some((host, popt)) => Some(
            (
                host,
                match popt {
                    Some(p) => p,
                    None => default_port,
                },
            ),
        ),
    }
}

// ---------------------------------------------------------------------
// Handler preflight
// ---------------------------------------------------------------------

/// What the tunnel handler does next.
#[derive(Debug)]
pub enum TunnelPlan {
    /// Dial this endpoint, answer 200 and splice.
    Establish(Endpoint),
    /// The target is a DNS name: resolve it, then decide with
    /// `validate_resolved`.
    Resolve { host: String, port: u16 },
    /// Answer with this denial.
    Deny(ErrorResponse),
}

/// The full preflight of a CONNECT request at time `now`:
/// authentication first, then the target authority, then the policy
/// filter; the default port is 443. No dial happens before every check
/// has passed.
pub fn plan_connect(
    proxy_auth_header: Option<&str>,
    hmac_key: &str,
    node_id: &str,
    timestamp_tolerance: u64,
    now: u64,
    authority: Option<&str>,
    allowed_ports: &Vec<u16>,
) -> (r: TunnelPlan)
    ensures
        ({
            let auth = spec_validate_auth(
                spec_header_bytes(proxy_auth_header),
                encode_utf8(hmac_key@),
                encode_utf8(node_id@),
                timestamp_tolerance,
                now,
            );
            match auth {
                Err(e) => r matches TunnelPlan::Deny(d) && d.status == 407 && d.proxy_authenticate
                    && d.x_error@ == e.spec_message(),
                Ok(()) => match authority {
                    None => r matches TunnelPlan::Deny(d) && d.status == 400
                        && !d.proxy_authenticate && d.x_error@ == "missing target authority"@,
                    Some(a) => match spec_parse_authority(a@) {
                        None => r matches TunnelPlan::Deny(d) && d.status == 400
                            && !d.proxy_authenticate && d.x_error@
                            == "invalid target authority"@,
                        Some((host, popt)) => {
                            let port = match popt {
                                Some(p) => p,
                                None => 443u16,
                            };
                            match spec_validate_target(encode_utf8(host), port, allowed_ports@) {
                                Err(fe) => r matches TunnelPlan::Deny(d) && d.status == 403
                                    && !d.proxy_authenticate && d.x_error@ == fe.spec_message(),
                                Ok(TargetCheck::Usable(ep)) => r matches TunnelPlan::Establish(e2)
                                    && e2 == ep,
                                Ok(TargetCheck::NeedsResolution) => r matches TunnelPlan::Resolve {
                                    host: h2,
                                    port: p2,
                                } && h2@ == host && p2 == port,
                            }
                        },
                    },
                },
            }
        }),
{
    if let Err(e) = validate_proxy_auth_at(
        proxy_auth_header,
        hmac_key,
        node_id,
        timestamp_tolerance,
        now,
    ) {
        return TunnelPlan::Deny(auth_denial(&e));
    }
    let a = match authority {
        Some(a) => a,
        None => {
            return TunnelPlan::Deny(bad_request("missing target authority"));
        },
    };
    let (host, popt) = match parse_authority(a) {
        Some(hp) => hp,
        None => {
            return TunnelPlan::Deny(bad_request("invalid target authority"));
        },
    };
    let port = match popt {
        Some(p) => p,
        None => 443,
    };
    match validate_target(host.as_str(), port, allowed_ports) {
        Err(fe) => TunnelPlan::Deny(forbidden(fe.message())),
        Ok(TargetCheck::Usable(ep)) => TunnelPlan::Establish(ep),
        Ok(TargetCheck::NeedsResolution) => TunnelPlan::Resolve { host, port },
    }
}

/// What the plain forward handler does next.
#[derive(Debug)]
pub enum ForwardPlan {
    /// Dial this endpoint and forward the rewritten request.
    Forward(Endpoint),
    /// The target is a DNS name: resolve it, then decide with
    /// `validate_resolved`.
    Resolve { port: u16 },
    /// Answer with this denial.
    Deny(ErrorResponse),
}

/// The full preflight of a plain forward request at time `now`:
/// authentication first, then the host from the absolute URI, then the
/// policy filter; the default port is 80.
pub fn plan_plain(
    proxy_auth_header: Option<&str>,
    hmac_key: &str,
    node_id: &str,
    timestamp_tolerance: u64,
    now: u64,
    host: Option<&str>,
    port: Option<u16>,
    allowed_ports: &Vec<u16>,
) -> (r: ForwardPlan)
    ensures
        ({
            let auth = spec_validate_auth(
                spec_header_bytes(proxy_auth_header),
                encode_utf8(hmac_key@),
                encode_utf8(node_id@),
                timestamp_tolerance,
                now,
            );
            match auth {
                Err(e) => r matches ForwardPlan::Deny(d) && d.status == 407 && d.proxy_authenticate
                    && d.x_error@ == e.spec_message(),
                Ok(()) => match host {
                    None => r matches ForwardPlan::Deny(d) && d.status == 400
                        && !d.proxy_authenticate && d.x_error@ == "missing host in URI"@,
                    Some(h) => {
                        let p = match port {
                            Some(p) => p,
                            None => 80u16,
                        };
                        match spec_validate_target(encode_utf8(h@), p, allowed_ports@) {
                            Err(fe) => r matches ForwardPlan::Deny(d) && d.status == 403
                                && !d.proxy_authenticate && d.x_error@ == fe.spec_message(),
                            Ok(TargetCheck::Usable(ep)) => r matches ForwardPlan::Forward(e2) && e2
                                == ep,
                            Ok(TargetCheck::NeedsResolution) => r matches ForwardPlan::Resolve {
                                port: p2,
                            } && p2 == p,
                        }
                    },
                },
            }
        }),
{
    if let Err(e) = validate_proxy_auth_at(
        proxy_auth_header,
        hmac_key,
        node_id,
        timestamp_tolerance,
        now,
    ) {
        return ForwardPlan::Deny(auth_denial(&e));
    }
    let h = match host {
        Some(h) => h,
        None => {
            return ForwardPlan::Deny(bad_request("missing host in URI"));
        },
    };
    let p = match port {
        Some(p) => p,
        None => 80,
    };
    match validate_target(h, p, allowed_ports) {
        Err(fe) => ForwardPlan::Deny(forbidden(fe.message())),
        Ok(TargetCheck::Usable(ep)) => ForwardPlan::Forward(ep),
        Ok(TargetCheck::NeedsResolution) => ForwardPlan::Resolve { port: p },
    }
}

// ---------------------------------------------------------------------
// Delegate handler
// ---------------------------------------------------------------------

/// A delegate request, as decoded from the endpoint's JSON body: an
/// upstream request the node executes on behalf of a trusted caller.
#[derive(Debug)]
pub struct DelegateRequest {
    pub method: String,
    pub url: String,
    pub headers: Vec<Header>,
    pub body_base64: Option<String>,
}

/// What the delegate handler does next.
#[derive(Debug)]
pub enum DelegatePlan {
    /// Execute the upstream request with the decoded body.
    Execute { body: Vec<u8> },
    /// The URL names a DNS host: resolve it, decide with
    /// `validate_resolved`, then execute with the decoded body.
    Resolve { host: String, port: u16, body: Vec<u8> },
    /// Answer with this denial.
    Deny(ErrorResponse),
}

/// The full preflight of a delegate request at time `now`:
/// authentication first, then the URL, then the policy filter against
/// the URL's host and port, then the base64 body.
pub fn plan_delegate(
    proxy_auth_header: Option<&str>,
    hmac_key: &str,
    node_id: &str,
    timestamp_tolerance: u64,
    now: u64,
    request: &DelegateRequest,
    allowed_ports: &Vec<u16>,
) -> (r: DelegatePlan)
    ensures
        ({
            let auth = spec_validate_auth(
                spec_header_bytes(proxy_auth_header),
                encode_utf8(hmac_key@),
                encode_utf8(node_id@),
                timestamp_tolerance,
                now,
            );
            match auth {
                Err(e) => r matches DelegatePlan::Deny(d) && d.status == 407
                    && d.proxy_authenticate && d.x_error@ == e.spec_message(),
                Ok(()) => match spec_parse_url(request.url@) {
                    None => r matches DelegatePlan::Deny(d) && d.status == 400
                        && !d.proxy_authenticate && d.x_error@ == "invalid delegate URL"@,
                    Some((host, port)) => match spec_validate_target(
                        encode_utf8(host),
                        port,
                        allowed_ports@,
                    ) {
                        Err(fe) => r matches DelegatePlan::Deny(d) && d.status == 403
                            && !d.proxy_authenticate && d.x_error@ == fe.spec_message(),
                        Ok(check) => {
                            let body = match request.body_base64 {
                                Some(ref b) => spec_base64_decode(encode_utf8(b@)),
                                None => Some(Seq::<u8>::empty()),
                            };
                            match body {
                                None => r matches DelegatePlan::Deny(d) && d.status == 400
                                    && !d.proxy_authenticate && d.x_error@
                                    == "invalid body_base64"@,
                                Some(bytes) => match check {
                                    TargetCheck::Usable(_) => r matches DelegatePlan::Execute {
                                        body: b2,
                                    } && b2@ == bytes,
                                    TargetCheck::NeedsResolution => r
                                        matches DelegatePlan::Resolve {
                                        host: h2,
                                        port: p2,
                                        body: b2,
                                    } && h2@ == host && p2 == port && b2@ == bytes,
                                },
                            }
                        },
                    },
                },
            }
        }),
{
    if let Err(e) = validate_proxy_auth_at(
        proxy_auth_header,
        hmac_key,
        node_id,
        timestamp_tolerance,
        now,
    ) {
        return DelegatePlan::Deny(auth_denial(&e));
    }
    let (host, port) = match parse_url(request.url.as_str()) {
        Some(hp) => hp,
        None => {
            return DelegatePlan::Deny(bad_request("invalid delegate URL"));
        },
    };
    let check = match validate_target(host.as_str(), port, allowed_ports) {
        Err(fe) => {
            return DelegatePlan::Deny(forbidden(fe.message()));
        },
        Ok(check) => check,
    };
    let body: Vec<u8> = match &request.body_base64 {
        Some(b) => match base64_decode(b.as_str().as_bytes()) {
            Some(bytes) => bytes,
            None => {
                return DelegatePlan::Deny(bad_request("invalid body_base64"));
            },
        },
        None => Vec::new(),
    };
    match check {
        TargetCheck::Usable(_) => DelegatePlan::Execute { body },
        TargetCheck::NeedsResolution => DelegatePlan::Resolve { host, port, body },
    }
}

} // verus!
