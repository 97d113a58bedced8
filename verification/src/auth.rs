//! HMAC request authentication with a replay window.
//!
//! The expected `Proxy-Authorization` value is `Basic` followed by
//! base64 of `hmac:{ts}.{sig}`, where `{ts}` is decimal Unix seconds and
//! `{sig}` is the lowercase hex HMAC-SHA256 of `"{ts}\n{node_id}"` under
//! the shared key. The scheme token matches case-insensitively, the
//! credential must decode as UTF-8, the timestamp must lie within the
//! tolerance window around the current time, and the signature comparison
//! is constant-time and length-guarded.

use vstd::prelude::*;
use vstd::utf8::encode_utf8;
use vstd::utf8::valid_utf8;

use crate::config::Config;
use crate::crypto::base64_decode;
use crate::crypto::constant_time_eq;
use crate::crypto::hmac_sha256;
use crate::crypto::spec_base64_decode;
use crate::crypto::spec_hmac_sha256;
use crate::crypto::utf8_valid;
use crate::text::ascii_lower;
use crate::text::find_byte;
use crate::text::hex_lower;
use crate::text::parse_u64_dec;
use crate::text::spec_ascii_lower;
use crate::text::spec_find;
use crate::text::spec_hex_bytes;
use crate::text::spec_parse_u64;
use crate::text::spec_trim;
use crate::text::trim_ascii;

verus! {

/// Why a `Proxy-Authorization` value was rejected. Every kind surfaces to
/// the client as 407 with `Proxy-Authenticate: HMAC-SHA256`.
#[derive(Debug, PartialEq, Eq, Structural, Clone, Copy)]
pub enum AuthError {
    /// The header is absent.
    MissingHeader,
    /// No `Basic` scheme, broken base64, or a credential that is not
    /// UTF-8 or has no `:`.
    InvalidBasicAuth,
    /// The username is not `hmac`.
    InvalidUsername,
    /// The password has no `.` separating timestamp and signature.
    InvalidPasswordFormat,
    /// The timestamp is not an unsigned decimal number.
    TimestampParseError,
    /// The timestamp lies outside the tolerance window.
    TimestampExpired,
    /// The signature does not match the expected one.
    SignatureMismatch,
}

impl AuthError {
    /// Stable description of the rejection.
    pub fn message(&self) -> (r: &'static str)
        ensures
            r@ == self.spec_message(),
    {
        match self {
            AuthError::MissingHeader => "missing Proxy-Authorization header",
            AuthError::InvalidBasicAuth => "invalid Basic auth encoding",
            AuthError::InvalidUsername => "username must be 'hmac'",
            AuthError::InvalidPasswordFormat => "password format must be 'timestamp.signature'",
            AuthError::TimestampParseError => "invalid timestamp",
            AuthError::TimestampExpired => "timestamp outside tolerance window",
            AuthError::SignatureMismatch => "HMAC signature mismatch",
        }
    }

    /// The description `message` returns.
    pub open spec fn spec_message(&self) -> Seq<char> {
        match self {
            AuthError::MissingHeader => "missing Proxy-Authorization header"@,
            AuthError::InvalidBasicAuth => "invalid Basic auth encoding"@,
            AuthError::InvalidUsername => "username must be 'hmac'"@,
            AuthError::InvalidPasswordFormat => "password format must be 'timestamp.signature'"@,
            AuthError::TimestampParseError => "invalid timestamp"@,
            AuthError::TimestampExpired => "timestamp outside tolerance window"@,
            AuthError::SignatureMismatch => "HMAC signature mismatch"@,
        }
    }
}

/// The scheme token, lowercased, with its trailing space.
pub open spec fn spec_basic_scheme() -> Seq<u8> {
    seq![98u8, 97u8, 115u8, 105u8, 99u8, 32u8]
}

/// The required username, `hmac`.
pub open spec fn spec_user_hmac() -> Seq<u8> {
    seq![104u8, 109u8, 97u8, 99u8]
}

/// The header starts with the `Basic` scheme and a space, matched
/// case-insensitively.
pub open spec fn spec_has_basic_scheme(h: Seq<u8>) -> bool {
    h.len() >= 6 && (forall|i: int|
        0 <= i < 6 ==> spec_ascii_lower(h[i]) == spec_basic_scheme()[i])
}

/// The byte string that is signed: `{ts}`, a line feed, the node id. The
/// line feed keeps the two fields apart unambiguously.
pub open spec fn spec_signed_payload(ts: Seq<u8>, node_id: Seq<u8>) -> Seq<u8> {
    ts + seq![10u8] + node_id
}

/// The signature the verifier expects for a timestamp string and node id:
/// lowercase hex of the HMAC-SHA256 tag of the signed payload.
pub open spec fn spec_expected_signature(key: Seq<u8>, ts: Seq<u8>, node_id: Seq<u8>) -> Seq<u8> {
    spec_hex_bytes(spec_hmac_sha256(key, spec_signed_payload(ts, node_id)))
}

/// Distance between the current time and the presented timestamp.
pub open spec fn spec_abs_diff(a: u64, b: u64) -> u64 {
    if a >= b {
        (a - b) as u64
    } else {
        (b - a) as u64
    }
}

/// The verifier's decision on a decoded credential: the full case
/// analysis, from UTF-8 validity down to the constant-time signature
/// comparison.
pub open spec fn spec_check_credential(
    cred: Seq<u8>,
    key: Seq<u8>,
    node_id: Seq<u8>,
    tolerance: u64,
    now: u64,
) -> Result<(), AuthError> {
    if !valid_utf8(cred) {
        Err(AuthError::InvalidBasicAuth)
    } else {
        match spec_find(cred, 58) {
            None => Err(AuthError::InvalidBasicAuth),
            Some(c) => {
                let username = cred.take(c);
                let password = cred.skip(c + 1);
                if username != spec_user_hmac() {
                    Err(AuthError::InvalidUsername)
                } else {
                    match spec_find(password, 46) {
                        None => Err(AuthError::InvalidPasswordFormat),
                        Some(d) => {
                            let ts = password.take(d);
                            let sig = password.skip(d + 1);
                            match spec_parse_u64(ts) {
                                None => Err(AuthError::TimestampParseError),
                                Some(tsv) => {
                                    if spec_abs_diff(now, tsv) > tolerance {
                                        Err(AuthError::TimestampExpired)
                                    } else if sig != spec_expected_signature(key, ts, node_id) {
                                        Err(AuthError::SignatureMismatch)
                                    } else {
                                        Ok(())
                                    }
                                },
                            }
                        },
                    }
                }
            },
        }
    }
}

/// The verifier's decision on a raw header value (or its absence), at a
/// given current time.
pub open spec fn spec_validate_auth(
    header: Option<Seq<u8>>,
    key: Seq<u8>,
    node_id: Seq<u8>,
    tolerance: u64,
    now: u64,
) -> Result<(), AuthError> {
    match header {
        None => Err(AuthError::MissingHeader),
        Some(h) => {
            if !spec_has_basic_scheme(h) {
                Err(AuthError::InvalidBasicAuth)
            } else {
                match spec_base64_decode(spec_trim(h.skip(6))) {
                    None => Err(AuthError::InvalidBasicAuth),
                    Some(cred) => spec_check_credential(cred, key, node_id, tolerance, now),
                }
            }
        },
    }
}

/// The header bytes of an optional header value.
pub open spec fn spec_header_bytes(header: Option<&str>) -> Option<Seq<u8>> {
    match header {
        Some(h) => Some(encode_utf8(h@)),
        None => None,
    }
}

/// A credential presenting timestamp string `ts` and signature `sig`:
/// `hmac:{ts}.{sig}`.
pub open spec fn spec_presented_credential(ts: Seq<u8>, sig: Seq<u8>) -> Seq<u8> {
    spec_user_hmac() + seq![58u8] + ts + seq![46u8] + sig
}

/// A credential correctly minted for the key and node id at timestamp
/// string `ts`.
pub open spec fn spec_minted_credential(key: Seq<u8>, node_id: Seq<u8>, ts: Seq<u8>) -> Seq<u8> {
    spec_presented_credential(ts, spec_expected_signature(key, ts, node_id))
}

/// ASCII byte strings are valid UTF-8.
proof fn lemma_ascii_valid_utf8(s: Seq<u8>)
    requires
        forall|i: int| 0 <= i < s.len() ==> s[i] < 128,
    ensures
        valid_utf8(s),
{
    assert(s.subrange(0, 0) =~= Seq::<u8>::empty());
    assert(vstd::utf8::partial_valid_utf8(s, 0));
    assert forall|i: int|
        0 <= i < s.len() implies #[trigger] vstd::utf8::is_leading_byte_width_1(s[i]) by {
        assert(s[i] < 128);
    }
    vstd::utf8::partial_valid_utf8_extend_ascii_block(s, 0, s.len() as int);
    assert(s.subrange(0, s.len() as int) =~= s);
}

/// How the verifier decides any credential of the wire shape
/// `hmac:{ts}.{sig}` with a parseable timestamp and an ASCII signature
/// field: expired outside the window, a signature mismatch for any
/// signature but the expected one (length mismatches included), and
/// acceptance exactly for the expected one.
pub proof fn lemma_credential_decision(
    key: Seq<u8>,
    node_id: Seq<u8>,
    ts: Seq<u8>,
    sig: Seq<u8>,
    tolerance: u64,
    now: u64,
    tsv: u64,
)
    requires
        spec_parse_u64(ts) == Some(tsv),
        forall|i: int| 0 <= i < sig.len() ==> sig[i] < 128,
    ensures
        ({
            let r = spec_check_credential(
                spec_presented_credential(ts, sig),
                key,
                node_id,
                tolerance,
                now,
            );
            &&& spec_abs_diff(now, tsv) > tolerance ==> r == Err::<(), AuthError>(
                AuthError::TimestampExpired,
            )
            &&& spec_abs_diff(now, tsv) <= tolerance && sig != spec_expected_signature(
                key,
                ts,
                node_id,
            ) ==> r == Err::<(), AuthError>(AuthError::SignatureMismatch)
            &&& spec_abs_diff(now, tsv) <= tolerance && sig == spec_expected_signature(
                key,
                ts,
                node_id,
            ) ==> r == Ok::<(), AuthError>(())
        }),
{
    let cred = spec_presented_credential(ts, sig);
    let stripped = crate::text::spec_strip_plus(ts);
    // Every byte of the timestamp string is a digit or a leading plus.
    assert forall|i: int| 0 <= i < ts.len() implies ts[i] < 128 && ts[i] != 58 && ts[i]
        != 46 by {
        if ts[0] == 43 && i == 0 {
        } else if ts[0] == 43 {
            assert(ts[i] == stripped[i - 1]);
            assert(crate::text::spec_is_digit(stripped[i - 1]));
        } else {
            assert(ts[i] == stripped[i]);
            assert(crate::text::spec_is_digit(stripped[i]));
        }
    }
    assert forall|i: int| 0 <= i < cred.len() implies cred[i] < 128 by {
        if i < 4 {
            assert(cred[i] == spec_user_hmac()[i]);
        } else if i == 4 {
        } else if i < 5 + ts.len() {
            assert(cred[i] == ts[i - 5]);
        } else if i == 5 + ts.len() {
        } else {
            assert(cred[i] == sig[i - 6 - ts.len()]);
        }
    }
    lemma_ascii_valid_utf8(cred);
    // The first colon stands right after the username.
    assert(cred[4] == 58);
    assert forall|j: int| 0 <= j < 4 implies cred[j] != 58 by {
        assert(cred[j] == spec_user_hmac()[j]);
    }
    crate::text::lemma_find_at(cred, 58, 4);
    assert(cred.take(4) =~= spec_user_hmac());
    let password = cred.skip(5);
    assert(password =~= ts + seq![46u8] + sig);
    // The first dot stands right after the timestamp string.
    assert(password[ts.len() as int] == 46);
    assert forall|j: int| 0 <= j < ts.len() implies password[j] != 46 by {
        assert(password[j] == ts[j]);
    }
    crate::text::lemma_find_at(password, 46, ts.len() as int);
    assert(password.take(ts.len() as int) =~= ts);
    assert(password.skip(ts.len() as int + 1) =~= sig);
}

/// Replay bound: a credential minted for the key and node id is
/// accepted exactly when its timestamp lies within the tolerance window
/// around the current time, and rejected as expired outside it.
pub proof fn lemma_replay_bound(
    key: Seq<u8>,
    node_id: Seq<u8>,
    ts: Seq<u8>,
    tolerance: u64,
    now: u64,
    tsv: u64,
)
    requires
        spec_parse_u64(ts) == Some(tsv),
    ensures
        spec_abs_diff(now, tsv) <= tolerance ==> spec_check_credential(
            spec_minted_credential(key, node_id, ts),
            key,
            node_id,
            tolerance,
            now,
        ) == Ok::<(), AuthError>(()),
        spec_abs_diff(now, tsv) > tolerance ==> spec_check_credential(
            spec_minted_credential(key, node_id, ts),
            key,
            node_id,
            tolerance,
            now,
        ) == Err::<(), AuthError>(AuthError::TimestampExpired),
{
    let sig = spec_expected_signature(key, ts, node_id);
    crate::text::lemma_hex_bytes_ascii(spec_hmac_sha256(key, spec_signed_payload(ts, node_id)));
    lemma_credential_decision(key, node_id, ts, sig, tolerance, now, tsv);
}

/// Node binding: a credential minted for one node id is rejected as a
/// signature mismatch when validated against another, provided the MAC
/// tags of the two signed payloads differ — which is the point of a
/// collision-resistant MAC.
pub proof fn lemma_node_binding(
    key: Seq<u8>,
    node_a: Seq<u8>,
    node_b: Seq<u8>,
    ts: Seq<u8>,
    tolerance: u64,
    now: u64,
    tsv: u64,
)
    requires
        spec_parse_u64(ts) == Some(tsv),
        spec_abs_diff(now, tsv) <= tolerance,
        spec_hmac_sha256(key, spec_signed_payload(ts, node_a)) != spec_hmac_sha256(
            key,
            spec_signed_payload(ts, node_b),
        ),
    ensures
        spec_check_credential(
            spec_minted_credential(key, node_a, ts),
            key,
            node_b,
            tolerance,
            now,
        ) == Err::<(), AuthError>(AuthError::SignatureMismatch),
{
    let tag_a = spec_hmac_sha256(key, spec_signed_payload(ts, node_a));
    let tag_b = spec_hmac_sha256(key, spec_signed_payload(ts, node_b));
    crate::text::lemma_hex_bytes_ascii(tag_a);
    assert(spec_hex_bytes(tag_a) != spec_hex_bytes(tag_b)) by {
        if spec_hex_bytes(tag_a) == spec_hex_bytes(tag_b) {
            crate::text::lemma_hex_bytes_injective(tag_a, tag_b);
        }
    }
    lemma_credential_decision(
        key,
        node_b,
        ts,
        spec_expected_signature(key, ts, node_a),
        tolerance,
        now,
        tsv,
    );
}

/// Signature pinning: within the window, a credential presenting any
/// ASCII signature field other than the expected one — a content
/// mismatch in any byte, or a length mismatch — is rejected as a
/// signature mismatch, never accepted.
pub proof fn lemma_signature_mismatch_rejected(
    key: Seq<u8>,
    node_id: Seq<u8>,
    ts: Seq<u8>,
    sig: Seq<u8>,
    tolerance: u64,
    now: u64,
    tsv: u64,
)
    requires
        spec_parse_u64(ts) == Some(tsv),
        spec_abs_diff(now, tsv) <= tolerance,
        forall|i: int| 0 <= i < sig.len() ==> sig[i] < 128,
        sig != spec_expected_signature(key, ts, node_id),
    ensures
        spec_check_credential(
            spec_presented_credential(ts, sig),
            key,
            node_id,
            tolerance,
            now,
        ) == Err::<(), AuthError>(AuthError::SignatureMismatch),
{
    lemma_credential_decision(key, node_id, ts, sig, tolerance, now, tsv);
}

/// Checks a decoded credential against the key, node id and window.
fn check_credential(cred: &[u8], key: &[u8], node_id: &[u8], tolerance: u64, now: u64) -> (r:
    Result<(), AuthError>)
    ensures
        r == spec_check_credential(cred@, key@, node_id@, tolerance, now),
{
    if !utf8_valid(cred) {
        return Err(AuthError::InvalidBasicAuth);
    }
    let c = match find_byte(cred, 58) {
        Some(c) => c,
        None => {
            return Err(AuthError::InvalidBasicAuth);
        },
    };
    proof {
        crate::text::lemma_find_first(cred@, 58);
    }
    let n = cred.len();
    let username = &cred[0..c];
    let password = &cred[c + 1..n];
    proof {
        assert(username@ =~= cred@.take(c as int));
        assert(password@ =~= cred@.skip(c + 1));
    }
    if !(username.len() == 4 && username[0] == 104 && username[1] == 109 && username[2] == 97
        && username[3] == 99) {
        proof {
            assert(username@ != spec_user_hmac());
        }
        return Err(AuthError::InvalidUsername);
    }
    proof {
        assert(username@ =~= spec_user_hmac());
    }
    let d = match find_byte(password, 46) {
        Some(d) => d,
        None => {
            return Err(AuthError::InvalidPasswordFormat);
        },
    };
    proof {
        crate::text::lemma_find_first(password@, 46);
    }
    let pn = password.len();
    let ts = &password[0..d];
    let sig = &password[d + 1..pn];
    proof {
        assert(ts@ =~= password@.take(d as int));
        assert(sig@ =~= password@.skip(d + 1));
    }
    let tsv = match parse_u64_dec(ts) {
        Some(v) => v,
        None => {
            return Err(AuthError::TimestampParseError);
        },
    };
    let diff = if now >= tsv {
        now - tsv
    } else {
        tsv - now
    };
    if diff > tolerance {
        return Err(AuthError::TimestampExpired);
    }
    let mut payload: Vec<u8> = Vec::new();
    payload.extend_from_slice(ts);
    payload.push(10);
    payload.extend_from_slice(node_id);
    proof {
        assert(payload@ =~= spec_signed_payload(ts@, node_id@));
    }
    let tag = hmac_sha256(key, payload.as_slice());
    let expected = hex_lower(tag.as_slice());
    if !constant_time_eq(sig, expected.as_slice()) {
        return Err(AuthError::SignatureMismatch);
    }
    Ok(())
}

/// Validates a `Proxy-Authorization` value against the key, the node id
/// and the tolerance window, at the given current time `now` (Unix
/// seconds). The result is the full decision: exactly one error kind for
/// every rejected input, `Ok` exactly when the header is well-formed, the
/// timestamp lies within the window, and the signature matches.
pub fn validate_proxy_auth_at(
    proxy_auth_header: Option<&str>,
    hmac_key: &str,
    node_id: &str,
    timestamp_tolerance: u64,
    now: u64,
) -> (r: Result<(), AuthError>)
    ensures
        r == spec_validate_auth(
            spec_header_bytes(proxy_auth_header),
            encode_utf8(hmac_key@),
            encode_utf8(node_id@),
            timestamp_tolerance,
            now,
        ),
{
    let header = match proxy_auth_header {
        Some(h) => h,
        None => {
            return Err(AuthError::MissingHeader);
        },
    };
    let hb: &[u8] = header.as_bytes();
    if hb.len() < 6 {
        return Err(AuthError::InvalidBasicAuth);
    }
    proof {
        assert(spec_basic_scheme()[0] == 98);
        assert(spec_basic_scheme()[1] == 97);
        assert(spec_basic_scheme()[2] == 115);
        assert(spec_basic_scheme()[3] == 105);
        assert(spec_basic_scheme()[4] == 99);
        assert(spec_basic_scheme()[5] == 32);
    }
    if !(ascii_lower(hb[0]) == 98 && ascii_lower(hb[1]) == 97 && ascii_lower(hb[2]) == 115
        && ascii_lower(hb[3]) == 105 && ascii_lower(hb[4]) == 99 && ascii_lower(hb[5]) == 32) {
        proof {
            assert(!spec_has_basic_scheme(hb@));
        }
        return Err(AuthError::InvalidBasicAuth);
    }
    proof {
        assert(spec_has_basic_scheme(hb@)) by {
            assert forall|i: int| 0 <= i < 6 implies spec_ascii_lower(hb@[i])
                == spec_basic_scheme()[i] by {
                assert(0 <= i < 6);
            }
        }
    }
    let encoded = trim_ascii(&hb[6..hb.len()]);
    proof {
        assert(hb@.subrange(6, hb@.len() as int) =~= hb@.skip(6));
    }
    let cred = match base64_decode(encoded) {
        Some(v) => v,
        None => {
            return Err(AuthError::InvalidBasicAuth);
        },
    };
    check_credential(
        cred.as_slice(),
        hmac_key.as_bytes(),
        node_id.as_bytes(),
        timestamp_tolerance,
        now,
    )
}

/// Relies on `std::time::SystemTime`: seconds since the Unix epoch, or
/// zero if the clock reads before it.
#[verifier::external_body]
fn unix_now_secs() -> u64 {
    match std::time::SystemTime::now().duration_since(std::time::UNIX_EPOCH) {
        Ok(d) => d.as_secs(),
        Err(_) => 0,
    }
}

/// Validates a `Proxy-Authorization` value at the current system time.
/// The timestamp tolerance is a separate argument so callers can pass the
/// hot-reloadable value from the dynamic configuration.
pub fn validate_proxy_auth(
    proxy_auth_header: Option<&str>,
    config: &Config,
    node_id: &str,
    timestamp_tolerance: u64,
) -> (r: Result<(), AuthError>)
    ensures
        exists|now: u64|
            r == spec_validate_auth(
                spec_header_bytes(proxy_auth_header),
                encode_utf8(config.hmac_key@),
                encode_utf8(node_id@),
                timestamp_tolerance,
                now,
            ),
        proxy_auth_header is None ==> r == Err::<(), AuthError>(AuthError::MissingHeader),
{
    let now = unix_now_secs();
    let r = validate_proxy_auth_at(
        proxy_auth_header,
        config.hmac_key.as_str(),
        node_id,
        timestamp_tolerance,
        now,
    );
    proof {
        assert(r == spec_validate_auth(
            spec_header_bytes(proxy_auth_header),
            encode_utf8(config.hmac_key@),
            encode_utf8(node_id@),
            timestamp_tolerance,
            now,
        ));
    }
    r
}

} // verus!
