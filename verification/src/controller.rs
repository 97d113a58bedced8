//! Controller coupling: the wire types of the registration API, the
//! interpretation of heartbeat responses, and the reconciliation rules
//! that drive re-registration and backoff.

use vstd::prelude::*;

verus! {

/// Heartbeat failure, distinguishing "node not found" (needs
/// re-registration) from transient failures.
#[derive(Debug)]
pub enum HeartbeatError {
    /// The node id is no longer known to the controller.
    NodeNotFound(String),
    /// Any other failure: network, server error.
    Other(String),
}

impl HeartbeatError {
    /// The carried failure text.
    pub fn message(&self) -> (r: &str)
        ensures
            r@ == (match self {
                HeartbeatError::NodeNotFound(m) => m@,
                HeartbeatError::Other(m) => m@,
            }),
    {
        match self {
            HeartbeatError::NodeNotFound(m) => m.as_str(),
            HeartbeatError::Other(m) => m.as_str(),
        }
    }
}

/// Successful registration response.
#[derive(Debug)]
pub struct RegisterResponse {
    /// The node id assigned by the controller.
    pub node_id: String,
}

/// Remote configuration pushed by the controller.
#[derive(Debug, Clone)]
pub struct RemoteConfig {
    pub node_name: Option<String>,
    pub allowed_ports: Option<Vec<u16>>,
    pub log_level: Option<String>,
    pub heartbeat_interval: Option<u64>,
    pub timestamp_tolerance: Option<u64>,
}

/// Node block of a heartbeat response, as the controller sends it.
#[derive(Debug)]
pub struct HeartbeatNodeInfo {
    pub remote_config: Option<RemoteConfig>,
    pub config_version: Option<u64>,
}

/// Interpreted heartbeat response.
#[derive(Debug)]
pub struct HeartbeatResult {
    /// Remote configuration included in the response, if any.
    pub remote_config: Option<RemoteConfig>,
    /// Version of the remote configuration; 0 when the response names none.
    pub config_version: u64,
}

/// How a heartbeat HTTP status is classified.
#[derive(Debug, PartialEq, Eq, Structural, Clone, Copy)]
pub enum HeartbeatStatusClass {
    /// A 2xx status: the body carries the result.
    Success,
    /// 404: the node is unknown and must re-register.
    NodeNotFound,
    /// Any other status: a transient failure, retried next tick.
    Failure,
}

/// Classifies a heartbeat HTTP status: 2xx is success, 404 is the
/// distinguished "node not found", everything else is transient.
pub fn classify_heartbeat_status(status: u16) -> (r: HeartbeatStatusClass)
    ensures
        r == (if 200 <= status < 300 {
            HeartbeatStatusClass::Success
        } else if status == 404 {
            HeartbeatStatusClass::NodeNotFound
        } else {
            HeartbeatStatusClass::Failure
        }),
{
    if 200 <= status && status < 300 {
        HeartbeatStatusClass::Success
    } else if status == 404 {
        HeartbeatStatusClass::NodeNotFound
    } else {
        HeartbeatStatusClass::Failure
    }
}

/// Builds the heartbeat result from the optional node block of a
/// successful response: a missing block or version means no remote
/// configuration and version 0.
pub fn interpret_heartbeat_body(node: Option<HeartbeatNodeInfo>) -> (r: HeartbeatResult)
    ensures
        match node {
            Some(info) => {
                &&& r.remote_config == info.remote_config
                &&& r.config_version == (match info.config_version {
                    Some(v) => v,
                    None => 0u64,
                })
            },
            None => r.remote_config is None && r.config_version == 0,
        },
{
    match node {
        Some(info) => HeartbeatResult {
            remote_config: info.remote_config,
            config_version: match info.config_version {
                Some(v) => v,
                None => 0,
            },
        },
        None => HeartbeatResult { remote_config: None, config_version: 0 },
    }
}

/// What the reconciler does after one heartbeat.
#[derive(Debug, PartialEq, Eq, Structural, Clone, Copy)]
pub enum HeartbeatDisposition {
    /// A newer remote configuration arrived: apply it.
    Apply,
    /// Success with no newer configuration: nothing to do.
    Unchanged,
    /// The controller no longer knows the node: register again.
    Reregister,
    /// Transient failure: keep serving and retry on the next tick.
    Retry,
}

/// Decides the reconciler's next step from a heartbeat outcome: apply a
/// remote snapshot exactly when the heartbeat succeeded, carried one, and
/// its version is newer than the local one.
pub fn heartbeat_disposition(
    current_version: u64,
    outcome: &Result<HeartbeatResult, HeartbeatError>,
) -> (r: HeartbeatDisposition)
    ensures
        r == (match outcome {
            Ok(hr) => {
                if hr.remote_config is Some && hr.config_version > current_version {
                    HeartbeatDisposition::Apply
                } else {
                    HeartbeatDisposition::Unchanged
                }
            },
            Err(HeartbeatError::NodeNotFound(_)) => HeartbeatDisposition::Reregister,
            Err(HeartbeatError::Other(_)) => HeartbeatDisposition::Retry,
        }),
{
    match outcome {
        Ok(hr) => {
            if hr.remote_config.is_some() && hr.config_version > current_version {
                HeartbeatDisposition::Apply
            } else {
                HeartbeatDisposition::Unchanged
            }
        },
        Err(HeartbeatError::NodeNotFound(_)) => HeartbeatDisposition::Reregister,
        Err(HeartbeatError::Other(_)) => HeartbeatDisposition::Retry,
    }
}

/// The next re-registration backoff delay: doubling from one second,
/// capped at sixty.
pub open spec fn spec_next_backoff(current: u64) -> u64 {
    if current == 0 {
        1u64
    } else if current * 2 > 60 {
        60u64
    } else {
        (current * 2) as u64
    }
}

/// Steps the exponential re-registration backoff: 1, 2, 4, ... capped at
/// 60 seconds.
pub fn next_backoff(current: u64) -> (r: u64)
    ensures
        r == spec_next_backoff(current),
{
    if current == 0 {
        1
    } else if current > 30 {
        60
    } else {
        current * 2
    }
}

/// Whether a detected region code is usable: non-empty and at most
/// three bytes.
pub fn region_code_ok(code: &str) -> (r: bool)
    ensures
        r == (1 <= vstd::utf8::encode_utf8(code@).len() <= 3),
{
    let l = code.as_bytes().len();
    1 <= l && l <= 3
}

/// Number of character positions to keep of a controller base URL:
/// everything up to the trailing slashes.
pub open spec fn spec_trim_trailing_slashes(s: Seq<char>) -> Seq<char>
    decreases s.len(),
{
    if s.len() > 0 && s.last() == '/' {
        spec_trim_trailing_slashes(s.drop_last())
    } else {
        s
    }
}

/// The controller base URL without trailing slashes, so that endpoint
/// paths can be appended.
pub fn normalize_base_url(url: &str) -> (r: String)
    ensures
        r@ == spec_trim_trailing_slashes(url@),
{
    let n = url.unicode_len();
    let mut cut: usize = n;
    proof {
        assert(url@.take(n as int) =~= url@);
    }
    while cut > 0 && url.get_char(cut - 1) == '/'
        invariant
            n == url@.len(),
            0 <= cut <= n,
            spec_trim_trailing_slashes(url@) == spec_trim_trailing_slashes(
                url@.take(cut as int),
            ),
        decreases cut,
    {
        proof {
            assert(url@.take(cut as int).drop_last() =~= url@.take(cut - 1));
            assert(url@.take(cut as int).last() == url@[cut - 1]);
        }
        cut = cut - 1;
    }
    proof {
        assert(spec_trim_trailing_slashes(url@) =~= url@.take(cut as int)) by {
            if cut > 0 {
                assert(url@.take(cut as int).last() == url@[cut - 1]);
            }
        }
    }
    let kept = url.substring_char(0, cut);
    proof {
        assert(url@.subrange(0, cut as int) =~= url@.take(cut as int));
    }
    kept.to_owned()
}

} // verus!
