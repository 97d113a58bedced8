//! Static configuration, the optional configuration file image, and the
//! hot-reloadable dynamic snapshot with its invariant.

use vstd::prelude::*;

use crate::controller::RemoteConfig;
use crate::text::str_eq;

verus! {

/// Immutable process configuration.
#[derive(Debug, Clone)]
pub struct Config {
    /// Controller base URL.
    pub aether_url: String,
    /// Bearer token for the controller's admin API.
    pub management_token: String,
    /// HMAC-SHA256 key for proxy authentication.
    pub hmac_key: String,
    /// Port to listen on for proxy connections.
    pub listen_port: u16,
    /// Public IP address of this node, if configured.
    pub public_ip: Option<String>,
    /// Human-readable node name.
    pub node_name: String,
    /// Region label, if configured.
    pub node_region: Option<String>,
    /// Heartbeat interval in seconds.
    pub heartbeat_interval: u64,
    /// Allowed destination ports.
    pub allowed_ports: Vec<u16>,
    /// Timestamp tolerance window in seconds for HMAC validation.
    pub timestamp_tolerance: u64,
    /// Log level name.
    pub log_level: String,
    /// Output logs as JSON.
    pub log_json: bool,
    /// Accept both TLS and cleartext on the listen port.
    pub enable_tls: bool,
    /// Path of the TLS certificate PEM file.
    pub tls_cert: String,
    /// Path of the TLS private key PEM file.
    pub tls_key: String,
}

/// Image of the configuration file: every field optional, only populated
/// values are persisted.
#[derive(Debug)]
pub struct ConfigFile {
    pub aether_url: Option<String>,
    pub management_token: Option<String>,
    pub hmac_key: Option<String>,
    pub listen_port: Option<u16>,
    pub public_ip: Option<String>,
    pub node_name: Option<String>,
    pub node_region: Option<String>,
    pub heartbeat_interval: Option<u64>,
    pub allowed_ports: Option<Vec<u16>>,
    pub timestamp_tolerance: Option<u64>,
    pub log_level: Option<String>,
    pub log_json: Option<bool>,
    pub enable_tls: Option<bool>,
    pub tls_cert: Option<String>,
    pub tls_key: Option<String>,
}

/// A well-formed allowed-port set never contains port 0.
pub open spec fn spec_ports_wf(ports: Seq<u16>) -> bool {
    !ports.contains(0u16)
}

/// Ports with the invalid port 0 removed.
pub open spec fn spec_filtered_ports(ports: Seq<u16>) -> Seq<u16> {
    ports.filter(|p: u16| p != 0)
}

/// Copies the ports, dropping the invalid port 0.
pub fn filter_ports(ports: &Vec<u16>) -> (r: Vec<u16>)
    ensures
        r@ == spec_filtered_ports(ports@),
        spec_ports_wf(r@),
{
    let n = ports.len();
    let mut out: Vec<u16> = Vec::new();
    let mut i: usize = 0;
    proof {
        reveal(Seq::filter);
        assert(ports@.take(0) =~= Seq::<u16>::empty());
    }
    while i < n
        invariant
            n == ports@.len(),
            0 <= i <= n,
            out@ == ports@.take(i as int).filter(|p: u16| p != 0),
            forall|j: int| 0 <= j < out@.len() ==> out@[j] != 0,
        decreases n - i,
    {
        proof {
            reveal(Seq::filter);
            assert(ports@.take(i + 1).drop_last() =~= ports@.take(i as int));
            assert(ports@.take(i + 1).last() == ports@[i as int]);
        }
        let p = ports[i];
        if p != 0 {
            out.push(p);
        }
        i = i + 1;
    }
    proof {
        assert(ports@.take(n as int) =~= ports@);
    }
    out
}

/// Hot-reloadable configuration snapshot. Readers take the whole value;
/// writers replace it atomically.
#[derive(Debug, Clone)]
pub struct DynamicConfig {
    /// Allowed destination ports; never contains 0.
    pub allowed_ports: Vec<u16>,
    /// Timestamp tolerance window in seconds.
    pub timestamp_tolerance: u64,
    /// Heartbeat interval in seconds.
    pub heartbeat_interval: u64,
    /// Log level name.
    pub log_level: String,
    /// Node name.
    pub node_name: String,
    /// Version of the last applied remote configuration.
    pub config_version: u64,
}

/// Everything `apply_remote` decides: the next snapshot, whether it was
/// applied, and which side effects the caller owes.
pub struct ApplyOutcome {
    /// The snapshot to install.
    pub next: DynamicConfig,
    /// Whether the remote snapshot replaced the current one.
    pub applied: bool,
    /// The log level changed: the caller must reload the log filter.
    pub log_level_changed: bool,
    /// The node name changed: the caller must update the identity.
    pub node_name_changed: bool,
}

impl DynamicConfig {
    /// Invariant: the allowed-port set never contains 0.
    pub open spec fn wf(&self) -> bool {
        spec_ports_wf(self.allowed_ports@)
    }

    /// Initial snapshot taken from the static configuration, version 0.
    pub fn from_config(config: &Config) -> (r: DynamicConfig)
        ensures
            r.allowed_ports@ == spec_filtered_ports(config.allowed_ports@),
            r.timestamp_tolerance == config.timestamp_tolerance,
            r.heartbeat_interval == config.heartbeat_interval,
            r.log_level@ == config.log_level@,
            r.node_name@ == config.node_name@,
            r.config_version == 0,
            r.wf(),
    {
        DynamicConfig {
            allowed_ports: filter_ports(&config.allowed_ports),
            timestamp_tolerance: config.timestamp_tolerance,
            heartbeat_interval: config.heartbeat_interval,
            log_level: config.log_level.clone(),
            node_name: config.node_name.clone(),
            config_version: 0,
        }
    }

    /// Applies a remote snapshot when its version is newer; otherwise the
    /// current snapshot is kept unchanged. The configuration version never
    /// decreases, and the port invariant is preserved.
    pub fn apply_remote(&self, rc: &RemoteConfig, version: u64) -> (r: ApplyOutcome)
        requires
            self.wf(),
        ensures
            r.applied == (version > self.config_version),
            r.next.wf(),
            r.next.config_version >= self.config_version,
            r.applied ==> {
                &&& r.next.config_version == version
                &&& r.next.allowed_ports@ == (match rc.allowed_ports {
                    Some(p) => spec_filtered_ports(p@),
                    None => self.allowed_ports@,
                })
                &&& r.next.timestamp_tolerance == (match rc.timestamp_tolerance {
                    Some(t) => t,
                    None => self.timestamp_tolerance,
                })
                &&& r.next.heartbeat_interval == (match rc.heartbeat_interval {
                    Some(h) => h,
                    None => self.heartbeat_interval,
                })
                &&& r.next.log_level@ == (match rc.log_level {
                    Some(ref l) => l@,
                    None => self.log_level@,
                })
                &&& r.next.node_name@ == (match rc.node_name {
                    Some(ref nm) => nm@,
                    None => self.node_name@,
                })
            },
            !r.applied ==> {
                &&& r.next.allowed_ports@ == self.allowed_ports@
                &&& r.next.timestamp_tolerance == self.timestamp_tolerance
                &&& r.next.heartbeat_interval == self.heartbeat_interval
                &&& r.next.log_level@ == self.log_level@
                &&& r.next.node_name@ == self.node_name@
                &&& r.next.config_version == self.config_version
            },
            r.log_level_changed == (r.next.log_level@ != self.log_level@),
            r.node_name_changed == (r.next.node_name@ != self.node_name@),
    {
        if version <= self.config_version {
            return ApplyOutcome {
                next: self.clone_snapshot(),
                applied: false,
                log_level_changed: false,
                node_name_changed: false,
            };
        }
        let allowed_ports = match &rc.allowed_ports {
            Some(p) => filter_ports(p),
            None => clone_ports(&self.allowed_ports),
        };
        let log_level = match &rc.log_level {
            Some(l) => l.clone(),
            None => self.log_level.clone(),
        };
        let node_name = match &rc.node_name {
            Some(nm) => nm.clone(),
            None => self.node_name.clone(),
        };
        let log_level_changed = !str_eq(log_level.as_str(), self.log_level.as_str());
        let node_name_changed = !str_eq(node_name.as_str(), self.node_name.as_str());
        ApplyOutcome {
            next: DynamicConfig {
                allowed_ports,
                timestamp_tolerance: match &rc.timestamp_tolerance {
                    Some(t) => *t,
                    None => self.timestamp_tolerance,
                },
                heartbeat_interval: match &rc.heartbeat_interval {
                    Some(h) => *h,
                    None => self.heartbeat_interval,
                },
                log_level,
                node_name,
                config_version: version,
            },
            applied: true,
            log_level_changed,
            node_name_changed,
        }
    }

    /// Copies the snapshot field by field.
    pub fn clone_snapshot(&self) -> (r: DynamicConfig)
        ensures
            r.allowed_ports@ == self.allowed_ports@,
            r.timestamp_tolerance == self.timestamp_tolerance,
            r.heartbeat_interval == self.heartbeat_interval,
            r.log_level@ == self.log_level@,
            r.node_name@ == self.node_name@,
            r.config_version == self.config_version,
    {
        DynamicConfig {
            allowed_ports: clone_ports(&self.allowed_ports),
            timestamp_tolerance: self.timestamp_tolerance,
            heartbeat_interval: self.heartbeat_interval,
            log_level: self.log_level.clone(),
            node_name: self.node_name.clone(),
            config_version: self.config_version,
        }
    }
}

/// Copies a port list.
pub fn clone_ports(ports: &Vec<u16>) -> (r: Vec<u16>)
    ensures
        r@ == ports@,
{
    let n = ports.len();
    let mut out: Vec<u16> = Vec::new();
    let mut i: usize = 0;
    while i < n
        invariant
            n == ports@.len(),
            0 <= i <= n,
            out@ == ports@.take(i as int),
        decreases n - i,
    {
        out.push(ports[i]);
        proof {
            assert(ports@.take(i + 1) =~= ports@.take(i as int).push(ports@[i as int]));
        }
        i = i + 1;
    }
    proof {
        assert(ports@.take(n as int) =~= ports@);
    }
    out
}

} // verus!
