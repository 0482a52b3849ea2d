//! The persisted definition of one tunnel.
use vstd::prelude::*;

use crate::model::auth_config::AuthConfig;
use crate::model::proxy_config::{JumpHost, ProxyConfig};
use crate::model::timestamp::Timestamp;

verus! {

/// The direction/mode of forwarding.
#[derive(Debug, Clone, Copy, PartialEq, Eq, Structural)]
pub enum ForwardKind {
    Local,
    Remote,
    Dynamic,
}

/// The SSH server to tunnel through, plus how to log in.
#[derive(Debug, Clone, PartialEq, Eq)]
pub struct SshEndpoint {
    pub host: String,
    pub port: u16,
    pub username: String,
}

/// Where a listener binds (local for local/dynamic, server-side for remote).
#[derive(Debug, Clone, PartialEq, Eq)]
pub struct ListenSpec {
    pub bind_address: String,
    pub port: u16,
}

/// The ultimate destination for local/remote forwarding.
#[derive(Debug, Clone, PartialEq, Eq)]
pub struct ForwardTarget {
    pub host: String,
    pub port: u16,
}

/// Auto-reconnect backoff policy.
///
/// The backoff multiplier is kept in thousandths: `factor_milli == 2000`
/// means each delay is twice the previous one.
#[derive(Debug, Clone, Copy, PartialEq, Eq, Structural)]
pub struct ReconnectPolicy {
    pub enabled: bool,
    pub initial_delay_ms: u32,
    pub max_delay_ms: u32,
    pub factor_milli: u32,
    pub jitter: bool,
    /// `None` = retry forever.
    pub max_retries: Option<u32>,
}

impl ReconnectPolicy {
    pub open spec fn default_spec() -> ReconnectPolicy {
        ReconnectPolicy {
            enabled: true,
            initial_delay_ms: 1000,
            max_delay_ms: 60000,
            factor_milli: 2000,
            jitter: true,
            max_retries: None,
        }
    }
}

impl Default for ReconnectPolicy {
    fn default() -> (p: Self)
        ensures
            p == Self::default_spec(),
    {
        ReconnectPolicy {
            enabled: true,
            initial_delay_ms: 1000,
            max_delay_ms: 60000,
            factor_milli: 2000,
            jitter: true,
            max_retries: None,
        }
    }
}

/// A single tunnel definition. Secrets are referenced by keychain id inside
/// `auth`/`proxy`, never stored here.
#[derive(Debug, Clone, PartialEq, Eq)]
pub struct TunnelConfig {
    /// The tunnel's UUID, as its 128-bit value.
    pub id: u128,
    pub name: String,
    pub description: Option<String>,
    pub kind: ForwardKind,
    pub enabled: bool,
    pub auto_start: bool,
    pub reconnect: ReconnectPolicy,
    pub ssh: SshEndpoint,
    pub auth: AuthConfig,
    pub listen: ListenSpec,
    pub target: Option<ForwardTarget>,
    pub proxy: Option<ProxyConfig>,
    pub jump_hosts: Vec<JumpHost>,
    pub keep_alive_seconds: Option<u32>,
    pub connect_timeout_ms: Option<u32>,
    pub compression: Option<bool>,
    pub group: Option<String>,
    pub tags: Vec<String>,
    pub created_at: Timestamp,
    pub updated_at: Timestamp,
}

} // verus!
