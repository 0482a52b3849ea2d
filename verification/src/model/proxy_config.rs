//! Proxies and jump hosts on the way to the SSH server.
use vstd::prelude::*;

use crate::model::auth_config::AuthConfig;
use crate::model::tunnel_config::SshEndpoint;

verus! {

#[derive(Debug, Clone, Copy, PartialEq, Eq, Structural)]
pub enum ProxyKind {
    Http,
    Socks5,
}

/// A proxy used to reach the SSH server (not the tunnel payload).
#[derive(Debug, Clone, PartialEq, Eq)]
pub struct ProxyConfig {
    pub kind: ProxyKind,
    pub host: String,
    pub port: u16,
    /// Optional keychain ref for proxy credentials.
    pub auth_ref: Option<String>,
}

/// A bastion/jump host to hop through before reaching the SSH server.
#[derive(Debug, Clone, PartialEq, Eq)]
pub struct JumpHost {
    pub endpoint: SshEndpoint,
    pub auth: AuthConfig,
}

} // verus!
