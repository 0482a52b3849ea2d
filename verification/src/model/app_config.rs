//! The whole persisted application configuration.
use vstd::prelude::*;

use crate::model::tunnel_config::{ReconnectPolicy, SshEndpoint, TunnelConfig};

verus! {

/// The current on-disk config schema version.
pub const CONFIG_VERSION: u32 = 1;

#[derive(Debug, Clone, Copy, PartialEq, Eq, Structural)]
pub enum ThemePref {
    System,
    Light,
    Dark,
}

#[derive(Debug, Clone, Copy, PartialEq, Eq, Structural)]
pub struct NotificationPrefs {
    pub on_connect: bool,
    pub on_disconnect: bool,
    pub on_error: bool,
}

impl Default for NotificationPrefs {
    fn default() -> (p: Self)
        ensures
            !p.on_connect && !p.on_disconnect && p.on_error,
    {
        NotificationPrefs { on_connect: false, on_disconnect: false, on_error: true }
    }
}

/// Global defaults applied to newly created tunnels.
#[derive(Debug, Clone, PartialEq, Eq)]
pub struct Defaults {
    pub ssh: Option<SshEndpoint>,
    pub reconnect: Option<ReconnectPolicy>,
    pub keep_alive_seconds: Option<u32>,
}

impl Default for Defaults {
    fn default() -> (d: Self)
        ensures
            d.ssh is None && d.reconnect is None && d.keep_alive_seconds is None,
    {
        Defaults { ssh: None, reconnect: None, keep_alive_seconds: None }
    }
}

/// The whole persisted application configuration.
#[derive(Debug, Clone, PartialEq, Eq)]
pub struct AppConfig {
    pub version: u32,
    pub theme: ThemePref,
    pub start_on_boot: bool,
    pub minimize_to_tray: bool,
    pub notifications: NotificationPrefs,
    pub defaults: Defaults,
    pub tunnels: Vec<TunnelConfig>,
}

impl Default for AppConfig {
    fn default() -> (c: Self)
        ensures
            c.version == CONFIG_VERSION,
            c.theme == ThemePref::System,
            !c.start_on_boot,
            c.minimize_to_tray,
            !c.notifications.on_connect && !c.notifications.on_disconnect
                && c.notifications.on_error,
            c.defaults.ssh is None && c.defaults.reconnect is None
                && c.defaults.keep_alive_seconds is None,
            c.tunnels@.len() == 0,
    {
        AppConfig {
            version: CONFIG_VERSION,
            theme: ThemePref::System,
            start_on_boot: false,
            minimize_to_tray: true,
            notifications: NotificationPrefs::default(),
            defaults: Defaults::default(),
            tunnels: Vec::new(),
        }
    }
}

} // verus!
