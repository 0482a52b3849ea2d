//! The tunnel engine's decisions: reconnecting, proxies, sessions, host keys,
//! forwarding, the SOCKS5 server, the registry of running tunnels and traffic counters.
pub mod reconnect;
pub mod supervisor;
pub mod proxy;
pub mod session;
pub mod handler;
pub mod forward;
pub mod event;
pub mod socks;
pub mod registry;
pub mod stats;
