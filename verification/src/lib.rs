//! Tunnelium's engine logic, verified: the configuration model and its
//! validation, the reconnect policy and supervisor, proxy and SOCKS5
//! messages, SSH session decisions, host-key trust, the known-hosts file,
//! keychain secrets, and the registry of running tunnels.
pub mod clock;
pub mod commands;
pub mod error;
pub mod foreign;
pub mod model;
pub mod natural;
pub mod seqs;
pub mod store;
pub mod text;
pub mod tunnel;
