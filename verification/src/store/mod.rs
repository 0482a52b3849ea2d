//! Persistence logic: the check before the configuration is saved, secrets in
//! the OS keychain, and the known-hosts file.
pub mod config_store;
pub mod keychain_store;
pub mod known_hosts;
