//! Plain data types for the persisted configuration, plus validation.
pub mod app_config;
pub mod auth_config;
pub mod host;
pub mod proxy_config;
pub mod timestamp;
pub mod tunnel_config;
pub mod validation;
pub mod status;
