//! The logic behind the UI's commands.
pub mod system_cmd;
pub mod tunnel_cmd;
