//! How to authenticate to an SSH server.
use vstd::prelude::*;

verus! {

/// How to authenticate to the SSH server.
///
/// Secrets are never stored inline: `*_ref` fields hold an OS-keychain account
/// id, and the actual value lives in the keychain.
#[allow(inconsistent_fields)]
#[derive(Debug, Clone, PartialEq, Eq)]
pub enum AuthConfig {
    /// Account password (keychain ref).
    Password { secret_ref: String },
    /// Private key file on disk, optionally unlocked by a passphrase.
    PrivateKey { key_path: String, passphrase_ref: Option<String> },
    /// Private key material imported into the keychain.
    PrivateKeyInline { key_ref: String, passphrase_ref: Option<String> },
    /// Use the running SSH agent.
    Agent,
    /// Server-driven prompts (e.g. 2FA / OTP).
    KeyboardInteractive { secret_ref: Option<String> },
}

} // verus!
