//! How one SSH session is set up: its timeouts, the chain of hops to the
//! server, and how each hop is authenticated. The caller performs the network
//! work; these functions decide what it is asked to do.
use vstd::prelude::*;

use crate::error::{ssh_error, Error};
use crate::model::auth_config::AuthConfig;
use crate::model::tunnel_config::{SshEndpoint, TunnelConfig};
use crate::text::owned;

verus! {

/// Secrets resolved from the OS keychain, passed in so the engine core stays
/// decoupled from keychain access.
#[derive(Debug)]
pub struct ConnectSecrets {
    pub password: Option<String>,
    pub passphrase: Option<String>,
    /// Proxy user name and password.
    pub proxy_auth: Option<(String, String)>,
    /// One entry per jump host, in order.
    pub jumps: Vec<ConnectSecrets>,
}

/// No secrets at all.
pub open spec fn no_secrets(s: ConnectSecrets) -> bool {
    &&& s.password is None
    &&& s.passphrase is None
    &&& s.proxy_auth is None
    &&& s.jumps@.len() == 0
}

impl Default for ConnectSecrets {
    fn default() -> (s: Self)
        ensures
            no_secrets(s),
    {
        ConnectSecrets { password: None, passphrase: None, proxy_auth: None, jumps: Vec::new() }
    }
}

/// The same text, owned anew.
pub fn copy_text(o: &Option<String>) -> (r: Option<String>)
    ensures
        r == *o,
{
    match o {
        Some(s) => Some(s.clone()),
        None => None,
    }
}

/// The same credentials, owned anew.
fn copy_credentials(o: &Option<(String, String)>) -> (r: Option<(String, String)>)
    ensures
        r == *o,
{
    match o {
        Some((u, p)) => Some((u.clone(), p.clone())),
        None => None,
    }
}

impl ConnectSecrets {
    /// The secrets for jump host `i`: those of the `i`-th entry, or none if
    /// there is no such entry. (A hop authenticates with its own password or
    /// passphrase; an entry's own nested entries are not carried over.)
    pub fn jump_secrets(&self, i: usize) -> (r: ConnectSecrets)
        ensures
            i < self.jumps@.len() ==> {
                &&& r.password == self.jumps@[i as int].password
                &&& r.passphrase == self.jumps@[i as int].passphrase
                &&& r.proxy_auth == self.jumps@[i as int].proxy_auth
                &&& r.jumps@.len() == 0
            },
            i >= self.jumps@.len() ==> no_secrets(r),
    {
        if i < self.jumps.len() {
            let j = &self.jumps[i];
            ConnectSecrets {
                password: copy_text(&j.password),
                passphrase: copy_text(&j.passphrase),
                proxy_auth: copy_credentials(&j.proxy_auth),
                jumps: Vec::new(),
            }
        } else {
            ConnectSecrets::default()
        }
    }
}

/// The session's timers: the keep-alive interval in seconds and the
/// inactivity timeout in milliseconds; `None` leaves the SSH library's default.
#[derive(Debug, Clone, Copy, PartialEq, Eq, Structural)]
pub struct SessionTimeouts {
    pub keepalive_secs: Option<u64>,
    pub inactivity_ms: Option<u64>,
}

/// A keep-alive is set only for a positive number of seconds; the connect
/// timeout becomes the inactivity timeout as it is.
pub fn session_timeouts(cfg: &TunnelConfig) -> (t: SessionTimeouts)
    ensures
        t.keepalive_secs == (match cfg.keep_alive_seconds {
            Some(s) => if s > 0 { Some(s as u64) } else { None::<u64> },
            None => None::<u64>,
        }),
        t.inactivity_ms == (match cfg.connect_timeout_ms {
            Some(ms) => Some(ms as u64),
            None => None::<u64>,
        }),
{
    let keepalive_secs = match cfg.keep_alive_seconds {
        Some(s) => if s > 0 { Some(s as u64) } else { None },
        None => None,
    };
    let inactivity_ms = match cfg.connect_timeout_ms {
        Some(ms) => Some(ms as u64),
        None => None,
    };
    SessionTimeouts { keepalive_secs, inactivity_ms }
}

/// The endpoint that hop `i` leads to: jump host `i` while there is one, and
/// the tunnel's server after the last.
pub open spec fn hop_endpoint(cfg: TunnelConfig, i: int) -> SshEndpoint {
    if 0 <= i < cfg.jump_hosts@.len() {
        cfg.jump_hosts@[i].endpoint
    } else {
        cfg.ssh
    }
}

/// Where the first TCP connection goes: the first jump host, or the server
/// itself when there is none.
pub fn first_hop(cfg: &TunnelConfig) -> (e: &SshEndpoint)
    ensures
        *e == hop_endpoint(*cfg, 0),
{
    if cfg.jump_hosts.len() > 0 {
        &cfg.jump_hosts[0].endpoint
    } else {
        &cfg.ssh
    }
}

/// Where jump host `i` opens its channel to: the next jump host, or the
/// server after the last one.
pub fn next_hop(cfg: &TunnelConfig, i: usize) -> (e: &SshEndpoint)
    ensures
        *e == hop_endpoint(*cfg, i + 1),
{
    if i < cfg.jump_hosts.len() && i + 1 < cfg.jump_hosts.len() {
        &cfg.jump_hosts[i + 1].endpoint
    } else {
        &cfg.ssh
    }
}

/// What to offer the server to log in.
#[derive(Debug, Clone, PartialEq, Eq)]
pub enum AuthPlan {
    /// Load the private key at `key_path`, unlocked with the passphrase if
    /// there is one, and offer it.
    PublicKey { key_path: String, passphrase: Option<String> },
    /// Send the password.
    Password { password: String },
    /// Offer each identity of the running SSH agent in turn.
    Agent,
    /// Answer every keyboard-interactive prompt with `answer`.
    KeyboardInteractive { answer: String },
}

pub open spec fn unsupported_error(e: Error, m: Seq<char>) -> bool {
    e matches Error::Unsupported(s) && s@ == m
}

/// How `auth` logs in with `secrets`; password login without a password
/// fails, and imported keys are not supported.
pub fn auth_plan(auth: &AuthConfig, secrets: &ConnectSecrets) -> (r: Result<AuthPlan, Error>)
    ensures
        match *auth {
            AuthConfig::PrivateKey { key_path, .. } => r matches Ok(AuthPlan::PublicKey { key_path: p, passphrase })
                && p@ == key_path@ && passphrase == secrets.passphrase,
            AuthConfig::Password { .. } => match secrets.password {
                Some(pw) => r matches Ok(AuthPlan::Password { password }) && password@ == pw@,
                None => r matches Err(Error::AuthFailed),
            },
            AuthConfig::Agent => r matches Ok(AuthPlan::Agent),
            AuthConfig::KeyboardInteractive { .. } => r matches Ok(AuthPlan::KeyboardInteractive { answer })
                && answer@ == (match secrets.password {
                Some(pw) => pw@,
                None => Seq::<char>::empty(),
            }),
            AuthConfig::PrivateKeyInline { .. } => r is Err && unsupported_error(
                r->Err_0,
                "Imported-key authentication is not yet supported"@,
            ),
        },
{
    match auth {
        AuthConfig::PrivateKey { key_path, .. } => Ok(
            AuthPlan::PublicKey { key_path: key_path.clone(), passphrase: copy_text(&secrets.passphrase) },
        ),
        AuthConfig::Password { .. } => match &secrets.password {
            Some(pw) => Ok(AuthPlan::Password { password: pw.clone() }),
            None => Err(Error::AuthFailed),
        },
        AuthConfig::Agent => Ok(AuthPlan::Agent),
        AuthConfig::KeyboardInteractive { .. } => {
            let answer = match &secrets.password {
                Some(pw) => pw.clone(),
                None => {
                    let e = String::new();
                    proof {
                        assert(e@ =~= Seq::<char>::empty());
                    }
                    e
                },
            };
            Ok(AuthPlan::KeyboardInteractive { answer })
        },
        AuthConfig::PrivateKeyInline { .. } => Err(
            Error::Unsupported(owned("Imported-key authentication is not yet supported")),
        ),
    }
}

/// The server's verdict on one login attempt.
pub fn succeeded(success: bool) -> (r: Result<(), Error>)
    ensures
        success ==> r is Ok,
        !success ==> r matches Err(Error::AuthFailed),
{
    if success {
        Ok(())
    } else {
        Err(Error::AuthFailed)
    }
}

/// What the server said in a keyboard-interactive exchange.
#[derive(Debug, Clone, Copy, PartialEq, Eq, Structural)]
pub enum PromptReply {
    Success,
    Failure,
    /// The server asks this many questions.
    InfoRequest { prompts: usize },
}

/// The client's next move in a keyboard-interactive exchange.
pub enum PromptStep {
    /// The exchange is over, with this outcome.
    Finish(Result<(), Error>),
    /// Send these answers, one per prompt.
    Respond(Vec<String>),
}

/// Every prompt is answered with the stored secret (the usual
/// password-over-keyboard-interactive case).
pub fn keyboard_step(reply: PromptReply, secret: &String) -> (s: PromptStep)
    ensures
        reply is Success ==> s matches PromptStep::Finish(Ok(())),
        reply is Failure ==> s matches PromptStep::Finish(Err(Error::AuthFailed)),
        reply matches PromptReply::InfoRequest { prompts } ==> s matches PromptStep::Respond(answers)
            && answers@.len() == prompts && forall|i: int|
            0 <= i < prompts ==> #[trigger] answers@[i]@ == secret@,
{
    match reply {
        PromptReply::Success => PromptStep::Finish(Ok(())),
        PromptReply::Failure => PromptStep::Finish(Err(Error::AuthFailed)),
        PromptReply::InfoRequest { prompts } => {
            let mut answers: Vec<String> = Vec::new();
            for k in 0..prompts
                invariant
                    answers@.len() == k,
                    forall|i: int| 0 <= i < k ==> #[trigger] answers@[i]@ == secret@,
            {
                answers.push(secret.clone());
            }
            PromptStep::Respond(answers)
        },
    }
}

/// Agent login needs at least one identity in the agent.
pub fn agent_identities(count: usize) -> (r: Result<(), Error>)
    ensures
        count > 0 ==> r is Ok,
        count == 0 ==> r is Err && ssh_error(r->Err_0, "the SSH agent has no identities loaded"@),
{
    if count == 0 {
        Err(Error::Ssh(owned("the SSH agent has no identities loaded")))
    } else {
        Ok(())
    }
}

} // verus!
