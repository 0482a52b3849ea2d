//! Trust on first use: what to do with the server's host key once it has
//! been looked up in the known-hosts file, and what to announce.
use vstd::prelude::*;

use crate::model::status::LogLevel;
use crate::text::{decimal, owned, push_decimal, push_str};

verus! {

/// The result of looking the server's key up in the known-hosts file.
#[derive(Debug, Clone, PartialEq, Eq)]
pub enum HostKeyCheck {
    /// The file pins this very key.
    Known,
    /// The file pins no key for this host.
    Unknown,
    /// The file pins another key, on this line.
    Changed { line: usize },
    /// The lookup itself failed, for this reason.
    Failed { reason: String },
}

/// What to do with the key, and the line to log.
pub struct HostKeyVerdict {
    /// Whether the connection may go on.
    pub accept: bool,
    /// Whether the key is recorded in the known-hosts file first.
    pub learn: bool,
    pub level: LogLevel,
    pub message: String,
}

pub open spec fn verdict_message(check: HostKeyCheck, trusted: bool, fingerprint: Seq<char>) -> Seq<char> {
    match check {
        HostKeyCheck::Known => "Host key verified ("@ + fingerprint + ")"@,
        HostKeyCheck::Unknown => if trusted {
            "New host key trusted on first use ("@ + fingerprint + ")"@
        } else {
            "New host key not trusted \u{2014} refusing to connect ("@ + fingerprint + ")"@
        },
        HostKeyCheck::Changed { line } => "HOST KEY CHANGED (known_hosts line "@ + decimal(line as nat)
            + ") \u{2014} refusing to connect ("@ + fingerprint + ")"@,
        HostKeyCheck::Failed { reason } => "Host key check failed: "@ + reason@ + " \u{2014} refusing"@,
    }
}

/// A known key is accepted; an unknown key is recorded and accepted exactly
/// when the user trusts it (`trusted`, the user's decision on the shown
/// fingerprint); a changed key, or a failed lookup, refuses the connection.
pub fn host_key_verdict(check: HostKeyCheck, trusted: bool, fingerprint: &str) -> (v: HostKeyVerdict)
    ensures
        v.accept == (check is Known || (check is Unknown && trusted)),
        v.learn == (check is Unknown && trusted),
        v.level == (match check {
            HostKeyCheck::Known => LogLevel::Info,
            HostKeyCheck::Unknown => LogLevel::Warn,
            _ => LogLevel::Error,
        }),
        v.message@ == verdict_message(check, trusted, fingerprint@),
{
    match check {
        HostKeyCheck::Known => {
            let mut m = owned("Host key verified (");
            push_str(&mut m, fingerprint);
            push_str(&mut m, ")");
            HostKeyVerdict { accept: true, learn: false, level: LogLevel::Info, message: m }
        },
        HostKeyCheck::Unknown => if trusted {
            let mut m = owned("New host key trusted on first use (");
            push_str(&mut m, fingerprint);
            push_str(&mut m, ")");
            HostKeyVerdict { accept: true, learn: true, level: LogLevel::Warn, message: m }
        } else {
            let mut m = owned("New host key not trusted \u{2014} refusing to connect (");
            push_str(&mut m, fingerprint);
            push_str(&mut m, ")");
            HostKeyVerdict { accept: false, learn: false, level: LogLevel::Warn, message: m }
        },
        HostKeyCheck::Changed { line } => {
            let mut m = owned("HOST KEY CHANGED (known_hosts line ");
            push_decimal(&mut m, line as u64);
            push_str(&mut m, ") \u{2014} refusing to connect (");
            push_str(&mut m, fingerprint);
            push_str(&mut m, ")");
            HostKeyVerdict { accept: false, learn: false, level: LogLevel::Error, message: m }
        },
        HostKeyCheck::Failed { reason } => {
            let mut m = owned("Host key check failed: ");
            push_str(&mut m, reason.as_str());
            push_str(&mut m, " \u{2014} refusing");
            HostKeyVerdict { accept: false, learn: false, level: LogLevel::Error, message: m }
        },
    }
}

/// The warning logged when an unknown key could not be recorded.
pub fn record_failure_message(reason: &str) -> (m: String)
    ensures
        m@ == "Could not record host key: "@ + reason@,
{
    let mut m = owned("Could not record host key: ");
    push_str(&mut m, reason);
    m
}

} // verus!
