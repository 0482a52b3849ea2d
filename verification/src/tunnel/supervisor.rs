//! The per-tunnel supervisor: what to announce and do after each outcome of
//! connecting, serving and waiting. The caller performs the I/O and reports
//! the outcome back.
use vstd::prelude::*;

use crate::clock::jitter_permille;
use crate::model::status::{LogLevel, TunnelState};
use crate::model::tunnel_config::ReconnectPolicy;
use crate::text::{decimal, owned, push_decimal, push_str};
use crate::tunnel::reconnect::{
    backoff_delay_with, backoff_ms, law_backoff_within_cap, retry_allowed, should_retry,
};

verus! {

/// Something the supervisor wants announced.
#[derive(Debug, Clone, PartialEq, Eq)]
pub enum Notice {
    Status { state: TunnelState, message: Option<String> },
    Log { level: LogLevel, line: String },
}

/// A notice as plain text.
pub enum Said {
    Status(TunnelState, Option<Seq<char>>),
    Log(LogLevel, Seq<char>),
}

pub open spec fn said(n: Notice) -> Said {
    match n {
        Notice::Status { state, message } => Said::Status(
            state,
            match message {
                Some(m) => Some(m@),
                None => None,
            },
        ),
        Notice::Log { level, line } => Said::Log(level, line@),
    }
}

pub open spec fn said_all(v: Seq<Notice>) -> Seq<Said> {
    v.map_values(|n: Notice| said(n))
}

/// What the caller does next.
#[derive(Debug, Clone, Copy, PartialEq, Eq, Structural)]
pub enum Next {
    /// Run the forwarder on the session just opened.
    Serve,
    /// Sleep this many milliseconds (or until cancelled), then connect again.
    Wait { delay_ms: u64 },
    /// The tunnel's task ends.
    Stop,
}

#[derive(Debug, Clone, PartialEq, Eq)]
pub struct Decision {
    pub notices: Vec<Notice>,
    pub next: Next,
}

/// Attempt counter of one supervised tunnel: 0 while connected, else the
/// number of reconnect attempts scheduled since the last success.
#[derive(Debug, Clone, Copy, PartialEq, Eq, Structural)]
pub struct Supervisor {
    pub attempt: u32,
}

/// Whole seconds of `ms` milliseconds, rounded to nearest with ties to even
/// (as `{:.0}` prints a number of seconds).
pub open spec fn rounded_secs(ms: nat) -> nat {
    let q = ms / 1000;
    let r = ms % 1000;
    if r > 500 || (r == 500 && q % 2 == 1) {
        q + 1
    } else {
        q
    }
}

pub open spec fn reconnect_message(delay_ms: nat, attempt: nat) -> Seq<char> {
    "Reconnecting in "@ + decimal(rounded_secs(delay_ms)) + "s (attempt "@ + decimal(attempt) + ")"@
}

pub open spec fn give_up_message(policy: ReconnectPolicy) -> Seq<char> {
    if policy.enabled {
        "Gave up after reconnect attempts"@
    } else {
        "Disconnected"@
    }
}

/// The attempt number after one more retry (wrapping like a release build's `+= 1`).
pub open spec fn next_attempt(attempt: u32) -> u32 {
    if attempt == u32::MAX {
        0
    } else {
        (attempt + 1) as u32
    }
}

/// The announcements and next step when a retry is scheduled after attempt
/// `attempt`, given the jitter draw.
pub open spec fn retry_outcome(policy: ReconnectPolicy, attempt: u32, permille: nat) -> (
    Seq<Said>,
    Next,
) {
    let a = next_attempt(attempt);
    if !retry_allowed(policy, a) {
        (seq![Said::Status(TunnelState::Error, Some(give_up_message(policy)))], Next::Stop)
    } else {
        let d = backoff_ms(policy, a, permille);
        (
            seq![Said::Status(TunnelState::Reconnecting, Some(reconnect_message(d, a as nat)))],
            Next::Wait { delay_ms: d as u64 },
        )
    }
}

pub open spec fn outcome_of(d: Decision) -> (Seq<Said>, Next) {
    (said_all(d.notices@), d.next)
}

fn status(state: TunnelState, message: Option<String>) -> (n: Notice)
    ensures
        n == (Notice::Status { state, message }),
{
    Notice::Status { state, message }
}

/// `prefix` followed by `text`, as an owned string.
fn joined(prefix: &str, text: &str) -> (r: String)
    ensures
        r@ == prefix@ + text@,
{
    let mut s = owned(prefix);
    push_str(&mut s, text);
    s
}

fn rounded_seconds(ms: u64) -> (r: u64)
    ensures
        r == rounded_secs(ms as nat),
{
    let q = ms / 1000;
    let r = ms % 1000;
    if r > 500 || (r == 500 && q % 2 == 1) {
        q + 1
    } else {
        q
    }
}

impl Supervisor {
    pub fn new() -> (s: Self)
        ensures
            s.attempt == 0,
    {
        Supervisor { attempt: 0 }
    }

    /// The state announced before each connection attempt.
    pub fn attempt_state(&self) -> (s: TunnelState)
        ensures
            s == (if self.attempt == 0 {
                TunnelState::Connecting
            } else {
                TunnelState::Reconnecting
            }),
    {
        if self.attempt == 0 {
            TunnelState::Connecting
        } else {
            TunnelState::Reconnecting
        }
    }

    /// A session was established: announce it and start serving.
    pub fn connected(&mut self) -> (d: Decision)
        ensures
            final(self).attempt == 0,
            outcome_of(d) == (seq![Said::Status(TunnelState::Connected, None)], Next::Serve),
    {
        self.attempt = 0;
        let mut notices = Vec::new();
        notices.push(status(TunnelState::Connected, None));
        let d = Decision { notices, next: Next::Serve };
        assert(said_all(d.notices@) =~= seq![Said::Status(TunnelState::Connected, None)]);
        d
    }

    /// Schedule the next attempt with the jitter draw `permille`: give up when
    /// the policy allows no more attempts, else announce the wait.
    pub fn retry_with(&mut self, policy: &ReconnectPolicy, permille: u32) -> (d: Decision)
        requires
            permille < 1000,
        ensures
            final(self).attempt == next_attempt(old(self).attempt),
            outcome_of(d) == retry_outcome(*policy, old(self).attempt, permille as nat),
    {
        let attempt = self.attempt.wrapping_add(1);
        self.attempt = attempt;
        let mut notices = Vec::new();
        if !should_retry(policy, attempt) {
            let message = if policy.enabled {
                owned("Gave up after reconnect attempts")
            } else {
                owned("Disconnected")
            };
            notices.push(status(TunnelState::Error, Some(message)));
            let d = Decision { notices, next: Next::Stop };
            assert(said_all(d.notices@) =~= retry_outcome(*policy, old(self).attempt, permille as nat).0);
            return d;
        }
        let delay = backoff_delay_with(policy, attempt, permille);
        let mut message = owned("Reconnecting in ");
        push_decimal(&mut message, rounded_seconds(delay));
        push_str(&mut message, "s (attempt ");
        push_decimal(&mut message, attempt as u64);
        push_str(&mut message, ")");
        assert(message@ =~= reconnect_message(delay as nat, attempt as nat));
        notices.push(status(TunnelState::Reconnecting, Some(message)));
        let d = Decision { notices, next: Next::Wait { delay_ms: delay } };
        assert(said_all(d.notices@) =~= retry_outcome(*policy, old(self).attempt, permille as nat).0);
        d
    }

    /// Schedule the next attempt, drawing the jitter from the clock.
    pub fn schedule_retry(&mut self, policy: &ReconnectPolicy) -> (d: Decision)
        ensures
            final(self).attempt == next_attempt(old(self).attempt),
            exists|permille: nat|
                permille < 1000 && outcome_of(d) == retry_outcome(
                    *policy,
                    old(self).attempt,
                    permille,
                ),
    {
        let permille = jitter_permille();
        self.retry_with(policy, permille)
    }

    /// Opening a session failed with the error text `error`: log it and retry.
    pub fn connect_failed(&mut self, policy: &ReconnectPolicy, error: &str) -> (d: Decision)
        ensures
            final(self).attempt == next_attempt(old(self).attempt),
            exists|permille: nat|
                #![trigger retry_outcome(*policy, old(self).attempt, permille)]
                permille < 1000 && {
                    let (said, next) = retry_outcome(*policy, old(self).attempt, permille);
                    outcome_of(d) == (
                        seq![Said::Log(LogLevel::Error, "Connection failed: "@ + error@)] + said,
                        next,
                    )
                },
    {
        let line = joined("Connection failed: ", error);
        let retry = self.schedule_retry(policy);
        let mut notices = Vec::new();
        notices.push(Notice::Log { level: LogLevel::Error, line });
        let mut rest = retry.notices;
        notices.append(&mut rest);
        let d = Decision { notices, next: retry.next };
        assert(said_all(d.notices@) =~= seq![
            Said::Log(LogLevel::Error, "Connection failed: "@ + error@),
        ] + said_all(retry.notices@));
        d
    }

    /// The forwarder returned. A user stop ends the tunnel quietly; otherwise
    /// a clean end is logged as a disconnect, a failure with its error text,
    /// and a retry is scheduled.
    pub fn serve_ended(&mut self, policy: &ReconnectPolicy, cancelled: bool, error: Option<&str>) -> (d: Decision)
        ensures
            cancelled ==> final(self).attempt == old(self).attempt && outcome_of(d) == (
                seq![Said::Status(TunnelState::Idle, None)],
                Next::Stop,
            ),
            !cancelled ==> final(self).attempt == next_attempt(old(self).attempt) && exists|
                permille: nat,
            |
                #![trigger retry_outcome(*policy, old(self).attempt, permille)]
                permille < 1000 && {
                    let (said, next) = retry_outcome(*policy, old(self).attempt, permille);
                    let logged = match error {
                        None => Said::Log(LogLevel::Warn, "Tunnel disconnected"@),
                        Some(e) => Said::Log(LogLevel::Error, "Tunnel error: "@ + e@),
                    };
                    outcome_of(d) == (seq![logged] + said, next)
                },
    {
        if cancelled {
            return self.wait_cancelled();
        }
        let log = match error {
            None => Notice::Log { level: LogLevel::Warn, line: owned("Tunnel disconnected") },
            Some(e) => Notice::Log { level: LogLevel::Error, line: joined("Tunnel error: ", e) },
        };
        let retry = self.schedule_retry(policy);
        let mut notices = Vec::new();
        notices.push(log);
        let mut rest = retry.notices;
        notices.append(&mut rest);
        let d = Decision { notices, next: retry.next };
        assert(said_all(d.notices@) =~= seq![said(log)] + said_all(retry.notices@));
        d
    }

    /// The wait before a retry was cut short by a user stop.
    pub fn wait_cancelled(&self) -> (d: Decision)
        ensures
            outcome_of(d) == (seq![Said::Status(TunnelState::Idle, None)], Next::Stop),
    {
        let mut notices = Vec::new();
        notices.push(status(TunnelState::Idle, None));
        let d = Decision { notices, next: Next::Stop };
        assert(said_all(d.notices@) =~= seq![Said::Status(TunnelState::Idle, None)]);
        d
    }
}

/// With reconnect disabled, the first failure ends the tunnel with the error
/// state and the message "Disconnected".
pub proof fn law_disabled_stops_at_first_failure(policy: ReconnectPolicy, attempt: u32, permille: nat)
    requires
        !policy.enabled,
    ensures
        retry_outcome(policy, attempt, permille) == (
            seq![Said::Status(TunnelState::Error, Some("Disconnected"@))],
            Next::Stop,
        ),
{
}

/// With a limit of `max` retries, a failure after `k` retries already
/// scheduled is followed by another wait exactly when `k < max`; otherwise
/// the supervisor gives up.
pub proof fn law_gives_up_after_max_retries(policy: ReconnectPolicy, max: u32, k: u32, permille: nat)
    requires
        policy.enabled,
        policy.max_retries == Some(max),
        k < u32::MAX,
    ensures
        retry_outcome(policy, k, permille).1 is Wait <==> k < max,
        retry_outcome(policy, k, permille).1 is Stop <==> k >= max,
{
}

/// Every wait the supervisor asks for is within the policy's maximum delay.
pub proof fn law_wait_within_cap(policy: ReconnectPolicy, attempt: u32, permille: nat)
    requires
        permille < 1000,
    ensures
        retry_outcome(policy, attempt, permille).1 matches Next::Wait { delay_ms } ==> delay_ms
            <= policy.max_delay_ms,
{
    let a = next_attempt(attempt);
    if retry_allowed(policy, a) {
        law_backoff_within_cap(policy, a, permille);
    }
}

/// After a failure the tunnel either moves to `Reconnecting` and waits, or
/// moves to `Error` and stops; nothing else is announced.
pub proof fn law_failure_reconnects_or_errs(policy: ReconnectPolicy, attempt: u32, permille: nat)
    ensures
        ({
            let (said, next) = retry_outcome(policy, attempt, permille);
            ||| (said.len() == 1 && (said[0] matches Said::Status(TunnelState::Reconnecting, Some(_)))
                && next is Wait)
            ||| (said.len() == 1 && (said[0] matches Said::Status(TunnelState::Error, Some(_)))
                && next is Stop)
        }),
{
}

} // verus!
