//! How a tunnel's supervisor reacts when an SSH session ends: which failures
//! are worth retrying, how long to wait, and when to give up.

use vstd::prelude::*;
use crate::expose::auth::RuntimeAuth;
use crate::expose::types::AuthModel;
use crate::text::push_str;
use crate::decimal::{decimal, push_decimal};

verus! {

/// The delay before the first reconnect, in seconds.
pub const INITIAL_RECONNECT_DELAY_SECS: u64 = 1;

/// The longest delay between reconnects, in seconds.
pub const MAX_RECONNECT_DELAY_SECS: u64 = 30;

/// Delays between reconnects that double from 1 s up to 30 s.
#[derive(Debug)]
pub struct ReconnectBackoff {
    next_delay: u64,
}

impl ReconnectBackoff {
    #[verifier::type_invariant]
    spec fn bounded(self) -> bool {
        INITIAL_RECONNECT_DELAY_SECS <= self.next_delay <= MAX_RECONNECT_DELAY_SECS
    }

    /// The delay that the next call of `next_delay` returns, in seconds.
    pub closed spec fn delay(self) -> nat {
        self.next_delay as nat
    }

    /// Backoff at its initial delay.
    pub fn new() -> (r: Self)
        ensures
            r.delay() == INITIAL_RECONNECT_DELAY_SECS,
    {
        ReconnectBackoff { next_delay: INITIAL_RECONNECT_DELAY_SECS }
    }

    /// Back to the initial delay.
    pub fn reset(&mut self)
        ensures
            final(self).delay() == INITIAL_RECONNECT_DELAY_SECS,
    {
        self.next_delay = INITIAL_RECONNECT_DELAY_SECS;
    }

    /// The delay to wait now, in seconds; the next one is twice as long, but
    /// at most 30 s.
    pub fn next_delay(&mut self) -> (d: u64)
        ensures
            d == old(self).delay(),
            INITIAL_RECONNECT_DELAY_SECS <= d <= MAX_RECONNECT_DELAY_SECS,
            final(self).delay() == if 2 * old(self).delay() <= MAX_RECONNECT_DELAY_SECS {
                2 * old(self).delay()
            } else {
                MAX_RECONNECT_DELAY_SECS as nat
            },
    {
        proof {
            use_type_invariant(&*self);
        }
        let delay = self.next_delay;
        let next = match self.next_delay.checked_mul(2) {
            Some(n) => n,
            None => MAX_RECONNECT_DELAY_SECS,
        };
        self.next_delay = if next < MAX_RECONNECT_DELAY_SECS { next } else { MAX_RECONNECT_DELAY_SECS };
        delay
    }
}

/// Why establishing a session failed.
#[derive(Debug, Clone)]
pub enum ConnectError {
    Transport(String),
    InvalidPrivateKey(String),
    AuthenticationRejected(String),
}

/// Why requesting the remote forward failed.
#[derive(Debug, Clone)]
pub enum ForwardError {
    RequestDenied { remote_host: String, remote_port: u16 },
    Request { remote_host: String, remote_port: u16, source: String },
}

/// How a session ended with an error: worth retrying (and whether it had been
/// established), or final.
#[derive(Debug, Clone)]
pub enum SessionFailure {
    Retryable { error: String, established: bool },
    Terminal(String),
}

/// Transport failures are retried; a bad private key or a rejected
/// authentication is final.
pub fn classify_connect_error(error: ConnectError) -> (r: SessionFailure)
    ensures
        match error {
            ConnectError::Transport(e) => r matches SessionFailure::Retryable { error: m, established } && m@ == e@
                && !established,
            ConnectError::InvalidPrivateKey(e) => r matches SessionFailure::Terminal(m) && m@ == e@,
            ConnectError::AuthenticationRejected(e) => r matches SessionFailure::Terminal(m) && m@ == e@,
        },
{
    match error {
        ConnectError::Transport(error) => SessionFailure::Retryable { error, established: false },
        ConnectError::InvalidPrivateKey(error) => SessionFailure::Terminal(error),
        ConnectError::AuthenticationRejected(error) => SessionFailure::Terminal(error),
    }
}

/// A denied forward request is final; any other failure to register it is
/// retried.
pub fn classify_forward_error(error: ForwardError) -> (r: SessionFailure)
    ensures
        match error {
            ForwardError::RequestDenied { remote_host, remote_port } => r matches SessionFailure::Terminal(m)
                && m@ == "SSH server denied remote forward request on "@ + remote_host@ + seq![':'] + decimal(
                remote_port as nat),
            ForwardError::Request { remote_host, remote_port, source } => r matches SessionFailure::Retryable {
                error: m,
                established,
            } && !established && m@ == "failed to register remote forward on "@ + remote_host@ + seq![':']
                + decimal(remote_port as nat) + ": "@ + source@,
        },
{
    match error {
        ForwardError::RequestDenied { remote_host, remote_port } => {
            let mut m = String::new();
            push_str(&mut m, "SSH server denied remote forward request on ");
            push_str(&mut m, remote_host.as_str());
            crate::text::push_char(&mut m, ':');
            push_decimal(&mut m, remote_port as u64);
            SessionFailure::Terminal(m)
        },
        ForwardError::Request { remote_host, remote_port, source } => {
            let mut m = String::new();
            push_str(&mut m, "failed to register remote forward on ");
            push_str(&mut m, remote_host.as_str());
            crate::text::push_char(&mut m, ':');
            push_decimal(&mut m, remote_port as u64);
            push_str(&mut m, ": ");
            push_str(&mut m, source.as_str());
            SessionFailure::Retryable { error: m, established: false }
        },
    }
}

/// What the supervisor does after a session ended.
#[derive(Debug, Clone)]
pub enum SupervisorAction {
    /// The session ended cleanly: stop with success.
    Finish,
    /// The failure is final: stop with this error.
    Fail(String),
    /// Wait `delay_secs` and connect again; `mark_reconnecting` says whether
    /// the managed tunnel's record must show that it is reconnecting.
    Retry { error: String, attempt: u32, delay_secs: u64, mark_reconnecting: bool },
}

/// The reconnect state of a tunnel: the backoff and the number of attempts
/// since the last established session.
#[derive(Debug)]
pub struct SessionSupervisor {
    backoff: ReconnectBackoff,
    attempt: u32,
}

/// `n + 1`, wrapping at the largest `u32`.
pub open spec fn next_attempt(n: u32) -> u32 {
    if n == u32::MAX {
        0
    } else {
        (n + 1) as u32
    }
}

/// The delay that follows `d` seconds.
pub open spec fn doubled_delay(d: nat) -> nat {
    if 2 * d <= MAX_RECONNECT_DELAY_SECS {
        2 * d
    } else {
        MAX_RECONNECT_DELAY_SECS as nat
    }
}

impl SessionSupervisor {
    /// The delay before the next reconnect, in seconds.
    pub closed spec fn delay(self) -> nat {
        self.backoff.delay()
    }

    /// Reconnect attempts since the last established session.
    pub closed spec fn attempts(self) -> u32 {
        self.attempt
    }

    /// A supervisor before the first session.
    pub fn new() -> (r: Self)
        ensures
            r.delay() == INITIAL_RECONNECT_DELAY_SECS,
            r.attempts() == 0,
    {
        SessionSupervisor { backoff: ReconnectBackoff::new(), attempt: 0 }
    }

    /// Decides what to do after a session ended with `outcome`; `managed` says
    /// whether the tunnel has a registry record. A session that had been
    /// established starts the backoff and the attempt count afresh.
    pub fn on_session_end(&mut self, outcome: Result<(), SessionFailure>, managed: bool) -> (a: SupervisorAction)
        ensures
            match outcome {
                Ok(_) => a is Finish && final(self).delay() == old(self).delay()
                    && final(self).attempts() == old(self).attempts(),
                Err(SessionFailure::Terminal(e)) => (a matches SupervisorAction::Fail(m) && m@ == e@)
                    && final(self).delay() == old(self).delay()
                    && final(self).attempts() == old(self).attempts(),
                Err(SessionFailure::Retryable { error, established }) => {
                    let d0 = if established {
                        INITIAL_RECONNECT_DELAY_SECS as nat
                    } else {
                        old(self).delay()
                    };
                    let a0: u32 = if established {
                        0
                    } else {
                        old(self).attempts()
                    };
                    &&& a matches SupervisorAction::Retry { error: m, attempt, delay_secs, mark_reconnecting }
                        && m@ == error@ && attempt == next_attempt(a0) && delay_secs == d0 && mark_reconnecting
                        == (established && managed)
                    &&& final(self).delay() == doubled_delay(d0)
                    &&& final(self).attempts() == next_attempt(a0)
                },
            },
    {
        match outcome {
            Ok(()) => SupervisorAction::Finish,
            Err(SessionFailure::Terminal(error)) => SupervisorAction::Fail(error),
            Err(SessionFailure::Retryable { error, established }) => {
                if established {
                    self.backoff.reset();
                    self.attempt = 0;
                }
                self.attempt = self.attempt.wrapping_add(1);
                let delay = self.backoff.next_delay();
                SupervisorAction::Retry {
                    error,
                    attempt: self.attempt,
                    delay_secs: delay,
                    mark_reconnecting: established && managed,
                }
            },
        }
    }
}

/// The delay before the `k`-th reconnect of failures that never establish a
/// session, counted from 0.
pub open spec fn backoff_schedule(k: nat) -> nat
    decreases k,
{
    if k == 0 {
        INITIAL_RECONNECT_DELAY_SECS as nat
    } else {
        doubled_delay(backoff_schedule((k - 1) as nat))
    }
}

/// The reconnect delays run 1, 2, 4, 8, 16 seconds and then stay at 30.
pub proof fn lemma_backoff_schedule(k: nat)
    ensures
        k == 0 ==> backoff_schedule(k) == 1,
        k == 1 ==> backoff_schedule(k) == 2,
        k == 2 ==> backoff_schedule(k) == 4,
        k == 3 ==> backoff_schedule(k) == 8,
        k == 4 ==> backoff_schedule(k) == 16,
        k >= 5 ==> backoff_schedule(k) == 30,
    decreases k,
{
    if k > 0 {
        lemma_backoff_schedule((k - 1) as nat);
    }
}

/// The message for an authentication that the server rejected; it names the
/// key file but never the password.
pub open spec fn rejection_message(server: Seq<char>, user: Seq<char>, auth: AuthModel) -> Seq<char> {
    "SSH authentication was rejected by the server for "@ + user + seq!['@'] + server + match auth {
        AuthModel::Password(_) => " using password"@,
        AuthModel::PrivateKey(k) => " using key "@ + k,
    }
}

/// The error for an authentication that the server rejected.
pub fn authentication_rejected(server: &str, user: &str, auth: &RuntimeAuth) -> (r: ConnectError)
    ensures
        r matches ConnectError::AuthenticationRejected(m) && m@ == rejection_message(server@, user@, auth@),
{
    let mut m = String::new();
    push_str(&mut m, "SSH authentication was rejected by the server for ");
    push_str(&mut m, user);
    crate::text::push_char(&mut m, '@');
    push_str(&mut m, server);
    match auth {
        RuntimeAuth::Password(_) => push_str(&mut m, " using password"),
        RuntimeAuth::PrivateKeyFile(k) => {
            push_str(&mut m, " using key ");
            push_str(&mut m, k.as_str());
        },
    }
    ConnectError::AuthenticationRejected(m)
}

/// Accepts an authentication result: success, or the rejection error.
pub fn ensure_auth_success(success: bool, server: &str, user: &str, auth: &RuntimeAuth) -> (r: Result<(), ConnectError>)
    ensures
        success <==> r is Ok,
        !success ==> (r matches Err(ConnectError::AuthenticationRejected(m)) && m@ == rejection_message(
            server@,
            user@,
            auth@,
        )),
{
    if success {
        return Ok(());
    }
    Err(authentication_rejected(server, user, auth))
}

} // verus!
