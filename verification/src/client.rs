//! The client-side connection lifecycle manager: a cache of one live
//! connection with lazy connect, a shared keep-alive deadline, one
//! eviction watcher per live connection, and a configurable
//! initial-connect policy. The manager's state and deadline are guarded
//! by one mutex outside the library; here stand the decisions each step
//! takes, as functions from state and event to next state and action.

use vstd::prelude::*;

verus! {

/// Why a call could not be served: name resolution failed, the transport
/// failed to connect or carry the call, or the peer sent something the
/// protocol cannot decode. All three surface as unavailability.
#[derive(Clone, Copy, Debug, PartialEq, Eq, Structural)]
pub enum ClientError {
    Resolution,
    Transport,
    Protocol,
}

/// The tri-state outcome handed to the host for one lookup: a record, an
/// explicit absent marker, or an unavailable marker. Absence is a valid,
/// successful result, distinct from unavailability.
#[derive(Debug)]
pub enum Response<T> {
    Success(T),
    NotFound,
    Unavail,
}

/// The outcome a single-record call maps to: a record that arrived is a
/// success, an absent-result answer is the explicit absent marker, and a
/// failed call is unavailability.
pub open spec fn spec_entry_response<T>(outcome: Result<Option<T>, ClientError>) -> Response<T> {
    match outcome {
        Result::Ok(Option::Some(rec)) => Response::Success(rec),
        Result::Ok(Option::None) => Response::NotFound,
        Result::Err(_) => Response::Unavail,
    }
}

/// The outcome a list call maps to: the list that arrived, or
/// unavailability.
pub open spec fn spec_list_response<T>(outcome: Result<Vec<T>, ClientError>) -> Response<Vec<T>> {
    match outcome {
        Result::Ok(list) => Response::Success(list),
        Result::Err(_) => Response::Unavail,
    }
}

/// The idle window: how long a connection may sit unused before the
/// watcher tears it down.
pub const DEFAULT_IDLE_WINDOW: u64 = 30;

/// The initial-connect policy: give up at once if the very first attempt
/// fails, or retry indefinitely at a fixed interval. Reconnections after
/// an established session always retry at that interval.
pub struct ReconnectPolicy {
    pub fail_fast: bool,
    pub retry_interval: u64,
}

/// What to do after a failed connection attempt.
#[derive(Clone, Copy, Debug, PartialEq, Eq, Structural)]
pub enum ConnectDecision {
    GiveUp,
    RetryAfter(u64),
}

/// The decision a failed connection attempt leads to: give up where the
/// policy is fail-fast and no session was ever established, retry at the
/// fixed interval otherwise.
pub open spec fn spec_connect_decision(
    policy: ReconnectPolicy,
    ever_connected: bool,
) -> ConnectDecision {
    if policy.fail_fast && !ever_connected {
        ConnectDecision::GiveUp
    } else {
        ConnectDecision::RetryAfter(policy.retry_interval)
    }
}

/// The connection lifecycle manager's observable state: whether a handle
/// is present, whether its eviction watcher runs, the shared keep-alive
/// deadline, the idle window, and whether any session was ever
/// established.
pub struct ClientAccessControl {
    pub connected: bool,
    pub watcher_active: bool,
    pub deadline: u64,
    pub idle_window: u64,
    pub ever_connected: bool,
}

impl ClientAccessControl {
    /// Exactly one eviction watcher is active whenever the handle is
    /// present, and none while it is absent.
    pub open spec fn wf(self) -> bool {
        self.watcher_active == self.connected
    }

    /// The state after a request advances the keep-alive deadline.
    pub open spec fn spec_touch(self, now: u64) -> Self {
        ClientAccessControl { deadline: (now + self.idle_window) as u64, ..self }
    }

    /// The state after the handle is torn down and its watcher stops.
    pub open spec fn spec_teardown(self) -> Self {
        ClientAccessControl { connected: false, watcher_active: false, ..self }
    }

    /// Whether a watcher that slept until `slept_until` finds the
    /// deadline unmoved and evicts: no request pushed the deadline past
    /// the point the watcher slept toward.
    pub open spec fn spec_wake_evicts(self, slept_until: u64) -> bool {
        self.deadline <= slept_until
    }

    /// A fresh manager: disconnected, no watcher, nothing established.
    pub fn new(idle_window: u64) -> (r: Self)
        ensures
            r == (ClientAccessControl {
                connected: false,
                watcher_active: false,
                deadline: 0,
                idle_window,
                ever_connected: false,
            }),
    {
        ClientAccessControl {
            connected: false,
            watcher_active: false,
            deadline: 0,
            idle_window,
            ever_connected: false,
        }
    }

    /// The first step of every inbound request: atomically advance the
    /// shared keep-alive deadline to `now` plus the idle window, and say
    /// whether a connection must first be established.
    pub fn begin_request(&mut self, now: u64) -> (needs_connect: bool)
        requires
            now + old(self).idle_window <= u64::MAX,
        ensures
            *final(self) == old(self).spec_touch(now),
            needs_connect == !old(self).connected,
    {
        self.deadline = now + self.idle_window;
        !self.connected
    }

    /// A connection attempt succeeded: the handle is present, and exactly
    /// one eviction watcher is started for it — never a second one.
    pub fn on_connect_success(&mut self)
        requires
            old(self).wf(),
            !old(self).connected,
        ensures
            *final(self) == (ClientAccessControl {
                connected: true,
                watcher_active: true,
                ever_connected: true,
                ..*old(self)
            }),
            final(self).wf(),
    {
        self.connected = true;
        self.watcher_active = true;
        self.ever_connected = true;
    }

    /// What a failed connection attempt leads to under the policy:
    /// fail-fast aborts only where no session was ever established;
    /// otherwise the attempt is retried at the fixed interval.
    pub fn connect_failure_decision(&self, policy: &ReconnectPolicy) -> (d: ConnectDecision)
        ensures
            d == spec_connect_decision(*policy, self.ever_connected),
    {
        if policy.fail_fast && !self.ever_connected {
            ConnectDecision::GiveUp
        } else {
            ConnectDecision::RetryAfter(policy.retry_interval)
        }
    }

    /// The last step of a request: a call that failed at the transport
    /// level discards the handle and stops its watcher, so the next
    /// request reconnects; a call that went through leaves the state as
    /// it is. An absent-result answer is not a failure and never comes
    /// through here.
    pub fn on_call_outcome(&mut self, transport_ok: bool)
        requires
            old(self).wf(),
        ensures
            transport_ok ==> *final(self) == *old(self),
            !transport_ok ==> *final(self) == old(self).spec_teardown(),
            final(self).wf(),
    {
        if !transport_ok {
            self.connected = false;
            self.watcher_active = false;
        }
    }

    /// The eviction watcher's step on waking after sleeping until
    /// `slept_until`: re-read the deadline; where no request pushed it
    /// forward, tear the handle down and stop; otherwise leave the state
    /// alone and sleep toward the new deadline.
    pub fn watcher_wake(&mut self, slept_until: u64) -> (evict: bool)
        requires
            old(self).wf(),
            old(self).watcher_active,
        ensures
            evict == old(self).spec_wake_evicts(slept_until),
            evict ==> *final(self) == old(self).spec_teardown(),
            !evict ==> *final(self) == *old(self),
            final(self).wf(),
    {
        if self.deadline <= slept_until {
            self.connected = false;
            self.watcher_active = false;
            true
        } else {
            false
        }
    }
}

impl Default for ClientAccessControl {
    /// A fresh manager with the fixed idle window.
    fn default() -> (r: Self)
        ensures
            r == (ClientAccessControl {
                connected: false,
                watcher_active: false,
                deadline: 0,
                idle_window: DEFAULT_IDLE_WINDOW,
                ever_connected: false,
            }),
    {
        ClientAccessControl::new(DEFAULT_IDLE_WINDOW)
    }
}

/// A request at `now` moves the deadline to `now` plus the idle window,
/// so a watcher that began sleeping toward any earlier deadline does not
/// evict the connection on waking: the deadline extension is honored, and
/// the connection survives.
pub proof fn lemma_deadline_extension_honored(m: ClientAccessControl, now: u64, d0: u64)
    requires
        now + m.idle_window <= u64::MAX,
        d0 < now + m.idle_window,
    ensures
        !m.spec_touch(now).spec_wake_evicts(d0),
{
}

/// With no request after the deadline was set, a watcher that slept until
/// that very deadline finds it unmoved and evicts.
pub proof fn lemma_unrefreshed_deadline_evicts(m: ClientAccessControl)
    ensures
        m.spec_wake_evicts(m.deadline),
{
}

/// Under the fail-fast policy a manager that never established a session
/// gives up after the first failed connection attempt instead of
/// retrying.
pub proof fn lemma_fail_fast_gives_up(m: ClientAccessControl, policy: ReconnectPolicy)
    requires
        policy.fail_fast,
        !m.ever_connected,
    ensures
        spec_connect_decision(policy, m.ever_connected) == ConnectDecision::GiveUp,
{
}

/// Once a session was established, a failed attempt is always retried at
/// the fixed interval, whatever the initial-connect policy was.
pub proof fn lemma_reconnect_always_retries(m: ClientAccessControl, policy: ReconnectPolicy)
    requires
        m.ever_connected,
    ensures
        spec_connect_decision(policy, m.ever_connected) == ConnectDecision::RetryAfter(
            policy.retry_interval,
        ),
{
}

} // verus!
