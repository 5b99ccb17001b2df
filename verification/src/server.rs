//! The server's accept-loop decisions: every accepted raw connection is
//! admitted as an independent session only after a successful TLS
//! handshake, and a handshake failure is discarded without ever
//! terminating the listener or touching other sessions.

use vstd::prelude::*;

verus! {

/// The result of the TLS handshake on one accepted raw connection.
#[derive(Clone, Copy, Debug, PartialEq, Eq, Structural)]
pub enum HandshakeOutcome {
    Established,
    Failed,
}

/// The listener's observable state: whether it keeps accepting, and how
/// many sessions it has admitted.
pub struct ServerListener {
    pub accepting: bool,
    pub sessions_admitted: u64,
}

/// The listener's step for one accepted connection: an established
/// handshake admits a session, a failed one is discarded, and the
/// listener goes on accepting either way.
pub open spec fn spec_on_connection(l: ServerListener, outcome: HandshakeOutcome) -> (
    ServerListener,
    bool,
) {
    match outcome {
        HandshakeOutcome::Established => (
            ServerListener {
                accepting: true,
                sessions_admitted: (l.sessions_admitted + 1) as u64,
            },
            true,
        ),
        HandshakeOutcome::Failed => (ServerListener { accepting: true, ..l }, false),
    }
}

impl ServerListener {
    /// A listener that was just bound: accepting, no session yet.
    pub fn new() -> (r: Self)
        ensures
            r.accepting,
            r.sessions_admitted == 0,
    {
        ServerListener { accepting: true, sessions_admitted: 0 }
    }

    /// Handles one accepted connection: serve it as an independent
    /// session exactly where its handshake succeeded. Whatever the
    /// outcome, the listener keeps accepting: one bad connection is
    /// isolated and never terminates the loop.
    pub fn on_connection(&mut self, outcome: HandshakeOutcome) -> (serve: bool)
        requires
            old(self).accepting,
            old(self).sessions_admitted < u64::MAX,
        ensures
            (*final(self), serve) == spec_on_connection(*old(self), outcome),
            final(self).accepting,
            serve == (outcome == HandshakeOutcome::Established),
    {
        match outcome {
            HandshakeOutcome::Established => {
                self.sessions_admitted = self.sessions_admitted + 1;
                true
            },
            HandshakeOutcome::Failed => false,
        }
    }
}

/// A malformed or non-TLS handshake on one connection leaves the
/// listener accepting, and a subsequent valid connection is still
/// admitted and served.
pub proof fn lemma_handshake_failure_isolated(l: ServerListener, later: HandshakeOutcome)
    requires
        l.accepting,
        l.sessions_admitted < u64::MAX,
    ensures
        spec_on_connection(l, HandshakeOutcome::Failed).0.accepting,
        spec_on_connection(l, HandshakeOutcome::Failed).1 == false,
        later == HandshakeOutcome::Established ==> spec_on_connection(
            spec_on_connection(l, HandshakeOutcome::Failed).0,
            later,
        ).1,
{
}

} // verus!
