//! The decisions of the transport's connection loop: its states, what each event leads to, and
//! the jittered exponential backoff between attempts.
use vstd::prelude::*;

verus! {

/// First delay, in milliseconds.
pub const BACKOFF_BASE_MS: u64 = 500;

/// Longest delay, in milliseconds.
pub const BACKOFF_CAP_MS: u64 = 30000;

/// The delay before retry number `attempt` (from zero), before jitter: the base doubled at each
/// attempt, up to the cap.
pub open spec fn backoff(attempt: nat) -> nat
    decreases attempt,
{
    if attempt == 0 {
        BACKOFF_BASE_MS as nat
    } else {
        let d = 2 * backoff((attempt - 1) as nat);
        if d > BACKOFF_CAP_MS { BACKOFF_CAP_MS as nat } else { d }
    }
}

/// The jittered delay: between half the backoff and the backoff, as `jitter` picks.
pub open spec fn jittered(attempt: nat, jitter: u64) -> nat {
    backoff(attempt) / 2 + (jitter as nat) % (backoff(attempt) / 2 + 1)
}

proof fn lemma_backoff_bounds(attempt: nat)
    ensures
        BACKOFF_BASE_MS <= backoff(attempt) <= BACKOFF_CAP_MS,
    decreases attempt,
{
    if attempt > 0 {
        lemma_backoff_bounds((attempt - 1) as nat);
    }
}

/// The delay before retry number `attempt`, jittered by the random number `jitter`.
pub fn backoff_delay_ms(attempt: u32, jitter: u64) -> (r: u64)
    ensures
        r == jittered(attempt as nat, jitter),
        BACKOFF_BASE_MS / 2 <= r <= BACKOFF_CAP_MS,
{
    let mut d: u64 = BACKOFF_BASE_MS;
    let mut i: u32 = 0;
    while i < attempt
        invariant
            i <= attempt,
            d == backoff(i as nat),
            BACKOFF_BASE_MS <= d <= BACKOFF_CAP_MS,
        decreases attempt - i,
    {
        proof {
            lemma_backoff_bounds(i as nat);
        }
        d = if 2 * d > BACKOFF_CAP_MS { BACKOFF_CAP_MS } else { 2 * d };
        i = i + 1;
    }
    let half = d / 2;
    half + jitter % (half + 1)
}

/// States of the connection.
#[derive(Debug, Clone, Copy, PartialEq, Eq, Structural)]
pub enum ConnectionState {
    Disconnected,
    Connecting,
    /// A fresh session: the handshake is running.
    SessionEstablished,
    Running,
    /// Stopped for good.
    Draining,
}

/// What happened on the transport.
#[derive(Debug, Clone, Copy, PartialEq, Eq, Structural)]
pub enum TransportEvent {
    /// The broker acknowledged the connection.
    ConnAck { session_present: bool },
    /// The handshake of a fresh session completed.
    HandshakeDone,
    /// The handshake of a fresh session failed.
    HandshakeFailed,
    /// Polling the transport failed; `fatal` for a credential or identity error.
    PollError { fatal: bool },
    /// The device is being shut down.
    Shutdown,
}

/// What the loop must do next.
#[derive(Debug, Clone, Copy, PartialEq, Eq, Structural)]
pub enum Step {
    /// Keep polling.
    Poll,
    /// Run the handshake of a fresh session.
    Handshake,
    /// Wait this many milliseconds, then poll again.
    Wait(u64),
    /// Stop and report the error.
    Fail,
    /// Stop.
    Stop,
}

/// The connection state machine.
#[derive(Debug)]
pub struct Connection {
    pub state: ConnectionState,
    /// Failed attempts since the last successful session.
    pub attempt: u32,
    /// A fresh session began and its handshake has not completed yet: the next acknowledgement
    /// runs the handshake from the beginning, even for a resumed session.
    pub handshake_pending: bool,
}

/// The state, the attempt count, whether a handshake is pending, and the step after an event.
pub open spec fn transition(state: ConnectionState, attempt: u32, pending: bool, ev: TransportEvent, jitter: u64) -> (ConnectionState, u32, bool, Step) {
    let again = if attempt == u32::MAX { attempt } else { (attempt + 1) as u32 };
    if state == ConnectionState::Draining {
        (state, attempt, pending, Step::Stop)
    } else {
        match ev {
            TransportEvent::ConnAck { session_present } => if session_present && !pending {
                (ConnectionState::Running, 0u32, false, Step::Poll)
            } else {
                (ConnectionState::SessionEstablished, attempt, true, Step::Handshake)
            },
            TransportEvent::HandshakeDone => (ConnectionState::Running, 0u32, false, Step::Poll),
            TransportEvent::HandshakeFailed => (ConnectionState::Disconnected, again, pending, Step::Wait(jittered(attempt as nat, jitter) as u64)),
            TransportEvent::PollError { fatal } => if fatal {
                (ConnectionState::Draining, attempt, pending, Step::Fail)
            } else {
                (ConnectionState::Connecting, again, pending, Step::Wait(jittered(attempt as nat, jitter) as u64))
            },
            TransportEvent::Shutdown => (ConnectionState::Draining, attempt, pending, Step::Stop),
        }
    }
}

impl Connection {
    pub fn new() -> (r: Connection)
        ensures
            r.state == ConnectionState::Connecting,
            r.attempt == 0,
            !r.handshake_pending,
    {
        Connection { state: ConnectionState::Connecting, attempt: 0, handshake_pending: false }
    }

    /// Moves the state machine on `ev`; `jitter` is a random number for the backoff. After a
    /// failed handshake the loop waits, reconnects, and runs the handshake again.
    pub fn on_event(&mut self, ev: TransportEvent, jitter: u64) -> (r: Step)
        ensures
            (final(self).state, final(self).attempt, final(self).handshake_pending, r) == transition(
                old(self).state,
                old(self).attempt,
                old(self).handshake_pending,
                ev,
                jitter,
            ),
    {
        if self.state == ConnectionState::Draining {
            return Step::Stop;
        }
        let again = if self.attempt == u32::MAX { self.attempt } else { self.attempt + 1 };
        match ev {
            TransportEvent::ConnAck { session_present } => {
                if session_present && !self.handshake_pending {
                    self.state = ConnectionState::Running;
                    self.attempt = 0;
                    Step::Poll
                } else {
                    self.state = ConnectionState::SessionEstablished;
                    self.handshake_pending = true;
                    Step::Handshake
                }
            },
            TransportEvent::HandshakeDone => {
                self.state = ConnectionState::Running;
                self.attempt = 0;
                self.handshake_pending = false;
                Step::Poll
            },
            TransportEvent::HandshakeFailed => {
                let d = backoff_delay_ms(self.attempt, jitter);
                self.state = ConnectionState::Disconnected;
                self.attempt = again;
                Step::Wait(d)
            },
            TransportEvent::PollError { fatal } => {
                if fatal {
                    self.state = ConnectionState::Draining;
                    Step::Fail
                } else {
                    let d = backoff_delay_ms(self.attempt, jitter);
                    self.state = ConnectionState::Connecting;
                    self.attempt = again;
                    Step::Wait(d)
                }
            },
            TransportEvent::Shutdown => {
                self.state = ConnectionState::Draining;
                Step::Stop
            },
        }
    }
}

} // verus!
