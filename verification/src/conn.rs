//! Connection manager: the reconnect state machine for the one upstream
//! session.
//!
//! The manager's decisions are a pure function from state and event to the
//! next state and the actions owed: emit the registration pair, wait one
//! backoff, close the transport, stop for good. The surrounding binary runs
//! the loop — it opens transports, sleeps through backoffs and reports each
//! outcome back as an event.

use vstd::prelude::*;

verus! {

/// Where the manager stands with the upstream session.
#[derive(Clone, Copy, Debug, PartialEq, Eq, Structural)]
pub enum ConnState {
    /// No session; free to start a connection attempt.
    Disconnected,
    /// A transport open is in flight.
    Connecting,
    /// The transport is open and the registration pair has been emitted;
    /// waiting for the end of the server greeting.
    Registered,
    /// The greeting completed; the session is fully live.
    Established,
    /// A shutdown was requested; winding down for good.
    Closing,
    /// The session is presumed or known dead; a backoff is owed before the
    /// next attempt.
    Dead,
}

/// What the manager can learn from the world.
#[derive(Clone, Copy, Debug, PartialEq, Eq, Structural)]
pub enum ConnEvent {
    /// A connection attempt was started.
    ConnectStarted,
    /// The transport opened.
    TransportOpened,
    /// The transport failed to open, or a read/write on it failed.
    TransportFailed,
    /// The end-of-greeting line arrived from upstream.
    GreetingDone,
    /// The liveness monitor presumes the session dead.
    DeadSignal,
    /// The configured backoff has elapsed.
    BackoffElapsed,
    /// A global shutdown was requested.
    ShutdownRequested,
}

/// The manager's answer to one event: the next state and the actions owed.
#[derive(Clone, Copy, Debug, PartialEq, Eq, Structural)]
pub struct Transition {
    pub next: ConnState,
    /// Emit the registration pair on the outbound queue, before anything
    /// else is written on this session.
    pub emit_registration: bool,
    /// Wait one configured backoff before the next attempt.
    pub backoff: bool,
    /// Close the transport in both directions.
    pub close_transport: bool,
    /// Terminate the supervisory loop.
    pub stop: bool,
}

/// A transition that only moves to `next`, with no action owed.
pub open spec fn quiet(next: ConnState) -> Transition {
    Transition {
        next,
        emit_registration: false,
        backoff: false,
        close_transport: false,
        stop: false,
    }
}

/// The whole decision table of the manager.
///
/// A shutdown request wins from every state; a dead or failed transport
/// costs one backoff before the next attempt; the registration pair is
/// emitted exactly when a transport opens; events that make no sense in the
/// current state change nothing.
pub open spec fn advance_spec(s: ConnState, e: ConnEvent) -> Transition {
    if e == ConnEvent::ShutdownRequested {
        Transition { close_transport: true, stop: true, ..quiet(ConnState::Closing) }
    } else {
        match s {
            ConnState::Disconnected => {
                if e == ConnEvent::ConnectStarted {
                    quiet(ConnState::Connecting)
                } else {
                    quiet(s)
                }
            },
            ConnState::Connecting => {
                if e == ConnEvent::TransportOpened {
                    Transition { emit_registration: true, ..quiet(ConnState::Registered) }
                } else if e == ConnEvent::TransportFailed {
                    Transition { backoff: true, ..quiet(ConnState::Dead) }
                } else {
                    quiet(s)
                }
            },
            ConnState::Registered => {
                if e == ConnEvent::GreetingDone {
                    quiet(ConnState::Established)
                } else if e == ConnEvent::TransportFailed || e == ConnEvent::DeadSignal {
                    Transition {
                        backoff: true,
                        close_transport: true,
                        ..quiet(ConnState::Dead)
                    }
                } else {
                    quiet(s)
                }
            },
            ConnState::Established => {
                if e == ConnEvent::TransportFailed || e == ConnEvent::DeadSignal {
                    Transition {
                        backoff: true,
                        close_transport: true,
                        ..quiet(ConnState::Dead)
                    }
                } else {
                    quiet(s)
                }
            },
            ConnState::Closing => Transition { stop: true, ..quiet(ConnState::Closing) },
            ConnState::Dead => {
                if e == ConnEvent::BackoffElapsed {
                    quiet(ConnState::Disconnected)
                } else {
                    quiet(s)
                }
            },
        }
    }
}

/// Decide one step of the reconnect loop.
pub fn advance(s: ConnState, e: ConnEvent) -> (t: Transition)
    ensures
        t == advance_spec(s, e),
{
    if matches!(e, ConnEvent::ShutdownRequested) {
        return Transition {
            next: ConnState::Closing,
            emit_registration: false,
            backoff: false,
            close_transport: true,
            stop: true,
        };
    }
    let next: ConnState = match s {
        ConnState::Disconnected => {
            if matches!(e, ConnEvent::ConnectStarted) {
                ConnState::Connecting
            } else {
                s
            }
        },
        ConnState::Connecting => {
            if matches!(e, ConnEvent::TransportOpened) {
                ConnState::Registered
            } else if matches!(e, ConnEvent::TransportFailed) {
                ConnState::Dead
            } else {
                s
            }
        },
        ConnState::Registered => {
            if matches!(e, ConnEvent::GreetingDone) {
                ConnState::Established
            } else if matches!(e, ConnEvent::TransportFailed) || matches!(
                e,
                ConnEvent::DeadSignal,
            ) {
                ConnState::Dead
            } else {
                s
            }
        },
        ConnState::Established => {
            if matches!(e, ConnEvent::TransportFailed) || matches!(e, ConnEvent::DeadSignal) {
                ConnState::Dead
            } else {
                s
            }
        },
        ConnState::Closing => ConnState::Closing,
        ConnState::Dead => {
            if matches!(e, ConnEvent::BackoffElapsed) {
                ConnState::Disconnected
            } else {
                s
            }
        },
    };
    let emit_registration = matches!(s, ConnState::Connecting) && matches!(
        e,
        ConnEvent::TransportOpened,
    );
    let freshly_dead = matches!(next, ConnState::Dead) && !matches!(s, ConnState::Dead);
    Transition {
        next,
        emit_registration,
        backoff: freshly_dead,
        close_transport: freshly_dead && !matches!(s, ConnState::Connecting),
        stop: matches!(s, ConnState::Closing),
    }
}

/// The first registration line: `NICK ` and the identity name.
pub open spec fn nick_line(nick: Seq<u8>) -> Seq<u8> {
    seq![78u8, 73u8, 67u8, 75u8, 32u8] + nick
}

/// The second registration line: `USER `, the identity name, ` 0 * :` and
/// the identity name again.
pub open spec fn user_line(nick: Seq<u8>) -> Seq<u8> {
    seq![85u8, 83u8, 69u8, 82u8, 32u8] + nick + seq![32u8, 48u8, 32u8, 42u8, 32u8, 58u8] + nick
}

/// The registration pair owed on the outbound queue immediately after a
/// transport opens, before any other traffic.
pub fn registration_lines(nick: &[u8]) -> (r: (Vec<u8>, Vec<u8>))
    ensures
        r.0@ == nick_line(nick@),
        r.1@ == user_line(nick@),
{
    let mut first: Vec<u8> = Vec::new();
    first.push(78);
    first.push(73);
    first.push(67);
    first.push(75);
    first.push(32);
    first.extend_from_slice(nick);
    proof {
        assert(first@ =~= nick_line(nick@));
    }
    let mut second: Vec<u8> = Vec::new();
    second.push(85);
    second.push(83);
    second.push(69);
    second.push(82);
    second.push(32);
    second.extend_from_slice(nick);
    second.push(32);
    second.push(48);
    second.push(32);
    second.push(42);
    second.push(32);
    second.push(58);
    second.extend_from_slice(nick);
    proof {
        assert(second@ =~= user_line(nick@));
    }
    (first, second)
}

/// Cumulative outcome of a run of the supervisory loop.
#[verifier::ext_equal]
pub struct RunStats {
    pub state: ConnState,
    /// How many times the registration pair was emitted.
    pub registrations: nat,
    /// How many backoffs were waited out.
    pub backoffs: nat,
}

/// Fold the decision table over a whole event sequence.
pub open spec fn conn_run(s: ConnState, es: Seq<ConnEvent>) -> RunStats
    decreases es.len(),
{
    if es.len() == 0 {
        RunStats { state: s, registrations: 0, backoffs: 0 }
    } else {
        let t = advance_spec(s, es[0]);
        let rest = conn_run(t.next, es.drop_first());
        RunStats {
            state: rest.state,
            registrations: rest.registrations + (if t.emit_registration {
                1nat
            } else {
                0nat
            }),
            backoffs: rest.backoffs + (if t.backoff {
                1nat
            } else {
                0nat
            }),
        }
    }
}

/// One failed connection attempt, as the loop observes it: start, failure,
/// backoff elapsing.
pub open spec fn failed_attempt() -> Seq<ConnEvent> {
    seq![ConnEvent::ConnectStarted, ConnEvent::TransportFailed, ConnEvent::BackoffElapsed]
}

/// `m` failed attempts in a row.
pub open spec fn failed_attempts(m: nat) -> Seq<ConnEvent>
    decreases m,
{
    if m == 0 {
        Seq::empty()
    } else {
        failed_attempt() + failed_attempts((m - 1) as nat)
    }
}

/// One successful attempt: start, open transport, greeting completes.
pub open spec fn successful_attempt() -> Seq<ConnEvent> {
    seq![ConnEvent::ConnectStarted, ConnEvent::TransportOpened, ConnEvent::GreetingDone]
}

/// Folding a run splits over concatenation: the second leg starts where the
/// first ended, and the counts add.
pub proof fn lemma_conn_run_append(s: ConnState, a: Seq<ConnEvent>, b: Seq<ConnEvent>)
    ensures
        conn_run(s, a + b) == (RunStats {
            state: conn_run(conn_run(s, a).state, b).state,
            registrations: conn_run(s, a).registrations + conn_run(
                conn_run(s, a).state,
                b,
            ).registrations,
            backoffs: conn_run(s, a).backoffs + conn_run(conn_run(s, a).state, b).backoffs,
        }),
    decreases a.len(),
{
    if a.len() == 0 {
        assert(a + b =~= b);
    } else {
        let t = advance_spec(s, a[0]);
        lemma_conn_run_append(t.next, a.drop_first(), b);
        assert((a + b).drop_first() =~= a.drop_first() + b);
        assert((a + b)[0] == a[0]);
    }
}

/// Reconnect convergence: from `Disconnected`, a transport that fails `m`
/// times and then succeeds brings the manager to `Established`, with exactly
/// `m` backoffs — one per failed attempt — and the registration pair emitted
/// exactly once.
pub proof fn lemma_reconnect_convergence(m: nat)
    ensures
        conn_run(ConnState::Disconnected, failed_attempts(m) + successful_attempt())
            == (RunStats { state: ConnState::Established, registrations: 1, backoffs: m }),
    decreases m,
{
    if m == 0 {
        assert(failed_attempts(0) + successful_attempt() =~= successful_attempt());
        assert(conn_run(ConnState::Disconnected, successful_attempt()) =~= RunStats {
            state: ConnState::Established,
            registrations: 1,
            backoffs: 0,
        }) by {
            reveal_with_fuel(conn_run, 4);
        }
    } else {
        lemma_reconnect_convergence((m - 1) as nat);
        assert(conn_run(ConnState::Disconnected, failed_attempt()) =~= RunStats {
            state: ConnState::Disconnected,
            registrations: 0,
            backoffs: 1,
        }) by {
            reveal_with_fuel(conn_run, 4);
        }
        lemma_conn_run_append(
            ConnState::Disconnected,
            failed_attempt(),
            failed_attempts((m - 1) as nat) + successful_attempt(),
        );
        assert(failed_attempts(m) + successful_attempt() =~= failed_attempt() + (
        failed_attempts((m - 1) as nat) + successful_attempt()));
    }
}

} // verus!
