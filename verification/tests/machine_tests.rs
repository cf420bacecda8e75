use rustbot::conn::{advance, ConnEvent, ConnState};
use rustbot::liveness::Monitor;
use rustbot::registry::{inbound_lines, poll_ok_flags, PollOutcome, Registry};

#[test]
fn monitor_signals_once_after_quiet_window() {
    let mut m = Monitor::new(300);
    assert!(!m.check(1_000));

    m.probe(1_000);
    assert!(!m.check(1_100));
    assert!(!m.check(1_299));
    assert!(m.check(1_300));
    // Already fired: stays quiet until the next probe.
    assert!(!m.check(2_000));
    assert!(!m.check(9_000));
}

#[test]
fn monitor_rearms_on_every_probe() {
    let mut m = Monitor::new(300);
    m.probe(0);
    m.probe(250);
    // The first deadline (300) was cancelled by the second probe.
    assert!(!m.check(320));
    assert!(m.check(550));
}

#[test]
fn reconnect_reaches_established_after_failures() {
    let events = [
        ConnEvent::ConnectStarted,
        ConnEvent::TransportFailed,
        ConnEvent::BackoffElapsed,
        ConnEvent::ConnectStarted,
        ConnEvent::TransportFailed,
        ConnEvent::BackoffElapsed,
        ConnEvent::ConnectStarted,
        ConnEvent::TransportOpened,
        ConnEvent::GreetingDone,
    ];
    let mut state = ConnState::Disconnected;
    let mut registrations = 0;
    let mut backoffs = 0;
    for e in events {
        let t = advance(state, e);
        state = t.next;
        if t.emit_registration {
            registrations += 1;
        }
        if t.backoff {
            backoffs += 1;
        }
        assert!(!t.stop);
    }
    assert_eq!(state, ConnState::Established);
    assert_eq!(registrations, 1);
    assert_eq!(backoffs, 2);
}

#[test]
fn dead_session_waits_out_backoff() {
    let t = advance(ConnState::Established, ConnEvent::DeadSignal);
    assert_eq!(t.next, ConnState::Dead);
    assert!(t.backoff);
    assert!(t.close_transport);
    // Without the backoff elapsing, a new attempt cannot start.
    let t2 = advance(ConnState::Dead, ConnEvent::ConnectStarted);
    assert_eq!(t2.next, ConnState::Dead);
    let t3 = advance(ConnState::Dead, ConnEvent::BackoffElapsed);
    assert_eq!(t3.next, ConnState::Disconnected);
}

#[test]
fn shutdown_wins_everywhere() {
    for s in [
        ConnState::Disconnected,
        ConnState::Connecting,
        ConnState::Registered,
        ConnState::Established,
        ConnState::Closing,
        ConnState::Dead,
    ] {
        let t = advance(s, ConnEvent::ShutdownRequested);
        assert_eq!(t.next, ConnState::Closing);
        assert!(t.stop && t.close_transport);
    }
}

#[test]
fn broadcast_failure_removes_exactly_the_failed_subscriber() {
    let mut r = Registry::new();
    let a = r.accept();
    let b = r.accept();
    let c = r.accept();
    assert_eq!(r.handles(), &vec![a, b, c]);

    // Subscriber b fails the write; the others succeed.
    r.apply_outcomes(&vec![true, false, true]);
    assert_eq!(r.handles(), &vec![a, c]);
    assert_eq!(r.count(), 2);

    // A later accept never reuses a removed handle.
    let d = r.accept();
    assert!(d != a && d != b && d != c);
}

#[test]
fn poll_sweep_gathers_lines_and_drops_failures() {
    let outcomes = vec![
        PollOutcome::Line(b"JOIN #rust".to_vec()),
        PollOutcome::Nothing,
        PollOutcome::Failed,
        PollOutcome::Line(b"PRIVMSG #rust :hi".to_vec()),
    ];
    let lines = inbound_lines(&outcomes);
    assert_eq!(
        lines,
        vec![b"JOIN #rust".to_vec(), b"PRIVMSG #rust :hi".to_vec()]
    );
    let ok = poll_ok_flags(&outcomes);
    assert_eq!(ok, vec![true, true, false, true]);

    let mut r = Registry::new();
    let a = r.accept();
    let b = r.accept();
    let c = r.accept();
    let d = r.accept();
    let _ = c;
    r.apply_outcomes(&ok);
    assert_eq!(r.handles(), &vec![a, b, d]);
}
