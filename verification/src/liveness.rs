//! Liveness monitor: detects a silently stalled upstream connection.
//!
//! Each heartbeat probe from upstream re-arms a single deadline; a dedicated
//! checking activity compares the clock against that deadline. If the grace
//! window passes with no fresh probe, the monitor signals "dead" exactly
//! once and disarms until the next probe. Re-arming replaces the deadline
//! wholesale, so at most one signal can ever be pending per session.

use vstd::prelude::*;

verus! {

/// Monitor state over unbounded mathematical time.
#[verifier::ext_equal]
pub struct MonitorV {
    pub armed: bool,
    pub deadline: int,
    pub grace: int,
}

/// What the monitor can observe: a heartbeat probe, or a clock check, each
/// stamped with the time it happens.
pub enum EventV {
    Probe(int),
    Check(int),
}

/// One monitor step: the state after the event, and whether the event made
/// the monitor signal a dead connection.
pub open spec fn mon_step(s: MonitorV, e: EventV) -> (MonitorV, bool) {
    match e {
        EventV::Probe(t) => (MonitorV { armed: true, deadline: t + s.grace, ..s }, false),
        EventV::Check(t) => {
            if s.armed && t >= s.deadline {
                (MonitorV { armed: false, ..s }, true)
            } else {
                (s, false)
            }
        },
    }
}

/// The state after a whole event sequence.
pub open spec fn mon_run(s: MonitorV, es: Seq<EventV>) -> MonitorV
    decreases es.len(),
{
    if es.len() == 0 {
        s
    } else {
        mon_run(mon_step(s, es[0]).0, es.drop_first())
    }
}

/// How many dead-connection signals a whole event sequence produces.
pub open spec fn mon_signals(s: MonitorV, es: Seq<EventV>) -> nat
    decreases es.len(),
{
    if es.len() == 0 {
        0
    } else {
        (if mon_step(s, es[0]).1 {
            1nat
        } else {
            0nat
        }) + mon_signals(mon_step(s, es[0]).0, es.drop_first())
    }
}

/// Every check in `es` lands while the monitor is disarmed or strictly
/// before the deadline standing at that moment — the shape of a trace whose
/// probes always arrive within the grace window.
pub open spec fn covered(s: MonitorV, es: Seq<EventV>) -> bool
    decreases es.len(),
{
    if es.len() == 0 {
        true
    } else {
        (match es[0] {
            EventV::Probe(_) => true,
            EventV::Check(t) => !s.armed || t < s.deadline,
        }) && covered(mon_step(s, es[0]).0, es.drop_first())
    }
}

/// Heartbeat timeliness: as long as probes keep every check ahead of the
/// armed deadline, the monitor never signals a dead connection.
pub proof fn lemma_covered_silent(s: MonitorV, es: Seq<EventV>)
    requires
        covered(s, es),
    ensures
        mon_signals(s, es) == 0,
    decreases es.len(),
{
    if es.len() > 0 {
        lemma_covered_silent(mon_step(s, es[0]).0, es.drop_first());
    }
}

/// A disarmed monitor stays silent and disarmed under checks alone.
pub proof fn lemma_disarmed_silent(s: MonitorV, es: Seq<EventV>)
    requires
        !s.armed,
        forall|i: int| 0 <= i < es.len() ==> es[i] is Check,
    ensures
        mon_signals(s, es) == 0,
        !mon_run(s, es).armed,
    decreases es.len(),
{
    if es.len() > 0 {
        lemma_disarmed_silent(mon_step(s, es[0]).0, es.drop_first());
    }
}

/// Heartbeat idempotence: between two probes — that is, along any stretch of
/// checks with no probe — the monitor signals a dead connection at most
/// once, whatever the check times are.
pub proof fn lemma_at_most_one_signal(s: MonitorV, es: Seq<EventV>)
    requires
        forall|i: int| 0 <= i < es.len() ==> es[i] is Check,
    ensures
        mon_signals(s, es) <= 1,
    decreases es.len(),
{
    if es.len() > 0 {
        let (s2, fired) = mon_step(s, es[0]);
        assert(forall|i: int|
            0 <= i < es.drop_first().len() ==> es.drop_first()[i] is Check);
        if fired {
            lemma_disarmed_silent(s2, es.drop_first());
        } else {
            lemma_at_most_one_signal(s2, es.drop_first());
        }
    }
}

/// Heartbeat deadline watcher for one upstream session.
///
/// Holds one deadline at a time; a probe replaces it (cancel-and-re-arm in
/// a single step), a check past it fires once and disarms.
pub struct Monitor {
    pub armed: bool,
    pub deadline: u64,
    pub grace: u64,
}

impl View for Monitor {
    type V = MonitorV;

    open spec fn view(&self) -> MonitorV {
        MonitorV { armed: self.armed, deadline: self.deadline as int, grace: self.grace as int }
    }
}

impl Monitor {
    /// A fresh, disarmed monitor with the given grace window.
    pub fn new(grace: u64) -> (m: Monitor)
        ensures
            m@ == (MonitorV { armed: false, deadline: 0, grace: grace as int }),
    {
        Monitor { armed: false, deadline: 0, grace }
    }

    /// A heartbeat probe arrived at time `now`: cancel any pending deadline
    /// and arm a fresh one, one grace window ahead.
    pub fn probe(&mut self, now: u64)
        requires
            now + old(self)@.grace <= u64::MAX,
        ensures
            final(self)@ == mon_step(old(self)@, EventV::Probe(now as int)).0,
    {
        self.armed = true;
        self.deadline = now + self.grace;
    }

    /// The clock reads `now`: report whether the session must be presumed
    /// dead. Fires at most once per armed deadline, then disarms.
    pub fn check(&mut self, now: u64) -> (fired: bool)
        ensures
            final(self)@ == mon_step(old(self)@, EventV::Check(now as int)).0,
            fired == mon_step(old(self)@, EventV::Check(now as int)).1,
    {
        if self.armed && now >= self.deadline {
            self.armed = false;
            true
        } else {
            false
        }
    }
}

} // verus!
