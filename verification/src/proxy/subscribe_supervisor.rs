//! The life of a supervised stream: it is counted while it lasts, and its forwarders are given a
//! while to end before they are aborted.

use crate::net;
use crate::net::IpAddr;
use crate::stats;
use crate::stats::{Conn, Stats, SupervisorCounters};
use vstd::prelude::*;

verus! {

/// Cooperative shutdown grace before forced abort, in seconds.
pub const COOP_SHUTDOWN_GRACE_SECS: u64 = 2;

/// How far a supervised stream has come.
#[derive(Debug, Clone, Copy, PartialEq, Eq, Structural)]
pub enum Phase {
    /// The stream runs.
    Running,
    /// The forwarders have been asked to end, and the grace runs.
    Draining,
    /// The forwarders that were left have been aborted.
    Aborting,
    /// All is over, and counted.
    Finished,
}

/// What a supervisor is told.
#[derive(Debug, Clone, Copy, PartialEq, Eq, Structural)]
pub enum SupervisorEvent {
    /// The client's end of the stream is gone.
    HandleDropped,
    /// Someone has cancelled the stream.
    Cancelled,
    /// A forwarder has ended.
    ChildDone,
    /// No forwarder is left.
    AllDone,
    /// The grace is over.
    GraceOver,
}

/// What a supervisor does next.
#[derive(Debug, Clone, Copy, PartialEq, Eq, Structural)]
pub enum SupervisorAction {
    /// Wait for the next event.
    Wait,
    /// Ask the forwarders to end, and let the grace run.
    CancelAndGrace,
    /// Abort the forwarders that are left.
    AbortAll,
    /// It is over; ask whatever still listens to end.
    Finish,
}

/// Collects the forwarders of a stream before it starts.
pub struct SupervisorBuilder {
    pub ip: IpAddr,
    pub conn: Conn,
    pub children: usize,
}

/// Watches over the forwarders of one stream.
pub struct Supervisor {
    pub ip: IpAddr,
    pub conn: Conn,
    pub phase: Phase,
    /// Forwarders that have not ended, as far as is known.
    pub alive: usize,
}

/// The event can come in this phase.
pub open spec fn can_come(phase: Phase, alive: usize, event: SupervisorEvent) -> bool {
    match event {
        SupervisorEvent::HandleDropped => phase == Phase::Running,
        SupervisorEvent::Cancelled => phase == Phase::Running,
        SupervisorEvent::ChildDone => phase != Phase::Finished && alive > 0,
        SupervisorEvent::AllDone => phase != Phase::Finished && alive == 0,
        SupervisorEvent::GraceOver => phase == Phase::Draining,
    }
}

/// What follows from an event.
pub open spec fn action_on(alive: usize, event: SupervisorEvent) -> SupervisorAction {
    match event {
        SupervisorEvent::HandleDropped => SupervisorAction::CancelAndGrace,
        SupervisorEvent::Cancelled => SupervisorAction::CancelAndGrace,
        SupervisorEvent::ChildDone => SupervisorAction::Wait,
        SupervisorEvent::AllDone => SupervisorAction::Finish,
        SupervisorEvent::GraceOver => if alive > 0 {
            SupervisorAction::AbortAll
        } else {
            SupervisorAction::Finish
        },
    }
}

/// The phase after an action.
pub open spec fn phase_after(phase: Phase, action: SupervisorAction) -> Phase {
    match action {
        SupervisorAction::Wait => phase,
        SupervisorAction::CancelAndGrace => Phase::Draining,
        SupervisorAction::AbortAll => Phase::Aborting,
        SupervisorAction::Finish => Phase::Finished,
    }
}

/// The counters of all streams after an action, with so many forwarders left.
pub open spec fn counters_after(
    c: SupervisorCounters,
    alive: usize,
    action: SupervisorAction,
) -> SupervisorCounters {
    match action {
        SupervisorAction::AbortAll => SupervisorCounters {
            forwarder_aborted_total: c.forwarder_aborted_total.wrapping_add(alive as u64),
            ..c
        },
        SupervisorAction::Finish => SupervisorCounters {
            active: c.active.wrapping_sub(1),
            drops_total: c.drops_total.wrapping_add(1),
            ..c
        },
        _ => c,
    }
}

/// A stream has begun, and counts.
pub open spec fn is_started(
    b: SupervisorBuilder,
    before: Stats,
    after: Stats,
    s: Supervisor,
) -> bool {
    &&& s == (Supervisor { ip: b.ip, conn: b.conn, phase: Phase::Running, alive: b.children })
    &&& after.by_ip() == before.by_ip().insert(
        net::ip_key(b.ip),
        stats::after_enter(stats::stats_or_zero(before.by_ip(), net::ip_key(b.ip)), b.conn),
    )
    &&& after.supervisor == (SupervisorCounters {
        active: before.supervisor.active.wrapping_add(1),
        ..before.supervisor
    })
    &&& after.global_rps_current == before.global_rps_current
    &&& after.global_tps_current == before.global_tps_current
    &&& after.global_total_requests == before.global_total_requests
}

/// A stream has been told of an event.
pub open spec fn is_step(
    was: Supervisor,
    is: Supervisor,
    before: Stats,
    after: Stats,
    event: SupervisorEvent,
    action: SupervisorAction,
) -> bool {
    &&& action == action_on(was.alive, event)
    &&& is.ip == was.ip
    &&& is.conn == was.conn
    &&& is.phase == phase_after(was.phase, action)
    &&& is.alive == if event == SupervisorEvent::ChildDone {
        (was.alive - 1) as usize
    } else {
        was.alive
    }
    &&& after.supervisor == counters_after(before.supervisor, was.alive, action)
    &&& after.by_ip() == if action == SupervisorAction::Finish {
        before.by_ip().insert(
            net::ip_key(was.ip),
            stats::after_leave(
                stats::stats_or_zero(before.by_ip(), net::ip_key(was.ip)),
                was.conn,
            ),
        )
    } else {
        before.by_ip()
    }
    &&& after.global_rps_current == before.global_rps_current
    &&& after.global_tps_current == before.global_tps_current
    &&& after.global_total_requests == before.global_total_requests
}

impl SupervisorBuilder {
    /// A stream of a client, without forwarders.
    pub fn new(ip: IpAddr, conn: Conn) -> (b: SupervisorBuilder)
        ensures
            b == (SupervisorBuilder { ip, conn, children: 0 }),
    {
        SupervisorBuilder { ip, conn, children: 0 }
    }

    /// Adds a forwarder.
    pub fn spawn(&mut self)
        requires
            old(self).children < usize::MAX,
        ensures
            *final(self) == (SupervisorBuilder {
                children: (old(self).children + 1) as usize,
                ..*old(self)
            }),
    {
        self.children = self.children + 1;
    }

    /// Increment both per-IP and global active counters, and begin to watch.
    pub fn start(self, stats: &mut Stats) -> (s: Supervisor)
        ensures
            old(stats).wf() ==> final(stats).wf(),
            is_started(self, *old(stats), *final(stats), s),
    {
        stats.enter(self.ip, self.conn);
        stats.supervisor.active = stats.supervisor.active.wrapping_add(1);
        Supervisor { ip: self.ip, conn: self.conn, phase: Phase::Running, alive: self.children }
    }
}

impl Supervisor {
    /// Takes an event, and says what to do. The counters of the stream go down exactly when it is
    /// over.
    pub fn on_event(&mut self, event: SupervisorEvent, stats: &mut Stats) -> (
        action: SupervisorAction)
        requires
            can_come(old(self).phase, old(self).alive, event),
        ensures
            old(stats).wf() ==> final(stats).wf(),
            is_step(*old(self), *final(self), *old(stats), *final(stats), event, action),
    {
        match event {
            SupervisorEvent::HandleDropped | SupervisorEvent::Cancelled => {
                self.phase = Phase::Draining;
                SupervisorAction::CancelAndGrace
            },
            SupervisorEvent::ChildDone => {
                self.alive = self.alive - 1;
                SupervisorAction::Wait
            },
            SupervisorEvent::AllDone => {
                self.finish(stats);
                SupervisorAction::Finish
            },
            SupervisorEvent::GraceOver => {
                if self.alive > 0 {
                    stats.supervisor.forwarder_aborted_total =
                    stats.supervisor.forwarder_aborted_total.wrapping_add(self.alive as u64);
                    self.phase = Phase::Aborting;
                    SupervisorAction::AbortAll
                } else {
                    self.finish(stats);
                    SupervisorAction::Finish
                }
            },
        }
    }

    fn finish(&mut self, stats: &mut Stats)
        ensures
            *final(self) == (Supervisor { phase: Phase::Finished, ..*old(self) }),
            old(stats).wf() ==> final(stats).wf(),
            final(stats).supervisor == counters_after(
                old(stats).supervisor,
                old(self).alive,
                SupervisorAction::Finish,
            ),
            final(stats).by_ip() == old(stats).by_ip().insert(
                net::ip_key(old(self).ip),
                stats::after_leave(
                    stats::stats_or_zero(old(stats).by_ip(), net::ip_key(old(self).ip)),
                    old(self).conn,
                ),
            ),
            final(stats).global_rps_current == old(stats).global_rps_current,
            final(stats).global_tps_current == old(stats).global_tps_current,
            final(stats).global_total_requests == old(stats).global_total_requests,
    {
        stats.leave(self.ip, self.conn);
        stats.supervisor.active = stats.supervisor.active.wrapping_sub(1);
        stats.supervisor.drops_total = stats.supervisor.drops_total.wrapping_add(1);
        self.phase = Phase::Finished;
    }
}

/// A stream by itself: its phase, its forwarders, how many of them were aborted, its client's
/// count, and the counters of all.
#[verifier::ext_equal]
pub struct Run {
    pub phase: Phase,
    pub alive: usize,
    pub aborted: usize,
    pub per_ip: u64,
    pub counters: SupervisorCounters,
}

/// A stream right after its start.
pub open spec fn started(children: usize, per_ip: u64, counters: SupervisorCounters) -> Run {
    Run {
        phase: Phase::Running,
        alive: children,
        aborted: 0,
        per_ip: per_ip.wrapping_add(1),
        counters: SupervisorCounters { active: counters.active.wrapping_add(1), ..counters },
    }
}

/// A stream after one more event; events that cannot come change nothing.
pub open spec fn step(r: Run, event: SupervisorEvent) -> Run {
    if can_come(r.phase, r.alive, event) {
        let action = action_on(r.alive, event);
        Run {
            phase: phase_after(r.phase, action),
            alive: if event == SupervisorEvent::ChildDone {
                (r.alive - 1) as usize
            } else {
                r.alive
            },
            aborted: if action == SupervisorAction::AbortAll {
                r.alive
            } else {
                r.aborted
            },
            per_ip: if action == SupervisorAction::Finish {
                r.per_ip.wrapping_sub(1)
            } else {
                r.per_ip
            },
            counters: counters_after(r.counters, r.alive, action),
        }
    } else {
        r
    }
}

/// A stream after events.
pub open spec fn run(r: Run, events: Seq<SupervisorEvent>) -> Run
    decreases events.len(),
{
    if events.len() == 0 {
        r
    } else {
        step(run(r, events.drop_last()), events.last())
    }
}

/// Counters go up once at the start and down exactly once at the end, whatever happens in between:
/// while the stream has not ended it is counted once, and when it has, its client's count and the
/// count of all that run are what they were, and one more has ended.
pub proof fn law_counted_exactly_once(
    children: usize,
    per_ip: u64,
    counters: SupervisorCounters,
    events: Seq<SupervisorEvent>,
)
    ensures
        ({
            let r = run(started(children, per_ip, counters), events);
            if r.phase == Phase::Finished {
                &&& r.per_ip == per_ip
                &&& r.counters.active == counters.active
                &&& r.counters.drops_total == counters.drops_total.wrapping_add(1)
            } else {
                &&& r.per_ip == per_ip.wrapping_add(1)
                &&& r.counters.active == counters.active.wrapping_add(1)
                &&& r.counters.drops_total == counters.drops_total
            }
        }),
    decreases events.len(),
{
    if events.len() > 0 {
        law_counted_exactly_once(children, per_ip, counters, events.drop_last());
    }
}

/// Every forwarder that is aborted is counted as such, once, and only those are that were left when
/// the grace was over: a stream whose grace does not run out aborts none.
pub proof fn law_only_stuck_forwarders_are_aborted(
    children: usize,
    per_ip: u64,
    counters: SupervisorCounters,
    events: Seq<SupervisorEvent>,
)
    ensures
        ({
            let r = run(started(children, per_ip, counters), events);
            &&& r.counters.forwarder_aborted_total == counters.forwarder_aborted_total.wrapping_add(
                r.aborted as u64,
            )
            &&& r.aborted <= children
            &&& r.alive <= children
            &&& r.phase == Phase::Running || r.phase == Phase::Draining ==> r.aborted == 0
            &&& r.phase == Phase::Aborting ==> r.alive <= r.aborted
            &&& r.aborted > 0 ==> events.contains(SupervisorEvent::GraceOver)
        }),
    decreases events.len(),
{
    if events.len() > 0 {
        let before = events.drop_last();
        law_only_stuck_forwarders_are_aborted(children, per_ip, counters, before);
        if before.contains(SupervisorEvent::GraceOver) {
            let i = before.index_of(SupervisorEvent::GraceOver);
            assert(events[i] == SupervisorEvent::GraceOver);
        }
        assert(events[events.len() - 1] == events.last());
    }
}

/// Once over, a stream stays over, and nothing is counted any more.
pub proof fn law_over_is_over(r: Run, event: SupervisorEvent)
    requires
        r.phase == Phase::Finished,
    ensures
        step(r, event) == r,
{
}

/// A stream counts once for its client, under its kind, and once in all from the moment it begins, with
/// all its forwarders alive.
pub proof fn law_start_counts_the_stream(
    b: SupervisorBuilder,
    before: Stats,
    after: Stats,
    s: Supervisor,
)
    requires
        is_started(b, before, after, s),
        before.supervisor.active < u64::MAX,
        stats::active_of(stats::stats_or_zero(before.by_ip(), net::ip_key(b.ip)), b.conn) < u64::MAX,
    ensures
        s.phase == Phase::Running,
        s.alive == b.children,
        s.ip == b.ip,
        s.conn == b.conn,
        stats::active_of(stats::stats_or_zero(after.by_ip(), net::ip_key(b.ip)), b.conn)
            == stats::active_of(stats::stats_or_zero(before.by_ip(), net::ip_key(b.ip)), b.conn)
            + 1,
        after.supervisor.active == before.supervisor.active + 1,
        after.supervisor.drops_total == before.supervisor.drops_total,
        after.supervisor.forwarder_aborted_total == before.supervisor.forwarder_aborted_total,
        stats::others_unchanged(before.by_ip(), after.by_ip(), net::ip_key(b.ip)),
        after.global_total_requests == before.global_total_requests,
        after.global_rps_current == before.global_rps_current,
        after.global_tps_current == before.global_tps_current,
{
}

/// A client that leaves, or a cancelled stream, asks the forwarders to end; a forwarder that ends is one
/// fewer; when the grace is over those that are left are aborted, and counted as such; and when none is
/// left the stream is over. It stops counting then and only then.
pub proof fn law_what_follows_from_an_event(
    was: Supervisor,
    is: Supervisor,
    before: Stats,
    after: Stats,
    event: SupervisorEvent,
    action: SupervisorAction,
)
    requires
        can_come(was.phase, was.alive, event),
        is_step(was, is, before, after, event, action),
        before.supervisor.active > 0,
        before.supervisor.drops_total < u64::MAX,
        before.supervisor.forwarder_aborted_total + was.alive <= u64::MAX,
        stats::active_of(stats::stats_or_zero(before.by_ip(), net::ip_key(was.ip)), was.conn) > 0,
    ensures
        ({
            let over = event == SupervisorEvent::AllDone || (event == SupervisorEvent::GraceOver
                && was.alive == 0);
            let aborts = event == SupervisorEvent::GraceOver && was.alive > 0;
            let count = stats::active_of(
                stats::stats_or_zero(before.by_ip(), net::ip_key(was.ip)),
                was.conn,
            );
            let count_after = stats::active_of(
                stats::stats_or_zero(after.by_ip(), net::ip_key(was.ip)),
                was.conn,
            );
            &&& action == SupervisorAction::CancelAndGrace <==> event
                == SupervisorEvent::HandleDropped || event == SupervisorEvent::Cancelled
            &&& action == SupervisorAction::Wait <==> event == SupervisorEvent::ChildDone
            &&& action == SupervisorAction::AbortAll <==> aborts
            &&& action == SupervisorAction::Finish <==> over
            &&& is.alive == was.alive - if event == SupervisorEvent::ChildDone { 1int } else { 0 }
            &&& is.phase == Phase::Finished <==> over
            &&& aborts ==> is.phase == Phase::Aborting
            &&& event == SupervisorEvent::ChildDone ==> is.phase == was.phase
            &&& action == SupervisorAction::CancelAndGrace ==> is.phase == Phase::Draining
            &&& count_after == count - if over { 1int } else { 0 }
            &&& after.supervisor.active == before.supervisor.active - if over { 1int } else { 0 }
            &&& after.supervisor.drops_total == before.supervisor.drops_total + if over {
                1int
            } else {
                0
            }
            &&& after.supervisor.forwarder_aborted_total
                == before.supervisor.forwarder_aborted_total + if aborts {
                was.alive as int
            } else {
                0
            }
            &&& stats::others_unchanged(before.by_ip(), after.by_ip(), net::ip_key(was.ip))
            &&& is.ip == was.ip && is.conn == was.conn
        }),
        after.global_total_requests == before.global_total_requests,
        after.global_rps_current == before.global_rps_current,
        after.global_tps_current == before.global_tps_current,
{
}

/// A stream that runs can be left or cancelled, one that drains can run out of its grace, and as long as
/// it is not over its forwarders can end, or be found to have ended, by whether any is left.
pub proof fn law_what_a_stream_hears(phase: Phase, alive: usize, event: SupervisorEvent)
    ensures
        can_come(phase, alive, event) <==> match phase {
            Phase::Running => event == SupervisorEvent::HandleDropped || event
                == SupervisorEvent::Cancelled || (event == SupervisorEvent::ChildDone && alive
                > 0) || (event == SupervisorEvent::AllDone && alive == 0),
            Phase::Draining => event == SupervisorEvent::GraceOver || (event
                == SupervisorEvent::ChildDone && alive > 0) || (event == SupervisorEvent::AllDone
                && alive == 0),
            Phase::Aborting => (event == SupervisorEvent::ChildDone && alive > 0) || (event
                == SupervisorEvent::AllDone && alive == 0),
            Phase::Finished => false,
        },
{
}

} // verus!
