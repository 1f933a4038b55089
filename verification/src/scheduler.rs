//! The phase scheduler: which kinds of work are due at a given instant.

use crate::timestamp::Timestamp;
use vstd::prelude::*;

verus! {

/// Least time between two placement phases, in nanoseconds.
pub const MIN_PLACEMENT_INTERVAL: i128 = 3_000_000_000;

/// Least time between two load balancing phases, in nanoseconds.
pub const MIN_BALANCING_INTERVAL: i128 = 10_000_000_000;

/// Least time between two constraint check phases, in nanoseconds.
pub const MIN_CONSTRAINT_CHECK_INTERVAL: i128 = 5_000_000_000;

/// A category of scheduling work. Each phase is rate-limited on its own.
#[derive(Debug, Clone, Copy, PartialEq, Eq, Structural)]
pub enum Phase {
    Placement,
    LoadBalancing,
    ConstraintCheck,
}

/// Least time between two runs of `phase`, in nanoseconds.
pub open spec fn min_interval(phase: Phase) -> int {
    match phase {
        Phase::Placement => MIN_PLACEMENT_INTERVAL as int,
        Phase::LoadBalancing => MIN_BALANCING_INTERVAL as int,
        Phase::ConstraintCheck => MIN_CONSTRAINT_CHECK_INTERVAL as int,
    }
}

/// Decides, from the time at which each phase was last selected, which phases
/// are due.
#[derive(Debug, Clone, Copy)]
pub struct PLBScheduler {
    current_phase: Option<Phase>,
    last_placement_time: Timestamp,
    last_balancing_time: Timestamp,
    last_constraint_time: Timestamp,
}

impl PLBScheduler {
    /// The instant, in nanoseconds since the epoch, at which `phase` was last
    /// selected.
    pub closed spec fn last_run(&self, phase: Phase) -> int {
        match phase {
            Phase::Placement => self.last_placement_time.nanos as int,
            Phase::LoadBalancing => self.last_balancing_time.nanos as int,
            Phase::ConstraintCheck => self.last_constraint_time.nanos as int,
        }
    }

    /// The phase that is being worked on, if any.
    pub closed spec fn current(&self) -> Option<Phase> {
        self.current_phase
    }

    /// A phase is due once its minimum interval has passed since its last run.
    pub open spec fn is_due(&self, phase: Phase, now: int) -> bool {
        now - self.last_run(phase) >= min_interval(phase)
    }

    /// `phase` alone where it is due at `now`, and nothing where it is not.
    pub open spec fn if_due(&self, phase: Phase, now: int) -> Seq<Phase> {
        if self.is_due(phase, now) {
            seq![phase]
        } else {
            Seq::empty()
        }
    }

    /// The phases that a call at `now` selects, in the order in which they
    /// are always reported: placement, then load balancing, then constraint
    /// check.
    pub open spec fn due_phases(&self, now: int) -> Seq<Phase> {
        self.if_due(Phase::Placement, now) + self.if_due(Phase::LoadBalancing, now) + self.if_due(
            Phase::ConstraintCheck,
            now,
        )
    }

    /// Whether `next` is the state that selecting the due phases at `now`
    /// leaves behind: a selected phase has last run at `now`, any other phase
    /// keeps its time.
    pub open spec fn selected_at(&self, now: int, next: &PLBScheduler) -> bool {
        &&& next.current() == self.current()
        &&& forall|p: Phase| #[trigger]
            next.last_run(p) == if self.is_due(p, now) {
                now
            } else {
                self.last_run(p)
            }
    }

    /// A scheduler for which every phase has last run at `now`.
    pub fn new(now: Timestamp) -> (s: PLBScheduler)
        ensures
            s.current() is None,
            forall|p: Phase| #[trigger] s.last_run(p) == now.nanos,
    {
        PLBScheduler {
            current_phase: None,
            last_placement_time: now,
            last_balancing_time: now,
            last_constraint_time: now,
        }
    }

    /// Restarts the count for every phase from `now`.
    pub fn reset(&mut self, now: Timestamp)
        ensures
            final(self).current() is None,
            forall|p: Phase| #[trigger] final(self).last_run(p) == now.nanos,
    {
        self.current_phase = None;
        self.last_placement_time = now;
        self.last_balancing_time = now;
        self.last_constraint_time = now;
    }

    /// The instant at which `phase` was last selected.
    pub fn last_phase_time(&self, phase: Phase) -> (t: Timestamp)
        ensures
            t.nanos == self.last_run(phase),
    {
        match phase {
            Phase::Placement => self.last_placement_time,
            Phase::LoadBalancing => self.last_balancing_time,
            Phase::ConstraintCheck => self.last_constraint_time,
        }
    }

    /// Selects the phases that are due at `now` and records `now` as their
    /// last run. The record is made at selection, not when the work is done.
    pub fn get_current_phases(&mut self, now: Timestamp) -> (phases: Vec<Phase>)
        ensures
            phases@ == old(self).due_phases(now.nanos as int),
            old(self).selected_at(now.nanos as int, final(self)),
            forall|p: Phase| #[trigger]
                phases@.contains(p) ==> final(self).last_run(p) == now.nanos,
    {
        let mut phases: Vec<Phase> = Vec::new();
        if now.has_elapsed_since(self.last_placement_time, MIN_PLACEMENT_INTERVAL) {
            phases.push(Phase::Placement);
            self.last_placement_time = now;
        }
        if now.has_elapsed_since(self.last_balancing_time, MIN_BALANCING_INTERVAL) {
            phases.push(Phase::LoadBalancing);
            self.last_balancing_time = now;
        }
        if now.has_elapsed_since(self.last_constraint_time, MIN_CONSTRAINT_CHECK_INTERVAL) {
            phases.push(Phase::ConstraintCheck);
            self.last_constraint_time = now;
        }
        proof {
            lemma_due_phases(*old(self), now.nanos as int);
            assert(phases@ =~= old(self).due_phases(now.nanos as int));
        }
        phases
    }

    /// Records `now` as the last run of `phase` alone.
    pub fn set_last_phase_time(&mut self, now: Timestamp, phase: Phase)
        ensures
            final(self).current() == old(self).current(),
            forall|p: Phase| #[trigger]
                final(self).last_run(p) == if p == phase {
                    now.nanos as int
                } else {
                    old(self).last_run(p)
                },
    {
        match phase {
            Phase::Placement => self.last_placement_time = now,
            Phase::LoadBalancing => self.last_balancing_time = now,
            Phase::ConstraintCheck => self.last_constraint_time = now,
        }
    }
}

impl Default for PLBScheduler {
    /// A scheduler for which every phase has last run at the Unix epoch.
    fn default() -> (s: PLBScheduler)
        ensures
            s.current() is None,
            forall|p: Phase| #[trigger] s.last_run(p) == 0,
    {
        PLBScheduler {
            current_phase: None,
            last_placement_time: Timestamp::unix_epoch(),
            last_balancing_time: Timestamp::unix_epoch(),
            last_constraint_time: Timestamp::unix_epoch(),
        }
    }
}

/// A phase is among the due phases exactly where it is due.
pub proof fn lemma_due_phases(s: PLBScheduler, now: int)
    ensures
        forall|p: Phase| s.due_phases(now).contains(p) <==> s.is_due(p, now),
{
    let d = s.due_phases(now);
    let first = s.if_due(Phase::Placement, now);
    let second = s.if_due(Phase::LoadBalancing, now);
    assert forall|p: Phase| d.contains(p) <==> s.is_due(p, now) by {
        if s.is_due(p, now) {
            match p {
                Phase::Placement => {
                    assert(d[0] == p);
                },
                Phase::LoadBalancing => {
                    assert(d[first.len() as int] == p);
                },
                Phase::ConstraintCheck => {
                    assert(d[(first.len() + second.len()) as int] == p);
                },
            }
        }
    }
}

/// A phase waits out its interval: one that was selected at `t0` is not
/// selected again at any instant before `t0` plus its minimum interval, and
/// is selected again at every instant from then on, as long as nothing else
/// touches the scheduler.
pub proof fn lemma_phase_waits_out_its_interval(
    before: PLBScheduler,
    after: PLBScheduler,
    phase: Phase,
    t0: int,
    t: int,
)
    requires
        before.due_phases(t0).contains(phase),
        before.selected_at(t0, &after),
    ensures
        t < t0 + min_interval(phase) ==> !after.due_phases(t).contains(phase),
        t >= t0 + min_interval(phase) ==> after.due_phases(t).contains(phase),
{
    lemma_due_phases(before, t0);
    lemma_due_phases(after, t);
    assert(after.last_run(phase) == t0);
}

} // verus!
