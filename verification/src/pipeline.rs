//! The phased scheduler as a state machine.
//!
//! A `Pipeline` decides; the caller performs. Repositories are prepared
//! first and all of them must resolve before anything else happens; then
//! instances are set up one at a time in submission order; then runs start in
//! submission order while fewer than `bound` units hold a slot. A unit holds
//! its slot from the start of its run until its run has failed or all its
//! judge rounds have settled. Judge rounds of one unit are launched together
//! and are not counted against the bound.

use vstd::prelude::*;

verus! {

/// How many judge rounds each run gets unless the caller says otherwise.
pub const DEFAULT_JUDGE_REPETITIONS: u32 = 3;

/// How many units may hold a slot at once unless the caller says otherwise.
pub const DEFAULT_CONCURRENCY: usize = 10;

/// The phase the whole pipeline is in.
#[derive(Clone, Copy, PartialEq, Eq, Structural, Debug)]
pub enum Phase {
    Preparing,
    Setup,
    Running,
    Finished,
    Aborted,
}

/// Where one scheduled instance stands.
#[derive(Clone, Copy, PartialEq, Eq, Structural, Debug)]
pub enum UnitState {
    Queued,
    Running,
    Judging,
    Failed,
    Judged,
}

/// One scheduled instance with the judge rounds launched and settled for it.
#[derive(Clone, Copy, PartialEq, Eq, Structural, Debug)]
pub struct Unit {
    pub state: UnitState,
    pub judges_launched: u32,
    pub judges_settled: u32,
}

/// How the preparation or verification of one repository ended.
#[derive(Clone, Copy, PartialEq, Eq, Structural, Debug)]
pub enum RepositoryOutcome {
    Ready,
    Failed,
    Mismatch,
}

/// A property of units that the pipeline counts.
pub enum Tally {
    InRun,
    HoldingSlot,
    Settled,
}

/// The state of the scheduler: the phase, the limits it was made with, the
/// counters of each phase, and the units in submission order.
#[derive(Clone, Debug)]
pub struct Pipeline {
    pub phase: Phase,
    pub bound: usize,
    pub judge_repetitions: u32,
    pub repositories_pending: usize,
    pub prepared_instances: usize,
    pub started: usize,
    pub in_flight: usize,
    pub settled: usize,
    pub units: Vec<Unit>,
}

/// Whether a unit has the property `tally`.
pub open spec fn tallied(unit: Unit, tally: Tally) -> bool {
    match tally {
        Tally::InRun => unit.state is Running,
        Tally::HoldingSlot => unit.state is Running || unit.state is Judging,
        Tally::Settled => unit.state is Failed || unit.state is Judged,
    }
}

/// The number of units with the property `tally`.
pub open spec fn count(units: Seq<Unit>, tally: Tally) -> nat
    decreases units.len(),
{
    if units.len() == 0 {
        0
    } else {
        count(units.drop_last(), tally) + if tallied(units.last(), tally) {
            1nat
        } else {
            0nat
        }
    }
}

/// The judge counters that go with each state of a unit: rounds are launched
/// only after a successful run, all at once, and a unit is judged when all
/// of them have settled.
pub open spec fn unit_wf(unit: Unit, judge_repetitions: u32) -> bool {
    match unit.state {
        UnitState::Queued | UnitState::Running | UnitState::Failed => unit.judges_launched == 0
            && unit.judges_settled == 0,
        UnitState::Judging => unit.judges_launched == judge_repetitions && unit.judges_settled
            < judge_repetitions,
        UnitState::Judged => unit.judges_launched == judge_repetitions && unit.judges_settled
            == judge_repetitions,
    }
}

/// The unit as it is once its run has ended.
pub open spec fn after_run(judge_repetitions: u32, success: bool) -> Unit {
    if !success {
        Unit { state: UnitState::Failed, judges_launched: 0, judges_settled: 0 }
    } else if judge_repetitions == 0 {
        Unit { state: UnitState::Judged, judges_launched: 0, judges_settled: 0 }
    } else {
        Unit { state: UnitState::Judging, judges_launched: judge_repetitions, judges_settled: 0 }
    }
}

/// The unit as it is once one more of its judge rounds has settled.
pub open spec fn after_judge(unit: Unit) -> Unit {
    Unit {
        state: if unit.judges_settled + 1 == unit.judges_launched {
            UnitState::Judged
        } else {
            UnitState::Judging
        },
        judges_launched: unit.judges_launched,
        judges_settled: (unit.judges_settled + 1) as u32,
    }
}

/// The phase after a unit has changed, given the number of settled units.
pub open spec fn phase_after(settled: int, units: int) -> Phase {
    if settled == units {
        Phase::Finished
    } else {
        Phase::Running
    }
}

/// Replacing one unit changes a count by the difference the two units make.
pub proof fn lemma_count_update(units: Seq<Unit>, i: int, unit: Unit, tally: Tally)
    requires
        0 <= i < units.len(),
    ensures
        count(units.update(i, unit), tally) + (if tallied(units[i], tally) {
            1nat
        } else {
            0nat
        }) == count(units, tally) + (if tallied(unit, tally) {
            1nat
        } else {
            0nat
        }),
    decreases units.len(),
{
    if i == units.len() - 1 {
        assert(units.update(i, unit).drop_last() =~= units.drop_last());
    } else {
        assert(units.update(i, unit).drop_last() =~= units.drop_last().update(i, unit));
        lemma_count_update(units.drop_last(), i, unit, tally);
    }
}

/// A count never exceeds the number of units, and reaches it only when every
/// unit has the property.
pub proof fn lemma_count_full(units: Seq<Unit>, tally: Tally)
    ensures
        count(units, tally) <= units.len(),
        count(units, tally) == units.len() ==> forall|i: int|
            0 <= i < units.len() ==> tallied(#[trigger] units[i], tally),
    decreases units.len(),
{
    if units.len() > 0 {
        lemma_count_full(units.drop_last(), tally);
        if count(units, tally) == units.len() {
            assert forall|i: int| 0 <= i < units.len() implies tallied(
                #[trigger] units[i],
                tally,
            ) by {
                if i < units.len() - 1 {
                    assert(units.drop_last()[i] == units[i]);
                }
            }
        }
    }
}

/// Where no unit has the property, the count is zero.
pub proof fn lemma_count_none(units: Seq<Unit>, tally: Tally)
    requires
        forall|i: int| 0 <= i < units.len() ==> !tallied(#[trigger] units[i], tally),
    ensures
        count(units, tally) == 0,
    decreases units.len(),
{
    if units.len() > 0 {
        assert forall|i: int| 0 <= i < units.drop_last().len() implies !tallied(
            #[trigger] units.drop_last()[i],
            tally,
        ) by {
            assert(units.drop_last()[i] == units[i]);
        }
        lemma_count_none(units.drop_last(), tally);
    }
}

/// There are no more units in their run than units holding a slot.
pub proof fn lemma_runs_within_slots(units: Seq<Unit>)
    ensures
        count(units, Tally::InRun) <= count(units, Tally::HoldingSlot),
    decreases units.len(),
{
    if units.len() > 0 {
        lemma_runs_within_slots(units.drop_last());
    }
}

impl Pipeline {
    /// The invariant of the pipeline. Units start in submission order; the
    /// units holding a slot never exceed the bound; nothing has started
    /// unless the pipeline reached the running phase; a unit whose run
    /// failed has no judge round.
    pub open spec fn wf(&self) -> bool {
        &&& self.started <= self.units@.len()
        &&& forall|i: int|
            0 <= i < self.units@.len() ==> unit_wf(#[trigger] self.units@[i], self.judge_repetitions)
                && (self.units@[i].state is Queued <==> i >= self.started)
        &&& self.in_flight == count(self.units@, Tally::HoldingSlot)
        &&& self.settled == count(self.units@, Tally::Settled)
        &&& self.in_flight + self.settled == self.started
        &&& self.in_flight <= self.bound
        &&& self.prepared_instances <= self.units@.len()
        &&& match self.phase {
            Phase::Preparing => self.repositories_pending > 0 && self.started == 0
                && self.prepared_instances == 0 && self.units@.len() > 0,
            Phase::Setup => self.started == 0 && self.prepared_instances < self.units@.len(),
            Phase::Running => self.settled < self.units@.len(),
            Phase::Finished => self.settled == self.units@.len(),
            Phase::Aborted => self.started == 0,
        }
    }

    /// Whether the next queued unit may start its run now.
    pub open spec fn can_start(&self) -> bool {
        self.phase is Running && self.in_flight < self.bound && self.started < self.units@.len()
    }

    /// A pipeline for `instances` scheduled instances that reference
    /// `repositories` distinct repositories. With no instance there is
    /// nothing to do and the pipeline is finished at once.
    pub fn new(instances: usize, repositories: usize, bound: usize, judge_repetitions: u32) -> (p:
        Pipeline)
        ensures
            p.wf(),
            p.units@.len() == instances,
            forall|i: int| 0 <= i < instances ==> (#[trigger] p.units@[i]).state is Queued,
            p.bound == bound,
            p.judge_repetitions == judge_repetitions,
            p.repositories_pending == repositories,
            p.prepared_instances == 0 && p.started == 0 && p.in_flight == 0 && p.settled == 0,
            p.phase == if instances == 0 {
                Phase::Finished
            } else if repositories > 0 {
                Phase::Preparing
            } else {
                Phase::Setup
            },
    {
        let mut units: Vec<Unit> = Vec::new();
        let mut i: usize = 0;
        while i < instances
            invariant
                i <= instances,
                units@.len() == i,
                forall|k: int|
                    0 <= k < i ==> #[trigger] units@[k] == (Unit {
                        state: UnitState::Queued,
                        judges_launched: 0,
                        judges_settled: 0,
                    }),
            decreases instances - i,
        {
            units.push(Unit { state: UnitState::Queued, judges_launched: 0, judges_settled: 0 });
            i += 1;
        }
        proof {
            lemma_count_none(units@, Tally::HoldingSlot);
            lemma_count_none(units@, Tally::Settled);
        }
        let phase = if instances == 0 {
            Phase::Finished
        } else if repositories > 0 {
            Phase::Preparing
        } else {
            Phase::Setup
        };
        Pipeline {
            phase,
            bound,
            judge_repetitions,
            repositories_pending: repositories,
            prepared_instances: 0,
            started: 0,
            in_flight: 0,
            settled: 0,
            units,
        }
    }

    /// Records that the preparation or verification of one repository has
    /// resolved. A failure or a mismatched remote aborts the pipeline; the
    /// last repository to become ready opens the setup phase.
    pub fn repository_resolved(&mut self, outcome: RepositoryOutcome)
        requires
            old(self).wf(),
            old(self).phase is Preparing,
        ensures
            final(self).wf(),
            *final(self) == (Pipeline {
                phase: if !(outcome is Ready) {
                    Phase::Aborted
                } else if old(self).repositories_pending == 1 {
                    Phase::Setup
                } else {
                    Phase::Preparing
                },
                repositories_pending: if outcome is Ready {
                    (old(self).repositories_pending - 1) as usize
                } else {
                    old(self).repositories_pending
                },
                ..*old(self)
            }),
    {
        match outcome {
            RepositoryOutcome::Ready => {
                self.repositories_pending = self.repositories_pending - 1;
                if self.repositories_pending == 0 {
                    self.phase = Phase::Setup;
                }
            },
            RepositoryOutcome::Failed => {
                self.phase = Phase::Aborted;
            },
            RepositoryOutcome::Mismatch => {
                self.phase = Phase::Aborted;
            },
        }
    }

    /// The instance to set up next: instances are set up one at a time, in
    /// submission order, and only in the setup phase.
    pub fn next_setup(&self) -> (instance: Option<usize>)
        requires
            self.wf(),
        ensures
            instance == if self.phase is Setup {
                Some(self.prepared_instances)
            } else {
                None
            },
            instance is Some ==> instance->Some_0 < self.units@.len(),
    {
        match self.phase {
            Phase::Setup => Some(self.prepared_instances),
            _ => None,
        }
    }

    /// Records that the setup of the instance `next_setup` named has ended.
    /// A failure aborts the pipeline; the last success opens the running
    /// phase.
    pub fn setup_finished(&mut self, ok: bool)
        requires
            old(self).wf(),
            old(self).phase is Setup,
        ensures
            final(self).wf(),
            *final(self) == (Pipeline {
                phase: if !ok {
                    Phase::Aborted
                } else if old(self).prepared_instances + 1 == old(self).units@.len() {
                    Phase::Running
                } else {
                    Phase::Setup
                },
                prepared_instances: if ok {
                    (old(self).prepared_instances + 1) as usize
                } else {
                    old(self).prepared_instances
                },
                ..*old(self)
            }),
    {
        if ok {
            let instances = self.units.len();
            self.prepared_instances = self.prepared_instances + 1;
            if self.prepared_instances == instances {
                self.phase = Phase::Running;
            }
        } else {
            self.phase = Phase::Aborted;
        }
    }

    /// Starts the run of the next queued unit if a slot is free: units start
    /// in submission order, only in the running phase, and only while fewer
    /// than `bound` units hold a slot. Otherwise nothing changes.
    pub fn start_next(&mut self) -> (unit: Option<usize>)
        requires
            old(self).wf(),
        ensures
            final(self).wf(),
            old(self).can_start() ==> unit == Some(old(self).started) && *final(self) == (Pipeline {
                started: (old(self).started + 1) as usize,
                in_flight: (old(self).in_flight + 1) as usize,
                units: final(self).units,
                ..*old(self)
            }) && final(self).units@ == old(self).units@.update(
                old(self).started as int,
                Unit { state: UnitState::Running, judges_launched: 0, judges_settled: 0 },
            ),
            !old(self).can_start() ==> unit is None && *final(self) == *old(self),
    {
        match self.phase {
            Phase::Running => {},
            _ => {
                return None;
            },
        }
        if self.in_flight >= self.bound || self.started >= self.units.len() {
            return None;
        }
        let index = self.started;
        let unit = Unit { state: UnitState::Running, judges_launched: 0, judges_settled: 0 };
        proof {
            lemma_count_update(self.units@, index as int, unit, Tally::HoldingSlot);
            lemma_count_update(self.units@, index as int, unit, Tally::Settled);
        }
        self.units.set(index, unit);
        self.started = self.started + 1;
        self.in_flight = self.in_flight + 1;
        Some(index)
    }

    /// Records that the run of `unit` has ended and says how many judge
    /// rounds to launch for it: `judge_repetitions` after a success, none
    /// after a failure. A failed unit, or one that needs no judging, gives
    /// its slot back at once.
    pub fn run_finished(&mut self, unit: usize, success: bool) -> (judges: u32)
        requires
            old(self).wf(),
            unit < old(self).units@.len(),
            old(self).units@[unit as int].state is Running,
        ensures
            final(self).wf(),
            judges == if success {
                old(self).judge_repetitions
            } else {
                0
            },
            final(self).units@ == old(self).units@.update(
                unit as int,
                after_run(old(self).judge_repetitions, success),
            ),
            final(self).units@[unit as int].judges_launched == judges,
            ({
                let frees = !success || old(self).judge_repetitions == 0;
                let settled = old(self).settled + if frees {
                    1int
                } else {
                    0int
                };
                *final(self) == (Pipeline {
                    phase: phase_after(settled, old(self).units@.len() as int),
                    in_flight: if frees {
                        (old(self).in_flight - 1) as usize
                    } else {
                        old(self).in_flight
                    },
                    settled: settled as usize,
                    units: final(self).units,
                    ..*old(self)
                })
            }),
    {
        let next = if !success {
            Unit { state: UnitState::Failed, judges_launched: 0, judges_settled: 0 }
        } else if self.judge_repetitions == 0 {
            Unit { state: UnitState::Judged, judges_launched: 0, judges_settled: 0 }
        } else {
            Unit {
                state: UnitState::Judging,
                judges_launched: self.judge_repetitions,
                judges_settled: 0,
            }
        };
        self.replace_unit(unit, next);
        if success {
            self.judge_repetitions
        } else {
            0
        }
    }

    /// Records that one judge round of `unit` has settled, with a score or
    /// with a failure, and says whether that was the unit's last round. The
    /// unit gives its slot back when all its rounds have settled.
    pub fn judge_settled(&mut self, unit: usize) -> (done: bool)
        requires
            old(self).wf(),
            unit < old(self).units@.len(),
            old(self).units@[unit as int].state is Judging,
        ensures
            final(self).wf(),
            done == (old(self).units@[unit as int].judges_settled + 1 == old(
                self,
            ).judge_repetitions),
            final(self).units@ == old(self).units@.update(
                unit as int,
                after_judge(old(self).units@[unit as int]),
            ),
            ({
                let settled = old(self).settled + if done {
                    1int
                } else {
                    0int
                };
                *final(self) == (Pipeline {
                    phase: phase_after(settled, old(self).units@.len() as int),
                    in_flight: if done {
                        (old(self).in_flight - 1) as usize
                    } else {
                        old(self).in_flight
                    },
                    settled: settled as usize,
                    units: final(self).units,
                    ..*old(self)
                })
            }),
    {
        let current = self.units[unit];
        let settled = current.judges_settled + 1;
        let done = settled == current.judges_launched;
        let next = Unit {
            state: if done {
                UnitState::Judged
            } else {
                UnitState::Judging
            },
            judges_launched: current.judges_launched,
            judges_settled: settled,
        };
        self.replace_unit(unit, next);
        done
    }

    /// Puts a started unit into its next state and keeps the counters and
    /// the phase in step.
    fn replace_unit(&mut self, unit: usize, next: Unit)
        requires
            old(self).wf(),
            unit < old(self).units@.len(),
            tallied(old(self).units@[unit as int], Tally::HoldingSlot),
            !(next.state is Queued) && !(next.state is Running),
            unit_wf(next, old(self).judge_repetitions),
        ensures
            final(self).wf(),
            final(self).units@ == old(self).units@.update(unit as int, next),
            ({
                let frees = tallied(next, Tally::Settled);
                let settled = old(self).settled + if frees {
                    1int
                } else {
                    0int
                };
                *final(self) == (Pipeline {
                    phase: phase_after(settled, old(self).units@.len() as int),
                    in_flight: if frees {
                        (old(self).in_flight - 1) as usize
                    } else {
                        old(self).in_flight
                    },
                    settled: settled as usize,
                    units: final(self).units,
                    ..*old(self)
                })
            }),
    {
        proof {
            lemma_count_update(self.units@, unit as int, next, Tally::HoldingSlot);
            lemma_count_update(self.units@, unit as int, next, Tally::Settled);
            lemma_count_full(self.units@.update(unit as int, next), Tally::Settled);
            lemma_count_full(self.units@, Tally::Settled);
        }
        self.units.set(unit, next);
        match next.state {
            UnitState::Failed | UnitState::Judged => {
                self.in_flight = self.in_flight - 1;
                self.settled = self.settled + 1;
            },
            _ => {},
        }
        if self.settled == self.units.len() {
            self.phase = Phase::Finished;
        } else {
            self.phase = Phase::Running;
        }
    }

    /// Whether every unit has settled.
    pub fn is_finished(&self) -> (finished: bool)
        ensures
            finished == (self.phase is Finished),
    {
        match self.phase {
            Phase::Finished => true,
            _ => false,
        }
    }

    /// Whether a fatal failure stopped the pipeline before any run.
    pub fn is_aborted(&self) -> (aborted: bool)
        ensures
            aborted == (self.phase is Aborted),
    {
        match self.phase {
            Phase::Aborted => true,
            _ => false,
        }
    }
}

/// The concurrency bound: in every state of the pipeline, the units in
/// their run phase number at most `bound`.
pub proof fn lemma_runs_bounded(p: Pipeline)
    requires
        p.wf(),
    ensures
        count(p.units@, Tally::InRun) <= p.bound,
{
    lemma_runs_within_slots(p.units@);
}

/// Nothing runs before the barriers: until repositories and setup are
/// through, and for ever after an abort, no unit has left the queue and none
/// can start.
pub proof fn lemma_no_run_outside_running_phase(p: Pipeline)
    requires
        p.wf(),
        p.phase is Preparing || p.phase is Setup || p.phase is Aborted,
    ensures
        !p.can_start(),
        forall|i: int| 0 <= i < p.units@.len() ==> (#[trigger] p.units@[i]).state is Queued,
        count(p.units@, Tally::InRun) == 0,
{
    lemma_count_none(p.units@, Tally::InRun);
}

/// A unit whose run failed has no judge round, launched or settled.
pub proof fn lemma_failed_unit_never_judged(p: Pipeline, unit: int)
    requires
        p.wf(),
        0 <= unit < p.units@.len(),
        p.units@[unit].state is Failed,
    ensures
        p.units@[unit].judges_launched == 0,
        p.units@[unit].judges_settled == 0,
{
}

} // verus!
