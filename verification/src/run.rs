//! One run of the runner, as a state machine.
//!
//! The run decides; its caller acts. The caller performs the action the run
//! asks for, against the database, and hands back what happened as an event.
//! The run answers with the next action, until that action is `Finish`.

use vstd::prelude::*;
use crate::error::{ConsistencyFault, Direction, ErrorView, MigrationError};
use crate::names::names_of;
use crate::names::clone_names;
use crate::plan::{consistent, lemma_split_at_count, plan_of, plan_run, quota, take_first};
use crate::registry::{well_formed, Registry};

verus! {

/// Where a run stands.
#[derive(Clone, Copy, Debug, PartialEq, Eq, Structural)]
pub enum Phase {
    /// The ledger table is being installed.
    Installing,
    /// The applied versions are being read.
    Listing,
    /// The operation of the next unit is being executed.
    Executing,
    /// The ledger is being written for the unit just executed.
    Recording,
    /// Nothing is left to do.
    Finished,
}

/// What the caller reports back to the run.
#[derive(Clone, Debug, PartialEq, Eq)]
pub enum Event {
    /// The ledger table exists now.
    Installed,
    /// The ledger holds these versions, in the order in which it lists them.
    Listed { versions: Vec<String> },
    /// The unit's operation succeeded; `now` is the time, in seconds since the epoch.
    Executed { now: i64 },
    /// The unit's operation failed.
    ExecutionFailed,
    /// The ledger was written as asked.
    Recorded,
    /// The ledger refused the write: the row to insert was there already, or
    /// the row to delete was not.
    RecordRefused,
    /// The database could not be reached for what was asked.
    StorageFailed,
}

/// What came of a ledger write, as the database reports it.
#[derive(Clone, Copy, Debug, PartialEq, Eq, Structural)]
pub enum WriteOutcome {
    /// The row was inserted.
    Inserted,
    /// The delete was executed and took out this many rows.
    Deleted { rows_affected: u64 },
    /// The insert was refused because a row of that version exists.
    Duplicate,
    /// The statement failed for another reason.
    Failed,
}

/// The event that a ledger write amounts to. A row inserted, or at least
/// one row deleted, is the write the run asked for. A duplicate, or a
/// delete that took out no row, is a refusal. Everything else is a storage
/// failure.
pub open spec fn write_event(outcome: WriteOutcome) -> EventView {
    match outcome {
        WriteOutcome::Inserted => EventView::Recorded,
        WriteOutcome::Deleted { rows_affected } => if rows_affected == 0 {
            EventView::RecordRefused
        } else {
            EventView::Recorded
        },
        WriteOutcome::Duplicate => EventView::RecordRefused,
        WriteOutcome::Failed => EventView::StorageFailed,
    }
}

/// An `Event` as a mathematical value.
pub enum EventView {
    Installed,
    Listed { versions: Seq<Seq<char>> },
    Executed { now: int },
    ExecutionFailed,
    Recorded,
    RecordRefused,
    StorageFailed,
}

impl Event {
    /// The event by which the run is told what came of the ledger write it
    /// asked for.
    pub fn of_write(outcome: WriteOutcome) -> (event: Event)
        ensures
            event@ == write_event(outcome),
    {
        match outcome {
            WriteOutcome::Inserted => Event::Recorded,
            WriteOutcome::Deleted { rows_affected } => if rows_affected == 0 {
                Event::RecordRefused
            } else {
                Event::Recorded
            },
            WriteOutcome::Duplicate => Event::RecordRefused,
            WriteOutcome::Failed => Event::StorageFailed,
        }
    }
}

impl View for Event {
    type V = EventView;

    open spec fn view(&self) -> EventView {
        match *self {
            Event::Installed => EventView::Installed,
            Event::Listed { versions } => EventView::Listed { versions: names_of(versions@) },
            Event::Executed { now } => EventView::Executed { now: now as int },
            Event::ExecutionFailed => EventView::ExecutionFailed,
            Event::Recorded => EventView::Recorded,
            Event::RecordRefused => EventView::RecordRefused,
            Event::StorageFailed => EventView::StorageFailed,
        }
    }
}

/// What the run asks its caller to do next.
#[derive(Clone, Debug, PartialEq, Eq)]
pub enum Action {
    /// Create the ledger table if it is absent.
    EnsureInstalled,
    /// Read the applied versions, in the order in which the ledger lists them.
    ListApplied,
    /// Execute the unit's forward operation (`Up`) or backward operation (`Down`).
    Execute { name: String, direction: Direction },
    /// Insert the ledger row of `version`, together with the operation just executed.
    RecordApplied { version: String, applied_at: i64 },
    /// Delete the ledger row of `version`, together with the operation just executed.
    RecordReverted { version: String },
    /// Stop: the run is over.
    Finish,
}

/// An `Action` as a mathematical value.
pub enum ActionView {
    EnsureInstalled,
    ListApplied,
    Execute { name: Seq<char>, direction: Direction },
    RecordApplied { version: Seq<char>, applied_at: int },
    RecordReverted { version: Seq<char> },
    Finish,
}

impl View for Action {
    type V = ActionView;

    open spec fn view(&self) -> ActionView {
        match *self {
            Action::EnsureInstalled => ActionView::EnsureInstalled,
            Action::ListApplied => ActionView::ListApplied,
            Action::Execute { name, direction } => ActionView::Execute { name: name@, direction },
            Action::RecordApplied { version, applied_at } => ActionView::RecordApplied {
                version: version@,
                applied_at: applied_at as int,
            },
            Action::RecordReverted { version } => ActionView::RecordReverted { version: version@ },
            Action::Finish => ActionView::Finish,
        }
    }
}

/// What the run tells a logger.
#[derive(Clone, Debug, PartialEq, Eq)]
pub enum Progress {
    /// The operation of the unit is about to be executed.
    MigrationStarted { name: String, direction: Direction },
    /// The unit was applied and recorded.
    MigrationApplied { name: String },
    /// The unit was reverted and its row deleted.
    MigrationReverted { name: String },
    /// A run upwards has nothing to do.
    NoPending,
    /// A run downwards has nothing to do.
    NoApplied,
}

/// A `Progress` as a mathematical value.
pub enum ProgressView {
    MigrationStarted { name: Seq<char>, direction: Direction },
    MigrationApplied { name: Seq<char> },
    MigrationReverted { name: Seq<char> },
    NoPending,
    NoApplied,
}

impl View for Progress {
    type V = ProgressView;

    open spec fn view(&self) -> ProgressView {
        match *self {
            Progress::MigrationStarted { name, direction } => ProgressView::MigrationStarted {
                name: name@,
                direction,
            },
            Progress::MigrationApplied { name } => ProgressView::MigrationApplied { name: name@ },
            Progress::MigrationReverted { name } => ProgressView::MigrationReverted { name: name@ },
            Progress::NoPending => ProgressView::NoPending,
            Progress::NoApplied => ProgressView::NoApplied,
        }
    }
}

/// The answer of the run to an event: what to log, and what to do next.
#[derive(Clone, Debug, PartialEq, Eq)]
pub struct Step {
    pub progress: Vec<Progress>,
    pub action: Action,
}

/// A `Step` as a mathematical value.
pub struct StepView {
    pub progress: Seq<ProgressView>,
    pub action: ActionView,
}

impl View for Step {
    type V = StepView;

    open spec fn view(&self) -> StepView {
        StepView {
            progress: self.progress@.map_values(|p: Progress| p@),
            action: self.action@,
        }
    }
}

/// The state of a run as a mathematical value.
pub struct RunView {
    /// The registry the run works on.
    pub registry: Seq<Seq<char>>,
    /// Whether the run applies or reverts.
    pub direction: Direction,
    /// The limit in force: the one the run was started with, or zero once a
    /// run that has not selected its units yet was told to stop.
    pub limit: Option<u32>,
    /// Where the run stands.
    pub phase: Phase,
    /// The applied units as the run knows them, in registry order: the
    /// leading units of the registry, as many as the ledger listed, then as
    /// changed by each unit the run has recorded.
    pub applied: Seq<Seq<char>>,
    /// The units the run has selected, in the order of execution.
    pub plan: Seq<Seq<char>>,
    /// How many units of the plan are executed and recorded.
    pub done: nat,
    /// The time at which the unit being recorded was executed.
    pub stamp: int,
    /// Why the run stopped early, if it did.
    pub failure: Option<ErrorView>,
}

/// What holds of every state of a run.
pub open spec fn run_invariant(run: RunView) -> bool {
    &&& well_formed(run.registry)
    &&& run.applied.is_prefix_of(run.registry)
    &&& run.done <= run.plan.len()
    &&& (run.phase == Phase::Installing || run.phase == Phase::Listing) ==> {
        &&& run.plan.len() == 0
        &&& run.applied.len() == 0
        &&& run.failure is None
    }
    &&& (run.phase == Phase::Executing || run.phase == Phase::Recording) ==> {
        &&& run.done < run.plan.len()
        &&& run.failure is None
    }
    &&& run.phase == Phase::Finished && run.failure is None ==> run.done == run.plan.len()
    &&& match run.direction {
        Direction::Up => {
            &&& run.applied.len() + run.plan.len() - run.done <= run.registry.len()
            &&& forall|i: int|
                run.done <= i < run.plan.len() ==> #[trigger] run.plan[i] == run.registry[run.applied.len()
                    + i - run.done]
        },
        Direction::Down => {
            &&& run.plan.len() - run.done <= run.applied.len()
            &&& forall|i: int|
                run.done <= i < run.plan.len() ==> #[trigger] run.plan[i] == run.applied[run.applied.len()
                    - 1 - (i - run.done)]
        },
    }
}

/// The state in which a run starts.
pub open spec fn initial(registry: Seq<Seq<char>>, direction: Direction, limit: Option<u32>) -> RunView {
    RunView {
        registry,
        direction,
        limit,
        phase: Phase::Installing,
        applied: Seq::empty(),
        plan: Seq::empty(),
        done: 0,
        stamp: 0,
        failure: None,
    }
}

/// The ledger write that belongs to the unit just executed.
pub open spec fn record_action(run: RunView) -> ActionView {
    match run.direction {
        Direction::Up => ActionView::RecordApplied {
            version: run.plan[run.done as int],
            applied_at: run.stamp,
        },
        Direction::Down => ActionView::RecordReverted { version: run.plan[run.done as int] },
    }
}

/// The action a run in this state is waiting for.
pub open spec fn pending_action(run: RunView) -> ActionView {
    match run.phase {
        Phase::Installing => ActionView::EnsureInstalled,
        Phase::Listing => ActionView::ListApplied,
        Phase::Executing => ActionView::Execute {
            name: run.plan[run.done as int],
            direction: run.direction,
        },
        Phase::Recording => record_action(run),
        Phase::Finished => ActionView::Finish,
    }
}

/// An event that does not answer the pending action changes nothing: the
/// same action is asked again.
pub open spec fn ignored(run: RunView) -> (RunView, StepView) {
    (run, StepView { progress: Seq::empty(), action: pending_action(run) })
}

/// The run stops with an error.
pub open spec fn stopped(run: RunView, error: ErrorView) -> (RunView, StepView) {
    (
        RunView { phase: Phase::Finished, failure: Some(error), ..run },
        StepView { progress: Seq::empty(), action: ActionView::Finish },
    )
}

/// The error of a run whose ledger could not be reached.
pub open spec fn storage_error(run: RunView) -> ErrorView {
    ErrorView::Storage { direction: run.direction, completed: run.done }
}

/// The error of a run whose current unit failed.
pub open spec fn execution_error(run: RunView) -> ErrorView {
    ErrorView::Execution {
        name: run.plan[run.done as int],
        direction: run.direction,
        completed: run.done,
    }
}

/// The error of a run whose ledger refused the write for the current unit.
pub open spec fn refusal_error(run: RunView) -> ErrorView {
    ErrorView::Consistency {
        version: run.plan[run.done as int],
        fault: match run.direction {
            Direction::Up => ConsistencyFault::AlreadyRecorded,
            Direction::Down => ConsistencyFault::NotRecorded,
        },
        direction: run.direction,
        completed: run.done,
    }
}

/// What a run with nothing to do tells the logger.
pub open spec fn nothing_to_do(direction: Direction) -> ProgressView {
    match direction {
        Direction::Up => ProgressView::NoPending,
        Direction::Down => ProgressView::NoApplied,
    }
}

/// What a run tells the logger when a unit is executed and recorded.
pub open spec fn unit_done(direction: Direction, name: Seq<char>) -> ProgressView {
    match direction {
        Direction::Up => ProgressView::MigrationApplied { name },
        Direction::Down => ProgressView::MigrationReverted { name },
    }
}

/// The ledger was listed: the run checks it, takes the leading units of the
/// registry, as many as are listed, for applied, selects its units and
/// starts on the first, or finishes at once when it selected none.
pub open spec fn after_listed(run: RunView, versions: Seq<Seq<char>>) -> (RunView, StepView) {
    match plan_of(run.direction, run.registry, versions, run.limit) {
        Err(error) => stopped(run, error),
        Ok(plan) => if plan.len() == 0 {
            (
                RunView {
                    phase: Phase::Finished,
                    applied: run.registry.take(versions.len() as int),
                    plan,
                    done: 0,
                    ..run
                },
                StepView {
                    progress: seq![nothing_to_do(run.direction)],
                    action: ActionView::Finish,
                },
            )
        } else {
            (
                RunView {
                    phase: Phase::Executing,
                    applied: run.registry.take(versions.len() as int),
                    plan,
                    done: 0,
                    ..run
                },
                StepView {
                    progress: seq![
                        ProgressView::MigrationStarted { name: plan[0], direction: run.direction },
                    ],
                    action: ActionView::Execute { name: plan[0], direction: run.direction },
                },
            )
        },
    }
}

/// The ledger was written for the current unit: the unit counts as done, and
/// the run goes on to the next or finishes.
pub open spec fn after_recorded(run: RunView) -> (RunView, StepView) {
    let name = run.plan[run.done as int];
    let applied = match run.direction {
        Direction::Up => run.applied.push(name),
        Direction::Down => run.applied.drop_last(),
    };
    let done = run.done + 1;
    if done == run.plan.len() {
        (
            RunView { phase: Phase::Finished, applied, done, ..run },
            StepView {
                progress: seq![unit_done(run.direction, name)],
                action: ActionView::Finish,
            },
        )
    } else {
        (
            RunView { phase: Phase::Executing, applied, done, ..run },
            StepView {
                progress: seq![
                    unit_done(run.direction, name),
                    ProgressView::MigrationStarted {
                        name: run.plan[done as int],
                        direction: run.direction,
                    },
                ],
                action: ActionView::Execute {
                    name: run.plan[done as int],
                    direction: run.direction,
                },
            },
        )
    }
}

/// The transition of a run: the state after `event`, and the answer to it.
pub open spec fn step_of(run: RunView, event: EventView) -> (RunView, StepView) {
    match (run.phase, event) {
        (Phase::Installing, EventView::Installed) => (
            RunView { phase: Phase::Listing, ..run },
            StepView { progress: Seq::empty(), action: ActionView::ListApplied },
        ),
        (Phase::Installing, EventView::StorageFailed) => stopped(run, storage_error(run)),
        (Phase::Listing, EventView::Listed { versions }) => after_listed(run, versions),
        (Phase::Listing, EventView::StorageFailed) => stopped(run, storage_error(run)),
        (Phase::Executing, EventView::Executed { now }) => (
            RunView { phase: Phase::Recording, stamp: now, ..run },
            StepView {
                progress: Seq::empty(),
                action: record_action(RunView { stamp: now, ..run }),
            },
        ),
        (Phase::Executing, EventView::ExecutionFailed) => stopped(run, execution_error(run)),
        (Phase::Executing, EventView::StorageFailed) => stopped(run, storage_error(run)),
        (Phase::Recording, EventView::Recorded) => after_recorded(run),
        (Phase::Recording, EventView::RecordRefused) => stopped(run, refusal_error(run)),
        (Phase::Recording, EventView::StorageFailed) => stopped(run, storage_error(run)),
        _ => ignored(run),
    }
}

/// The run is told to stop. This takes effect between units only: a unit
/// under way is still executed and recorded, and no further unit is started.
/// A run that has selected no units yet will select none.
pub open spec fn cancelled(run: RunView) -> RunView {
    match run.phase {
        Phase::Installing | Phase::Listing => RunView { limit: Some(0), ..run },
        Phase::Executing | Phase::Recording => RunView {
            plan: run.plan.take(run.done as int + 1),
            ..run
        },
        Phase::Finished => run,
    }
}

/// What a run returns: nothing while it is under way; at its end the units
/// it executed and recorded, in order, or the error that stopped it.
pub open spec fn outcome_of(run: RunView) -> Option<Result<Seq<Seq<char>>, ErrorView>> {
    if run.phase != Phase::Finished {
        None
    } else {
        Some(
            match run.failure {
                Some(error) => Err(error),
                None => Ok(run.plan.take(run.done as int)),
            },
        )
    }
}

/// A consistent ledger fixes the plan by position in the registry, however
/// the ledger lists its versions: with K versions recorded, a run upwards
/// takes the units from place K onwards, and a run downwards takes the units
/// from place K - 1 backwards.
pub proof fn lemma_plan_by_position(
    direction: Direction,
    registry: Seq<Seq<char>>,
    recorded: Seq<Seq<char>>,
    limit: Option<u32>,
)
    requires
        well_formed(registry),
        consistent(registry, recorded),
    ensures
        plan_of(direction, registry, recorded, limit) matches Ok(plan) && match direction {
            Direction::Up => {
                &&& plan.len() == quota(direction, limit, (registry.len() - recorded.len()) as nat)
                &&& forall|i: int|
                    0 <= i < plan.len() ==> #[trigger] plan[i] == registry[recorded.len() + i]
            },
            Direction::Down => {
                &&& plan.len() == quota(direction, limit, recorded.len())
                &&& forall|i: int|
                    0 <= i < plan.len() ==> #[trigger] plan[i] == registry[recorded.len() - 1 - i]
            },
        },
{
    lemma_split_at_count(registry, recorded);
}

/// Telling a run to stop keeps the invariant of the run, and leaves at most
/// the unit under way to be done.
pub proof fn lemma_cancel_keeps_invariant(run: RunView)
    requires
        run_invariant(run),
    ensures
        run_invariant(cancelled(run)),
        cancelled(run).applied == run.applied,
        cancelled(run).done == run.done,
        cancelled(run).phase == run.phase,
        run.phase == Phase::Executing || run.phase == Phase::Recording ==> cancelled(run).plan.len()
            == run.done + 1,
{
}

/// Every transition keeps the invariant of the run.
pub proof fn lemma_step_keeps_invariant(run: RunView, event: EventView)
    requires
        run_invariant(run),
    ensures
        run_invariant(step_of(run, event).0),
{
    let next = step_of(run, event).0;
    match (run.phase, event) {
        (Phase::Listing, EventView::Listed { versions }) => {
            if consistent(run.registry, versions) {
                lemma_plan_by_position(run.direction, run.registry, versions, run.limit);
                assert(next.applied =~= run.registry.subrange(0, versions.len() as int));
            }
        },
        (Phase::Recording, EventView::Recorded) => {
            assert(next.applied =~= run.registry.subrange(0, next.applied.len() as int));
        },
        _ => {},
    }
}

/// One run: a registry, a direction, a limit, and how far the run has come.
#[derive(Clone, Debug, PartialEq, Eq)]
pub struct Run {
    registry: Registry,
    direction: Direction,
    limit: Option<u32>,
    phase: Phase,
    applied: Vec<String>,
    plan: Vec<String>,
    done: usize,
    stamp: i64,
    failure: Option<MigrationError>,
}

impl View for Run {
    type V = RunView;

    closed spec fn view(&self) -> RunView {
        RunView {
            registry: self.registry@,
            direction: self.direction,
            limit: self.limit,
            phase: self.phase,
            applied: names_of(self.applied@),
            plan: names_of(self.plan@),
            done: self.done as nat,
            stamp: self.stamp as int,
            failure: match self.failure {
                Some(error) => Some(error@),
                None => None,
            },
        }
    }
}

impl Run {
    /// The invariant of a run.
    pub open spec fn wf(&self) -> bool {
        run_invariant(self@)
    }

    /// Starts a run. Its first action is to install the ledger table.
    ///
    /// Without a limit a run upwards takes every pending unit, and a run
    /// downwards takes the one applied unit that stands last in the registry.
    pub fn begin(registry: Registry, direction: Direction, limit: Option<u32>) -> (run: Run)
        requires
            registry.wf(),
        ensures
            run.wf(),
            run@ == initial(registry@, direction, limit),
    {
        let run = Run {
            registry,
            direction,
            limit,
            phase: Phase::Installing,
            applied: Vec::new(),
            plan: Vec::new(),
            done: 0,
            stamp: 0,
            failure: None,
        };
        assert(run@.applied =~= Seq::<Seq<char>>::empty());
        assert(run@.plan =~= Seq::<Seq<char>>::empty());
        assert(run@.applied =~= run@.registry.subrange(0, 0));
        run
    }

    /// The action the run is waiting for.
    pub fn pending_action(&self) -> (action: Action)
        requires
            self.wf(),
        ensures
            action@ == pending_action(self@),
    {
        match self.phase {
            Phase::Installing => Action::EnsureInstalled,
            Phase::Listing => Action::ListApplied,
            Phase::Executing => Action::Execute {
                name: self.plan[self.done].clone(),
                direction: self.direction,
            },
            Phase::Recording => match self.direction {
                Direction::Up => Action::RecordApplied {
                    version: self.plan[self.done].clone(),
                    applied_at: self.stamp,
                },
                Direction::Down => Action::RecordReverted { version: self.plan[self.done].clone() },
            },
            Phase::Finished => Action::Finish,
        }
    }

    fn ignore(&self) -> (step: Step)
        requires
            self.wf(),
        ensures
            step@ == ignored(self@).1,
    {
        let step = Step { progress: Vec::new(), action: self.pending_action() };
        assert(step@.progress =~= Seq::<ProgressView>::empty());
        step
    }

    fn stop(&mut self, error: MigrationError) -> (step: Step)
        ensures
            final(self)@ == stopped(old(self)@, error@).0,
            step@ == stopped(old(self)@, error@).1,
    {
        self.phase = Phase::Finished;
        self.failure = Some(error);
        let step = Step { progress: Vec::new(), action: Action::Finish };
        assert(step@.progress =~= Seq::<ProgressView>::empty());
        step
    }

    fn listed(&mut self, versions: Vec<String>) -> (step: Step)
        requires
            old(self).wf(),
            old(self)@.phase == Phase::Listing,
        ensures
            final(self)@ == after_listed(old(self)@, names_of(versions@)).0,
            step@ == after_listed(old(self)@, names_of(versions@)).1,
    {
        match plan_run(self.direction, &self.registry, &versions, self.limit) {
            Err(error) => self.stop(error),
            Ok(plan) => {
                let step = if plan.len() == 0 {
                    self.phase = Phase::Finished;
                    let mut progress: Vec<Progress> = Vec::new();
                    progress.push(
                        match self.direction {
                            Direction::Up => Progress::NoPending,
                            Direction::Down => Progress::NoApplied,
                        },
                    );
                    Step { progress, action: Action::Finish }
                } else {
                    self.phase = Phase::Executing;
                    let mut progress: Vec<Progress> = Vec::new();
                    progress.push(
                        Progress::MigrationStarted {
                            name: plan[0].clone(),
                            direction: self.direction,
                        },
                    );
                    Step {
                        progress,
                        action: Action::Execute { name: plan[0].clone(), direction: self.direction },
                    }
                };
                self.applied = take_first(
                    clone_names(self.registry.all_migrations()),
                    versions.len(),
                );
                self.plan = plan;
                self.done = 0;
                assert(step@.progress =~= after_listed(old(self)@, names_of(versions@)).1.progress);
                step
            },
        }
    }

    fn recorded(&mut self) -> (step: Step)
        requires
            old(self).wf(),
            old(self)@.phase == Phase::Recording,
        ensures
            final(self)@ == after_recorded(old(self)@).0,
            step@ == after_recorded(old(self)@).1,
    {
        assert(self.done < self.plan.len());
        let name = self.plan[self.done].clone();
        let ghost before = names_of(self.applied@);
        match self.direction {
            Direction::Up => {
                self.applied.push(name.clone());
                assert(names_of(self.applied@) =~= before.push(name@));
            },
            Direction::Down => {
                self.applied.pop();
                assert(names_of(self.applied@) =~= before.drop_last());
            },
        }
        self.done = self.done + 1;
        let mut progress: Vec<Progress> = Vec::new();
        progress.push(
            match self.direction {
                Direction::Up => Progress::MigrationApplied { name },
                Direction::Down => Progress::MigrationReverted { name },
            },
        );
        let step = if self.done == self.plan.len() {
            self.phase = Phase::Finished;
            Step { progress, action: Action::Finish }
        } else {
            self.phase = Phase::Executing;
            progress.push(
                Progress::MigrationStarted {
                    name: self.plan[self.done].clone(),
                    direction: self.direction,
                },
            );
            Step {
                progress,
                action: Action::Execute {
                    name: self.plan[self.done].clone(),
                    direction: self.direction,
                },
            }
        };
        assert(step@.progress =~= after_recorded(old(self)@).1.progress);
        step
    }

    /// Takes what happened to the pending action and answers with what to
    /// log and what to do next.
    ///
    /// An event that does not answer the pending action is ignored. A failed
    /// operation, a refused ledger write and an unreachable ledger stop the
    /// run; what was done before stays done.
    pub fn step(&mut self, event: Event) -> (step: Step)
        requires
            old(self).wf(),
        ensures
            final(self).wf(),
            final(self)@ == step_of(old(self)@, event@).0,
            step@ == step_of(old(self)@, event@).1,
    {
        proof {
            lemma_step_keeps_invariant(self@, event@);
        }
        match self.phase {
            Phase::Installing => match event {
                Event::Installed => {
                    self.phase = Phase::Listing;
                    let step = Step { progress: Vec::new(), action: Action::ListApplied };
                    assert(step@.progress =~= Seq::<ProgressView>::empty());
                    step
                },
                Event::StorageFailed => {
                    let error = MigrationError::StorageError {
                        direction: self.direction,
                        completed: self.done,
                    };
                    self.stop(error)
                },
                _ => self.ignore(),
            },
            Phase::Listing => match event {
                Event::Listed { versions } => self.listed(versions),
                Event::StorageFailed => {
                    let error = MigrationError::StorageError {
                        direction: self.direction,
                        completed: self.done,
                    };
                    self.stop(error)
                },
                _ => self.ignore(),
            },
            Phase::Executing => match event {
                Event::Executed { now } => {
                    self.phase = Phase::Recording;
                    self.stamp = now;
                    let step = Step { progress: Vec::new(), action: self.pending_action() };
                    assert(step@.progress =~= Seq::<ProgressView>::empty());
                    step
                },
                Event::ExecutionFailed => {
                    let error = MigrationError::MigrationExecutionError {
                        name: self.plan[self.done].clone(),
                        direction: self.direction,
                        completed: self.done,
                    };
                    self.stop(error)
                },
                Event::StorageFailed => {
                    let error = MigrationError::StorageError {
                        direction: self.direction,
                        completed: self.done,
                    };
                    self.stop(error)
                },
                _ => self.ignore(),
            },
            Phase::Recording => match event {
                Event::Recorded => self.recorded(),
                Event::RecordRefused => {
                    let error = MigrationError::ConsistencyError {
                        version: self.plan[self.done].clone(),
                        fault: match self.direction {
                            Direction::Up => ConsistencyFault::AlreadyRecorded,
                            Direction::Down => ConsistencyFault::NotRecorded,
                        },
                        direction: self.direction,
                        completed: self.done,
                    };
                    self.stop(error)
                },
                Event::StorageFailed => {
                    let error = MigrationError::StorageError {
                        direction: self.direction,
                        completed: self.done,
                    };
                    self.stop(error)
                },
                _ => self.ignore(),
            },
            Phase::Finished => self.ignore(),
        }
    }

    /// Where the run stands.
    pub fn phase(&self) -> (phase: Phase)
        ensures
            phase == self@.phase,
    {
        self.phase
    }

    /// Whether the run applies or reverts.
    pub fn direction(&self) -> (direction: Direction)
        ensures
            direction == self@.direction,
    {
        self.direction
    }

    /// The limit in force: the one the run was started with, or zero once a
    /// run that has not selected its units yet was told to stop.
    pub fn limit(&self) -> (limit: Option<u32>)
        ensures
            limit == self@.limit,
    {
        self.limit
    }

    /// The registry the run works on.
    pub fn registry(&self) -> (registry: &Registry)
        ensures
            registry@ == self@.registry,
    {
        &self.registry
    }

    /// The applied units as the run knows them, in registry order.
    pub fn applied(&self) -> (applied: &Vec<String>)
        ensures
            names_of(applied@) == self@.applied,
    {
        &self.applied
    }

    /// The units the run has selected, in the order of execution.
    pub fn plan(&self) -> (plan: &Vec<String>)
        ensures
            names_of(plan@) == self@.plan,
    {
        &self.plan
    }

    /// How many units of the plan are executed and recorded.
    pub fn completed(&self) -> (done: usize)
        ensures
            done as nat == self@.done,
    {
        self.done
    }

    /// Why the run stopped early, if it did.
    pub fn failure(&self) -> (failure: &Option<MigrationError>)
        ensures
            self@.failure == match *failure {
                Some(error) => Some(error@),
                None => None::<ErrorView>,
            },
    {
        &self.failure
    }

    /// Tells the run to stop at the next boundary between units: the unit
    /// under way, if any, is still executed and recorded, and is the last.
    pub fn cancel(&mut self)
        requires
            old(self).wf(),
        ensures
            final(self).wf(),
            final(self)@ == cancelled(old(self)@),
    {
        proof {
            lemma_cancel_keeps_invariant(self@);
        }
        match self.phase {
            Phase::Installing | Phase::Listing => {
                self.limit = Some(0);
            },
            Phase::Executing | Phase::Recording => {
                assert(self.done < self.plan.len());
                self.plan.truncate(self.done + 1);
                assert(names_of(self.plan@) =~= old(self)@.plan.take(old(self)@.done as int + 1));
            },
            Phase::Finished => {},
        }
    }

    /// Tells whether the run is over.
    pub fn is_finished(&self) -> (finished: bool)
        ensures
            finished == (self@.phase == Phase::Finished),
    {
        match self.phase {
            Phase::Finished => true,
            _ => false,
        }
    }

    /// What the run returns: nothing while it is under way; at its end the
    /// names of the units it executed and recorded, in order, or the error
    /// that stopped it, which names the unit and counts the units done
    /// before it.
    pub fn outcome(self) -> (outcome: Option<Result<Vec<String>, MigrationError>>)
        requires
            self.wf(),
        ensures
            outcome_of(self@) == match outcome {
                None => None::<Result<Seq<Seq<char>>, ErrorView>>,
                Some(Ok(units)) => Some(Ok(names_of(units@))),
                Some(Err(error)) => Some(Err(error@)),
            },
    {
        match self.phase {
            Phase::Finished => match self.failure {
                Some(error) => Some(Err(error)),
                None => {
                    assert(self@.plan.take(self@.done as int) =~= self@.plan);
                    Some(Ok(self.plan))
                },
            },
            _ => None,
        }
    }
}

} // verus!
