//! The runner: a registry, and the runs it starts.

use vstd::prelude::*;
use crate::command::Subcommands;
use crate::error::{Direction, ErrorView, MigrationError};
use crate::names::names_of;
use crate::plan::{applied_of, compute_applied, compute_pending, pending_of};
use crate::registry::{defect_at, well_formed, Registry};
use crate::run::{initial, Run};

verus! {

/// The runner of one registry.
#[derive(Clone, Debug, PartialEq, Eq)]
pub struct Migrator {
    registry: Registry,
}

impl View for Migrator {
    type V = Seq<Seq<char>>;

    closed spec fn view(&self) -> Seq<Seq<char>> {
        self.registry@
    }
}

impl Migrator {
    /// The invariant of a runner: its registry is well formed.
    pub open spec fn wf(&self) -> bool {
        well_formed(self@)
    }

    /// Makes the runner of the units named, in their order.
    ///
    /// Fails with a `ConfigurationError` exactly when a name is empty or
    /// occurs twice.
    pub fn new(names: Vec<String>) -> (made: Result<Migrator, MigrationError>)
        ensures
            made is Ok <==> well_formed(names_of(names@)),
            made matches Ok(migrator) ==> migrator@ == names_of(names@) && migrator.wf(),
            made matches Err(error) ==> exists|i: int|
                {
                    &&& 0 <= i < names.len()
                    &&& forall|j: int| 0 <= j < i ==> (#[trigger] defect_at(names_of(names@), j)) is None
                    &&& #[trigger] defect_at(names_of(names@), i) matches Some(defect)
                    &&& error@ == (ErrorView::Configuration {
                        name: names@[i]@,
                        index: i as nat,
                        defect,
                    })
                },
    {
        match Registry::new(names) {
            Ok(registry) => Ok(Migrator { registry }),
            Err(error) => Err(error),
        }
    }

    /// The registry of the runner.
    pub fn registry(&self) -> (registry: &Registry)
        ensures
            registry@ == self@,
    {
        &self.registry
    }

    /// All unit names, in registry order.
    pub fn migrations(&self) -> (names: &Vec<String>)
        ensures
            names_of(names@) == self@,
    {
        self.registry.all_migrations()
    }

    /// The units that the ledger does not list, in registry order.
    pub fn get_pending_migrations(&self, recorded: &Vec<String>) -> (pending: Vec<String>)
        ensures
            names_of(pending@) == pending_of(self@, names_of(recorded@)),
    {
        compute_pending(&self.registry, recorded)
    }

    /// The units that the ledger lists, in the order of the ledger.
    pub fn get_applied_migrations(&self, recorded: &Vec<String>) -> (applied: Vec<String>)
        ensures
            names_of(applied@) == applied_of(self@, names_of(recorded@)),
    {
        compute_applied(&self.registry, recorded)
    }

    /// Starts a run that applies pending units: the first `limit` of them,
    /// or all of them without a limit.
    pub fn up(&self, limit: Option<u32>) -> (run: Run)
        requires
            self.wf(),
        ensures
            run.wf(),
            run@ == initial(self@, Direction::Up, limit),
    {
        Run::begin(self.registry.duplicate(), Direction::Up, limit)
    }

    /// Starts a run that reverts applied units, from the last place in the
    /// registry backwards: `limit` of them, or one of them without a limit.
    pub fn down(&self, limit: Option<u32>) -> (run: Run)
        requires
            self.wf(),
        ensures
            run.wf(),
            run@ == initial(self@, Direction::Down, limit),
    {
        Run::begin(self.registry.duplicate(), Direction::Down, limit)
    }

    /// Starts the run that a command asks for.
    pub fn run(&self, command: Subcommands) -> (run: Run)
        requires
            self.wf(),
        ensures
            run.wf(),
            run@ == initial(self@, command.direction(), command.limit()),
    {
        Run::begin(self.registry.duplicate(), command.direction(), command.limit())
    }
}

} // verus!
