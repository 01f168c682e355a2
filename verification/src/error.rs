//! The direction of a run and the errors a run or a registry can end in.

use vstd::prelude::*;

verus! {

/// Whether units are applied or reverted.
#[derive(Clone, Copy, Debug, PartialEq, Eq, Structural)]
pub enum Direction {
    /// Apply pending units, in registry order.
    Up,
    /// Revert applied units, from the last place in the registry backwards.
    Down,
}

/// What is wrong with a registry entry.
#[derive(Clone, Copy, Debug, PartialEq, Eq, Structural)]
pub enum ConfigurationFault {
    /// The entry has the empty name.
    EmptyName,
    /// An earlier entry has the same name.
    DuplicateName,
}

/// Which ledger invariant was found broken.
#[derive(Clone, Copy, Debug, PartialEq, Eq, Structural)]
pub enum ConsistencyFault {
    /// The ledger lists a version that the registry does not know.
    UnknownVersion,
    /// The ledger lists a version more than once.
    RepeatedVersion,
    /// The ledger lists a version although a unit that stands before it in
    /// the registry is not listed: the applied units are not the leading
    /// units of the registry.
    BrokenPrefix,
    /// The ledger refused an insert: the version was recorded already.
    AlreadyRecorded,
    /// The ledger refused a delete: the version was not recorded.
    NotRecorded,
}

/// Why a run stopped, or why a registry was refused.
///
/// `completed` counts the units of the run that were executed and recorded
/// before the error.
#[derive(Clone, Debug, PartialEq, Eq)]
pub enum MigrationError {
    /// The ledger could not be created, read or written.
    StorageError { direction: Direction, completed: usize },
    /// The operation of the unit `name` failed.
    MigrationExecutionError { name: String, direction: Direction, completed: usize },
    /// The ledger contradicts what the run relies on; `version` is where.
    ConsistencyError {
        version: String,
        fault: ConsistencyFault,
        direction: Direction,
        completed: usize,
    },
    /// The registry entry at `index` cannot be accepted.
    ConfigurationError { name: String, index: usize, defect: ConfigurationFault },
}

/// A `MigrationError` as a mathematical value.
pub enum ErrorView {
    Storage { direction: Direction, completed: nat },
    Execution { name: Seq<char>, direction: Direction, completed: nat },
    Consistency { version: Seq<char>, fault: ConsistencyFault, direction: Direction, completed: nat },
    Configuration { name: Seq<char>, index: nat, defect: ConfigurationFault },
}

impl View for MigrationError {
    type V = ErrorView;

    open spec fn view(&self) -> ErrorView {
        match *self {
            MigrationError::StorageError { direction, completed } => ErrorView::Storage {
                direction,
                completed: completed as nat,
            },
            MigrationError::MigrationExecutionError { name, direction, completed } => {
                ErrorView::Execution { name: name@, direction, completed: completed as nat }
            },
            MigrationError::ConsistencyError { version, fault, direction, completed } => {
                ErrorView::Consistency {
                    version: version@,
                    fault,
                    direction,
                    completed: completed as nat,
                }
            },
            MigrationError::ConfigurationError { name, index, defect } => ErrorView::Configuration {
                name: name@,
                index: index as nat,
                defect,
            },
        }
    }
}

impl MigrationError {
    /// The number of units of the run that were done before the error; none
    /// for a registry that was refused.
    pub fn completed(&self) -> (count: usize)
        ensures
            count as nat == match self@ {
                ErrorView::Storage { completed, .. } => completed,
                ErrorView::Execution { completed, .. } => completed,
                ErrorView::Consistency { completed, .. } => completed,
                ErrorView::Configuration { .. } => 0,
            },
    {
        match self {
            MigrationError::StorageError { completed, .. } => *completed,
            MigrationError::MigrationExecutionError { completed, .. } => *completed,
            MigrationError::ConsistencyError { completed, .. } => *completed,
            MigrationError::ConfigurationError { .. } => 0,
        }
    }
}

} // verus!
