//! A schema-change runner.
//!
//! A registry holds the names of all change units in their one order; a
//! ledger records which of them have been applied, and when. A run applies
//! the pending units in registry order, or reverts the applied ones from the
//! last backwards, a limited number at a time, and stops at the first unit
//! that fails.
//!
//! The library decides and its caller acts: a [`run::Run`] asks for one
//! action at a time (install the ledger, list it, execute a unit, write the
//! ledger) and is told what came of it. Nothing here touches a database.
//!
//! - [`registry`]: the ordered list of unit names.
//! - [`ledger`]: a ledger in memory, with the four operations of a ledger store.
//! - [`plan`]: pending and applied units, limits, and the plan of a run.
//! - [`run`]: the run as a state machine.
//! - [`migrator`]: the runner of one registry, which starts runs.
//! - [`command`]: the two commands, up and down.
//! - [`error`]: the errors.
//! - [`laws`]: what holds of plans, runs and ledger whatever the inputs.

pub mod command;
pub mod error;
pub mod laws;
pub mod ledger;
pub mod migrator;
pub mod names;
pub mod plan;
pub mod registry;
pub mod run;
