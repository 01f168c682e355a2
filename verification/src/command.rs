//! The two commands of the runner.

use vstd::prelude::*;
use crate::error::Direction;

verus! {

/// What the runner is asked to do.
#[allow(inconsistent_fields)]
#[derive(Clone, Copy, Debug, PartialEq, Eq)]
pub enum Subcommands {
    /// Apply pending units: `num` of them, or all of them when `num` is absent.
    Up { num: Option<u32> },
    /// Revert applied units, from the last place in the registry backwards:
    /// `num` of them.
    Down { num: u32 },
}

impl Subcommands {
    /// The direction of the command.
    pub open spec fn spec_direction(&self) -> Direction {
        match *self {
            Subcommands::Up { .. } => Direction::Up,
            Subcommands::Down { .. } => Direction::Down,
        }
    }

    /// The limit of the command.
    pub open spec fn spec_limit(&self) -> Option<u32> {
        match *self {
            Subcommands::Up { num } => num,
            Subcommands::Down { num } => Some(num),
        }
    }

    /// The direction of the command.
    #[verifier::when_used_as_spec(spec_direction)]
    pub fn direction(&self) -> (direction: Direction)
        ensures
            direction == self.spec_direction(),
    {
        match self {
            Subcommands::Up { .. } => Direction::Up,
            Subcommands::Down { .. } => Direction::Down,
        }
    }

    /// The limit of the command.
    #[verifier::when_used_as_spec(spec_limit)]
    pub fn limit(&self) -> (limit: Option<u32>)
        ensures
            limit == self.spec_limit(),
    {
        match self {
            Subcommands::Up { num } => *num,
            Subcommands::Down { num } => Some(*num),
        }
    }
}

} // verus!
