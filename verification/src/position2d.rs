//! The depth layers of 2D positions, and the steps of a chain of moves on a
//! position: whether it works on the local or the global transform.

use vstd::prelude::*;

verus! {

/// The layer a 2D position is drawn in, from farthest to nearest.
#[derive(Clone, Copy, Debug, PartialEq, Eq, Structural)]
pub enum Depth {
    Far,
    Back,
    Mid,
    Front,
    Near,
}

/// The error of a chain of moves on a position that expired.
#[derive(Debug)]
pub struct ExpiredValue {}

/// Which transform a chain of moves is working on: the local one, the
/// global one, none yet, or none because the position expired.
#[derive(Clone, Copy, Debug, PartialEq, Eq, Structural)]
pub enum Step {
    Local,
    Global,
    Unset,
    Error,
}

/// What a move does first, given the step the chain is at: apply itself,
/// take up its transform and then apply itself, bring its transform in line
/// with the other one and then apply itself, or nothing.
#[derive(Clone, Copy, Debug, PartialEq, Eq, Structural)]
pub enum StepAction {
    Apply,
    Begin,
    SyncFirst,
    Skip,
}

impl Step {
    /// What a move on the local transform does at this step.
    pub fn local_action(&self) -> (r: StepAction)
        ensures
            r == match *self {
                Step::Local => StepAction::Apply,
                Step::Global => StepAction::SyncFirst,
                Step::Unset => StepAction::Begin,
                Step::Error => StepAction::Skip,
            },
    {
        match self {
            Step::Local => StepAction::Apply,
            Step::Global => StepAction::SyncFirst,
            Step::Unset => StepAction::Begin,
            Step::Error => StepAction::Skip,
        }
    }

    /// What a move on the global transform does at this step.
    pub fn global_action(&self) -> (r: StepAction)
        ensures
            r == match *self {
                Step::Global => StepAction::Apply,
                Step::Local => StepAction::SyncFirst,
                Step::Unset => StepAction::Begin,
                Step::Error => StepAction::Skip,
            },
    {
        match self {
            Step::Global => StepAction::Apply,
            Step::Local => StepAction::SyncFirst,
            Step::Unset => StepAction::Begin,
            Step::Error => StepAction::Skip,
        }
    }
}

} // verus!
