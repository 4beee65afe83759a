//! Task and status records of one agent phase.
use vstd::prelude::*;

verus! {

/// A unit of work handed to an agent.
#[derive(Debug, Clone, Copy, PartialEq, Eq, Structural)]
pub struct PhaseTask;

/// How far a phase has come.
#[derive(Debug, Clone, Copy, PartialEq, Eq, Structural)]
pub enum PhaseStatus {
    Pending,
    Completed,
    Failed,
}

} // verus!
