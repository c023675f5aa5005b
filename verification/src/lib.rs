//! Engine for a hidden-state deduction game: an 8x8 grid of concealed
//! markers is probed with rays fired from the border, and the observed
//! outcomes are used to derive certain knowledge about the grid.

pub mod atom_grid;
pub mod i8vec2;
pub mod laser;
pub mod observation;
pub mod solver;

use vstd::prelude::*;

verus! {

/// An internal-logic fault: a state that the engine's rules are designed
/// never to reach. Surfaced to the caller instead of being masked, since it
/// signals a defect, not bad input.
#[derive(Debug, Clone, Copy, PartialEq, Eq, Structural)]
pub enum Fault {
    /// A traversal did not leave the grid within the safety step bound.
    RunawayTraversal,
    /// A probe tried to label a border slot that already carries a label.
    SlotRelabel,
    /// A deduction tried to overwrite knowledge with a conflicting value.
    KnowledgeConflict,
}

} // verus!
