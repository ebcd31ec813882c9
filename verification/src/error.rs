//! The ways in which a request can fail.

use vstd::prelude::*;

verus! {

/// Why no solution was returned.
#[derive(Clone, Copy, Debug, PartialEq, Eq, Structural)]
pub enum Error {
    /// The sticker layout has the wrong length or a symbol that names no
    /// face.
    MalformedInput,
    /// The layout shows no cube that turning the faces of a solved cube can
    /// produce.
    InvalidCubeState,
    /// The search ended without a solution within the budget of moves.
    NoSolutionWithinBudget,
}

} // verus!
