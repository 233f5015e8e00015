//! The ways in which a request to the library can be refused.

use vstd::prelude::*;

verus! {

/// Why the library refused a request.
#[derive(Clone, Copy, Debug, PartialEq, Eq, Structural)]
pub enum GridError {
    /// A dimension, the arity, a radius, a window or a rule table is outside
    /// what a grid can be built from.
    Configuration,
    /// A cell position or index lies outside the grid.
    IndexOutOfRange,
    /// Some cell has fewer candidate sources inside the grid than the arity
    /// asks for.
    TopologyUnderfill,
}

} // verus!
