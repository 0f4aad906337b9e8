//! The errors of the kernel. Every failure is a value handed back to the
//! caller; nothing is approximated in silence and nothing aborts.

use vstd::prelude::*;

verus! {

/// Which of the checks on a boundary loop failed.
#[derive(Clone, Copy, Debug, PartialEq, Eq, Structural)]
pub enum LoopCheck {
    /// Two consecutive elements do not share an endpoint.
    Continuity,
    /// The last element does not end where the first one starts.
    Closure,
    /// Two elements that are not neighbours meet.
    Simplicity,
    /// The elements do not turn the same way.
    Winding,
}

/// Why an operation of the kernel failed.
#[derive(Debug, PartialEq, Eq)]
pub enum KernelError {
    /// A vector too short to have a direction, or a radius that is not
    /// positive.
    DegenerateInput,
    /// The representation at hand does not determine the one asked for.
    UnsupportedConversion,
    /// The projected geometry collapses to a point.
    DegenerateProjection,
    /// An argument outside the domain of the operation.
    InvalidArgument,
    /// A relation names an element that the sketch does not hold.
    InvalidElementReference { element: usize },
    /// The relations ask for more than the free parameters can give; the
    /// indices of the relations in conflict.
    OverConstrained { relations: Vec<usize> },
    /// The iteration budget ran out before the residual fell below the
    /// tolerance.
    SolverDiverged { iterations: u32 },
    /// A boundary loop failed a check, at the element `first` (and, for a
    /// pair, `second`).
    InvalidLoop { check: LoopCheck, first: usize, second: usize },
}

} // verus!
