use vstd::prelude::*;

verus! {

/// Errors reported by canvas operations and filters.
///
/// A rejected operation always leaves the canvas it was aimed at unchanged.
#[derive(Clone, Copy, Debug, PartialEq, Eq, Structural)]
pub enum CaptchaError {
    /// A canvas or crop size was zero, or too large for this machine.
    InvalidDimensions,
    /// A filter parameter is malformed: a zero grid gap, an inverted
    /// radius range, or an empty or out-of-canvas area.
    InvalidFilterParameter,
    /// A crop rectangle would escape the canvas.
    GeometryUnderflow,
}

} // verus!
