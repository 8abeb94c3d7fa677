use vstd::prelude::*;

verus! {

/// The ways a render or zoom request can be rejected.
#[derive(Debug, Clone, Copy, PartialEq, Eq, Structural)]
pub enum FractalError {
    /// The pixel width or height is zero.
    InvalidDimensions,
    /// The magnification factor is not positive.
    InvalidMagnification,
    /// The target pixel lies outside the pixel grid.
    PixelOutOfRange,
    /// The iteration budget is zero.
    InvalidIterationBudget,
    /// The pixel buffer does not hold exactly one cell per pixel.
    BufferSizeMismatch,
    /// The zoomed window cannot be represented in fixed-point coordinates.
    ViewportOverflow,
}

} // verus!
