use vstd::prelude::*;

verus! {

/// Conditions under which a render is refused before any pixel is produced.
#[derive(Clone, Copy, Debug, PartialEq, Eq, Structural)]
pub enum RenderError {
    /// A direction of zero length had to be normalized.
    DivisionByZero,
    /// A sphere with a radius that is not positive.
    InvalidSphere,
    /// A viewport with no pixels.
    InvalidViewport,
}

} // verus!
