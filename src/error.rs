use vstd::prelude::*;

verus! {

/// The ways a render can fail; the first failure ends the pipeline.
#[derive(Clone, Copy, Debug, PartialEq, Eq, Structural)]
pub enum RenderError {
    /// A degenerate raster (no pixels) or another malformed argument.
    InvalidInput,
    /// A region whose computed width or height would not be positive, or a
    /// panel that does not fit the region allotted to it.
    LayoutError,
    /// The font resource failed to measure or draw.
    RenderError,
}

impl RenderError {
    /// A short human-readable description of the error.
    pub fn message(&self) -> (r: &'static str)
        ensures
            *self == RenderError::InvalidInput ==> r@ == "invalid input"@,
            *self == RenderError::LayoutError ==> r@ == "layout error"@,
            *self == RenderError::RenderError ==> r@ == "render error"@,
    {
        proof {
            reveal_strlit("invalid input");
            reveal_strlit("layout error");
            reveal_strlit("render error");
        }
        match self {
            RenderError::InvalidInput => "invalid input",
            RenderError::LayoutError => "layout error",
            RenderError::RenderError => "render error",
        }
    }
}

} // verus!
