//! Error outcomes of the per-frame path.

use vstd::prelude::*;

verus! {

/// Why a frame, or a mesh operation, was refused.
#[derive(Clone, Copy, PartialEq, Eq, Structural, Debug)]
pub enum RenderError {
    /// The presentable surface could not be acquired (lost, outdated or
    /// timed out).  Raised by the embedding application, never retried here.
    SurfaceUnavailable,
    /// A referenced texture or payload handle does not exist.
    MissingResource,
    /// Two meshes with incompatible vertex layouts were to be merged.
    LayoutMismatch,
}

impl RenderError {
    /// A short description, for callers that log the failure.
    pub fn describe(&self) -> (r: &'static str)
        ensures
            self is SurfaceUnavailable ==> r@ == "surface unavailable"@,
            self is MissingResource ==> r@ == "missing resource"@,
            self is LayoutMismatch ==> r@ == "vertex layout mismatch"@,
    {
        match self {
            RenderError::SurfaceUnavailable => "surface unavailable",
            RenderError::MissingResource => "missing resource",
            RenderError::LayoutMismatch => "vertex layout mismatch",
        }
    }
}

} // verus!
