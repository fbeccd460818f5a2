//! Failure kinds surfaced by the rendering passes.

use vstd::prelude::*;

verus! {

/// Everything that can abort a render.
///
/// - `NumericRange`: a computed dimension or coordinate does not fit the
///   integer width used for coordinates.
/// - `MalformedConnector`: a connector was requested with an empty list of
///   bottom anchor points; a node cannot connect to zero children.
/// - `GeometryLookup`: a node was missing from a width or position record the
///   algorithm assumed complete; always a logic defect of the caller.
#[derive(Debug, Clone, Copy, PartialEq, Eq, Structural)]
pub enum RenderError {
    NumericRange,
    MalformedConnector,
    GeometryLookup,
}

} // verus!
