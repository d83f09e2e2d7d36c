//! Why a line does not describe a shape.

use vstd::prelude::*;

verus! {

/// The kinds of shape a line can describe.
#[derive(Debug, Clone, Copy, PartialEq, Eq, Structural)]
pub enum ShapeKind {
    Rect,
    Circle,
}

#[derive(Debug, Clone, Copy, PartialEq, Eq, Structural)]
pub enum ShapeError {
    /// The first field names no known kind of shape.
    UnknownShapeKind,
    /// The kind is known, but the line has the wrong number of fields for it.
    MalformedShape(ShapeKind),
    /// A field that should hold an integer does not hold one that fits an `i32`.
    InvalidNumber,
}

} // verus!
