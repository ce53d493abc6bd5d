use vstd::prelude::*;

verus! {

/// The kinds of failure that operations of this library report.
#[derive(Clone, Copy, Debug, PartialEq, Eq, Structural)]
pub enum Error {
    /// A failure reported by the storage layer.
    BackendIo,
    /// An `encoding-type` tag outside the supported set.
    EncodingUnsupported,
    /// The stored element type differs from the one asked for.
    DTypeMismatch,
    /// A selection or value does not have the expected shape.
    ShapeMismatch,
    /// An integer index is not below the length of its axis.
    Bounds,
    /// A value does not match the length of an axis it is bound to.
    AxisMismatch,
    /// A numeric conversion is impossible.
    Cast,
    /// The store was used after it was closed.
    BackendClosed,
    /// A key is missing.
    NotFound,
}

} // verus!
