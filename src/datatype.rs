use vstd::prelude::*;

verus! {

/// The element types a stored scalar or array can have.
#[derive(Clone, Copy, Debug, PartialEq, Eq, Structural)]
pub enum ScalarType {
    I8,
    I16,
    I32,
    I64,
    U8,
    U16,
    U32,
    U64,
    F32,
    F64,
    Bool,
    String,
}

/// What a stored entity holds.
#[derive(Clone, Copy, Debug, PartialEq, Eq, Structural)]
pub enum DataType {
    Scalar(ScalarType),
    Array(ScalarType),
    CsrMatrix(ScalarType),
    CscMatrix(ScalarType),
    Categorical,
    DataFrame,
    Mapping,
}

} // verus!
