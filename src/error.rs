use vstd::prelude::*;

verus! {

/// One of the three shape attributes kept at the root of a matrix.
#[derive(Clone, Copy, Debug, PartialEq, Eq, Structural)]
pub enum ShapeField {
    NumRows,
    NumColumns,
    NumNonZeros,
}

/// The ways in which an operation of the engine can fail.
#[derive(Clone, Copy, Debug, PartialEq, Eq, Structural)]
pub enum MatrixError {
    /// The backend location could not be opened or created.
    StoreUnavailable,
    /// A shape attribute is already set to another value.
    ShapeMismatch(ShapeField),
    /// The requested orientation was never built.
    NotIndexed,
    /// A row or column index is not below the declared dimension.
    DimensionOutOfRange,
    /// A coordinate-list source does not parse.
    MalformedSource,
    /// The shape attributes are not all set.
    IncompleteMetadata,
}

impl ShapeField {
    /// The attribute's key at the store root.
    pub fn key(&self) -> (r: &'static str)
        ensures
            *self == ShapeField::NumRows ==> r@ == "nrow"@,
            *self == ShapeField::NumColumns ==> r@ == "ncol"@,
            *self == ShapeField::NumNonZeros ==> r@ == "nnz"@,
    {
        proof {
            reveal_strlit("nrow");
            reveal_strlit("ncol");
            reveal_strlit("nnz");
        }
        match self {
            ShapeField::NumRows => "nrow",
            ShapeField::NumColumns => "ncol",
            ShapeField::NumNonZeros => "nnz",
        }
    }
}

} // verus!
