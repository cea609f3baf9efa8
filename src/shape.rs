use vstd::prelude::*;
use crate::error::{MatrixError, ShapeField};

verus! {

/// What setting one write-once attribute does.
#[derive(Clone, Copy, Debug, PartialEq, Eq, Structural)]
pub enum Merge {
    /// The attribute already held the value.
    Unchanged,
    /// The attribute was unset and now holds the value.
    Updated,
    /// The attribute holds another value; it is left as it was.
    Conflict,
}

/// The outcome of setting an attribute that holds `old` to `new`.
pub open spec fn merge_spec(old: Option<u64>, new: u64) -> Merge {
    match old {
        None => Merge::Updated,
        Some(v) => if v == new { Merge::Unchanged } else { Merge::Conflict },
    }
}

/// The attribute after setting it to `new`, when that is no conflict.
pub open spec fn merged_value(old: Option<u64>, new: u64) -> Option<u64> {
    match old {
        None => Some(new),
        Some(v) => Some(v),
    }
}

/// Decides how a write-once attribute that holds `old` takes the value `new`.
pub fn merge_attr(old: Option<u64>, new: u64) -> (r: Merge)
    ensures
        r == merge_spec(old, new),
{
    match old {
        None => Merge::Updated,
        Some(v) => if v == new { Merge::Unchanged } else { Merge::Conflict },
    }
}

/// The shape attributes of a matrix: each is unset until first recorded,
/// and never changes afterwards.
#[derive(Clone, Copy, Debug, PartialEq, Eq, Structural)]
pub struct ShapeAttrs {
    pub nrow: Option<u64>,
    pub ncol: Option<u64>,
    pub nnz: Option<u64>,
}

/// What recording `(nrow, ncol, nnz)` on `a` gives: the attributes are set or
/// checked in that order, and the first one that conflicts stops the record,
/// keeping what the earlier ones set.
pub open spec fn record_spec(a: ShapeAttrs, nrow: u64, ncol: u64, nnz: u64) -> (ShapeAttrs, Option<ShapeField>) {
    if merge_spec(a.nrow, nrow) == Merge::Conflict {
        (a, Some(ShapeField::NumRows))
    } else {
        let a1 = ShapeAttrs { nrow: merged_value(a.nrow, nrow), ..a };
        if merge_spec(a1.ncol, ncol) == Merge::Conflict {
            (a1, Some(ShapeField::NumColumns))
        } else {
            let a2 = ShapeAttrs { ncol: merged_value(a1.ncol, ncol), ..a1 };
            if merge_spec(a2.nnz, nnz) == Merge::Conflict {
                (a2, Some(ShapeField::NumNonZeros))
            } else {
                (ShapeAttrs { nnz: merged_value(a2.nnz, nnz), ..a2 }, None)
            }
        }
    }
}

impl ShapeAttrs {
    /// Attributes of a fresh, empty backend: none is set.
    pub fn empty() -> (r: ShapeAttrs)
        ensures
            r.nrow.is_none(),
            r.ncol.is_none(),
            r.nnz.is_none(),
    {
        ShapeAttrs { nrow: None, ncol: None, nnz: None }
    }

    /// The three attributes together, when all are set.
    pub open spec fn complete(&self) -> Option<(u64, u64, u64)> {
        if self.nrow.is_some() && self.ncol.is_some() && self.nnz.is_some() {
            Some((self.nrow.unwrap(), self.ncol.unwrap(), self.nnz.unwrap()))
        } else {
            None
        }
    }

    /// Number of rows, if recorded.
    pub fn num_rows(&self) -> (r: Option<u64>)
        ensures
            r == self.nrow,
    {
        self.nrow
    }

    /// Number of columns, if recorded.
    pub fn num_columns(&self) -> (r: Option<u64>)
        ensures
            r == self.ncol,
    {
        self.ncol
    }

    /// Number of stored entries, if recorded.
    pub fn num_non_zeros(&self) -> (r: Option<u64>)
        ensures
            r == self.nnz,
    {
        self.nnz
    }

    /// All three attributes, or `IncompleteMetadata` when one is unset.
    pub fn shape(&self) -> (r: Result<(u64, u64, u64), MatrixError>)
        ensures
            self.complete().is_some() ==> r == Ok::<(u64, u64, u64), MatrixError>(self.complete().unwrap()),
            self.complete().is_none() ==> r == Err::<(u64, u64, u64), MatrixError>(MatrixError::IncompleteMetadata),
    {
        match (self.nrow, self.ncol, self.nnz) {
            (Some(r), Some(c), Some(n)) => Ok((r, c, n)),
            _ => Err(MatrixError::IncompleteMetadata),
        }
    }

    /// Sets each unset attribute and checks each set one against the given
    /// value, in the order rows, columns, non-zeros. The first mismatch fails
    /// with `ShapeMismatch` naming that attribute.
    pub fn record_shape(&mut self, nrow: u64, ncol: u64, nnz: u64) -> (r: Result<(), MatrixError>)
        ensures
            *final(self) == record_spec(*old(self), nrow, ncol, nnz).0,
            record_spec(*old(self), nrow, ncol, nnz).1 is None ==> r is Ok,
            record_spec(*old(self), nrow, ncol, nnz).1 is Some ==> r == Err::<(), MatrixError>(
                MatrixError::ShapeMismatch(record_spec(*old(self), nrow, ncol, nnz).1.unwrap()),
            ),
    {
        match merge_attr(self.nrow, nrow) {
            Merge::Conflict => return Err(MatrixError::ShapeMismatch(ShapeField::NumRows)),
            Merge::Updated => self.nrow = Some(nrow),
            Merge::Unchanged => {},
        }
        match merge_attr(self.ncol, ncol) {
            Merge::Conflict => return Err(MatrixError::ShapeMismatch(ShapeField::NumColumns)),
            Merge::Updated => self.ncol = Some(ncol),
            Merge::Unchanged => {},
        }
        match merge_attr(self.nnz, nnz) {
            Merge::Conflict => return Err(MatrixError::ShapeMismatch(ShapeField::NumNonZeros)),
            Merge::Updated => self.nnz = Some(nnz),
            Merge::Unchanged => {},
        }
        Ok(())
    }
}

/// Recording the same shape twice succeeds both times, and the second
/// record changes nothing.
pub proof fn lemma_record_idempotent(a: ShapeAttrs, nrow: u64, ncol: u64, nnz: u64)
    requires
        record_spec(a, nrow, ncol, nnz).1 is None,
    ensures
        record_spec(record_spec(a, nrow, ncol, nnz).0, nrow, ncol, nnz)
            == (record_spec(a, nrow, ncol, nnz).0, None::<ShapeField>),
{
}

/// Once a shape is recorded, recording one with another number of non-zeros
/// fails with a mismatch on that attribute and leaves the attributes,
/// the recorded number of non-zeros among them, as they were.
pub proof fn lemma_record_conflict(a: ShapeAttrs, nrow: u64, ncol: u64, nnz: u64, other_nnz: u64)
    requires
        record_spec(a, nrow, ncol, nnz).1 is None,
        other_nnz != nnz,
    ensures
        ({
            let first = record_spec(a, nrow, ncol, nnz).0;
            &&& record_spec(first, nrow, ncol, other_nnz) == (first, Some(ShapeField::NumNonZeros))
            &&& first.nnz == Some(nnz)
        }),
{
}

} // verus!
