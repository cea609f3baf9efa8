use vstd::prelude::*;
use crate::access::{Triplet, iota, lemma_read_all, read_spec, read_primary, push_segment, segment_spec};
use crate::block::{Entry, IndexBlock, build_block, entries_in_range, indptr_wf};
use crate::error::MatrixError;
use crate::shape::{ShapeAttrs, record_spec, lemma_record_idempotent};
use crate::coordinate::CoordinateList;

verus! {

/// The entries of a coordinate list keyed for a column block: column first.
pub open spec fn column_keyed(entries: Seq<Triplet>) -> Seq<Entry> {
    entries.map_values(|t: Triplet| (t.1, t.0, t.2))
}

/// The entries of a coordinate list keyed for a row block: row first.
pub open spec fn row_keyed(entries: Seq<Triplet>) -> Seq<Entry> {
    entries
}

/// A triplet with both indices moved from 0-based to 1-based.
pub open spec fn one_based(t: Triplet) -> Triplet {
    ((t.0 + 1) as u64, (t.1 + 1) as u64, t.2)
}

/// The coordinate list of a column block: every entry, 1-based, in
/// increasing column order and, within a column, in stored order.
pub open spec fn export_spec(b: IndexBlock, ncol: nat) -> Seq<Triplet> {
    read_spec(b, ncol, iota(ncol), true).map_values(|t: Triplet| one_based(t))
}

/// The 0-based coordinate list of `list` with the encoded values `values`.
pub open spec fn listed_entries(list: CoordinateList, values: Seq<u32>) -> Seq<Triplet> {
    Seq::new(values.len(), |k: int| (list.positions@[k].0, list.positions@[k].1, values[k]))
}

/// Pairs each position of `list` with its encoded value; `MalformedSource`
/// when there are not as many values as positions.
pub fn list_entries(list: &CoordinateList, values: &Vec<u32>) -> (r: Result<Vec<Triplet>, MatrixError>)
    ensures
        values@.len() != list.positions@.len() ==> r == Err::<Vec<Triplet>, MatrixError>(MatrixError::MalformedSource),
        values@.len() == list.positions@.len() ==> (r matches Ok(v) && v@ == listed_entries(*list, values@)),
{
    let n = values.len();
    if list.positions.len() != n {
        return Err(MatrixError::MalformedSource);
    }
    let mut out: Vec<Triplet> = Vec::new();
    let mut k: usize = 0;
    while k < n
        invariant
            n == values@.len(),
            n == list.positions@.len(),
            k <= n,
            out@ =~= listed_entries(*list, values@).take(k as int),
        decreases n - k,
    {
        let p = list.positions[k];
        out.push((p.0, p.1, values[k]));
        k = k + 1;
    }
    assert(listed_entries(*list, values@).take(n as int) =~= listed_entries(*list, values@));
    Ok(out)
}

/// A sparse matrix: its shape attributes, its column and row index blocks
/// (each present once built), and its row and column names (each optional).
#[derive(Clone, Debug)]
pub struct SparseMatrix {
    pub shape: ShapeAttrs,
    pub by_column: Option<IndexBlock>,
    pub by_row: Option<IndexBlock>,
    pub row_names: Option<Vec<String>>,
    pub column_names: Option<Vec<String>>,
}

/// Whether `b` is a valid index block of an orientation whose shape is
/// complete, with `pdim` primary and `sdim` secondary indices, and the
/// recorded number of non-zeros.
pub open spec fn block_fits(b: IndexBlock, nnz: u64, pdim: u64, sdim: u64) -> bool {
    &&& b.wf(pdim as nat, sdim as nat)
    &&& b.nnz() == nnz
}

/// Checks that `indptr` describes `nnz` entries over `pdim` primary
/// indices: it starts at zero, ends at `nnz`, and never decreases.
pub fn check_indptr(indptr: &Vec<u64>, pdim: u64, nnz: u64) -> (r: bool)
    ensures
        r == indptr_wf(indptr@, pdim as nat, nnz as nat),
{
    let m = indptr.len();
    if m == 0 || (m - 1) as u64 != pdim {
        return false;
    }
    if indptr[0] != 0 || indptr[m - 1] != nnz {
        return false;
    }
    let mut i: usize = 1;
    while i < m
        invariant
            1 <= i <= m,
            m == indptr@.len(),
            forall|a: int, c: int| 0 <= a <= c < i ==> #[trigger] indptr@[a] <= #[trigger] indptr@[c],
        decreases m - i,
    {
        if indptr[i - 1] > indptr[i] {
            assert(!indptr_wf(indptr@, pdim as nat, nnz as nat)) by {
                assert(indptr@[i - 1] > indptr@[i as int]);
            }
            return false;
        }
        assert forall|a: int, c: int| 0 <= a <= c < i + 1 implies #[trigger] indptr@[a] <= #[trigger] indptr@[c] by {
            if c == i && a < c {
                assert(indptr@[a] <= indptr@[i - 1]);
            }
        }
        i = i + 1;
    }
    true
}

/// Checks that `b` is a valid block over `pdim` primary and `sdim` secondary
/// indices holding `nnz` entries.
pub fn check_block(b: &IndexBlock, nnz: u64, pdim: u64, sdim: u64) -> (r: bool)
    ensures
        r == block_fits(*b, nnz, pdim, sdim),
{
    let n = b.indices.len();
    if b.data.len() != n || n as u64 != nnz {
        return false;
    }
    if !check_indptr(&b.indptr, pdim, nnz) {
        return false;
    }
    let mut k: usize = 0;
    while k < n
        invariant
            k <= n,
            n == b.indices@.len(),
            forall|l: int| 0 <= l < k ==> #[trigger] b.indices@[l] < sdim,
        decreases n - k,
    {
        if b.indices[k] >= sdim {
            return false;
        }
        k = k + 1;
    }
    true
}

impl SparseMatrix {
    /// Every built block fits the recorded shape: the column block has a
    /// range per column and row indices below the row count, the row block
    /// the other way round, and both hold the recorded number of non-zeros.
    pub open spec fn wf(&self) -> bool {
        &&& self.by_column is Some ==> self.shape.complete() is Some && block_fits(
            self.by_column.unwrap(),
            self.shape.complete().unwrap().2,
            self.shape.complete().unwrap().1,
            self.shape.complete().unwrap().0,
        )
        &&& self.by_row is Some ==> self.shape.complete() is Some && block_fits(
            self.by_row.unwrap(),
            self.shape.complete().unwrap().2,
            self.shape.complete().unwrap().0,
            self.shape.complete().unwrap().1,
        )
    }

    /// A fresh matrix: no attribute recorded, nothing built, no names.
    pub fn new() -> (r: SparseMatrix)
        ensures
            r.wf(),
            r.shape.complete() is None,
            r.shape.nrow is None && r.shape.ncol is None && r.shape.nnz is None,
            r.by_column is None && r.by_row is None,
            r.row_names is None && r.column_names is None,
    {
        SparseMatrix {
            shape: ShapeAttrs::empty(),
            by_column: None,
            by_row: None,
            row_names: None,
            column_names: None,
        }
    }

    /// Assembles a matrix from parts loaded from a store. Fails with
    /// `IncompleteMetadata` when an attribute is unset, and with
    /// `MalformedSource` when a block does not fit the shape.
    pub fn from_parts(
        shape: ShapeAttrs,
        by_column: Option<IndexBlock>,
        by_row: Option<IndexBlock>,
        row_names: Option<Vec<String>>,
        column_names: Option<Vec<String>>,
    ) -> (r: Result<SparseMatrix, MatrixError>)
        ensures
            shape.complete() is None ==> r == Err::<SparseMatrix, MatrixError>(MatrixError::IncompleteMetadata),
            shape.complete() matches Some(s) ==> {
                let fits = (by_column is Some ==> block_fits(by_column.unwrap(), s.2, s.1, s.0))
                    && (by_row is Some ==> block_fits(by_row.unwrap(), s.2, s.0, s.1));
                &&& !fits ==> r == Err::<SparseMatrix, MatrixError>(MatrixError::MalformedSource)
                &&& fits ==> (r matches Ok(m) && m.wf() && m.shape == shape && m.by_column == by_column
                    && m.by_row == by_row && m.row_names == row_names && m.column_names == column_names)
            },
    {
        let (nrow, ncol, nnz) = match shape.shape() {
            Ok(s) => s,
            Err(e) => return Err(e),
        };
        if let Some(b) = &by_column {
            if !check_block(b, nnz, ncol, nrow) {
                return Err(MatrixError::MalformedSource);
            }
        }
        if let Some(b) = &by_row {
            if !check_block(b, nnz, nrow, ncol) {
                return Err(MatrixError::MalformedSource);
            }
        }
        Ok(SparseMatrix { shape, by_column, by_row, row_names, column_names })
    }

    /// Number of rows, if recorded.
    pub fn num_rows(&self) -> (r: Option<u64>)
        ensures
            r == self.shape.nrow,
    {
        self.shape.num_rows()
    }

    /// Number of columns, if recorded.
    pub fn num_columns(&self) -> (r: Option<u64>)
        ensures
            r == self.shape.ncol,
    {
        self.shape.num_columns()
    }

    /// Number of stored entries, if recorded.
    pub fn num_non_zeros(&self) -> (r: Option<u64>)
        ensures
            r == self.shape.nnz,
    {
        self.shape.num_non_zeros()
    }

    /// Builds the column block of the 0-based coordinate list `entries` of an
    /// `nrow` by `ncol` matrix, then records the shape
    /// `(nrow, ncol, entries.len())`. Fails with `DimensionOutOfRange`, changing
    /// nothing, when an entry lies outside the matrix, and with
    /// `ShapeMismatch` when the shape conflicts with the recorded one.
    pub fn import_by_column(&mut self, nrow: u64, ncol: u64, entries: &Vec<Triplet>) -> (r: Result<(), MatrixError>)
        requires
            old(self).wf(),
            ncol < usize::MAX,
        ensures
            final(self).wf(),
            final(self).by_row == old(self).by_row,
            final(self).row_names == old(self).row_names,
            final(self).column_names == old(self).column_names,
            !entries_in_range(column_keyed(entries@), ncol as nat, nrow as nat) ==> {
                &&& r == Err::<(), MatrixError>(MatrixError::DimensionOutOfRange)
                &&& *final(self) == *old(self)
            },
            entries_in_range(column_keyed(entries@), ncol as nat, nrow as nat) ==> {
                let rec = record_spec(old(self).shape, nrow, ncol, entries@.len() as u64);
                &&& final(self).shape == rec.0
                &&& rec.1 matches Some(f) ==> r == Err::<(), MatrixError>(MatrixError::ShapeMismatch(f))
                    && final(self).by_column == old(self).by_column
                &&& rec.1 is None ==> r is Ok && (final(self).by_column matches Some(b) && b.holds(
                    column_keyed(entries@),
                ) && block_fits(b, entries@.len() as u64, ncol, nrow))
            },
    {
        let n = entries.len();
        let mut keyed: Vec<Entry> = Vec::new();
        let mut i: usize = 0;
        while i < n
            invariant
                n == entries@.len(),
                i <= n,
                keyed@ == column_keyed(entries@.take(i as int)),
            decreases n - i,
        {
            let t = entries[i];
            keyed.push((t.1, t.0, t.2));
            proof {
                assert(entries@.take(i + 1) =~= entries@.take(i as int).push(t));
                assert(keyed@ =~= column_keyed(entries@.take(i + 1)));
            }
            i = i + 1;
        }
        assert(entries@.take(n as int) =~= entries@);
        let b = match build_block(&keyed, ncol, nrow) {
            Ok(b) => b,
            Err(e) => return Err(e),
        };
        match self.shape.record_shape(nrow, ncol, n as u64) {
            Ok(()) => {},
            Err(e) => return Err(e),
        }
        self.by_column = Some(b);
        Ok(())
    }

    /// Builds the row block of the 0-based coordinate list `entries` of an
    /// `nrow` by `ncol` matrix, then records the shape
    /// `(nrow, ncol, entries.len())`. Fails as `import_by_column` does.
    pub fn import_by_row(&mut self, nrow: u64, ncol: u64, entries: &Vec<Triplet>) -> (r: Result<(), MatrixError>)
        requires
            old(self).wf(),
            nrow < usize::MAX,
        ensures
            final(self).wf(),
            final(self).by_column == old(self).by_column,
            final(self).row_names == old(self).row_names,
            final(self).column_names == old(self).column_names,
            !entries_in_range(row_keyed(entries@), nrow as nat, ncol as nat) ==> {
                &&& r == Err::<(), MatrixError>(MatrixError::DimensionOutOfRange)
                &&& *final(self) == *old(self)
            },
            entries_in_range(row_keyed(entries@), nrow as nat, ncol as nat) ==> {
                let rec = record_spec(old(self).shape, nrow, ncol, entries@.len() as u64);
                &&& final(self).shape == rec.0
                &&& rec.1 matches Some(f) ==> r == Err::<(), MatrixError>(MatrixError::ShapeMismatch(f))
                    && final(self).by_row == old(self).by_row
                &&& rec.1 is None ==> r is Ok && (final(self).by_row matches Some(b) && b.holds(
                    row_keyed(entries@),
                ) && block_fits(b, entries@.len() as u64, nrow, ncol))
            },
    {
        let b = match build_block(entries, nrow, ncol) {
            Ok(b) => b,
            Err(e) => return Err(e),
        };
        match self.shape.record_shape(nrow, ncol, entries.len() as u64) {
            Ok(()) => {},
            Err(e) => return Err(e),
        }
        self.by_row = Some(b);
        Ok(())
    }

    /// The entries of column `j` as `(row, 0, value)` triplets, with the
    /// matrix's row count and one output column. A column with an empty
    /// range, or one not below the column count, gives no triplet. Fails
    /// with `NotIndexed` when the column block was never built.
    pub fn read_by_single_column(&self, j: usize) -> (r: Result<(u64, u64, Vec<Triplet>), MatrixError>)
        requires
            self.wf(),
        ensures
            self.by_column is None ==> r == Err::<(u64, u64, Vec<Triplet>), MatrixError>(MatrixError::NotIndexed),
            self.by_column matches Some(b) ==> (r matches Ok(v) && v.0 == self.shape.nrow.unwrap() && v.1 == 1
                && v.2@ == read_spec(b, self.shape.ncol.unwrap() as nat, seq![j], true)),
    {
        match &self.by_column {
            None => Err(MatrixError::NotIndexed),
            Some(b) => {
                let (nrow, ncol, _nnz) = match self.shape.shape() {
                    Ok(s) => s,
                    Err(e) => return Err(e),
                };
                let mut out: Vec<Triplet> = Vec::new();
                push_segment(b, ncol, nrow, j, 0, true, &mut out);
                proof {
                    let req = seq![j];
                    assert(req.drop_last() =~= Seq::<usize>::empty());
                    assert(req[0] == j);
                    assert(read_spec(*b, ncol as nat, req.drop_last(), true) =~= Seq::<Triplet>::empty());
                    assert(read_spec(*b, ncol as nat, req, true) == read_spec(*b, ncol as nat, req.drop_last(), true)
                        + segment_spec(*b, ncol as nat, j as int, 0, true));
                    assert(out@ =~= read_spec(*b, ncol as nat, req, true));
                }
                Ok((nrow, 1, out))
            },
        }
    }

    /// The entries of the columns `columns`, in the order given, as
    /// `(row, q, value)` triplets where `q` is the column's position in
    /// `columns`, with the row count and the number of requested columns.
    /// Fails with `NotIndexed` when the column block was never built.
    pub fn read_by_columns(&self, columns: &Vec<usize>) -> (r: Result<(u64, u64, Vec<Triplet>), MatrixError>)
        requires
            self.wf(),
        ensures
            self.by_column is None ==> r == Err::<(u64, u64, Vec<Triplet>), MatrixError>(MatrixError::NotIndexed),
            self.by_column matches Some(b) ==> (r matches Ok(v) && v.0 == self.shape.nrow.unwrap()
                && v.1 == columns@.len() && v.2@ == read_spec(b, self.shape.ncol.unwrap() as nat, columns@, true)),
    {
        match &self.by_column {
            None => Err(MatrixError::NotIndexed),
            Some(b) => {
                let (nrow, ncol, _nnz) = match self.shape.shape() {
                    Ok(s) => s,
                    Err(e) => return Err(e),
                };
                let out = read_primary(b, ncol, nrow, columns, true);
                Ok((nrow, columns.len() as u64, out))
            },
        }
    }

    /// The entries of the rows `rows`, in the order given, as
    /// `(q, column, value)` triplets where `q` is the row's position in
    /// `rows`, with the number of requested rows and the column count.
    /// Fails with `NotIndexed` when the row block was never built.
    pub fn read_by_rows(&self, rows: &Vec<usize>) -> (r: Result<(u64, u64, Vec<Triplet>), MatrixError>)
        requires
            self.wf(),
        ensures
            self.by_row is None ==> r == Err::<(u64, u64, Vec<Triplet>), MatrixError>(MatrixError::NotIndexed),
            self.by_row matches Some(b) ==> (r matches Ok(v) && v.0 == rows@.len() && v.1 == self.shape.ncol.unwrap()
                && v.2@ == read_spec(b, self.shape.nrow.unwrap() as nat, rows@, false)),
    {
        match &self.by_row {
            None => Err(MatrixError::NotIndexed),
            Some(b) => {
                let (nrow, ncol, _nnz) = match self.shape.shape() {
                    Ok(s) => s,
                    Err(e) => return Err(e),
                };
                let out = read_primary(b, nrow, ncol, rows, false);
                Ok((rows.len() as u64, ncol, out))
            },
        }
    }

    /// The whole matrix as a 1-based coordinate list with its shape: the
    /// entries of each column in turn, in increasing column order. Fails
    /// with `IncompleteMetadata` when an attribute is unset, and with
    /// `NotIndexed` when the column block was never built.
    pub fn export_coordinates(&self) -> (r: Result<((u64, u64, u64), Vec<Triplet>), MatrixError>)
        requires
            self.wf(),
        ensures
            self.shape.complete() is None ==> r == Err::<((u64, u64, u64), Vec<Triplet>), MatrixError>(
                MatrixError::IncompleteMetadata,
            ),
            self.shape.complete() is Some && self.by_column is None ==> r == Err::<
                ((u64, u64, u64), Vec<Triplet>),
                MatrixError,
            >(MatrixError::NotIndexed),
            self.shape.complete() matches Some(s) ==> (self.by_column matches Some(b) ==> (r matches Ok(v)
                && v.0 == s && v.1@ == export_spec(b, s.1 as nat))),
    {
        let (nrow, ncol, nnz) = match self.shape.shape() {
            Ok(s) => s,
            Err(e) => return Err(e),
        };
        let b = match &self.by_column {
            None => return Err(MatrixError::NotIndexed),
            Some(b) => b,
        };
        let plen = b.indptr.len();
        let nc = ncol as usize;
        let mut raw: Vec<Triplet> = Vec::new();
        let mut j: usize = 0;
        while j < nc
            invariant
                b.wf(ncol as nat, nrow as nat),
                plen == ncol + 1,
                nc == ncol,
                j <= nc,
                raw@ == read_spec(*b, ncol as nat, iota(j as nat), true),
            decreases nc - j,
        {
            push_segment(b, ncol, nrow, j, j as u64, true, &mut raw);
            proof {
                assert(iota((j + 1) as nat).drop_last() =~= iota(j as nat));
            }
            j = j + 1;
        }
        proof {
            lemma_read_all(*b, ncol as nat, nrow as nat, ncol as nat);
        }
        let ghost rs = raw@;
        let mut out: Vec<Triplet> = Vec::new();
        let mut k: usize = 0;
        while k < raw.len()
            invariant
                raw@ == rs,
                b.wf(ncol as nat, nrow as nat),
                rs == read_spec(*b, ncol as nat, iota(ncol as nat), true),
                forall|m: int| 0 <= m < rs.len() ==> (#[trigger] rs[m]).0 == b.indices@[m] && rs[m].1 < ncol,
                rs.len() == b.indptr@[ncol as int],
                k <= rs.len(),
                out@ == rs.take(k as int).map_values(|t: Triplet| one_based(t)),
            decreases rs.len() - k,
        {
            let t = raw[k];
            assert(t == rs[k as int]);
            assert(t.0 < nrow);
            out.push((t.0 + 1, t.1 + 1, t.2));
            proof {
                assert(rs.take(k + 1) =~= rs.take(k as int).push(t));
                assert(out@ =~= rs.take(k + 1).map_values(|t: Triplet| one_based(t)));
            }
            k = k + 1;
        }
        assert(rs.take(rs.len() as int) =~= rs);
        Ok(((nrow, ncol, nnz), out))
    }

    /// Sets the row names, one per row.
    pub fn register_row_names(&mut self, names: Vec<String>)
        ensures
            final(self).row_names == Some(names),
            final(self).shape == old(self).shape,
            final(self).by_column == old(self).by_column,
            final(self).by_row == old(self).by_row,
            final(self).column_names == old(self).column_names,
    {
        self.row_names = Some(names);
    }

    /// Sets the column names, one per column.
    pub fn register_column_names(&mut self, names: Vec<String>)
        ensures
            final(self).column_names == Some(names),
            final(self).shape == old(self).shape,
            final(self).by_column == old(self).by_column,
            final(self).by_row == old(self).by_row,
            final(self).row_names == old(self).row_names,
    {
        self.column_names = Some(names);
    }

    /// The registered row names, if any.
    pub fn row_names(&self) -> (r: Option<&Vec<String>>)
        ensures
            self.row_names is None ==> r is None,
            self.row_names matches Some(v) ==> (r matches Some(w) && *w == v),
    {
        match &self.row_names {
            None => None,
            Some(v) => Some(v),
        }
    }

    /// The registered column names, if any.
    pub fn column_names(&self) -> (r: Option<&Vec<String>>)
        ensures
            self.column_names is None ==> r is None,
            self.column_names matches Some(v) ==> (r matches Some(w) && *w == v),
    {
        match &self.column_names {
            None => None,
            Some(v) => Some(v),
        }
    }

    /// Imports the 0-based coordinate list `entries` of an `nrow` by `ncol`
    /// matrix: builds the column block and, when `index_by_row` holds, the
    /// row block too, recording the shape with the number of entries. Fails
    /// with `DimensionOutOfRange`, changing nothing, when an entry lies
    /// outside the matrix, and with `ShapeMismatch` when the shape conflicts
    /// with the recorded one.
    pub fn import_entries(&mut self, nrow: u64, ncol: u64, entries: &Vec<Triplet>, index_by_row: bool) -> (r: Result<
        (),
        MatrixError,
    >)
        requires
            old(self).wf(),
            nrow < usize::MAX,
            ncol < usize::MAX,
        ensures
            final(self).wf(),
            ({
                let rec = record_spec(old(self).shape, nrow, ncol, entries@.len() as u64);
                &&& !entries_in_range(column_keyed(entries@), ncol as nat, nrow as nat) ==> r
                    == Err::<(), MatrixError>(MatrixError::DimensionOutOfRange) && *final(self) == *old(self)
                &&& entries_in_range(column_keyed(entries@), ncol as nat, nrow as nat) ==> {
                    &&& final(self).shape == rec.0
                    &&& rec.1 matches Some(f) ==> r == Err::<(), MatrixError>(MatrixError::ShapeMismatch(f))
                    &&& rec.1 is None ==> r is Ok && (final(self).by_column matches Some(b) && b.holds(
                        column_keyed(entries@),
                    ))
                    &&& rec.1 is None && index_by_row ==> (final(self).by_row matches Some(b) && b.holds(
                        row_keyed(entries@),
                    ))
                    &&& rec.1 is None && !index_by_row ==> final(self).by_row == old(self).by_row
                }
            }),
    {
        let ghost es = entries@;
        let ghost before = *self;
        match self.import_by_column(nrow, ncol, entries) {
            Ok(()) => {},
            Err(e) => return Err(e),
        }
        if index_by_row {
            proof {
                assert(entries_in_range(row_keyed(es), nrow as nat, ncol as nat)) by {
                    assert forall|k: int| 0 <= k < es.len() implies (#[trigger] row_keyed(es)[k]).0 < nrow
                        && row_keyed(es)[k].1 < ncol by {
                        assert(column_keyed(es)[k] == (es[k].1, es[k].0, es[k].2));
                    }
                }
                lemma_record_idempotent(before.shape, nrow, ncol, es.len() as u64);
            }
            match self.import_by_row(nrow, ncol, entries) {
                Ok(()) => {},
                Err(e) => return Err(e),
            }
        }
        Ok(())
    }

    /// Imports a parsed coordinate list whose values are `values`, as
    /// `import_entries` does. Fails with `MalformedSource`, changing nothing,
    /// when there are not as many values as positions.
    pub fn import_coordinates(&mut self, list: &CoordinateList, values: &Vec<u32>, index_by_row: bool) -> (r: Result<
        (),
        MatrixError,
    >)
        requires
            old(self).wf(),
            list.nrow < usize::MAX,
            list.ncol < usize::MAX,
        ensures
            final(self).wf(),
            values@.len() != list.positions@.len() ==> r == Err::<(), MatrixError>(MatrixError::MalformedSource)
                && *final(self) == *old(self),
            values@.len() == list.positions@.len() ==> {
                let entries = listed_entries(*list, values@);
                let rec = record_spec(old(self).shape, list.nrow, list.ncol, entries.len() as u64);
                &&& !entries_in_range(column_keyed(entries), list.ncol as nat, list.nrow as nat) ==> r
                    == Err::<(), MatrixError>(MatrixError::DimensionOutOfRange) && *final(self) == *old(self)
                &&& entries_in_range(column_keyed(entries), list.ncol as nat, list.nrow as nat) ==> {
                    &&& final(self).shape == rec.0
                    &&& rec.1 matches Some(f) ==> r == Err::<(), MatrixError>(MatrixError::ShapeMismatch(f))
                    &&& rec.1 is None ==> r is Ok && (final(self).by_column matches Some(b) && b.holds(
                        column_keyed(entries),
                    ))
                    &&& rec.1 is None && index_by_row ==> (final(self).by_row matches Some(b) && b.holds(
                        row_keyed(entries),
                    ))
                    &&& rec.1 is None && !index_by_row ==> final(self).by_row == old(self).by_row
                }
            },
    {
        let entries = match list_entries(list, values) {
            Ok(v) => v,
            Err(e) => return Err(e),
        };
        self.import_entries(list.nrow, list.ncol, &entries, index_by_row)
    }
}

} // verus!
