use vstd::prelude::*;
use crate::access::{Triplet, iota, lemma_read_all, read_spec, segment_spec};
use crate::block::IndexBlock;
use crate::matrix::{SparseMatrix, block_fits, column_keyed, export_spec, one_based};
use crate::shape::record_spec;

verus! {

/// `perm` maps `0..n` one to one onto `0..n`.
pub open spec fn is_permutation(perm: Seq<int>, n: nat) -> bool {
    &&& perm.len() == n
    &&& forall|k: int| 0 <= k < n ==> 0 <= #[trigger] perm[k] < n
    &&& forall|k: int, l: int| 0 <= k < l < n ==> #[trigger] perm[k] != #[trigger] perm[l]
}

/// `out` lists the elements of `input`, each once, in some order.
pub open spec fn same_entries(out: Seq<Triplet>, input: Seq<Triplet>) -> bool {
    exists|perm: Seq<int>| is_permutation(perm, input.len()) && out.len() == input.len() && forall|k: int|
        0 <= k < out.len() ==> #[trigger] out[k] == input[perm[k]]
}

/// A position of a well-formed block lies in the range of one primary index
/// only.
pub proof fn lemma_segment_unique(b: IndexBlock, pdim: nat, sdim: nat, p: int, q: int, k: int)
    requires
        b.wf(pdim, sdim),
        b.in_segment(p, k),
        b.in_segment(q, k),
    ensures
        p == q,
{
    if p < q {
        assert(b.indptr@[p + 1] <= b.indptr@[q]);
    } else if q < p {
        assert(b.indptr@[q + 1] <= b.indptr@[p]);
    }
}

/// Importing a coordinate list by column and exporting the matrix gives
/// back the shape `(nrow, ncol, nnz)` that was imported and the same entries,
/// each once, now 1-based and in column-major order.
pub proof fn lemma_round_trip(before: SparseMatrix, after: SparseMatrix, nrow: u64, ncol: u64, entries: Seq<Triplet>)
    requires
        ncol < usize::MAX,
        after.wf(),
        record_spec(before.shape, nrow, ncol, entries.len() as u64).1 is None,
        after.shape == record_spec(before.shape, nrow, ncol, entries.len() as u64).0,
        after.by_column matches Some(b) && b.holds(column_keyed(entries)) && block_fits(
            b,
            entries.len() as u64,
            ncol,
            nrow,
        ),
    ensures
        after.shape.complete() == Some((nrow, ncol, entries.len() as u64)),
        same_entries(
            export_spec(after.by_column.unwrap(), ncol as nat),
            entries.map_values(|t: Triplet| one_based(t)),
        ),
{
    let b = after.by_column.unwrap();
    let keyed = column_keyed(entries);
    let perm = choose|perm: Seq<int>| b.arranges(keyed, perm);
    lemma_read_all(b, ncol as nat, nrow as nat, ncol as nat);
    let rs = read_spec(b, ncol as nat, iota(ncol as nat), true);
    let out = export_spec(b, ncol as nat);
    let input = entries.map_values(|t: Triplet| one_based(t));
    assert forall|k: int| 0 <= k < out.len() implies #[trigger] out[k] == input[perm[k]] by {
        let e = keyed[perm[k]];
        lemma_segment_unique(b, ncol as nat, nrow as nat, rs[k].1 as int, e.0 as int, k);
        assert(rs[k] == entries[perm[k]]);
    }
    assert(is_permutation(perm, input.len()));
}

/// In a well-formed matrix, each built block's index pointers start at zero,
/// end at the number of non-zeros and never decrease, and each stored
/// secondary index lies below the other dimension: row indices below the
/// row count in the column block, column indices below the column count in
/// the row block.
pub proof fn lemma_blocks_well_formed(m: SparseMatrix)
    requires
        m.wf(),
    ensures
        m.by_column matches Some(b) ==> ({
            let (nrow, ncol, nnz) = m.shape.complete().unwrap();
            &&& b.indptr@[0] == 0
            &&& b.indptr@[ncol as int] == nnz
            &&& forall|i: int, j: int| 0 <= i <= j <= ncol ==> #[trigger] b.indptr@[i] <= #[trigger] b.indptr@[j]
            &&& forall|k: int| 0 <= k < nnz ==> #[trigger] b.indices@[k] < nrow
        }),
        m.by_row matches Some(b) ==> ({
            let (nrow, ncol, nnz) = m.shape.complete().unwrap();
            &&& b.indptr@[0] == 0
            &&& b.indptr@[nrow as int] == nnz
            &&& forall|i: int, j: int| 0 <= i <= j <= nrow ==> #[trigger] b.indptr@[i] <= #[trigger] b.indptr@[j]
            &&& forall|k: int| 0 <= k < nnz ==> #[trigger] b.indices@[k] < ncol
        }),
{
}

/// A primary index whose range is empty reads as no triplets, whatever its
/// label and orientation.
pub proof fn lemma_empty_range(b: IndexBlock, pdim: nat, sdim: nat, i: usize, by_column: bool)
    requires
        b.wf(pdim, sdim),
        i < pdim,
        b.indptr@[i as int] == b.indptr@[i + 1],
    ensures
        read_spec(b, pdim, seq![i], by_column).len() == 0,
{
    let req = seq![i];
    assert(req.drop_last() =~= Seq::<usize>::empty());
    assert(req[0] == i);
    assert(read_spec(b, pdim, req.drop_last(), by_column).len() == 0);
    assert(segment_spec(b, pdim, i as int, 0, by_column).len() == 0);
    assert(read_spec(b, pdim, req, by_column) == read_spec(b, pdim, req.drop_last(), by_column)
        + segment_spec(b, pdim, i as int, 0, by_column));
}

} // verus!
