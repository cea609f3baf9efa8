use vstd::prelude::*;
use crate::block::{IndexBlock, indptr_wf};
use crate::error::MatrixError;

verus! {

/// A stored entry as the accessors hand it out: row, column, encoded value.
pub type Triplet = (u64, u64, u32);

/// The triplet for position `k` of `b`, whose primary label is `label`. In a
/// column block the primary index is the column; in a row block, the row.
pub open spec fn triplet_at(b: IndexBlock, k: int, label: int, by_column: bool) -> Triplet {
    if by_column {
        (b.indices@[k], label as u64, b.data@[k])
    } else {
        (label as u64, b.indices@[k], b.data@[k])
    }
}

/// The triplets of primary index `i`, labelled `label`; none when `i` is not
/// below `pdim`.
pub open spec fn segment_spec(b: IndexBlock, pdim: nat, i: int, label: int, by_column: bool) -> Seq<Triplet> {
    if 0 <= i < pdim {
        let start = b.indptr@[i] as int;
        let end = b.indptr@[i + 1] as int;
        Seq::new((end - start) as nat, |t: int| triplet_at(b, start + t, label, by_column))
    } else {
        Seq::empty()
    }
}

/// The primary indices `0..n`, in order.
pub open spec fn iota(n: nat) -> Seq<usize> {
    Seq::new(n, |j: int| j as usize)
}

/// What reading the primary indices `req` returns: the triplets of each, in
/// the order of `req`, with the one at position `q` of `req` labelled `q`.
pub open spec fn read_spec(b: IndexBlock, pdim: nat, req: Seq<usize>, by_column: bool) -> Seq<Triplet>
    decreases req.len(),
{
    if req.len() == 0 {
        Seq::empty()
    } else {
        let q = req.len() - 1;
        read_spec(b, pdim, req.drop_last(), by_column) + segment_spec(b, pdim, req[q] as int, q, by_column)
    }
}

/// Appends the triplets of primary index `i`, labelled `label`, to `out`.
/// An index whose range is empty, or which is not below `pdim`, adds nothing.
pub fn push_segment(b: &IndexBlock, pdim: u64, sdim: u64, i: usize, label: u64, by_column: bool, out: &mut Vec<Triplet>)
    requires
        b.wf(pdim as nat, sdim as nat),
    ensures
        final(out)@ == old(out)@ + segment_spec(*b, pdim as nat, i as int, label as int, by_column),
{
    let plen = b.indptr.len();
    let nnz = b.indices.len();
    if (i as u64) < pdim {
        assert(b.indptr@[i as int] <= b.indptr@[i + 1]);
        assert(b.indptr@[i + 1] <= b.indptr@[pdim as int]);
        let start = b.indptr[i] as usize;
        let end = b.indptr[i + 1] as usize;
        let ghost before = out@;
        let ghost lbl = label as int;
        let mut k: usize = start;
        while k < end
            invariant
                b.wf(pdim as nat, sdim as nat),
                start <= k <= end,
                end <= b.indices@.len(),
                start == b.indptr@[i as int],
                out@ == before + Seq::new((k - start) as nat, |t: int| triplet_at(*b, start + t, lbl, by_column)),
                lbl == label,
            decreases end - k,
        {
            let x = b.data[k];
            let s = b.indices[k];
            if by_column {
                out.push((s, label, x));
            } else {
                out.push((label, s, x));
            }
            proof {
                assert(out@.last() == triplet_at(*b, k as int, lbl, by_column));
                assert(out@ =~= before + Seq::new((k + 1 - start) as nat, |t: int| triplet_at(*b, start + t, lbl, by_column)));
            }
            k = k + 1;
        }
        assert(out@ =~= before + segment_spec(*b, pdim as nat, i as int, label as int, by_column));
    } else {
        assert(out@ =~= old(out)@ + segment_spec(*b, pdim as nat, i as int, label as int, by_column));
    }
}

/// The triplets of the primary indices `req`, in the order given, the one at
/// position `q` of `req` labelled `q`.
pub fn read_primary(b: &IndexBlock, pdim: u64, sdim: u64, req: &Vec<usize>, by_column: bool) -> (r: Vec<Triplet>)
    requires
        b.wf(pdim as nat, sdim as nat),
    ensures
        r@ == read_spec(*b, pdim as nat, req@, by_column),
{
    let mut out: Vec<Triplet> = Vec::new();
    let mut q: usize = 0;
    while q < req.len()
        invariant
            b.wf(pdim as nat, sdim as nat),
            q <= req@.len(),
            out@ == read_spec(*b, pdim as nat, req@.take(q as int), by_column),
        decreases req@.len() - q,
    {
        push_segment(b, pdim, sdim, req[q], q as u64, by_column, &mut out);
        proof {
            assert(req@.take(q + 1).drop_last() =~= req@.take(q as int));
        }
        q = q + 1;
    }
    assert(req@.take(req@.len() as int) =~= req@);
    out
}

/// The range `[indptr[i], indptr[i + 1])` of primary index `i`, or `None`
/// when `i` is not below `pdim`.
pub fn segment_range(indptr: &Vec<u64>, pdim: u64, nnz: u64, i: usize) -> (r: Option<(u64, u64)>)
    requires
        indptr_wf(indptr@, pdim as nat, nnz as nat),
    ensures
        i < pdim ==> r == Some((indptr@[i as int], indptr@[i + 1])),
        i >= pdim ==> r is None,
        r matches Some(p) ==> p.0 <= p.1 <= nnz,
{
    let plen = indptr.len();
    if (i as u64) < pdim {
        assert(indptr@[i as int] <= indptr@[i + 1]);
        assert(indptr@[i + 1] <= indptr@[pdim as int]);
        Some((indptr[i], indptr[i + 1]))
    } else {
        None
    }
}

/// The triplets made of the slices `indices` and `data` of one primary
/// index, labelled `label`.
pub open spec fn slice_triplets(label: u64, indices: Seq<u64>, data: Seq<u32>, by_column: bool) -> Seq<Triplet> {
    Seq::new(
        indices.len(),
        |t: int|
            if by_column {
                (indices[t], label, data[t])
            } else {
                (label, indices[t], data[t])
            },
    )
}

/// Appends the triplets of one primary index, read from a store as the
/// slices `indices` and `data` of its range, to `out`. Fails with
/// `MalformedSource`, appending nothing, when the slices differ in length.
pub fn emit_slices(label: u64, indices: &Vec<u64>, data: &Vec<u32>, by_column: bool, out: &mut Vec<Triplet>) -> (r:
    Result<(), MatrixError>)
    ensures
        indices@.len() != data@.len() ==> r == Err::<(), MatrixError>(MatrixError::MalformedSource) && final(out)@
            == old(out)@,
        indices@.len() == data@.len() ==> r is Ok && final(out)@ == old(out)@ + slice_triplets(
            label,
            indices@,
            data@,
            by_column,
        ),
{
    let n = indices.len();
    if data.len() != n {
        return Err(MatrixError::MalformedSource);
    }
    let ghost before = out@;
    let mut k: usize = 0;
    while k < n
        invariant
            n == indices@.len(),
            n == data@.len(),
            k <= n,
            out@ == before + slice_triplets(label, indices@, data@, by_column).take(k as int),
        decreases n - k,
    {
        if by_column {
            out.push((indices[k], label, data[k]));
        } else {
            out.push((label, indices[k], data[k]));
        }
        proof {
            let full = slice_triplets(label, indices@, data@, by_column);
            assert(full.take(k + 1) =~= full.take(k as int).push(full[k as int]));
        }
        k = k + 1;
    }
    assert(slice_triplets(label, indices@, data@, by_column).take(n as int) =~= slice_triplets(
        label,
        indices@,
        data@,
        by_column,
    ));
    Ok(())
}

/// Emitting the slices of a block's range for primary index `i` gives what
/// reading `i` from the whole block gives.
pub proof fn lemma_slices_match_segment(b: IndexBlock, pdim: nat, sdim: nat, i: int, label: u64, by_column: bool)
    requires
        b.wf(pdim, sdim),
        0 <= i < pdim,
    ensures
        ({
            let (s, e) = (b.indptr@[i] as int, b.indptr@[i + 1] as int);
            slice_triplets(label, b.indices@.subrange(s, e), b.data@.subrange(s, e), by_column)
                == segment_spec(b, pdim, i, label as int, by_column)
        }),
{
    let (s, e) = (b.indptr@[i] as int, b.indptr@[i + 1] as int);
    assert(b.indptr@[i] <= b.indptr@[i + 1]);
    assert(b.indptr@[i + 1] <= b.indptr@[pdim as int]);
    assert(slice_triplets(label, b.indices@.subrange(s, e), b.data@.subrange(s, e), by_column) =~= segment_spec(
        b,
        pdim,
        i,
        label as int,
        by_column,
    ));
}

/// Reading the columns `0..j` of a column block in order visits positions
/// `0..indptr[j]` in order, each labelled with the column it belongs to.
pub proof fn lemma_read_all(b: IndexBlock, pdim: nat, sdim: nat, j: nat)
    requires
        b.wf(pdim, sdim),
        j <= pdim,
        pdim <= usize::MAX,
    ensures
        ({
            let rs = read_spec(b, pdim, iota(j), true);
            &&& rs.len() == b.indptr@[j as int]
            &&& forall|k: int| 0 <= k < rs.len() ==> {
                &&& (#[trigger] rs[k]).0 == b.indices@[k]
                &&& rs[k].2 == b.data@[k]
                &&& rs[k].1 < j
                &&& b.in_segment(rs[k].1 as int, k)
            }
        }),
    decreases j,
{
    if j > 0 {
        lemma_read_all(b, pdim, sdim, (j - 1) as nat);
        assert(iota(j).drop_last() =~= iota((j - 1) as nat));
        assert(b.indptr@[j - 1] <= b.indptr@[j as int]);
        let prev = read_spec(b, pdim, iota((j - 1) as nat), true);
        let seg = segment_spec(b, pdim, j - 1, j - 1, true);
        let rs = read_spec(b, pdim, iota(j), true);
        assert(iota(j)[j - 1] as int == j - 1);
        assert(rs == prev + seg);
        assert forall|k: int| 0 <= k < rs.len() implies {
            &&& (#[trigger] rs[k]).0 == b.indices@[k]
            &&& rs[k].2 == b.data@[k]
            &&& rs[k].1 < j
            &&& b.in_segment(rs[k].1 as int, k)
        } by {
            if k >= prev.len() {
                assert(rs[k] == seg[k - prev.len()]);
                assert(rs[k] == triplet_at(b, k, j - 1, true));
            } else {
                assert(rs[k] == prev[k]);
            }
        }
    }
}

} // verus!
