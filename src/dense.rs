use vstd::prelude::*;
use vstd::arithmetic::div_mod::{lemma_fundamental_div_mod_converse_div, lemma_fundamental_div_mod_converse_mod};
use crate::access::Triplet;
use crate::error::MatrixError;

verus! {

/// The value encodes a zero: `+0.0` or `-0.0`.
pub open spec fn is_zero_value(x: u32) -> bool {
    x == 0 || x == 0x8000_0000
}

/// Whether the encoded value `x` is a zero.
pub fn is_zero(x: u32) -> (r: bool)
    ensures
        r == is_zero_value(x),
{
    x == 0 || x == 0x8000_0000
}

/// The (row, column) of cell `k` of a dense `nrow` by `ncol` matrix laid out
/// row after row, or column after column when `column_major` holds.
pub open spec fn cell_position(k: int, nrow: nat, ncol: nat, column_major: bool) -> (u64, u64) {
    if column_major {
        ((k % (nrow as int)) as u64, (k / (nrow as int)) as u64)
    } else {
        ((k / (ncol as int)) as u64, (k % (ncol as int)) as u64)
    }
}

/// The non-zero cells among the first `k` cells, in layout order, as
/// 0-based triplets.
pub open spec fn dense_prefix(cells: Seq<u32>, nrow: nat, ncol: nat, column_major: bool, k: int) -> Seq<Triplet>
    decreases k,
{
    if k <= 0 {
        Seq::empty()
    } else {
        let prev = dense_prefix(cells, nrow, ncol, column_major, k - 1);
        if is_zero_value(cells[k - 1]) {
            prev
        } else {
            let p = cell_position(k - 1, nrow, ncol, column_major);
            prev.push((p.0, p.1, cells[k - 1]))
        }
    }
}

/// The non-zero cells of a dense `nrow` by `ncol` matrix as a 0-based
/// coordinate list, in layout order. Fails with `MalformedSource` when
/// there are not `nrow * ncol` cells.
pub fn dense_entries(nrow: u64, ncol: u64, cells: &Vec<u32>, column_major: bool) -> (r: Result<Vec<Triplet>, MatrixError>)
    ensures
        cells@.len() != nrow * ncol ==> r == Err::<Vec<Triplet>, MatrixError>(MatrixError::MalformedSource),
        cells@.len() == nrow * ncol ==> (r matches Ok(v) && v@ == dense_prefix(
            cells@,
            nrow as nat,
            ncol as nat,
            column_major,
            cells@.len() as int,
        )),
{
    let n = cells.len();
    match nrow.checked_mul(ncol) {
        None => {
            return Err(MatrixError::MalformedSource);
        },
        Some(total) => {
            if total != n as u64 {
                return Err(MatrixError::MalformedSource);
            }
        },
    }
    let inner = if column_major { nrow } else { ncol };
    let mut out: Vec<Triplet> = Vec::new();
    let mut k: usize = 0;
    let mut outer: u64 = 0;
    let mut pos: u64 = 0;
    proof {
        if n > 0 {
            assert(inner > 0) by (nonlinear_arith)
                requires
                    n > 0,
                    n == nrow * ncol,
                    inner == nrow || inner == ncol,
            ;
        }
    }
    while k < n
        invariant
            n == cells@.len(),
            n == nrow * ncol,
            inner == if column_major { nrow } else { ncol },
            k <= n,
            k < n ==> pos < inner,
            k == outer * inner + pos,
            out@ == dense_prefix(cells@, nrow as nat, ncol as nat, column_major, k as int),
        decreases n - k,
    {
        proof {
            assert(inner > 0) by (nonlinear_arith)
                requires
                    k < n,
                    n == nrow * ncol,
                    inner == nrow || inner == ncol,
            ;
            lemma_fundamental_div_mod_converse_div(k as int, inner as int, outer as int, pos as int);
            lemma_fundamental_div_mod_converse_mod(k as int, inner as int, outer as int, pos as int);
            assert(outer <= k) by (nonlinear_arith)
                requires
                    k == outer * inner + pos,
                    inner > 0,
                    pos >= 0,
            ;
        }
        let ghost k_before = k as int;
        let ghost outer_before = outer as int;
        let ghost pos_before = pos as int;
        let x = cells[k];
        if !is_zero(x) {
            if column_major {
                out.push((pos, outer, x));
            } else {
                out.push((outer, pos, x));
            }
        }
        k = k + 1;
        if pos + 1 == inner {
            pos = 0;
            outer = outer + 1;
        } else {
            pos = pos + 1;
        }
        proof {
            assert(k == outer * inner + pos) by (nonlinear_arith)
                requires
                    k == k_before + 1,
                    k_before == outer_before * inner + pos_before,
                    (pos_before + 1 == inner && pos == 0 && outer == outer_before + 1) || (pos == pos_before + 1 && outer == outer_before),
            ;
        }
    }
    Ok(out)
}

} // verus!
