use vstd::prelude::*;
use vstd::seq_lib::*;
use crate::error::MatrixError;

verus! {

/// An entry before indexing: primary position, secondary position, and the
/// encoded value.
pub type Entry = (u64, u64, u32);

/// A sort key: primary position, secondary position, and the entry's
/// position in the input, which breaks ties.
pub type SortKey = (u64, u64, u64);

/// Lexicographic order of sort keys, the order std gives tuples.
pub open spec fn key_le(a: SortKey, b: SortKey) -> bool {
    a.0 < b.0 || (a.0 == b.0 && (a.1 < b.1 || (a.1 == b.1 && a.2 <= b.2)))
}

/// `s` is in ascending lexicographic order.
pub open spec fn keys_sorted(s: Seq<SortKey>) -> bool {
    forall|i: int, j: int| 0 <= i < j < s.len() ==> key_le(#[trigger] s[i], #[trigger] s[j])
}

/// Relies on `slice::sort_unstable`: it rearranges the elements into
/// ascending order, and tuples are ordered lexicographically.
#[verifier::external_body]
fn sort_keys(v: &mut Vec<SortKey>)
    ensures
        final(v)@.to_multiset() == old(v)@.to_multiset(),
        keys_sorted(final(v)@),
{
    v.sort_unstable();
}

/// One orientation of a sparse matrix: `indptr[i]..indptr[i + 1]` is the
/// range of positions in `data` and `indices` that belong to primary index
/// `i`; `indices` holds the secondary index of each entry.
#[derive(Clone, Debug)]
pub struct IndexBlock {
    pub data: Vec<u32>,
    pub indices: Vec<u64>,
    pub indptr: Vec<u64>,
}

/// `indptr` describes `nnz` entries over `pdim` primary indices: it starts at
/// zero, ends at `nnz`, and never decreases.
pub open spec fn indptr_wf(indptr: Seq<u64>, pdim: nat, nnz: nat) -> bool {
    &&& indptr.len() == pdim + 1
    &&& indptr[0] == 0
    &&& indptr[pdim as int] == nnz
    &&& forall|i: int, j: int| 0 <= i <= j <= pdim ==> #[trigger] indptr[i] <= #[trigger] indptr[j]
}

impl IndexBlock {
    /// Number of stored entries.
    pub open spec fn nnz(&self) -> nat {
        self.indices@.len()
    }

    /// The block describes a `pdim` by `sdim` orientation: a well-formed
    /// `indptr`, one value per index, and every secondary index below `sdim`.
    pub open spec fn wf(&self, pdim: nat, sdim: nat) -> bool {
        &&& indptr_wf(self.indptr@, pdim, self.nnz())
        &&& self.data@.len() == self.indices@.len()
        &&& forall|k: int| 0 <= k < self.nnz() ==> #[trigger] self.indices@[k] < sdim
    }

    /// Position `k` of the block lies in the range of primary index `p`.
    pub open spec fn in_segment(&self, p: int, k: int) -> bool {
        &&& 0 <= p
        &&& p + 1 < self.indptr@.len()
        &&& self.indptr@[p] <= k < self.indptr@[p + 1]
    }

    /// The block holds the entries of `entries`, where position `k` holds the
    /// entry `perm[k]`, each entry exactly once, ordered by primary index,
    /// then secondary index, then position in `entries`.
    pub open spec fn arranges(&self, entries: Seq<Entry>, perm: Seq<int>) -> bool {
        &&& perm.len() == entries.len()
        &&& self.nnz() == entries.len()
        &&& forall|k: int| 0 <= k < perm.len() ==> 0 <= #[trigger] perm[k] < entries.len()
        &&& forall|k: int, l: int| 0 <= k < l < perm.len() ==> #[trigger] perm[k] != #[trigger] perm[l]
        &&& forall|k: int| 0 <= k < perm.len() ==> {
            let e = #[trigger] entries[perm[k]];
            &&& self.indices@[k] == e.1
            &&& self.data@[k] == e.2
            &&& self.in_segment(e.0 as int, k)
        }
        &&& forall|k: int, l: int| 0 <= k < l < perm.len() ==> {
            let a = entries[#[trigger] perm[k]];
            let b = entries[#[trigger] perm[l]];
            a.0 < b.0 || (a.0 == b.0 && (a.1 < b.1 || (a.1 == b.1 && perm[k] < perm[l])))
        }
    }
}

impl IndexBlock {
    /// The block holds exactly `entries`, in the order `arranges` describes.
    pub open spec fn holds(&self, entries: Seq<Entry>) -> bool {
        exists|perm: Seq<int>| #[trigger] self.arranges(entries, perm)
    }
}

/// Every entry lies inside a `pdim` by `sdim` orientation.
pub open spec fn entries_in_range(entries: Seq<Entry>, pdim: nat, sdim: nat) -> bool {
    forall|k: int| 0 <= k < entries.len() ==> (#[trigger] entries[k]).0 < pdim && entries[k].1 < sdim
}

/// The sort key of entry `j` of `entries`.
pub open spec fn key_of(entries: Seq<Entry>, j: int) -> SortKey {
    (entries[j].0, entries[j].1, j as u64)
}

/// Builds the index block of `entries` for a `pdim` by `sdim` orientation:
/// the entries are stably ordered by primary and then secondary index, and
/// `indptr` holds the prefix sums of the per-primary counts. Fails with
/// `DimensionOutOfRange` when an entry lies outside the orientation.
pub fn build_block(entries: &Vec<Entry>, pdim: u64, sdim: u64) -> (r: Result<IndexBlock, MatrixError>)
    requires
        pdim < usize::MAX,
    ensures
        r is Err <==> !entries_in_range(entries@, pdim as nat, sdim as nat),
        r is Err ==> r == Err::<IndexBlock, MatrixError>(MatrixError::DimensionOutOfRange),
        r matches Ok(b) ==> b.wf(pdim as nat, sdim as nat),
        r matches Ok(b) ==> b.holds(entries@),
{
    let n = entries.len();
    let mut keys: Vec<SortKey> = Vec::new();
    let mut j: usize = 0;
    while j < n
        invariant
            n == entries@.len(),
            j <= n,
            keys@.len() == j,
            forall|i: int| 0 <= i < j ==> #[trigger] keys@[i] == key_of(entries@, i),
            forall|i: int| 0 <= i < j ==> (#[trigger] entries@[i]).0 < pdim && entries@[i].1 < sdim,
        decreases n - j,
    {
        let e = entries[j];
        if e.0 >= pdim || e.1 >= sdim {
            return Err(MatrixError::DimensionOutOfRange);
        }
        keys.push((e.0, e.1, j as u64));
        j = j + 1;
    }
    let ghost unsorted = keys@;
    proof {
        assert(unsorted.no_duplicates()) by {
            assert forall|a: int, b: int| 0 <= a < unsorted.len() && 0 <= b < unsorted.len() && a != b
                implies unsorted[a] != unsorted[b] by {
                assert(unsorted[a].2 == a as u64);
                assert(unsorted[b].2 == b as u64);
            }
        }
        unsorted.lemma_multiset_has_no_duplicates();
    }
    sort_keys(&mut keys);
    let ghost s = keys@;
    proof {
        broadcast use group_to_multiset_ensures;
        s.lemma_multiset_has_no_duplicates_conv();
        assert forall|k: int| 0 <= k < s.len() implies 0 <= (#[trigger] s[k]).2 < n && s[k] == key_of(
            entries@,
            s[k].2 as int,
        ) by {
            assert(s.to_multiset().count(s[k]) > 0);
            assert(unsorted.contains(s[k]));
            let i = choose|i: int| 0 <= i < unsorted.len() && unsorted[i] == s[k];
            assert(unsorted[i] == key_of(entries@, i));
        }
    }
    assert(s.len() == n) by {
        broadcast use group_to_multiset_ensures;
        assert(s.len() == s.to_multiset().len());
        assert(unsorted.len() == unsorted.to_multiset().len());
    }
    let mut indices: Vec<u64> = Vec::new();
    let mut data: Vec<u32> = Vec::new();
    let mut k: usize = 0;
    while k < n
        invariant
            keys@ == s,
            s.len() == n,
            n == entries@.len(),
            k <= n,
            indices@.len() == k,
            data@.len() == k,
            forall|m: int| 0 <= m < s.len() ==> 0 <= (#[trigger] s[m]).2 < n && s[m] == key_of(
                entries@,
                s[m].2 as int,
            ),
            forall|m: int| 0 <= m < k ==> #[trigger] indices@[m] == s[m].1 && data@[m] == entries@[s[m].2 as int].2,
            entries_in_range(entries@, pdim as nat, sdim as nat),
        decreases n - k,
    {
        let key = keys[k];
        assert(key == s[k as int]);
        indices.push(key.1);
        data.push(entries[key.2 as usize].2);
        k = k + 1;
    }
    let pd = pdim as usize;
    let mut indptr: Vec<u64> = Vec::new();
    let mut p: usize = 0;
    let mut k: usize = 0;
    while p <= pd
        invariant
            keys@ == s,
            s.len() == n,
            n == entries@.len(),
            pd == pdim,
            pd < usize::MAX,
            keys_sorted(s),
            forall|m: int| 0 <= m < s.len() ==> 0 <= (#[trigger] s[m]).2 < n && s[m] == key_of(
                entries@,
                s[m].2 as int,
            ),
            p <= pd + 1,
            indptr@.len() == p,
            k <= n,
            forall|m: int| 0 <= m < k ==> (#[trigger] s[m]).0 < p,
            p > 0 ==> indptr@[p - 1] == k,
            forall|i: int| 0 <= i < p ==> #[trigger] indptr@[i] <= k,
            forall|i: int, j: int| 0 <= i <= j < p ==> #[trigger] indptr@[i] <= #[trigger] indptr@[j],
            forall|i: int, m: int| 0 <= i < p && 0 <= m < n ==> (m < #[trigger] indptr@[i] <==> (#[trigger] s[m]).0 < i),
            indices@.len() == n,
            data@.len() == n,
            forall|m: int| 0 <= m < n ==> #[trigger] indices@[m] == s[m].1 && data@[m] == entries@[s[m].2 as int].2,
            entries_in_range(entries@, pdim as nat, sdim as nat),
        decreases pd + 1 - p,
    {
        while k < n && keys[k].0 < p as u64
            invariant
                keys@ == s,
                s.len() == n,
                k <= n,
                forall|m: int| 0 <= m < k ==> (#[trigger] s[m]).0 < p,
            decreases n - k,
        {
            k = k + 1;
        }
        proof {
            assert forall|m: int| 0 <= m < n implies (m < k <==> (#[trigger] s[m]).0 < p) by {
                if m >= k {
                    assert(key_le(s[k as int], s[m]) || m == k);
                }
            }
        }
        indptr.push(k as u64);
        p = p + 1;
    }
    let ghost perm = Seq::new(n as nat, |k: int| s[k].2 as int);
    let b = IndexBlock { data, indices, indptr };
    proof {
        assert(b.indptr@[0] == 0) by {
            if b.indptr@[0] > 0 {
                assert(s[0].0 < 0);
            }
        }
        assert(b.indptr@[pdim as int] == n) by {
            if b.indptr@[pdim as int] < n {
                let m = b.indptr@[pdim as int] as int;
                assert(entries@[s[m].2 as int].0 < pdim);
            }
        }
        assert forall|k: int| 0 <= k < perm.len() implies {
            let e = #[trigger] entries@[perm[k]];
            &&& b.indices@[k] == e.1
            &&& b.data@[k] == e.2
            &&& b.in_segment(e.0 as int, k)
        } by {
            let e = entries@[perm[k]];
            assert(perm[k] == s[k].2 as int);
            assert(s[k] == key_of(entries@, perm[k]));
            assert(e.0 < pdim);
            assert(!(k < b.indptr@[e.0 as int]));
            assert(k < b.indptr@[e.0 + 1]);
            assert(b.indices@[k] == e.1);
            assert(b.data@[k] == e.2);
            assert(b.in_segment(e.0 as int, k));
        }
        assert forall|k: int, l: int| 0 <= k < l < perm.len() implies #[trigger] perm[k] != #[trigger] perm[l] by {
            assert(s[k] != s[l]);
        }
        assert forall|k: int, l: int| 0 <= k < l < perm.len() implies {
            let a = entries@[#[trigger] perm[k]];
            let c = entries@[#[trigger] perm[l]];
            a.0 < c.0 || (a.0 == c.0 && (a.1 < c.1 || (a.1 == c.1 && perm[k] < perm[l])))
        } by {
            assert(key_le(s[k], s[l]));
            assert(s[k] != s[l]);
        }
        assert forall|k: int| 0 <= k < b.nnz() implies #[trigger] b.indices@[k] < sdim by {
            assert(s[k] == key_of(entries@, s[k].2 as int));
        }
        assert(b.wf(pdim as nat, sdim as nat));
        assert(b.arranges(entries@, perm));
        assert(b.holds(entries@));
        assert(entries_in_range(entries@, pdim as nat, sdim as nat));
    }
    Ok(b)
}

} // verus!
