//! The dissimilarity-matrix interface and a lower-triangular matrix.

use vstd::prelude::*;

verus! {

/// A square dissimilarity matrix, read one entry at a time.
pub trait ArrayAdapter {
    /// The number of objects (rows and columns).
    spec fn size(&self) -> nat;

    /// The dissimilarity between objects `i` and `j`.
    spec fn dist(&self, i: int, j: int) -> u32;

    /// Whether the backing storage matches the declared size.
    spec fn wf(&self) -> bool;

    fn len(&self) -> (r: usize)
        requires
            self.wf(),
        ensures
            r == self.size(),
    ;

    fn get(&self, i: usize, j: usize) -> (r: u32)
        requires
            self.wf(),
            i < self.size(),
            j < self.size(),
        ensures
            r == self.dist(i as int, j as int),
    ;
}

/// Number of entries strictly below the diagonal in the first `i` rows.
pub open spec fn tri(i: nat) -> nat
    decreases i,
{
    if i == 0 {
        0
    } else {
        tri((i - 1) as nat) + (i - 1) as nat
    }
}

proof fn lemma_tri_closed(i: nat)
    ensures
        2 * tri(i) == i * (i - 1),
    decreases i,
{
    if i > 0 {
        let p = (i - 1) as nat;
        lemma_tri_closed(p);
        assert(tri(i) == tri(p) + p);
        assert(i * (i - 1) == p * (p - 1) + 2 * p) by (nonlinear_arith)
            requires
                p == i - 1,
        ;
    } else {
        assert(i * (i - 1) == 0) by (nonlinear_arith)
            requires
                i == 0,
        ;
    }
}

proof fn lemma_tri_mono(i: nat, j: nat)
    requires
        i <= j,
    ensures
        tri(i) <= tri(j),
    decreases j - i,
{
    if i < j {
        lemma_tri_mono(i, (j - 1) as nat);
    }
}

/// A symmetric dissimilarity matrix with a zero diagonal, storing only the
/// entries below the diagonal, row by row: entry `(i, j)` with `j < i` is
/// at position `i * (i - 1) / 2 + j`.
pub struct LowerTriangle {
    pub n: usize,
    pub data: Vec<u32>,
}

impl LowerTriangle {
    /// Position of entry `(i, j)`, `j < i`, in `data`.
    fn index(&self, i: usize, j: usize) -> (r: usize)
        requires
            self.wf(),
            j < i < self.n,
        ensures
            r == tri(i as nat) + j,
            r < self.data@.len(),
    {
        proof {
            lemma_tri_closed(i as nat);
            lemma_tri_mono((i + 1) as nat, self.n as nat);
            assert((i as int) * ((i - 1) as int) < 0x1_0000_0000 * 0x1_0000_0000) by (nonlinear_arith)
                requires
                    0 < i < 0x1_0000_0000,
            ;
        }
        let prod: u64 = (i as u64) * ((i - 1) as u64);
        assert(prod / 2 == tri(i as nat));
        assert(tri((i + 1) as nat) == tri(i as nat) + i);
        assert(self.data@.len() == self.data.len());
        (prod / 2) as usize + j
    }
}

impl ArrayAdapter for LowerTriangle {
    open spec fn size(&self) -> nat {
        self.n as nat
    }

    open spec fn dist(&self, i: int, j: int) -> u32 {
        if i == j {
            0
        } else if i < j {
            self.data@[tri(j as nat) + i]
        } else {
            self.data@[tri(i as nat) + j]
        }
    }

    open spec fn wf(&self) -> bool {
        &&& self.n <= u32::MAX
        &&& self.data@.len() == tri(self.n as nat)
    }

    fn len(&self) -> (r: usize) {
        self.n
    }

    fn get(&self, i: usize, j: usize) -> (r: u32) {
        if i == j {
            0
        } else if i < j {
            self.data[self.index(j, i)]
        } else {
            self.data[self.index(i, j)]
        }
    }
}

} // verus!
