//! Matrices of doubles, as rows.

use vstd::prelude::*;

use crate::double::{zero, Double};

verus! {

/// A matrix. Its view is the sequence of its rows.
pub struct Matrix {
    /// Rows, each `cols` long.
    pub rows: Vec<Vec<Double>>,
    /// Length of a row.
    pub cols: usize,
}

/// The `n` by `p` grid of the values of `f`.
pub open spec fn grid(n: nat, p: nat, f: spec_fn(int, int) -> Double) -> Seq<Seq<Double>> {
    Seq::new(n, |i: int| Seq::new(p, |j: int| f(i, j)))
}

/// Equal to its transpose.
pub open spec fn symmetric(m: Seq<Seq<Double>>) -> bool {
    forall|i: int, j: int| 0 <= i < m.len() && 0 <= j < m.len() ==> #[trigger] m[i][j] == m[j][i]
}

impl View for Matrix {
    type V = Seq<Seq<Double>>;

    open spec fn view(&self) -> Seq<Seq<Double>> {
        Seq::new(self.rows@.len(), |i: int| self.rows@[i]@)
    }
}

impl Matrix {
    /// `n` rows of `p` entries each.
    pub open spec fn shape(&self, n: nat, p: nat) -> bool {
        &&& self.rows@.len() == n
        &&& self.cols == p
        &&& forall|i: int| 0 <= i < n ==> (#[trigger] self.rows@[i])@.len() == p
    }

    /// As many rows as columns.
    pub open spec fn square(&self, n: nat) -> bool {
        self.shape(n, n)
    }

    /// The entry in row `i` and column `j`.
    pub open spec fn at(&self, i: int, j: int) -> Double {
        self.rows@[i]@[j]
    }

    /// Number of rows.
    #[verifier::when_used_as_spec(nrows_spec)]
    pub fn nrows(&self) -> (n: usize)
        ensures
            n == self.nrows_spec(),
    {
        self.rows.len()
    }

    /// Number of rows.
    pub open spec fn nrows_spec(&self) -> usize {
        self.rows@.len() as usize
    }

    /// Builds a matrix from a function of the position.
    pub fn fill<G: Fn(usize, usize) -> Double>(n: usize, p: usize, f: G) -> (m: Matrix)
        requires
            forall|i: usize, j: usize| i < n && j < p ==> call_requires(f, (i, j)),
        ensures
            m.shape(n as nat, p as nat),
            forall|i: int, j: int|
                0 <= i < n && 0 <= j < p ==> call_ensures(f, (i as usize, j as usize), #[trigger] m.at(i, j)),
    {
        let mut rows: Vec<Vec<Double>> = Vec::new();
        for i in 0..n
            invariant
                forall|i: usize, j: usize| i < n && j < p ==> call_requires(f, (i, j)),
                rows@.len() == i,
                forall|k: int| 0 <= k < i ==> (#[trigger] rows@[k])@.len() == p,
                forall|k: int, j: int|
                    0 <= k < i && 0 <= j < p ==> call_ensures(
                        f,
                        (k as usize, j as usize),
                        #[trigger] rows@[k]@[j],
                    ),
        {
            let mut row: Vec<Double> = Vec::new();
            for j in 0..p
                invariant
                    i < n,
                    forall|i: usize, j: usize| i < n && j < p ==> call_requires(f, (i, j)),
                    row@.len() == j,
                    forall|k: int| 0 <= k < j ==> call_ensures(f, (i, k as usize), #[trigger] row@[k]),
            {
                row.push(f(i, j));
            }
            rows.push(row);
        }
        Matrix { rows, cols: p }
    }

    /// A matrix of positive zeros.
    pub fn zeros(n: usize, p: usize) -> (m: Matrix)
        ensures
            m.shape(n as nat, p as nat),
            m@ == grid(n as nat, p as nat, |i: int, j: int| zero()),
    {
        let entry = |i: usize, j: usize| -> (x: Double)
            ensures
                x == zero(),
            { zero() };
        let m: Matrix = Matrix::fill(n, p, entry);
        proof {
            m.lemma_is_grid(n as nat, p as nat, |i: int, j: int| zero());
        }
        m
    }

    /// Reads an entry.
    pub fn get(&self, i: usize, j: usize) -> (x: Double)
        requires
            i < self.rows@.len(),
            j < self.rows@[i as int]@.len(),
        ensures
            x == self.at(i as int, j as int),
            x == self@[i as int][j as int],
    {
        self.rows[i][j]
    }

    /// Writes an entry; every other entry stays.
    pub fn set(&mut self, i: usize, j: usize, x: Double)
        requires
            i < old(self).rows@.len(),
            j < old(self).rows@[i as int]@.len(),
        ensures
            forall|n: nat, p: nat| old(self).shape(n, p) ==> #[trigger] final(self).shape(n, p),
            final(self)@ == old(self)@.update(i as int, old(self)@[i as int].update(j as int, x)),
    {
        self.rows[i][j] = x;
        assert(self@ =~= old(self)@.update(i as int, old(self)@[i as int].update(j as int, x)));
    }

    /// A matrix with the same entries.
    pub fn copy(&self) -> (m: Matrix)
        ensures
            m@ == self@,
            m.cols == self.cols,
            forall|n: nat, p: nat| self.shape(n, p) ==> #[trigger] m.shape(n, p),
    {
        let mut rows: Vec<Vec<Double>> = Vec::new();
        for i in 0..self.rows.len()
            invariant
                rows@.len() == i,
                forall|k: int| 0 <= k < i ==> (#[trigger] rows@[k])@ == self.rows@[k]@,
        {
            let row: Vec<Double> = self.rows[i].clone();
            assert(row@ =~= self.rows@[i as int]@);
            rows.push(row);
        }
        let m: Matrix = Matrix { rows, cols: self.cols };
        assert(m@ =~= self@);
        m
    }

    /// Entry-wise equality with a grid.
    pub proof fn lemma_is_grid(&self, n: nat, p: nat, f: spec_fn(int, int) -> Double)
        requires
            self.shape(n, p),
            forall|i: int, j: int| 0 <= i < n && 0 <= j < p ==> #[trigger] self.at(i, j) == f(i, j),
        ensures
            self@ == grid(n, p, f),
    {
        assert forall|i: int| 0 <= i < n implies #[trigger] self@[i] == grid(n, p, f)[i] by {
            assert forall|j: int| 0 <= j < p implies self@[i][j] == grid(n, p, f)[i][j] by {
                assert(self.at(i, j) == f(i, j));
            }
            assert(self@[i] =~= grid(n, p, f)[i]);
        }
        assert(self@ =~= grid(n, p, f));
    }
}

/// Builds a vector from a function of the position.
pub fn fill_vec<G: Fn(usize) -> Double>(n: usize, f: G) -> (v: Vec<Double>)
    requires
        forall|i: usize| i < n ==> call_requires(f, (i,)),
    ensures
        v@.len() == n,
        forall|i: int| 0 <= i < n ==> call_ensures(f, (i as usize,), #[trigger] v@[i]),
{
    let mut v: Vec<Double> = Vec::new();
    for i in 0..n
        invariant
            forall|i: usize| i < n ==> call_requires(f, (i,)),
            v@.len() == i,
            forall|k: int| 0 <= k < i ==> call_ensures(f, (k as usize,), #[trigger] v@[k]),
    {
        v.push(f(i));
    }
    v
}

} // verus!
