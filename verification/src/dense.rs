//! Dense linear algebra over the supplied arithmetic: products, penalties,
//! symmetrisation, triangular solves and traces. Sums run from the left.

use vstd::prelude::*;

use crate::arith::{lawful, ln, minus, over, plus, times, total, total2, total_from, Arithmetic};
use crate::double::{half, one, two, zero, Double};
use crate::matrix::{fill_vec, grid, symmetric, Matrix};

verus! {

/// `x'y`.
pub open spec fn dot_of<F: Arithmetic>(x: Seq<Double>, y: Seq<Double>) -> Double {
    total::<F>(|k: int| times::<F>(x[k], y[k]), x.len())
}

/// `x'y`.
pub fn dot<F: Arithmetic>(x: &Vec<Double>, y: &Vec<Double>) -> (r: Double)
    requires
        lawful::<F>(),
        x@.len() == y@.len(),
    ensures
        r == dot_of::<F>(x@, y@),
{
    let mut acc: Double = zero();
    for i in 0..x.len()
        invariant
            lawful::<F>(),
            x@.len() == y@.len(),
            acc == total::<F>(|k: int| times::<F>(x@[k], y@[k]), i as nat),
    {
        acc = plus::<F>(acc, times::<F>(x[i], y[i]));
    }
    acc
}

/// `A x`, entry by entry.
pub open spec fn mat_vec_of<F: Arithmetic>(a: Seq<Seq<Double>>, x: Seq<Double>) -> Seq<Double> {
    Seq::new(a.len(), |i: int| dot_of::<F>(a[i], x))
}

/// `A x`.
pub fn mat_vec<F: Arithmetic>(a: &Matrix, x: &Vec<Double>) -> (r: Vec<Double>)
    requires
        lawful::<F>(),
        a.shape(a@.len(), x@.len()),
    ensures
        r@ == mat_vec_of::<F>(a@, x@),
{
    let entry = |i: usize| -> (v: Double)
        requires
            i < a@.len(),
        ensures
            v == dot_of::<F>(a@[i as int], x@),
        { dot::<F>(&a.rows[i], x) };
    let r: Vec<Double> = fill_vec(a.rows.len(), entry);
    assert(r@ =~= mat_vec_of::<F>(a@, x@));
    r
}

/// `A'x` for a matrix of `p` columns.
pub open spec fn mat_t_vec_of<F: Arithmetic>(a: Seq<Seq<Double>>, p: nat, x: Seq<Double>) -> Seq<Double> {
    Seq::new(p, |j: int| total::<F>(|i: int| times::<F>(a[i][j], x[i]), a.len()))
}

/// One entry of `A'x`.
fn column_dot<F: Arithmetic>(a: &Matrix, j: usize, x: &Vec<Double>) -> (r: Double)
    requires
        lawful::<F>(),
        a.shape(x@.len(), a.cols as nat),
        j < a.cols,
    ensures
        r == total::<F>(|i: int| times::<F>(a@[i][j as int], x@[i]), x@.len()),
{
    let mut acc: Double = zero();
    for i in 0..x.len()
        invariant
            lawful::<F>(),
            a.shape(x@.len(), a.cols as nat),
            j < a.cols,
            acc == total::<F>(|i: int| times::<F>(a@[i][j as int], x@[i]), i as nat),
    {
        acc = plus::<F>(acc, times::<F>(a.get(i, j), x[i]));
    }
    acc
}

/// `A'x`.
pub fn mat_t_vec<F: Arithmetic>(a: &Matrix, x: &Vec<Double>) -> (r: Vec<Double>)
    requires
        lawful::<F>(),
        a.shape(x@.len(), a.cols as nat),
    ensures
        r@ == mat_t_vec_of::<F>(a@, a.cols as nat, x@),
{
    let entry = |j: usize| -> (v: Double)
        requires
            j < a.cols,
        ensures
            v == total::<F>(|i: int| times::<F>(a@[i][j as int], x@[i]), a@.len()),
        { column_dot::<F>(a, j, x) };
    let r: Vec<Double> = fill_vec(a.cols, entry);
    assert(r@ =~= mat_t_vec_of::<F>(a@, a.cols as nat, x@));
    r
}

/// `A'B` for matrices of `p` and `q` columns.
pub open spec fn gram_of<F: Arithmetic>(a: Seq<Seq<Double>>, p: nat, b: Seq<Seq<Double>>, q: nat) -> Seq<
    Seq<Double>,
> {
    grid(p, q, |i: int, j: int| total::<F>(|k: int| times::<F>(a[k][i], b[k][j]), a.len()))
}

/// One entry of `A'B`.
fn gram_entry<F: Arithmetic>(a: &Matrix, i: usize, b: &Matrix, j: usize) -> (r: Double)
    requires
        lawful::<F>(),
        a.shape(a@.len(), a.cols as nat),
        b.shape(a@.len(), b.cols as nat),
        i < a.cols,
        j < b.cols,
    ensures
        r == total::<F>(|k: int| times::<F>(a@[k][i as int], b@[k][j as int]), a@.len()),
{
    let mut acc: Double = zero();
    let n: usize = a.rows.len();
    for k in 0..n
        invariant
            lawful::<F>(),
            n == a@.len(),
            a.shape(a@.len(), a.cols as nat),
            b.shape(a@.len(), b.cols as nat),
            i < a.cols,
            j < b.cols,
            acc == total::<F>(|k: int| times::<F>(a@[k][i as int], b@[k][j as int]), k as nat),
    {
        acc = plus::<F>(acc, times::<F>(a.get(k, i), b.get(k, j)));
    }
    acc
}

/// `A'B`.
pub fn gram<F: Arithmetic>(a: &Matrix, b: &Matrix) -> (r: Matrix)
    requires
        lawful::<F>(),
        a.shape(a@.len(), a.cols as nat),
        b.shape(a@.len(), b.cols as nat),
    ensures
        r.shape(a.cols as nat, b.cols as nat),
        r@ == gram_of::<F>(a@, a.cols as nat, b@, b.cols as nat),
{
    let entry = |i: usize, j: usize| -> (v: Double)
        requires
            i < a.cols,
            j < b.cols,
        ensures
            v == total::<F>(|k: int| times::<F>(a@[k][i as int], b@[k][j as int]), a@.len()),
        { gram_entry::<F>(a, i, b, j) };
    let r: Matrix = Matrix::fill(a.cols, b.cols, entry);
    proof {
        r.lemma_is_grid(
            a.cols as nat,
            b.cols as nat,
            |i: int, j: int| total::<F>(|k: int| times::<F>(a@[k][i], b@[k][j]), a@.len()),
        );
    }
    r
}

/// `A B` for a matrix `B` of `q` columns.
pub open spec fn mat_mul_of<F: Arithmetic>(a: Seq<Seq<Double>>, b: Seq<Seq<Double>>, q: nat) -> Seq<
    Seq<Double>,
> {
    grid(a.len(), q, |i: int, j: int| total::<F>(|k: int| times::<F>(a[i][k], b[k][j]), b.len()))
}

/// One entry of `A B`.
fn product_entry<F: Arithmetic>(a: &Matrix, i: usize, b: &Matrix, j: usize) -> (r: Double)
    requires
        lawful::<F>(),
        a.shape(a@.len(), b@.len()),
        b.shape(b@.len(), b.cols as nat),
        i < a@.len(),
        j < b.cols,
    ensures
        r == total::<F>(|k: int| times::<F>(a@[i as int][k], b@[k][j as int]), b@.len()),
{
    let mut acc: Double = zero();
    let n: usize = b.rows.len();
    for k in 0..n
        invariant
            lawful::<F>(),
            n == b@.len(),
            a.shape(a@.len(), b@.len()),
            b.shape(b@.len(), b.cols as nat),
            i < a@.len(),
            j < b.cols,
            acc == total::<F>(|k: int| times::<F>(a@[i as int][k], b@[k][j as int]), k as nat),
    {
        acc = plus::<F>(acc, times::<F>(a.get(i, k), b.get(k, j)));
    }
    acc
}

/// `A B`.
pub fn mat_mul<F: Arithmetic>(a: &Matrix, b: &Matrix) -> (r: Matrix)
    requires
        lawful::<F>(),
        a.shape(a@.len(), b@.len()),
        b.shape(b@.len(), b.cols as nat),
    ensures
        r.shape(a@.len(), b.cols as nat),
        r@ == mat_mul_of::<F>(a@, b@, b.cols as nat),
{
    let entry = |i: usize, j: usize| -> (v: Double)
        requires
            i < a@.len(),
            j < b.cols,
        ensures
            v == total::<F>(|k: int| times::<F>(a@[i as int][k], b@[k][j as int]), b@.len()),
        { product_entry::<F>(a, i, b, j) };
    let r: Matrix = Matrix::fill(a.rows.len(), b.cols, entry);
    proof {
        r.lemma_is_grid(
            a@.len(),
            b.cols as nat,
            |i: int, j: int| total::<F>(|k: int| times::<F>(a@[i][k], b@[k][j]), b@.len()),
        );
    }
    r
}

/// `X' diag(w)` for a matrix `X` of `p` columns.
pub open spec fn weighted_xt_of<F: Arithmetic>(x: Seq<Seq<Double>>, p: nat, w: Seq<Double>) -> Seq<
    Seq<Double>,
> {
    grid(p, x.len(), |i: int, j: int| times::<F>(x[j][i], w[j]))
}

/// `X' diag(w)`.
pub fn weighted_xt<F: Arithmetic>(x: &Matrix, w: &Vec<Double>) -> (r: Matrix)
    requires
        lawful::<F>(),
        x.shape(w@.len(), x.cols as nat),
    ensures
        r.shape(x.cols as nat, w@.len()),
        r@ == weighted_xt_of::<F>(x@, x.cols as nat, w@),
{
    let entry = |i: usize, j: usize| -> (v: Double)
        requires
            i < x.cols,
            j < w@.len(),
        ensures
            v == times::<F>(x@[j as int][i as int], w@[j as int]),
        { times::<F>(x.get(j, i), w[j]) };
    let r: Matrix = Matrix::fill(x.cols, w.len(), entry);
    proof {
        r.lemma_is_grid(
            x.cols as nat,
            w@.len(),
            |i: int, j: int| times::<F>(x@[j][i], w@[j]),
        );
    }
    r
}

/// `diag(w) X` for a matrix `X` of `p` columns.
pub open spec fn scaled_rows_of<F: Arithmetic>(x: Seq<Seq<Double>>, p: nat, w: Seq<Double>) -> Seq<
    Seq<Double>,
> {
    grid(x.len(), p, |i: int, j: int| times::<F>(x[i][j], w[i]))
}

/// `diag(w) X`.
pub fn scaled_rows<F: Arithmetic>(x: &Matrix, w: &Vec<Double>) -> (r: Matrix)
    requires
        lawful::<F>(),
        x.shape(w@.len(), x.cols as nat),
    ensures
        r.shape(w@.len(), x.cols as nat),
        r@ == scaled_rows_of::<F>(x@, x.cols as nat, w@),
{
    let entry = |i: usize, j: usize| -> (v: Double)
        requires
            i < w@.len(),
            j < x.cols,
        ensures
            v == times::<F>(x@[i as int][j as int], w@[i as int]),
        { times::<F>(x.get(i, j), w[i]) };
    let r: Matrix = Matrix::fill(w.len(), x.cols, entry);
    proof {
        r.lemma_is_grid(
            w@.len(),
            x.cols as nat,
            |i: int, j: int| times::<F>(x@[i][j], w@[i]),
        );
    }
    r
}

/// `b' S b`.
pub open spec fn beta_sbeta_of<F: Arithmetic>(s: Seq<Seq<Double>>, b: Seq<Double>) -> Double {
    total::<F>(|i: int| times::<F>(b[i], dot_of::<F>(s[i], b)), b.len())
}

/// The quadratic penalty `b' S b`.
pub fn beta_sbeta<F: Arithmetic>(s: &Matrix, b: &Vec<Double>) -> (r: Double)
    requires
        lawful::<F>(),
        s.square(b@.len()),
    ensures
        r == beta_sbeta_of::<F>(s@, b@),
{
    let mut acc: Double = zero();
    for i in 0..b.len()
        invariant
            lawful::<F>(),
            s.square(b@.len()),
            acc == total::<F>(|i: int| times::<F>(b@[i], dot_of::<F>(s@[i], b@)), i as nat),
    {
        let row: Double = dot::<F>(&s.rows[i], b);
        acc = plus::<F>(acc, times::<F>(b[i], row));
    }
    acc
}

/// `A + lambda S`.
pub open spec fn add_penalty_of<F: Arithmetic>(
    a: Seq<Seq<Double>>,
    s: Seq<Seq<Double>>,
    lambda: Double,
) -> Seq<Seq<Double>> {
    grid(a.len(), a.len(), |i: int, j: int| plus::<F>(a[i][j], times::<F>(lambda, s[i][j])))
}

/// Adds `lambda S` to a square matrix.
pub fn add_penalty<F: Arithmetic>(a: &Matrix, s: &Matrix, lambda: Double) -> (r: Matrix)
    requires
        lawful::<F>(),
        a.square(a@.len()),
        s.square(a@.len()),
    ensures
        r.square(a@.len()),
        r@ == add_penalty_of::<F>(a@, s@, lambda),
{
    let p: usize = a.rows.len();
    let entry = |i: usize, j: usize| -> (v: Double)
        requires
            i < a@.len(),
            j < a@.len(),
        ensures
            v == plus::<F>(a@[i as int][j as int], times::<F>(lambda, s@[i as int][j as int])),
        { plus::<F>(a.get(i, j), times::<F>(lambda, s.get(i, j))) };
    let r: Matrix = Matrix::fill(p, p, entry);
    proof {
        r.lemma_is_grid(
            a@.len(),
            a@.len(),
            |i: int, j: int| plus::<F>(a@[i][j], times::<F>(lambda, s@[i][j])),
        );
    }
    r
}

/// `A + B`.
pub open spec fn mat_plus_of<F: Arithmetic>(a: Seq<Seq<Double>>, b: Seq<Seq<Double>>) -> Seq<Seq<Double>> {
    grid(a.len(), a.len(), |i: int, j: int| plus::<F>(a[i][j], b[i][j]))
}

/// Adds two square matrices.
pub fn mat_plus<F: Arithmetic>(a: &Matrix, b: &Matrix) -> (r: Matrix)
    requires
        lawful::<F>(),
        a.square(a@.len()),
        b.square(a@.len()),
    ensures
        r.square(a@.len()),
        r@ == mat_plus_of::<F>(a@, b@),
{
    let p: usize = a.rows.len();
    let entry = |i: usize, j: usize| -> (v: Double)
        requires
            i < a@.len(),
            j < a@.len(),
        ensures
            v == plus::<F>(a@[i as int][j as int], b@[i as int][j as int]),
        { plus::<F>(a.get(i, j), b.get(i, j)) };
    let r: Matrix = Matrix::fill(p, p, entry);
    proof {
        r.lemma_is_grid(a@.len(), a@.len(), |i: int, j: int| plus::<F>(a@[i][j], b@[i][j]));
    }
    r
}

/// `A` with every pair of mirrored entries replaced by their mean; the diagonal
/// stays.
pub open spec fn symmetrised_of<F: Arithmetic>(a: Seq<Seq<Double>>) -> Seq<Seq<Double>> {
    grid(
        a.len(),
        a.len(),
        |i: int, j: int|
            if i < j {
                times::<F>(half(), plus::<F>(a[i][j], a[j][i]))
            } else if j < i {
                times::<F>(half(), plus::<F>(a[j][i], a[i][j]))
            } else {
                a[i][j]
            },
    )
}

/// Replaces every pair of mirrored entries by their mean.
pub fn symmetrised<F: Arithmetic>(a: &Matrix) -> (r: Matrix)
    requires
        lawful::<F>(),
        a.square(a@.len()),
    ensures
        r.square(a@.len()),
        r@ == symmetrised_of::<F>(a@),
        symmetric(r@),
{
    let p: usize = a.rows.len();
    let entry = |i: usize, j: usize| -> (v: Double)
        requires
            i < a@.len(),
            j < a@.len(),
        ensures
            v == symmetrised_of::<F>(a@)[i as int][j as int],
        {
            if i < j {
                times::<F>(half(), plus::<F>(a.get(i, j), a.get(j, i)))
            } else if j < i {
                times::<F>(half(), plus::<F>(a.get(j, i), a.get(i, j)))
            } else {
                a.get(i, j)
            }
        };
    let r: Matrix = Matrix::fill(p, p, entry);
    proof {
        assert forall|i: int, j: int| 0 <= i < p && 0 <= j < p implies #[trigger] r.at(i, j)
            == symmetrised_of::<F>(a@)[i][j] by {}
        assert forall|i: int| 0 <= i < p implies #[trigger] r@[i] == symmetrised_of::<F>(a@)[i] by {
            assert forall|j: int| 0 <= j < p implies r@[i][j] == symmetrised_of::<F>(a@)[i][j] by {
                assert(r.at(i, j) == symmetrised_of::<F>(a@)[i][j]);
            }
            assert(r@[i] =~= symmetrised_of::<F>(a@)[i]);
        }
        assert(r@ =~= symmetrised_of::<F>(a@));
    }
    r
}

/// `A` with `ridge` added to its diagonal.
pub open spec fn ridged_of<F: Arithmetic>(a: Seq<Seq<Double>>, ridge: Double) -> Seq<Seq<Double>> {
    grid(
        a.len(),
        a.len(),
        |i: int, j: int|
            if i == j {
                plus::<F>(a[i][j], ridge)
            } else {
                a[i][j]
            },
    )
}

/// Adds `ridge` to the diagonal.
pub fn ridged<F: Arithmetic>(a: &Matrix, ridge: Double) -> (r: Matrix)
    requires
        lawful::<F>(),
        a.square(a@.len()),
    ensures
        r.square(a@.len()),
        r@ == ridged_of::<F>(a@, ridge),
{
    let p: usize = a.rows.len();
    let entry = |i: usize, j: usize| -> (v: Double)
        requires
            i < a@.len(),
            j < a@.len(),
        ensures
            v == (if i == j {
                plus::<F>(a@[i as int][j as int], ridge)
            } else {
                a@[i as int][j as int]
            }),
        {
            if i == j {
                plus::<F>(a.get(i, j), ridge)
            } else {
                a.get(i, j)
            }
        };
    let r: Matrix = Matrix::fill(p, p, entry);
    proof {
        r.lemma_is_grid(
            a@.len(),
            a@.len(),
            |i: int, j: int|
                if i == j {
                    plus::<F>(a@[i][j], ridge)
                } else {
                    a@[i][j]
                },
        );
    }
    r
}

/// The largest of 1 and the first `n` absolute diagonal entries.
pub open spec fn max_diag_upto(a: Seq<Seq<Double>>, n: nat) -> Double
    decreases n,
{
    if n == 0 {
        one()
    } else {
        max_diag_upto(a, (n - 1) as nat).max_spec(a[n - 1][n - 1].abs_spec())
    }
}

/// The largest of 1 and the absolute diagonal entries; NaN entries are passed
/// over.
pub fn max_diag(a: &Matrix) -> (r: Double)
    requires
        a.square(a@.len()),
    ensures
        r == max_diag_upto(a@, a@.len()),
{
    let mut acc: Double = one();
    for i in 0..a.rows.len()
        invariant
            a.square(a@.len()),
            acc == max_diag_upto(a@, i as nat),
    {
        acc = acc.max(a.get(i, i).abs());
    }
    acc
}

/// The diagonal maximum is at least 1 and bounds every diagonal entry that is a
/// number.
pub proof fn law_max_diag(a: Seq<Seq<Double>>, n: nat)
    requires
        n <= a.len(),
    ensures
        one().at_most(max_diag_upto(a, n)),
        forall|i: int|
            0 <= i < n && !(#[trigger] a[i][i]).nan() ==> a[i][i].abs_spec().at_most(max_diag_upto(a, n)),
    decreases n,
{
    if n > 0 {
        law_max_diag(a, (n - 1) as nat);
    }
}

/// `A + scale max(1, |A_ii|) I`.
pub open spec fn relative_ridge_of<F: Arithmetic>(a: Seq<Seq<Double>>, scale: Double) -> Seq<Seq<Double>> {
    ridged_of::<F>(a, times::<F>(scale, max_diag_upto(a, a.len())))
}

/// Adds a ridge of `scale` times the diagonal maximum.
pub fn relative_ridge<F: Arithmetic>(a: &Matrix, scale: Double) -> (r: Matrix)
    requires
        lawful::<F>(),
        a.square(a@.len()),
    ensures
        r.square(a@.len()),
        r@ == relative_ridge_of::<F>(a@, scale),
{
    let ridge: Double = times::<F>(scale, max_diag(a));
    ridged::<F>(a, ridge)
}

/// `b_i` minus the first `n` terms, subtracted from the left.
pub open spec fn less_terms<F: Arithmetic>(start: Double, term: spec_fn(int) -> Double, n: nat) -> Double
    decreases n,
{
    if n == 0 {
        start
    } else {
        minus::<F>(less_terms::<F>(start, term, (n - 1) as nat), term(n - 1))
    }
}

/// `z` solves `L z = b` by forward substitution.
pub open spec fn forward_solution<F: Arithmetic>(
    l: Seq<Seq<Double>>,
    b: Seq<Double>,
    z: Seq<Double>,
    n: nat,
) -> bool {
    forall|i: int|
        0 <= i < n ==> #[trigger] z[i] == over::<F>(
            less_terms::<F>(b[i], |k: int| times::<F>(l[i][k], z[k]), i as nat),
            l[i][i],
        )
}

/// Equal terms give equal differences.
pub proof fn lemma_less_congruent<F: Arithmetic>(
    start: Double,
    f: spec_fn(int) -> Double,
    g: spec_fn(int) -> Double,
    n: nat,
)
    requires
        forall|k: int| 0 <= k < n ==> #[trigger] f(k) == g(k),
    ensures
        less_terms::<F>(start, f, n) == less_terms::<F>(start, g, n),
    decreases n,
{
    if n > 0 {
        lemma_less_congruent::<F>(start, f, g, (n - 1) as nat);
        assert(f(n - 1) == g(n - 1));
    }
}

/// Solves `L z = b` for a lower triangular `L`: each entry is what is left of
/// `b_i` after the entries before it, over the diagonal.
pub fn chol_forward_solve<F: Arithmetic>(l: &Matrix, b: &Vec<Double>) -> (z: Vec<Double>)
    requires
        lawful::<F>(),
        l.square(b@.len()),
    ensures
        z@.len() == b@.len(),
        forward_solution::<F>(l@, b@, z@, b@.len()),
{
    let n: usize = b.len();
    let mut z: Vec<Double> = Vec::new();
    for i in 0..n
        invariant
            lawful::<F>(),
            n == b@.len(),
            l.square(b@.len()),
            z@.len() == i,
            forward_solution::<F>(l@, b@, z@, i as nat),
    {
        let mut s: Double = b[i];
        for k in 0..i
            invariant
                lawful::<F>(),
                n == b@.len(),
                i < n,
                l.square(b@.len()),
                z@.len() == i,
                s == less_terms::<F>(b@[i as int], |k: int| times::<F>(l@[i as int][k], z@[k]), k as nat),
        {
            s = minus::<F>(s, times::<F>(l.get(i, k), z[k]));
        }
        let ghost before = z@;
        z.push(over::<F>(s, l.get(i, i)));
        proof {
            assert forall|m: int| 0 <= m <= i implies #[trigger] z@[m] == over::<F>(
                less_terms::<F>(b@[m], |k: int| times::<F>(l@[m][k], z@[k]), m as nat),
                l@[m][m],
            ) by {
                lemma_less_congruent::<F>(
                    b@[m],
                    |k: int| times::<F>(l@[m][k], before[k]),
                    |k: int| times::<F>(l@[m][k], z@[k]),
                    m as nat,
                );
                if m < i {
                    assert(z@[m] == before[m]);
                }
            }
        }
    }
    z
}

/// `x` solves `L' x = z` by back substitution, from entry `from` on.
pub open spec fn back_solution<F: Arithmetic>(
    l: Seq<Seq<Double>>,
    z: Seq<Double>,
    x: Seq<Double>,
    from: int,
) -> bool {
    forall|i: int|
        from <= i < z.len() ==> #[trigger] x[i] == over::<F>(
            less_terms::<F>(
                z[i],
                |k: int| times::<F>(l[i + 1 + k][i], x[i + 1 + k]),
                (z.len() - i - 1) as nat,
            ),
            l[i][i],
        )
}

/// Solves `L' x = z` for a lower triangular `L`: each entry is what is left of
/// `z_i` after the entries behind it, over the diagonal.
pub fn chol_back_solve<F: Arithmetic>(l: &Matrix, z: &Vec<Double>) -> (x: Vec<Double>)
    requires
        lawful::<F>(),
        l.square(z@.len()),
    ensures
        x@.len() == z@.len(),
        back_solution::<F>(l@, z@, x@, 0),
{
    let n: usize = z.len();
    let mut x: Vec<Double> = Vec::new();
    for i in 0..n
        invariant
            x@.len() == i,
    {
        x.push(zero());
    }
    let mut i: usize = n;
    while i > 0
        invariant
            lawful::<F>(),
            n == z@.len(),
            l.square(z@.len()),
            i <= n,
            x@.len() == n,
            back_solution::<F>(l@, z@, x@, i as int),
        decreases i,
    {
        i = i - 1;
        let mut s: Double = z[i];
        let mut k: usize = i + 1;
        while k < n
            invariant
                lawful::<F>(),
                n == z@.len(),
                i < k <= n,
                l.square(z@.len()),
                x@.len() == n,
                s == less_terms::<F>(
                    z@[i as int],
                    |k: int| times::<F>(l@[i + 1 + k][i as int], x@[i + 1 + k]),
                    (k - i - 1) as nat,
                ),
            decreases n - k,
        {
            s = minus::<F>(s, times::<F>(l.get(k, i), x[k]));
            k = k + 1;
        }
        let v: Double = over::<F>(s, l.get(i, i));
        let ghost before = x@;
        x[i] = v;
        proof {
            assert forall|m: int| i <= m < n implies #[trigger] x@[m] == over::<F>(
                less_terms::<F>(
                    z@[m],
                    |k: int| times::<F>(l@[m + 1 + k][m], x@[m + 1 + k]),
                    (n - m - 1) as nat,
                ),
                l@[m][m],
            ) by {
                lemma_less_congruent::<F>(
                    z@[m],
                    |k: int| times::<F>(l@[m + 1 + k][m], before[m + 1 + k]),
                    |k: int| times::<F>(l@[m + 1 + k][m], x@[m + 1 + k]),
                    (n - m - 1) as nat,
                );
                if m > i {
                    assert(x@[m] == before[m]);
                }
            }
        }
    }
    x
}

/// `tr(A B)`, added row by row of `A`.
pub open spec fn trace_product_of<F: Arithmetic>(a: Seq<Seq<Double>>, b: Seq<Seq<Double>>) -> Double {
    total2::<F>(|i: int, j: int| times::<F>(a[i][j], b[j][i]), a.len(), a.len())
}

/// `tr(A B)` of two square matrices.
pub fn trace_product<F: Arithmetic>(a: &Matrix, b: &Matrix) -> (r: Double)
    requires
        lawful::<F>(),
        a.square(a@.len()),
        b.square(a@.len()),
    ensures
        r == trace_product_of::<F>(a@, b@),
{
    let n: usize = a.rows.len();
    let mut acc: Double = zero();
    for i in 0..n
        invariant
            lawful::<F>(),
            n == a@.len(),
            a.square(a@.len()),
            b.square(a@.len()),
            acc == total2::<F>(|i: int, j: int| times::<F>(a@[i][j], b@[j][i]), i as nat, n as nat),
    {
        let ghost start = acc;
        for j in 0..n
            invariant
                lawful::<F>(),
                n == a@.len(),
                i < n,
                a.square(a@.len()),
                b.square(a@.len()),
                acc == total_from::<F>(start, |j: int| times::<F>(a@[i as int][j], b@[j][i as int]), j as nat),
        {
            acc = plus::<F>(acc, times::<F>(a.get(i, j), b.get(j, i)));
        }
        proof {
            let term = |i: int, j: int| times::<F>(a@[i][j], b@[j][i]);
            crate::arith::lemma_total_congruent::<F>(
                start,
                |j: int| times::<F>(a@[i as int][j], b@[j][i as int]),
                |j: int| term(i as int, j),
                n as nat,
            );
        }
    }
    acc
}

/// The unit vector `e_j` of length `n`.
pub open spec fn unit_of(n: nat, j: int) -> Seq<Double> {
    Seq::new(
        n,
        |i: int|
            if i == j {
                one()
            } else {
                zero()
            },
    )
}

/// The unit vector `e_j`.
pub fn unit(n: usize, j: usize) -> (r: Vec<Double>)
    ensures
        r@ == unit_of(n as nat, j as int),
{
    let entry = |i: usize| -> (v: Double)
        ensures
            v == (if i == j {
                one()
            } else {
                zero()
            }),
        {
            if i == j {
                one()
            } else {
                zero()
            }
        };
    let r: Vec<Double> = fill_vec(n, entry);
    assert(r@ =~= unit_of(n as nat, j as int));
    r
}

/// Column `j` of a matrix.
pub open spec fn column_of(a: Seq<Seq<Double>>, j: int) -> Seq<Double> {
    Seq::new(a.len(), |i: int| a[i][j])
}

/// Column `j` of a matrix.
pub fn column(a: &Matrix, j: usize) -> (r: Vec<Double>)
    requires
        a.shape(a@.len(), a.cols as nat),
        j < a.cols,
    ensures
        r@ == column_of(a@, j as int),
{
    let entry = |i: usize| -> (v: Double)
        requires
            i < a@.len(),
        ensures
            v == a@[i as int][j as int],
        { a.get(i, j) };
    let r: Vec<Double> = fill_vec(a.rows.len(), entry);
    assert(r@ =~= column_of(a@, j as int));
    r
}

/// The matrix with the given columns, each `n` long.
pub fn from_columns(n: usize, columns: &Vec<Vec<Double>>) -> (r: Matrix)
    requires
        forall|j: int| 0 <= j < columns@.len() ==> (#[trigger] columns@[j])@.len() == n,
    ensures
        r.shape(n as nat, columns@.len()),
        r@ == grid(n as nat, columns@.len(), |i: int, j: int| columns@[j]@[i]),
{
    let p: usize = columns.len();
    let entry = |i: usize, j: usize| -> (v: Double)
        requires
            i < n,
            j < columns@.len(),
        ensures
            v == columns@[j as int]@[i as int],
        { columns[j][i] };
    let r: Matrix = Matrix::fill(n, p, entry);
    proof {
        r.lemma_is_grid(n as nat, columns@.len(), |i: int, j: int| columns@[j]@[i]);
    }
    r
}

/// `a + b`, entry by entry.
pub open spec fn vec_plus_of<F: Arithmetic>(a: Seq<Double>, b: Seq<Double>) -> Seq<Double> {
    Seq::new(a.len(), |i: int| plus::<F>(a[i], b[i]))
}

/// Adds two vectors.
pub fn vec_plus<F: Arithmetic>(a: &Vec<Double>, b: &Vec<Double>) -> (r: Vec<Double>)
    requires
        lawful::<F>(),
        a@.len() == b@.len(),
    ensures
        r@ == vec_plus_of::<F>(a@, b@),
{
    let entry = |i: usize| -> (v: Double)
        requires
            i < a@.len(),
        ensures
            v == plus::<F>(a@[i as int], b@[i as int]),
        { plus::<F>(a[i], b[i]) };
    let r: Vec<Double> = fill_vec(a.len(), entry);
    assert(r@ =~= vec_plus_of::<F>(a@, b@));
    r
}

/// `c x`, entry by entry, each as `x_i c`.
pub open spec fn scaled_of<F: Arithmetic>(x: Seq<Double>, c: Double) -> Seq<Double> {
    Seq::new(x.len(), |i: int| times::<F>(x[i], c))
}

/// Multiplies every entry by `c`.
pub fn scaled<F: Arithmetic>(x: &Vec<Double>, c: Double) -> (r: Vec<Double>)
    requires
        lawful::<F>(),
    ensures
        r@ == scaled_of::<F>(x@, c),
{
    let entry = |i: usize| -> (v: Double)
        requires
            i < x@.len(),
        ensures
            v == times::<F>(x@[i as int], c),
        { times::<F>(x[i], c) };
    let r: Vec<Double> = fill_vec(x.len(), entry);
    assert(r@ =~= scaled_of::<F>(x@, c));
    r
}

/// `2 (ln d_1 + ... + ln d_n)` over a diagonal.
pub open spec fn chol_logdet_of<F: Arithmetic>(l: Seq<Seq<Double>>) -> Double {
    times::<F>(two(), total::<F>(|i: int| ln::<F>(l[i][i]), l.len()))
}

/// The log determinant of `L L'`.
pub fn chol_logdet<F: Arithmetic>(l: &Matrix) -> (r: Double)
    requires
        lawful::<F>(),
        l.square(l@.len()),
    ensures
        r == chol_logdet_of::<F>(l@),
{
    let mut s: Double = zero();
    for i in 0..l.rows.len()
        invariant
            lawful::<F>(),
            l.square(l@.len()),
            s == total::<F>(|i: int| ln::<F>(l@[i][i]), i as nat),
    {
        s = plus::<F>(s, ln::<F>(l.get(i, i)));
    }
    times::<F>(two(), s)
}

/// The sum of `n` terms that a function computes.
pub fn sum_over<F: Arithmetic, G: Fn(usize) -> Double>(n: usize, term: G, Ghost(of): Ghost<spec_fn(int) -> Double>) -> (r:
    Double)
    requires
        lawful::<F>(),
        forall|k: usize| k < n ==> #[trigger] call_requires(term, (k,)),
        forall|k: usize, v: Double| k < n && #[trigger] call_ensures(term, (k,), v) ==> v == of(k as int),
    ensures
        r == total::<F>(of, n as nat),
{
    let mut acc: Double = zero();
    for k in 0..n
        invariant
            lawful::<F>(),
            forall|k: usize| k < n ==> #[trigger] call_requires(term, (k,)),
            forall|k: usize, v: Double|
                k < n && #[trigger] call_ensures(term, (k,), v) ==> v == of(k as int),
            acc == total::<F>(of, k as nat),
    {
        let v: Double = term(k);
        acc = plus::<F>(acc, v);
    }
    acc
}

/// Every entry multiplied by `c` from the left.
pub open spec fn times_vec_of<F: Arithmetic>(c: Double, x: Seq<Double>) -> Seq<Double> {
    Seq::new(x.len(), |i: int| times::<F>(c, x[i]))
}

/// Multiplies every entry by `c` from the left.
pub fn times_vec<F: Arithmetic>(c: Double, x: &Vec<Double>) -> (r: Vec<Double>)
    requires
        lawful::<F>(),
    ensures
        r@ == times_vec_of::<F>(c, x@),
{
    let entry = |i: usize| -> (v: Double)
        requires
            i < x@.len(),
        ensures
            v == times::<F>(c, x@[i as int]),
        { times::<F>(c, x[i]) };
    let r: Vec<Double> = fill_vec(x.len(), entry);
    assert(r@ =~= times_vec_of::<F>(c, x@));
    r
}

/// A sum continued by `n` more terms that a function computes.
pub fn sum_onto<F: Arithmetic, G: Fn(usize) -> Double>(
    start: Double,
    n: usize,
    term: G,
    Ghost(of): Ghost<spec_fn(int) -> Double>,
) -> (r: Double)
    requires
        lawful::<F>(),
        forall|k: usize| k < n ==> #[trigger] call_requires(term, (k,)),
        forall|k: usize, v: Double| k < n && #[trigger] call_ensures(term, (k,), v) ==> v == of(k as int),
    ensures
        r == total_from::<F>(start, of, n as nat),
{
    let mut acc: Double = start;
    for k in 0..n
        invariant
            lawful::<F>(),
            forall|k: usize| k < n ==> #[trigger] call_requires(term, (k,)),
            forall|k: usize, v: Double|
                k < n && #[trigger] call_ensures(term, (k,), v) ==> v == of(k as int),
            acc == total_from::<F>(start, of, k as nat),
    {
        let v: Double = term(k);
        acc = plus::<F>(acc, v);
    }
    acc
}

/// `start + sum_k x_k y_k`, added from the left.
pub open spec fn dot_onto_of<F: Arithmetic>(start: Double, x: Seq<Double>, y: Seq<Double>) -> Double {
    total_from::<F>(start, |k: int| times::<F>(x[k], y[k]), x.len())
}

/// Adds `sum_k x_k y_k` to a start, term by term.
pub fn dot_onto<F: Arithmetic>(start: Double, x: &Vec<Double>, y: &Vec<Double>) -> (r: Double)
    requires
        lawful::<F>(),
        x@.len() == y@.len(),
    ensures
        r == dot_onto_of::<F>(start, x@, y@),
{
    let term = |k: usize| -> (v: Double)
        requires
            k < x@.len(),
        ensures
            v == times::<F>(x@[k as int], y@[k as int]),
        { times::<F>(x[k], y[k]) };
    sum_onto::<F, _>(start, x.len(), term, Ghost(|k: int| times::<F>(x@[k], y@[k])))
}

} // verus!
