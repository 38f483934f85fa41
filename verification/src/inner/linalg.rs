//! Linear solvers: the factorisation they stand on is the implementation's, what
//! is computed from a factor is here.

use vstd::prelude::*;

use crate::arith::{lawful, Arithmetic};
use crate::dense::{
    back_solution, chol_back_solve, chol_forward_solve, chol_logdet, chol_logdet_of, column_of,
    forward_solution, from_columns, relative_ridge, relative_ridge_of, trace_product,
    trace_product_of, unit, unit_of,
};
use crate::double::{lit, Double, E_M12, NAN_BITS};
use crate::error::GamrsError;
use crate::matrix::{grid, Matrix};

verus! {

/// A factorisation of a penalised cross-product, and what is read off it.
pub trait LinearSolver: Sized {
    /// A factored matrix.
    type Factorization;

    /// Factors a matrix.
    fn factorize(a: &Matrix) -> Result<Self::Factorization, GamrsError>;

    /// Solves `A x = b`.
    fn solve(fact: &Self::Factorization, b: &Vec<Double>) -> Vec<Double>;

    /// `log |A|`.
    fn logdet(fact: &Self::Factorization) -> Double;

    /// `tr(A^-1 M)`.
    fn trace_a_inv(fact: &Self::Factorization, m: &Matrix) -> Double;

    /// `A^-1`.
    fn invert(fact: &Self::Factorization) -> Matrix;
}

/// Solving with a lower Cholesky factor.
#[derive(Clone, Copy, Debug, Default, PartialEq, Eq, Structural)]
pub struct CholeskySolver;

/// `x` is the solution of `L L' x = b` by forward and back substitution.
pub open spec fn chol_solution<F: Arithmetic>(l: Seq<Seq<Double>>, b: Seq<Double>, x: Seq<Double>) -> bool {
    x.len() == b.len() && exists|z: Seq<Double>|
        z.len() == b.len() && #[trigger] forward_solution::<F>(l, b, z, b.len()) && back_solution::<F>(
            l,
            z,
            x,
            0,
        )
}

impl CholeskySolver {
    /// Solves `L L' x = b`.
    pub fn solve<F: Arithmetic>(l: &Matrix, b: &Vec<Double>) -> (x: Vec<Double>)
        requires
            lawful::<F>(),
            l.square(b@.len()),
        ensures
            chol_solution::<F>(l@, b@, x@),
    {
        let z: Vec<Double> = chol_forward_solve::<F>(l, b);
        let x: Vec<Double> = chol_back_solve::<F>(l, &z);
        assert(forward_solution::<F>(l@, b@, z@, b@.len()));
        x
    }

    /// `log |L L'|`.
    pub fn logdet<F: Arithmetic>(l: &Matrix) -> (r: Double)
        requires
            lawful::<F>(),
            l.square(l@.len()),
        ensures
            r == chol_logdet_of::<F>(l@),
    {
        chol_logdet::<F>(l)
    }

    /// `(L L')^-1`, column by column.
    pub fn invert<F: Arithmetic>(l: &Matrix) -> (r: Matrix)
        requires
            lawful::<F>(),
            l.square(l@.len()),
        ensures
            r.square(l@.len()),
            forall|j: int|
                0 <= j < l@.len() ==> chol_solution::<F>(
                    l@,
                    unit_of(l@.len(), j),
                    #[trigger] column_of(r@, j),
                ),
    {
        let p: usize = l.rows.len();
        let mut columns: Vec<Vec<Double>> = Vec::new();
        for j in 0..p
            invariant
                lawful::<F>(),
                p == l@.len(),
                l.square(l@.len()),
                columns@.len() == j,
                forall|k: int|
                    0 <= k < j ==> chol_solution::<F>(
                        l@,
                        unit_of(l@.len(), k),
                        (#[trigger] columns@[k])@,
                    ),
        {
            let e: Vec<Double> = unit(p, j);
            columns.push(CholeskySolver::solve::<F>(l, &e));
        }
        let r: Matrix = from_columns(p, &columns);
        proof {
            assert forall|j: int| 0 <= j < l@.len() implies chol_solution::<F>(
                l@,
                unit_of(l@.len(), j),
                #[trigger] column_of(r@, j),
            ) by {
                assert(column_of(r@, j) =~= columns@[j]@);
            }
        }
        r
    }

    /// `tr((L L')^-1 M)`, added row by row of the inverse.
    pub fn trace_a_inv<F: Arithmetic>(l: &Matrix, m: &Matrix) -> (r: Double)
        requires
            lawful::<F>(),
            l.square(l@.len()),
            m.square(l@.len()),
        ensures
            exists|inv: Matrix|
                #![trigger trace_product_of::<F>(inv@, m@)]
                inv.square(l@.len()) && (forall|j: int|
                    0 <= j < l@.len() ==> chol_solution::<F>(
                        l@,
                        unit_of(l@.len(), j),
                        #[trigger] column_of(inv@, j),
                    )) && r == trace_product_of::<F>(inv@, m@),
    {
        let inv: Matrix = CholeskySolver::invert::<F>(l);
        trace_product::<F>(&inv, m)
    }
}

/// Solving with a pivoted LU factor.
#[derive(Clone, Copy, Debug, Default, PartialEq, Eq, Structural)]
pub struct LuSolver;

impl LuSolver {
    /// The log determinant from the factor's sign and log of the absolute value;
    /// NaN where it could not be had. The sign is not used.
    pub fn logdet(sign_and_ln: Option<(Double, Double)>) -> (r: Double)
        ensures
            r == (match sign_and_ln {
                Some(d) => d.1,
                None => lit(NAN_BITS),
            }),
    {
        match sign_and_ln {
            Some(d) => d.1,
            None => lit(NAN_BITS),
        }
    }

    /// The inverse from the solutions for the unit vectors.
    pub fn invert(p: usize, columns: &Vec<Vec<Double>>) -> (r: Matrix)
        requires
            columns@.len() == p,
            forall|j: int| 0 <= j < columns@.len() ==> (#[trigger] columns@[j])@.len() == p,
        ensures
            r.square(p as nat),
            r@ == grid(p as nat, p as nat, |i: int, j: int| columns@[j]@[i]),
    {
        from_columns(p, columns)
    }
}

/// `A` with the ridge under which it is solved: `1e-12 max(1, |A_ii|)`.
pub open spec fn solve_matrix<F: Arithmetic>(a: Seq<Seq<Double>>) -> Seq<Seq<Double>> {
    relative_ridge_of::<F>(a, lit(E_M12))
}

/// The factor of a square matrix as `S` gives it.
pub open spec fn factored<S: LinearSolver>(a: Seq<Seq<Double>>, r: Result<S::Factorization, GamrsError>) -> bool {
    exists|m: Matrix|
        m@ == a && m.square(a.len()) && #[trigger] call_ensures(S::factorize, (&m,), r)
}

/// The solution of a factored system as `S` gives it.
pub open spec fn solved<S: LinearSolver>(f: S::Factorization, b: Seq<Double>, x: Seq<Double>) -> bool {
    exists|v: Vec<Double>, r: Vec<Double>|
        v@ == b && r@ == x && #[trigger] call_ensures(S::solve, (&f, &v), r)
}

/// `x` solves the ridged system with the factor that `S` gives of it.
pub open spec fn ridge_solved<F: Arithmetic, S: LinearSolver>(
    a: Seq<Seq<Double>>,
    b: Seq<Double>,
    x: Seq<Double>,
) -> bool {
    exists|f: S::Factorization|
        #[trigger] factored::<S>(solve_matrix::<F>(a), Ok(f)) && solved::<S>(f, b, x)
}

/// Factors `A` for the score and solves for the coefficients with a slightly
/// ridged copy. The first factorisation that fails gives the error.
pub fn factor_and_solve_with_ridge<F: Arithmetic, S: LinearSolver>(a: &Matrix, rhs: &Vec<Double>) -> (r: Result<
    (S::Factorization, Vec<Double>),
    GamrsError,
>)
    requires
        lawful::<F>(),
        a.square(a@.len()),
    ensures
        match r {
            Ok((f, x)) => factored::<S>(a@, Ok(f)) && ridge_solved::<F, S>(a@, rhs@, x@),
            Err(e) => factored::<S>(a@, Err(e)) || (factored::<S>(solve_matrix::<F>(a@), Err(e)) && exists|
                f: S::Factorization,
            | factored::<S>(a@, Ok(f))),
        },
{
    let plain: Result<S::Factorization, GamrsError> = S::factorize(a);
    match plain {
        Ok(fact) => {
            assert(factored::<S>(a@, Ok(fact)));
            let lifted: Matrix = relative_ridge::<F>(a, lit(E_M12));
            let ridged: Result<S::Factorization, GamrsError> = S::factorize(&lifted);
            match ridged {
                Ok(rf) => {
                    assert(factored::<S>(solve_matrix::<F>(a@), Ok(rf)));
                    let x: Vec<Double> = S::solve(&rf, rhs);
                    assert(solved::<S>(rf, rhs@, x@));
                    Ok((fact, x))
                },
                Err(e) => {
                    assert(factored::<S>(solve_matrix::<F>(a@), Err(e)));
                    Err(e)
                },
            }
        },
        Err(e) => {
            assert(factored::<S>(a@, Err(e)));
            Err(e)
        },
    }
}

} // verus!
