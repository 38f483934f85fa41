# gamrs

Generalised additive models: penalised fits, the score that chooses their smoothing
and shape parameters, and the search that minimises it, with contracts that Verus
proves.

## Layout

| Part | What it holds |
| --- | --- |
| `src/double.rs`, `src/arith.rs` | Doubles as bit patterns, and the operations on them |
| `src/matrix.rs`, `src/dense.rs` | Dense matrices and the products of the fits |
| `src/traits.rs` | What a family and a linear-algebra library supply |
| `src/inner.rs`, `src/inner/` | Inner fits: closed form, reweighted least squares, ordered categories, quantiles |
| `src/score.rs`, `src/score/` | The score with its derivatives, without and with shape parameters |
| `src/outer.rs`, `src/outer/` | The outer search: steps, control, damped Newton, Fellner-Schall |
| `src/special.rs` | Log gamma and its derivatives, the Tweedie series |
| `src/python.rs`, `src/python/` | Names, arguments and terms of the Python surface; scores part by part |
| `src/stats.rs`, `src/profile.rs` | Counters and timers |
| `tests/` | Tests on machine doubles |
| `app/` | Machine doubles, LAPACK, per-thread settings and the Python module |

## What the contracts say

Arithmetic, factorisations and families are parameters. A function that uses them
states its result as an expression over their answers: the same sums in the same
order, the same branches, the same errors. Iterations are stated as courses: a
sequence of states in which each follows from the one before by the rules of the
iteration, and the result is read off the last. The only thing asked of an
arithmetic is that an operation has one result for given operands.

The proof functions named `law_...` state what holds across functions: what a
projection leaves alone, that a search only accepts improvements and ends, that a
trial does not touch the accepted point, that an override is in force until it is
cleared. Those of whole searches stand in `src/outer/laws.rs`, those of the scores'
Hessians in `src/score/laws.rs`. Laws that compare results of arithmetic ask for the
facts of rounding in `arith::rounded`.
