//! The Newton-Raphson iteration, with a given derivative or with a central
//! difference in its place.

use vstd::prelude::*;
use crate::double::Double;
use crate::model::{computes, performs, total, total_unit, Arithmetic, Function, Model, Operation};

verus! {

/// An iteration looks at this many estimates and then gives up.
pub const MAX_ITERATIONS: u32 = 50;

/// The encoding of `1e-9`.  A residual or a correction of smaller absolute
/// value ends an iteration, and the central difference reaches this far to
/// either side.
pub const MAX_ERROR_BITS: u64 = 0x3e11_2e0b_e826_d695;

/// The encoding of `2e-9`, the width of the central difference.  It is twice
/// the tolerance exactly: the exponent field is one higher than in
/// [`MAX_ERROR_BITS`].
pub const DIFFERENCE_WIDTH_BITS: u64 = 0x3e21_2e0b_e826_d695;

/// The tolerance `1e-9`.
pub open spec fn max_error() -> Double {
    Double { bits: MAX_ERROR_BITS }
}

/// Twice the tolerance.
pub open spec fn difference_width() -> Double {
    Double { bits: DIFFERENCE_WIDTH_BITS }
}

/// The absolute value lies under the tolerance.  Infinities and NaN are never
/// negligible.
pub open spec fn negligible(value: Double) -> bool {
    value.abs().lt(max_error())
}

/// The central difference of `f`: the rise of `f` from `x - 1e-9` to
/// `x + 1e-9`, over `2e-9`.
pub open spec fn central_difference(f: Function, arith: Arithmetic) -> Function {
    |x: Double|
        {
            let above = f(arith(Operation::Add, x, max_error()));
            let below = f(arith(Operation::Subtract, x, max_error()));
            arith(Operation::Divide, arith(Operation::Subtract, above, below), difference_width())
        }
}

impl Model {
    /// The correction at an estimate: the residual over the slope.
    pub open spec fn correction(self, x: Double) -> Double {
        self.quotient((self.f)(x), (self.d)(x))
    }

    /// The estimate that follows `x`: `x` less its correction.
    pub open spec fn successor(self, x: Double) -> Double {
        self.difference(x, self.correction(x))
    }

    /// The iteration ends at `x`: the residual or the correction there is
    /// negligible.
    pub open spec fn stops_at(self, x: Double) -> bool {
        negligible((self.f)(x)) || negligible(self.correction(x))
    }

    /// What an iteration that ends at `x` returns: `x` itself where the
    /// residual is negligible, and else `x` with its last correction applied.
    pub open spec fn exit_value(self, x: Double) -> Double {
        if negligible((self.f)(x)) {
            x
        } else {
            self.successor(x)
        }
    }

    /// The estimate after `k` corrections of `start`.
    pub open spec fn estimate(self, start: Double, k: nat) -> Double
        decreases k,
    {
        if k == 0 {
            start
        } else {
            self.estimate(self.successor(start), (k - 1) as nat)
        }
    }

    /// The result of an iteration from `x` that may look at `budget` more
    /// estimates: the exit value of the first estimate at which it stops, and
    /// NaN once the budget is spent.
    pub open spec fn newton_from(self, x: Double, budget: nat) -> Double
        decreases budget,
    {
        if budget == 0 {
            Double::nan()
        } else if self.stops_at(x) {
            self.exit_value(x)
        } else {
            self.newton_from(self.successor(x), (budget - 1) as nat)
        }
    }

    /// The root that the Newton-Raphson iteration finds from `start`.
    pub open spec fn newton_root(self, start: Double) -> Double {
        self.newton_from(start, MAX_ITERATIONS as nat)
    }

    /// The model of a search without a derivative of its own: for a slope it
    /// has the central difference of `f`.
    pub open spec fn with_central_difference(f: Function, arith: Arithmetic) -> Model {
        Model { f, d: central_difference(f, arith), arith }
    }
}

/// `root` is what the Newton-Raphson iteration from `start` gives under every
/// model of the callables.
pub open spec fn is_newton_root<F, D, A>(f: &F, d: &D, arith: &A, start: Double, root: Double) -> bool where
    F: Fn(Double) -> Double,
    D: Fn(Double) -> Double,
    A: Fn(Operation, Double, Double) -> Double,
 {
    forall|m: Model| #[trigger] m.describes(f, d, arith) ==> root == m.newton_root(start)
}

/// `root` is what the iteration from `start` gives, with the central
/// difference of `f` for a derivative, under every model of the callables.
pub open spec fn is_newton_root_with_default_deriv<F, A>(
    f: &F,
    arith: &A,
    start: Double,
    root: Double,
) -> bool where F: Fn(Double) -> Double, A: Fn(Operation, Double, Double) -> Double {
    forall|g: Function, unit: Arithmetic|
        #![trigger computes(f, g), performs(arith, unit)]
        computes(f, g) && performs(arith, unit) ==> root == Model::with_central_difference(
            g,
            unit,
        ).newton_root(start)
}

/// Whether a residual or a correction is small enough to end an iteration:
/// its absolute value is under `1e-9`.
pub fn is_negligible(value: Double) -> (small: bool)
    ensures
        small == negligible(value),
{
    value.abs().lt(Double::from_bits(MAX_ERROR_BITS))
}

/// Newton-Raphson iteration from `start`: `x[n + 1] = x[n] - f(x[n]) / d(x[n])`.
///
/// Looks at up to fifty estimates, `start` being the first.  At each one, a
/// residual `f(x)` of absolute value under `1e-9` ends the search with `x`;
/// else a correction `f(x) / d(x)` of absolute value under `1e-9` ends it
/// with the corrected estimate.  When the fiftieth estimate ends nothing the
/// result is NaN.
///
/// A slope of zero is not guarded against: the quotient is then whatever
/// `arith` makes of it, in IEEE arithmetic an infinity or NaN, which is never
/// negligible.
pub fn find_root_newton_raphson<F, D, A>(start: Double, f: &F, d: &D, arith: &A) -> (root: Double) where
    F: Fn(Double) -> Double,
    D: Fn(Double) -> Double,
    A: Fn(Operation, Double, Double) -> Double,

    requires
        total(f),
        total(d),
        total_unit(arith),
    ensures
        is_newton_root(f, d, arith, start, root),
{
    let mut x = start;
    let mut looked: u32 = 0;
    while looked < MAX_ITERATIONS
        invariant
            looked <= MAX_ITERATIONS,
            total(f),
            total(d),
            total_unit(arith),
            forall|m: Model| #[trigger]
                m.describes(f, d, arith) ==> m.newton_from(x, (MAX_ITERATIONS - looked) as nat)
                    == m.newton_root(start),
        decreases MAX_ITERATIONS - looked,
    {
        let residual = f(x);
        if is_negligible(residual) {
            return x;
        }
        let delta = arith(Operation::Divide, residual, d(x));
        let corrected = arith(Operation::Subtract, x, delta);
        if is_negligible(delta) {
            return corrected;
        }
        x = corrected;
        looked = looked + 1;
    }
    Double::nan()
}

/// Newton-Raphson iteration from `start` for a function without a known
/// derivative: the slope at `x` is taken as
/// `(f(x + 1e-9) - f(x - 1e-9)) / 2e-9`.
pub fn find_root_newton_raphson_with_default_deriv<F, A>(start: Double, f: &F, arith: &A) -> (root:
    Double) where F: Fn(Double) -> Double, A: Fn(Operation, Double, Double) -> Double
    requires
        total(f),
        total_unit(arith),
    ensures
        is_newton_root_with_default_deriv(f, arith, start, root),
{
    let reach = Double::from_bits(MAX_ERROR_BITS);
    let width = Double::from_bits(DIFFERENCE_WIDTH_BITS);
    let d = |x: Double| -> (slope: Double)
        ensures
            forall|g: Function, unit: Arithmetic|
                #![trigger computes(f, g), performs(arith, unit)]
                computes(f, g) && performs(arith, unit) ==> slope == central_difference(g, unit)(x),
        {
            let above = f(arith(Operation::Add, x, reach));
            let below = f(arith(Operation::Subtract, x, reach));
            arith(Operation::Divide, arith(Operation::Subtract, above, below), width)
        };
    let root = find_root_newton_raphson(start, f, &d, arith);
    proof {
        assert forall|g: Function, unit: Arithmetic|
            #![trigger computes(f, g), performs(arith, unit)]
            computes(f, g) && performs(arith, unit) implies root == Model::with_central_difference(
            g,
            unit,
        ).newton_root(start) by {
            let m = Model::with_central_difference(g, unit);
            assert(computes(&d, m.d));
            assert(m.describes(f, &d, arith));
        }
    }
    root
}

/// Infinities and NaN never end an iteration: what is negligible is finite.
/// So a quotient by a slope of zero, in IEEE arithmetic an infinity or NaN,
/// is no negligible correction.
pub proof fn lemma_negligible_is_finite(value: Double)
    requires
        negligible(value),
    ensures
        value.is_finite(),
        !value.is_nan(),
{
}

/// An iteration with budget to look at the `k`-th estimate, which stops there
/// and at none before, returns the exit value of that estimate.
pub proof fn lemma_newton_from_first_stop(m: Model, x: Double, budget: nat, k: nat)
    requires
        k < budget,
        m.stops_at(m.estimate(x, k)),
        forall|j: nat| j < k ==> !m.stops_at(#[trigger] m.estimate(x, j)),
    ensures
        m.newton_from(x, budget) == m.exit_value(m.estimate(x, k)),
    decreases k,
{
    if k > 0 {
        assert(!m.stops_at(m.estimate(x, 0)));
        let y = m.successor(x);
        assert forall|j: nat| j < k - 1 implies !m.stops_at(#[trigger] m.estimate(y, j)) by {
            assert(m.estimate(x, j + 1) == m.estimate(y, j));
        }
        lemma_newton_from_first_stop(m, y, (budget - 1) as nat, (k - 1) as nat);
    }
}

/// An iteration that stops at none of the estimates in its budget returns
/// NaN.
pub proof fn lemma_newton_from_no_stop(m: Model, x: Double, budget: nat)
    requires
        forall|j: nat| j < budget ==> !m.stops_at(#[trigger] m.estimate(x, j)),
    ensures
        m.newton_from(x, budget) == Double::nan(),
    decreases budget,
{
    if budget > 0 {
        assert(!m.stops_at(m.estimate(x, 0)));
        let y = m.successor(x);
        assert forall|j: nat| j < budget - 1 implies !m.stops_at(#[trigger] m.estimate(y, j)) by {
            assert(m.estimate(x, j + 1) == m.estimate(y, j));
        }
        lemma_newton_from_no_stop(m, y, (budget - 1) as nat);
    }
}

/// The root is decided by the first of the fifty estimates at which the
/// iteration stops: it is the exit value there.
pub proof fn lemma_newton_root_at_first_stop(m: Model, start: Double, k: nat)
    requires
        k < MAX_ITERATIONS,
        m.stops_at(m.estimate(start, k)),
        forall|j: nat| j < k ==> !m.stops_at(#[trigger] m.estimate(start, j)),
    ensures
        m.newton_root(start) == m.exit_value(m.estimate(start, k)),
{
    lemma_newton_from_first_stop(m, start, MAX_ITERATIONS as nat, k);
}

/// Without convergence there is no root: where the iteration stops at none of
/// its fifty estimates, the result is NaN.
pub proof fn lemma_newton_root_without_stop(m: Model, start: Double)
    requires
        forall|j: nat| j < MAX_ITERATIONS ==> !m.stops_at(#[trigger] m.estimate(start, j)),
    ensures
        m.newton_root(start) == Double::nan(),
        m.newton_root(start).is_nan(),
{
    lemma_newton_from_no_stop(m, start, MAX_ITERATIONS as nat);
}

/// A seed with a negligible residual is its own root: the search returns it
/// without a single correction.
pub proof fn lemma_newton_root_of_settled_seed(m: Model, start: Double)
    requires
        negligible((m.f)(start)),
    ensures
        m.newton_root(start) == start,
{
}

/// A seed with a negligible correction, and a residual that is not, has the
/// corrected seed for its root.
pub proof fn lemma_newton_root_of_converged_seed(m: Model, start: Double)
    requires
        !negligible((m.f)(start)),
        negligible(m.correction(start)),
    ensures
        m.newton_root(start) == m.difference(start, m.quotient((m.f)(start), (m.d)(start))),
{
}

/// Searching twice finds the same root: where the callables compute
/// functions, two results of a search with the same callables from the same
/// seed are equal.
pub proof fn lemma_newton_raphson_repeatable<F, D, A>(
    f: &F,
    d: &D,
    arith: &A,
    start: Double,
    first: Double,
    second: Double,
) where F: Fn(Double) -> Double, D: Fn(Double) -> Double, A: Fn(Operation, Double, Double) -> Double
    requires
        exists|m: Model| m.describes(f, d, arith),
        is_newton_root(f, d, arith, start, first),
        is_newton_root(f, d, arith, start, second),
    ensures
        first == second,
{
    let m = choose|m: Model| m.describes(f, d, arith);
    assert(first == m.newton_root(start));
}

/// The same of a search with the default derivative.
pub proof fn lemma_default_deriv_repeatable<F, A>(
    f: &F,
    arith: &A,
    start: Double,
    first: Double,
    second: Double,
) where F: Fn(Double) -> Double, A: Fn(Operation, Double, Double) -> Double
    requires
        exists|g: Function, unit: Arithmetic| computes(f, g) && performs(arith, unit),
        is_newton_root_with_default_deriv(f, arith, start, first),
        is_newton_root_with_default_deriv(f, arith, start, second),
    ensures
        first == second,
{
    let (g, unit) = choose|g: Function, unit: Arithmetic| computes(f, g) && performs(arith, unit);
    assert(first == Model::with_central_difference(g, unit).newton_root(start));
}

/// The default derivative is the central difference: a search with the
/// default derivative finds what a search finds whose derivative computes the
/// central difference of `f`.
pub proof fn lemma_default_deriv_is_central_difference<F, D, A>(
    f: &F,
    d: &D,
    arith: &A,
    start: Double,
    with_default: Double,
    with_given: Double,
) where F: Fn(Double) -> Double, D: Fn(Double) -> Double, A: Fn(Operation, Double, Double) -> Double
    requires
        exists|g: Function, unit: Arithmetic|
            computes(f, g) && performs(arith, unit) && computes(d, central_difference(g, unit)),
        is_newton_root_with_default_deriv(f, arith, start, with_default),
        is_newton_root(f, d, arith, start, with_given),
    ensures
        with_default == with_given,
{
    let (g, unit) = choose|g: Function, unit: Arithmetic|
        computes(f, g) && performs(arith, unit) && computes(d, central_difference(g, unit));
    let m = Model::with_central_difference(g, unit);
    assert(m.describes(f, d, arith));
    assert(with_given == m.newton_root(start));
}

} // verus!
