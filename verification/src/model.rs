//! The callables of a search and the functions they compute.
//!
//! A search is handed three callables: the function whose root is sought, its
//! derivative, and the floating-point unit.  What it returns is stated
//! against a [`Model`]: three mathematical functions that the callables
//! compute.  A callable that is not a function of its arguments has no model,
//! and of a search with such a callable nothing is stated here.

use vstd::prelude::*;
use crate::double::Double;

verus! {

/// The floating-point operations that a search asks of the arithmetic unit.
#[derive(Clone, Copy, Debug)]
pub enum Operation {
    /// The sum of the two operands.
    Add,
    /// The first operand less the second.
    Subtract,
    /// The first operand over the second.
    Divide,
}

/// A function from doubles to doubles.
pub type Function = spec_fn(Double) -> Double;

/// The result of each operation on each pair of operands.
pub type Arithmetic = spec_fn(Operation, Double, Double) -> Double;

/// The callable may be called on every argument.
pub open spec fn total<F: Fn(Double) -> Double>(f: &F) -> bool {
    forall|x: Double| f.requires((x,))
}

/// The arithmetic unit may be called for every operation on every pair of
/// operands.
pub open spec fn total_unit<A: Fn(Operation, Double, Double) -> Double>(arith: &A) -> bool {
    forall|op: Operation, a: Double, b: Double| arith.requires((op, a, b))
}

/// Whatever the callable returns for an argument is the value of `g` there.
pub open spec fn computes<F: Fn(Double) -> Double>(f: &F, g: Function) -> bool {
    forall|x: Double, y: Double| #[trigger] f.ensures((x,), y) ==> y == g(x)
}

/// Whatever the arithmetic unit returns for an operation on two operands is
/// the value of `unit` there.
pub open spec fn performs<A: Fn(Operation, Double, Double) -> Double>(
    arith: &A,
    unit: Arithmetic,
) -> bool {
    forall|op: Operation, a: Double, b: Double, c: Double| #[trigger]
        arith.ensures((op, a, b), c) ==> c == unit(op, a, b)
}

/// The mathematics behind the callables of a search: the function whose root
/// is sought, its derivative, and the arithmetic.
pub struct Model {
    pub f: Function,
    pub d: Function,
    pub arith: Arithmetic,
}

impl Model {
    /// The three callables compute the three functions of the model.
    pub open spec fn describes<F, D, A>(self, f: &F, d: &D, arith: &A) -> bool where
        F: Fn(Double) -> Double,
        D: Fn(Double) -> Double,
        A: Fn(Operation, Double, Double) -> Double,
     {
        &&& computes(f, self.f)
        &&& computes(d, self.d)
        &&& performs(arith, self.arith)
    }

    /// The sum `a + b` in the arithmetic of the model.
    pub open spec fn sum(self, a: Double, b: Double) -> Double {
        (self.arith)(Operation::Add, a, b)
    }

    /// The difference `a - b` in the arithmetic of the model.
    pub open spec fn difference(self, a: Double, b: Double) -> Double {
        (self.arith)(Operation::Subtract, a, b)
    }

    /// The quotient `a / b` in the arithmetic of the model.
    pub open spec fn quotient(self, a: Double, b: Double) -> Double {
        (self.arith)(Operation::Divide, a, b)
    }
}

} // verus!
