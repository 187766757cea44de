//! Newton-Raphson root finding on IEEE 754 double-precision values.
//!
//! The solvers work on [`Double`], a double held by its encoding, and take the
//! function under study, its derivative and the floating-point unit as
//! callables.  Every decision of a search is made here, on the encodings: when
//! an iteration stops, which candidate is accepted, and in which order the
//! seeds are tried.  What a search returns is stated against a [`Model`], the
//! mathematical functions that the callables compute.
//!
//! The arithmetic unit is meant to be IEEE 754 addition, subtraction and
//! division.  Nothing here relies on that: a search with another unit is the
//! same search in another arithmetic.

pub mod brute_force;
pub mod double;
pub mod model;
pub mod newton;

pub use brute_force::{find_root_newton_raphson_with_brute_force, is_good_rate};
pub use double::Double;
pub use model::{Model, Operation};
pub use newton::{find_root_newton_raphson, find_root_newton_raphson_with_default_deriv};
