use std::cell::{Cell, RefCell};

use newton_raphson::newton::is_negligible;
use newton_raphson::{
    find_root_newton_raphson, find_root_newton_raphson_with_default_deriv, Double, Operation,
};

fn double(x: f64) -> Double {
    Double::from_bits(x.to_bits())
}

fn float(x: Double) -> f64 {
    f64::from_bits(x.to_bits())
}

fn ieee(op: Operation, a: Double, b: Double) -> Double {
    let (a, b) = (float(a), float(b));
    double(match op {
        Operation::Add => a + b,
        Operation::Subtract => a - b,
        Operation::Divide => a / b,
    })
}

fn lift<G: Fn(f64) -> f64>(g: G) -> impl Fn(Double) -> Double {
    move |x: Double| double(g(float(x)))
}

fn newton<G: Fn(f64) -> f64, H: Fn(f64) -> f64>(start: f64, f: G, d: H) -> f64 {
    float(find_root_newton_raphson(double(start), &lift(f), &lift(d), &ieee))
}

fn newton_default<G: Fn(f64) -> f64>(start: f64, f: G) -> f64 {
    float(find_root_newton_raphson_with_default_deriv(double(start), &lift(f), &ieee))
}

/// The iteration written on floats, to hold the results against.
fn on_floats<G: Fn(f64) -> f64, H: Fn(f64) -> f64>(start: f64, f: G, d: H) -> f64 {
    let mut x = start;
    let mut left = 50;
    while left > 0 {
        let residual = f(x);
        if residual.abs() < 1e-9 {
            return x;
        }
        let delta = residual / d(x);
        if delta.abs() < 1e-9 {
            return x - delta;
        }
        x -= delta;
        left -= 1;
    }
    f64::NAN
}

fn same(a: f64, b: f64) -> bool {
    a.to_bits() == b.to_bits() || (a.is_nan() && b.is_nan())
}

fn starts() -> Vec<f64> {
    vec![
        0.0, -0.0, 1.0, -1.0, 2.0, 2.0000000001, 3.0, 5.0, -3.5, 7.25, 10.0, 49.0, 50.0, 51.0,
        100.0, -100.0, 1e6, -1e6, 1e-12, 1e300, -1e300,
    ]
}

#[test]
fn negligible_is_under_a_billionth_in_absolute_value() {
    assert!(is_negligible(double(0.0)));
    assert!(is_negligible(double(-0.0)));
    assert!(is_negligible(double(9.99e-10)));
    assert!(is_negligible(double(-9.99e-10)));
    assert!(is_negligible(double(f64::from_bits(1e-9f64.to_bits() - 1))));
    assert!(!is_negligible(double(1e-9)));
    assert!(!is_negligible(double(-1e-9)));
    assert!(!is_negligible(double(1.0)));
    assert!(!is_negligible(double(f64::INFINITY)));
    assert!(!is_negligible(double(f64::NEG_INFINITY)));
    assert!(!is_negligible(double(f64::NAN)));
}

#[test]
fn linear_function_has_its_exact_root() {
    for start in starts() {
        let root = newton(start, |x| x - 5.0, |_| 1.0);
        assert!((root - 5.0).abs() < 1e-9, "from {start}: {root}");
    }
}

#[test]
fn linear_function_from_the_root_itself() {
    let root = newton(5.0, |x| x - 5.0, |_| 1.0);
    assert_eq!(root, 5.0);
}

#[test]
fn start_within_tolerance_returns_after_one_look() {
    let looks = Cell::new(0u32);
    let f = |x: f64| {
        looks.set(looks.get() + 1);
        x * x * x - 8.0
    };
    let root = newton(2.0000000001, f, |x| 3.0 * x * x);
    assert!((root - 2.0).abs() < 1e-9);
    assert_eq!(looks.get(), 1);
}

#[test]
fn negligible_residual_returns_the_start_unchanged() {
    let slopes = Cell::new(0u32);
    let d = |x: f64| {
        slopes.set(slopes.get() + 1);
        3.0 * x * x
    };
    let start = 2.00000000001;
    let root = newton(start, |x| x * x * x - 8.0, d);
    assert_eq!(root.to_bits(), start.to_bits());
    assert_eq!(slopes.get(), 0);
}

#[test]
fn negligible_correction_is_applied_before_returning() {
    // One look: the residual 1e-6 is not negligible, the correction 1e-12 is.
    let root = newton(1.0, |_| 1e-6, |_| 1e6);
    assert_eq!(root.to_bits(), (1.0f64 - 1e-6 / 1e6).to_bits());
}

#[test]
fn one_correction_then_a_negligible_residual() {
    // f(x) = x - 5 from 1: the correction is -4, the next estimate 5 exactly.
    let seen = RefCell::new(Vec::new());
    let f = |x: f64| {
        seen.borrow_mut().push(x);
        x - 5.0
    };
    let root = newton(1.0, f, |_| 1.0);
    assert_eq!(root, 5.0);
    assert_eq!(*seen.borrow(), vec![1.0, 5.0]);
}

#[test]
fn cube_root_of_eight() {
    let root = newton(3.0, |x| x * x * x - 8.0, |x| 3.0 * x * x);
    assert!((root - 2.0).abs() < 1e-9);
}

#[test]
fn square_root_of_two() {
    let root = newton(1.0, |x| x * x - 2.0, |x| 2.0 * x);
    assert!((root - std::f64::consts::SQRT_2).abs() < 1e-9);
}

#[test]
fn default_derivative_agrees_with_the_analytic_one() {
    for start in [1.0, 3.0, 10.0] {
        let with_default = newton_default(start, |x| x * x * x - 8.0);
        let with_analytic = newton(start, |x| x * x * x - 8.0, |x| 3.0 * x * x);
        assert!((with_default - with_analytic).abs() < 1e-6, "from {start}");
        assert!((with_default - 2.0).abs() < 1e-6);
    }
    let with_default = newton_default(1.0, |x| x * x - 2.0);
    let with_analytic = newton(1.0, |x| x * x - 2.0, |x| 2.0 * x);
    assert!((with_default - with_analytic).abs() < 1e-6);
}

#[test]
fn default_derivative_is_the_central_difference() {
    let f = |x: f64| x * x * x - 8.0;
    let central = |x: f64| (f(x + 1e-9) - f(x - 1e-9)) / (2.0 * 1e-9);
    for start in starts() {
        let with_default = newton_default(start, f);
        let with_central = newton(start, f, central);
        assert!(same(with_default, with_central), "from {start}");
    }
}

#[test]
fn default_derivative_looks_to_both_sides() {
    // Each look takes the residual at x, then f at x + 1e-9 and at x - 1e-9.
    let seen = RefCell::new(Vec::new());
    let f = |x: f64| {
        seen.borrow_mut().push(x);
        2.0 * x - 6.0
    };
    let root = newton_default(1.0, f);
    let seen = seen.borrow();
    assert_eq!(seen[0], 1.0);
    assert_eq!(seen[1].to_bits(), (1.0f64 + 1e-9).to_bits());
    assert_eq!(seen[2].to_bits(), (1.0f64 - 1e-9).to_bits());
    assert!((root - 3.0).abs() < 1e-6);
}

#[test]
fn default_derivative_of_a_linear_function() {
    let root = newton_default(0.0, |x| x - 5.0);
    assert!((root - 5.0).abs() < 1e-6);
}

#[test]
fn no_real_root_gives_nan() {
    for start in starts() {
        let root = newton(start, |x| x * x + 1.0, |x| 2.0 * x);
        assert!(root.is_nan(), "from {start}: {root}");
    }
}

#[test]
fn failure_is_the_quiet_nan() {
    let root = find_root_newton_raphson(
        double(1.0),
        &lift(|x| x * x + 1.0),
        &lift(|x| 2.0 * x),
        &ieee,
    );
    assert_eq!(root.to_bits(), f64::NAN.to_bits());
    assert!(root.is_nan());
}

#[test]
fn gives_up_after_fifty_looks() {
    let looks = Cell::new(0u32);
    let slopes = Cell::new(0u32);
    let f = |x: f64| {
        looks.set(looks.get() + 1);
        x * x + 1.0
    };
    let d = |x: f64| {
        slopes.set(slopes.get() + 1);
        2.0 * x
    };
    let root = newton(3.0, f, d);
    assert!(root.is_nan());
    assert_eq!(looks.get(), 50);
    assert_eq!(slopes.get(), 50);
}

#[test]
fn converging_on_the_last_look_still_counts() {
    // The residual stays at 1 for forty-nine looks and vanishes on the fiftieth.
    let looks = Cell::new(0u32);
    let f = |_: f64| {
        looks.set(looks.get() + 1);
        if looks.get() == 50 {
            0.0
        } else {
            1.0
        }
    };
    let root = newton(0.0, f, |_| 1.0);
    assert_eq!(root, -49.0);
    assert_eq!(looks.get(), 50);
}

#[test]
fn vanishing_derivative_gives_nan() {
    let root = newton(1.0, |x| x - 5.0, |_| 0.0);
    assert!(root.is_nan());
    let root = newton(0.0, |x| x * x - 4.0, |x| 2.0 * x);
    assert!(root.is_nan());
}

#[test]
fn nan_start_gives_nan() {
    let root = newton(f64::NAN, |x| x - 5.0, |_| 1.0);
    assert!(root.is_nan());
}

#[test]
fn infinite_residual_is_not_negligible() {
    let looks = Cell::new(0u32);
    let f = |_: f64| {
        looks.set(looks.get() + 1);
        f64::INFINITY
    };
    let root = newton(1.0, f, |_| 1.0);
    assert!(root.is_nan());
    assert_eq!(looks.get(), 50);
}

#[test]
fn results_are_those_of_the_iteration_on_floats() {
    for start in starts() {
        let cubic = newton(start, |x| x * x * x - 8.0, |x| 3.0 * x * x);
        assert!(same(cubic, on_floats(start, |x| x * x * x - 8.0, |x| 3.0 * x * x)));
        let linear = newton(start, |x| x - 5.0, |_| 1.0);
        assert!(same(linear, on_floats(start, |x| x - 5.0, |_| 1.0)));
        let rootless = newton(start, |x| x * x + 1.0, |x| 2.0 * x);
        assert!(same(rootless, on_floats(start, |x| x * x + 1.0, |x| 2.0 * x)));
        let parabola = newton(start, |x| (x - 50.0) * (x - 50.0) - 1.0, |x| 2.0 * (x - 50.0));
        assert!(same(
            parabola,
            on_floats(start, |x| (x - 50.0) * (x - 50.0) - 1.0, |x| 2.0 * (x - 50.0))
        ));
        let sine = newton(start, |x| x.sin(), |x| x.cos());
        assert!(same(sine, on_floats(start, |x| x.sin(), |x| x.cos())));
    }
}

#[test]
fn scattered_starts_give_the_results_of_the_iteration_on_floats() {
    let mut state = 0x2545_f491_4f6c_dd1du64;
    for _ in 0..1500 {
        state ^= state << 13;
        state ^= state >> 7;
        state ^= state << 17;
        let start = (state >> 11) as f64 / (1u64 << 53) as f64 * 200.0 - 100.0;
        let cubic = newton(start, |x| x * x * x - 2.0 * x - 5.0, |x| 3.0 * x * x - 2.0);
        assert!(same(
            cubic,
            on_floats(start, |x| x * x * x - 2.0 * x - 5.0, |x| 3.0 * x * x - 2.0)
        ));
        let cosine = newton(start, |x| x.cos() - x, |x| -x.sin() - 1.0);
        assert!(same(cosine, on_floats(start, |x| x.cos() - x, |x| -x.sin() - 1.0)));
        let flat = newton(start, |x| (x * x + 1.0).recip(), |x| -2.0 * x / ((x * x + 1.0) * (x * x + 1.0)));
        assert!(same(
            flat,
            on_floats(
                start,
                |x| (x * x + 1.0).recip(),
                |x| -2.0 * x / ((x * x + 1.0) * (x * x + 1.0))
            )
        ));
    }
}

#[test]
fn repeated_searches_agree() {
    for start in starts() {
        let first = newton(start, |x| x * x * x - 8.0, |x| 3.0 * x * x);
        let second = newton(start, |x| x * x * x - 8.0, |x| 3.0 * x * x);
        assert!(same(first, second));
        let first = newton_default(start, |x| x * x - 2.0);
        let second = newton_default(start, |x| x * x - 2.0);
        assert!(same(first, second));
    }
}

#[test]
fn arithmetic_is_asked_for_the_quotient_then_the_difference() {
    let asked = RefCell::new(Vec::new());
    let unit = |op: Operation, a: Double, b: Double| {
        asked.borrow_mut().push((op, float(a), float(b)));
        ieee(op, a, b)
    };
    let root = find_root_newton_raphson(double(1.0), &lift(|x| x - 5.0), &lift(|_| 2.0), &unit);
    // From 1: residual -4, slope 2, correction -2, next estimate 3; from 3:
    // correction -1, next 4; and so on towards 5.
    let asked = asked.borrow();
    assert!(matches!(asked[0], (Operation::Divide, a, b) if a == -4.0 && b == 2.0));
    assert!(matches!(asked[1], (Operation::Subtract, a, b) if a == 1.0 && b == -2.0));
    assert!(matches!(asked[2], (Operation::Divide, a, b) if a == -2.0 && b == 2.0));
    assert!(matches!(asked[3], (Operation::Subtract, a, b) if a == 3.0 && b == -1.0));
    assert!((float(root) - 5.0).abs() < 2e-9);
}
