//! The multi-start driver: a Newton-Raphson search from a primary seed and,
//! where that finds no acceptable root, from each seed of a list of scan
//! ranges in turn.

use vstd::prelude::*;
use crate::double::Double;
use crate::model::{computes, total, total_unit, Function, Model, Operation};
use crate::newton::{find_root_newton_raphson, negligible};

verus! {

/// The encoding of `1e-3`: a candidate is accepted when the residual there is
/// of smaller absolute value.
pub const ACCEPTANCE_BITS: u64 = 0x3f50_624d_d2f1_a9fc;

/// The acceptance threshold `1e-3`.
pub open spec fn acceptance() -> Double {
    Double { bits: ACCEPTANCE_BITS }
}

/// A candidate is good when it is finite and the residual of `f` there lies
/// under the acceptance threshold in absolute value.
pub open spec fn good_rate(f: Function, rate: Double) -> bool {
    rate.is_finite() && f(rate).abs().lt(acceptance())
}

/// `rate` is finite, and the callable has returned for it a residual under
/// the acceptance threshold in absolute value.
pub open spec fn seen_good<F: Fn(Double) -> Double>(f: &F, rate: Double) -> bool {
    rate.is_finite() && exists|residual: Double|
        f.ensures((rate,), residual) && residual.abs().lt(acceptance())
}

/// What is left of a scan: the distance in rank from the guess up to the end
/// of its range, and nothing once the guess is not under the end.
pub open spec fn span(guess: Double, max: Double) -> nat {
    if guess.lt(max) {
        (max.rank() - guess.rank()) as nat
    } else {
        0
    }
}

impl Model {
    /// The seeds of a scan that has come to `guess`: `guess` itself while it
    /// lies under `max`, and then those from `guess + step` on.  A sum that
    /// does not lie above `guess` ends the scan, so every scan is finite.
    pub open spec fn seeds_from(self, guess: Double, max: Double, step: Double) -> Seq<Double>
        decreases span(guess, max),
    {
        if guess.lt(max) {
            let next = self.sum(guess, step);
            if guess.lt(next) {
                seq![guess] + self.seeds_from(next, max, step)
            } else {
                seq![guess]
            }
        } else {
            Seq::empty()
        }
    }

    /// The seeds of one range `(min, max, step)`: `min`, `min + step`,
    /// `min + step + step` and so on under `max`, in this order.  A range
    /// whose step is not above zero has no seeds, and neither has one whose
    /// `min` is not under its `max`.
    pub open spec fn range_seeds(self, range: (Double, Double, Double)) -> Seq<Double> {
        if Double::zero().lt(range.2) {
            self.seeds_from(range.0, range.1, range.2)
        } else {
            Seq::empty()
        }
    }

    /// The seeds of the ranges from the `i`-th on, range after range.
    pub open spec fn scan_seeds_from(self, ranges: Seq<(Double, Double, Double)>, i: int) -> Seq<
        Double,
    >
        decreases ranges.len() - i,
    {
        if 0 <= i < ranges.len() {
            self.range_seeds(ranges[i]) + self.scan_seeds_from(ranges, i + 1)
        } else {
            Seq::empty()
        }
    }

    /// The seeds of all the ranges, in the order in which they are tried.
    pub open spec fn scan_seeds(self, ranges: Seq<(Double, Double, Double)>) -> Seq<Double> {
        self.scan_seeds_from(ranges, 0)
    }

    /// The Newton-Raphson root of the first seed whose root is good, and NaN
    /// where no seed has a good root.
    pub open spec fn first_good_root(self, seeds: Seq<Double>) -> Double
        decreases seeds.len(),
    {
        if seeds.len() == 0 {
            Double::nan()
        } else if good_rate(self.f, self.newton_root(seeds[0])) {
            self.newton_root(seeds[0])
        } else {
            self.first_good_root(seeds.drop_first())
        }
    }

    /// What the multi-start search returns: the first good root among those
    /// of `start` and of the seeds of the ranges.
    pub open spec fn brute_force_root(self, start: Double, ranges: Seq<(Double, Double, Double)>) -> Double {
        self.first_good_root(seq![start] + self.scan_seeds(ranges))
    }
}

/// `root` is what the multi-start search gives under every model of the
/// callables.
pub open spec fn is_brute_force_root<F, D, A>(
    f: &F,
    d: &D,
    arith: &A,
    start: Double,
    ranges: Seq<(Double, Double, Double)>,
    root: Double,
) -> bool where
    F: Fn(Double) -> Double,
    D: Fn(Double) -> Double,
    A: Fn(Operation, Double, Double) -> Double,
 {
    forall|m: Model| #[trigger]
        m.describes(f, d, arith) ==> root == m.brute_force_root(start, ranges)
}

/// The first seed decides where its root is good, and else the others do.
pub proof fn lemma_first_good_root_step(m: Model, head: Double, rest: Seq<Double>)
    ensures
        m.first_good_root(seq![head] + rest) == if good_rate(m.f, m.newton_root(head)) {
            m.newton_root(head)
        } else {
            m.first_good_root(rest)
        },
{
    let seeds = seq![head] + rest;
    assert(seeds[0] == head);
    assert(seeds.drop_first() =~= rest);
}

/// What a search leads to that tries `guess`, then the seeds that follow it
/// in its range, then the seeds `later`: the root of `guess` where it is
/// good; else what the seeds from the next one on lead to or, where adding
/// the step does not raise the guess, what `later` leads to.
spec fn scan_outcome(m: Model, guess: Double, max: Double, step: Double, later: Seq<Double>) -> Double {
    if good_rate(m.f, m.newton_root(guess)) {
        m.newton_root(guess)
    } else if guess.lt(m.sum(guess, step)) {
        m.first_good_root(m.seeds_from(m.sum(guess, step), max, step) + later)
    } else {
        m.first_good_root(later)
    }
}

/// A scan that has come to a guess under `max` leads to the outcome above.
proof fn lemma_scan_outcome(m: Model, guess: Double, max: Double, step: Double, later: Seq<Double>)
    requires
        guess.lt(max),
    ensures
        m.first_good_root(m.seeds_from(guess, max, step) + later) == scan_outcome(
            m,
            guess,
            max,
            step,
            later,
        ),
{
    let next = m.sum(guess, step);
    let rest = if guess.lt(next) {
        m.seeds_from(next, max, step)
    } else {
        Seq::empty()
    };
    assert(m.seeds_from(guess, max, step) + later =~= seq![guess] + (rest + later));
    assert(guess.lt(next) || rest + later =~= later);
    lemma_first_good_root_step(m, guess, rest + later);
}

/// Whether a candidate root is acceptable: finite, and with a residual of
/// absolute value under `1e-3`.  The function is not evaluated at a candidate
/// that is infinite or NaN.
pub fn is_good_rate<F>(rate: Double, f: &F) -> (good: bool) where F: Fn(Double) -> Double
    requires
        total(f),
    ensures
        forall|g: Function| #[trigger] computes(f, g) ==> good == good_rate(g, rate),
        good ==> seen_good(f, rate),
{
    rate.is_finite() && f(rate).abs().lt(Double::from_bits(ACCEPTANCE_BITS))
}

/// Newton-Raphson search from `start` and, where that gives no good root,
/// from the seeds of `ranges`.
///
/// Each range is a triple `(min, max, step)`; its seeds are `min`,
/// `min + step` and so on, as long as they lie under `max`.  The ranges are
/// taken in the order given and the seeds of a range from `min` upwards.  The
/// first root that is finite and has a residual under `1e-3` in absolute value
/// is returned, and no later seed is tried.  The result is NaN where no seed
/// gives such a root.  So whatever the callables do, the result is either a
/// finite value at which `f` was seen to have such a residual, or NaN.
///
/// A range contributes no seed unless `min < max` and `step > 0`.  A scan
/// also ends at a seed that adding the step does not raise, which happens
/// where the step is lost in rounding.
pub fn find_root_newton_raphson_with_brute_force<F, D, A>(
    start: Double,
    ranges: &[(Double, Double, Double)],
    f: &F,
    d: &D,
    arith: &A,
) -> (root: Double) where
    F: Fn(Double) -> Double,
    D: Fn(Double) -> Double,
    A: Fn(Operation, Double, Double) -> Double,

    requires
        total(f),
        total(d),
        total_unit(arith),
    ensures
        is_brute_force_root(f, d, arith, start, ranges@, root),
        seen_good(f, root) || root == Double::nan(),
{
    let rate = find_root_newton_raphson(start, f, d, arith);
    if is_good_rate(rate, f) {
        proof {
            assert forall|m: Model| #[trigger] m.describes(f, d, arith) implies rate
                == m.brute_force_root(start, ranges@) by {
                lemma_first_good_root_step(m, start, m.scan_seeds(ranges@));
            }
        }
        return rate;
    }
    proof {
        assert forall|m: Model| #[trigger] m.describes(f, d, arith) implies m.brute_force_root(
            start,
            ranges@,
        ) == m.first_good_root(m.scan_seeds_from(ranges@, 0)) by {
            lemma_first_good_root_step(m, start, m.scan_seeds(ranges@));
        }
    }
    let mut i: usize = 0;
    while i < ranges.len()
        invariant
            i <= ranges.len(),
            total(f),
            total(d),
            total_unit(arith),
            forall|m: Model| #[trigger]
                m.describes(f, d, arith) ==> m.brute_force_root(start, ranges@)
                    == m.first_good_root(m.scan_seeds_from(ranges@, i as int)),
        decreases ranges.len() - i,
    {
        let (min, max, step) = ranges[i];
        if Double::zero().lt(step) {
            let mut guess = min;
            proof {
                assert forall|m: Model| #[trigger] m.describes(f, d, arith) implies m.brute_force_root(
                    start,
                    ranges@,
                ) == m.first_good_root(
                    m.seeds_from(guess, max, step) + m.scan_seeds_from(ranges@, i + 1),
                ) by {
                    assert(ranges@[i as int] == (min, max, step));
                }
            }
            while guess.lt(max)
                invariant_except_break
                    forall|m: Model| #[trigger]
                        m.describes(f, d, arith) ==> m.brute_force_root(start, ranges@)
                            == m.first_good_root(
                            m.seeds_from(guess, max, step) + m.scan_seeds_from(ranges@, i + 1),
                        ),
                invariant
                    i < ranges.len(),
                    total(f),
                    total(d),
                    total_unit(arith),
                ensures
                    forall|m: Model| #[trigger]
                        m.describes(f, d, arith) ==> m.brute_force_root(start, ranges@)
                            == m.first_good_root(m.scan_seeds_from(ranges@, i + 1)),
                decreases span(guess, max),
            {
                proof {
                    assert forall|m: Model| #[trigger] m.describes(f, d, arith) implies m.brute_force_root(
                        start,
                        ranges@,
                    ) == scan_outcome(m, guess, max, step, m.scan_seeds_from(ranges@, i + 1)) by {
                        lemma_scan_outcome(m, guess, max, step, m.scan_seeds_from(ranges@, i + 1));
                    }
                }
                let rate = find_root_newton_raphson(guess, f, d, arith);
                if is_good_rate(rate, f) {
                    return rate;
                }
                let next = arith(Operation::Add, guess, step);
                if !guess.lt(next) {
                    break;
                }
                guess = next;
            }
        } else {
            proof {
                assert forall|m: Model| #[trigger] m.describes(f, d, arith) implies m.brute_force_root(
                    start,
                    ranges@,
                ) == m.first_good_root(m.scan_seeds_from(ranges@, i + 1)) by {
                    assert(ranges@[i as int] == (min, max, step));
                    assert(m.range_seeds(ranges@[i as int]) + m.scan_seeds_from(ranges@, i + 1)
                        =~= m.scan_seeds_from(ranges@, i + 1));
                }
            }
        }
        i = i + 1;
    }
    proof {
        assert forall|m: Model| #[trigger] m.describes(f, d, arith) implies Double::nan()
            == m.brute_force_root(start, ranges@) by {
            assert(m.scan_seeds_from(ranges@, i as int) =~= Seq::empty());
        }
    }
    Double::nan()
}

/// Acceptance is the coarser test: a finite candidate at which the residual
/// would end an iteration is good.
pub proof fn lemma_negligible_residual_is_good(f: Function, rate: Double)
    requires
        rate.is_finite(),
        negligible(f(rate)),
    ensures
        good_rate(f, rate),
{
}

/// First success wins: where the root of the `k`-th seed is good and that of
/// no earlier seed is, the search returns the root of the `k`-th seed,
/// whatever the later seeds would give.
pub proof fn lemma_first_good_root_at(m: Model, seeds: Seq<Double>, k: int)
    requires
        0 <= k < seeds.len(),
        good_rate(m.f, m.newton_root(seeds[k])),
        forall|j: int| 0 <= j < k ==> !good_rate(m.f, m.newton_root(#[trigger] seeds[j])),
    ensures
        m.first_good_root(seeds) == m.newton_root(seeds[k]),
    decreases k,
{
    if k > 0 {
        assert(!good_rate(m.f, m.newton_root(seeds[0])));
        let rest = seeds.drop_first();
        assert forall|j: int| 0 <= j < k - 1 implies !good_rate(
            m.f,
            m.newton_root(#[trigger] rest[j]),
        ) by {
            assert(rest[j] == seeds[j + 1]);
        }
        lemma_first_good_root_at(m, rest, k - 1);
    }
}

/// Failure is NaN and nothing else is: the search returns a good root as soon
/// as some seed has one, and NaN, which is not good, where no seed has.
pub proof fn lemma_first_good_root_is_good_or_nan(m: Model, seeds: Seq<Double>)
    ensures
        (exists|k: int| 0 <= k < seeds.len() && good_rate(m.f, m.newton_root(#[trigger] seeds[k])))
            ==> good_rate(m.f, m.first_good_root(seeds)),
        (forall|k: int| 0 <= k < seeds.len() ==> !good_rate(m.f, m.newton_root(#[trigger] seeds[k])))
            ==> m.first_good_root(seeds) == Double::nan(),
        !good_rate(m.f, Double::nan()),
        good_rate(m.f, m.first_good_root(seeds)) || m.first_good_root(seeds).is_nan(),
    decreases seeds.len(),
{
    if seeds.len() > 0 && !good_rate(m.f, m.newton_root(seeds[0])) {
        let rest = seeds.drop_first();
        lemma_first_good_root_is_good_or_nan(m, rest);
        assert forall|k: int| 0 <= k < rest.len() implies rest[k] == seeds[k + 1] by {}
        if exists|k: int| 0 <= k < seeds.len() && good_rate(m.f, m.newton_root(#[trigger] seeds[k])) {
            let k = choose|k: int|
                0 <= k < seeds.len() && good_rate(m.f, m.newton_root(#[trigger] seeds[k]));
            assert(rest[k - 1] == seeds[k]);
        }
    }
}

/// The fast path: a primary seed with a good root decides, and no range is
/// looked at.
pub proof fn lemma_brute_force_root_of_good_start(
    m: Model,
    start: Double,
    ranges: Seq<(Double, Double, Double)>,
)
    requires
        good_rate(m.f, m.newton_root(start)),
    ensures
        m.brute_force_root(start, ranges) == m.newton_root(start),
{
    lemma_first_good_root_step(m, start, m.scan_seeds(ranges));
}

/// Without a good root from the primary seed, the seeds of the ranges decide.
pub proof fn lemma_brute_force_root_of_bad_start(
    m: Model,
    start: Double,
    ranges: Seq<(Double, Double, Double)>,
)
    requires
        !good_rate(m.f, m.newton_root(start)),
    ensures
        m.brute_force_root(start, ranges) == m.first_good_root(m.scan_seeds(ranges)),
{
    lemma_first_good_root_step(m, start, m.scan_seeds(ranges));
}

/// A scan starts at its first guess, stays under `max`, and rises from seed
/// to seed.
pub proof fn lemma_seeds_from_rise(m: Model, guess: Double, max: Double, step: Double, i: int, j: int)
    requires
        0 <= i <= j < m.seeds_from(guess, max, step).len(),
    ensures
        m.seeds_from(guess, max, step)[0] == guess,
        m.seeds_from(guess, max, step)[j].lt(max),
        i < j ==> m.seeds_from(guess, max, step)[i].lt(m.seeds_from(guess, max, step)[j]),
    decreases j,
{
    if j > 0 {
        let next = m.sum(guess, step);
        let rest = m.seeds_from(next, max, step);
        assert(m.seeds_from(guess, max, step) =~= seq![guess] + rest);
        if i > 0 {
            lemma_seeds_from_rise(m, next, max, step, i - 1, j - 1);
        } else {
            lemma_seeds_from_rise(m, next, max, step, 0, j - 1);
        }
    }
}

/// The seeds of a range start at its `min`, stay under its `max`, and rise:
/// an earlier seed is a smaller one.
pub proof fn lemma_range_seeds_rise(m: Model, range: (Double, Double, Double), i: int, j: int)
    requires
        0 <= i <= j < m.range_seeds(range).len(),
    ensures
        m.range_seeds(range)[0] == range.0,
        m.range_seeds(range)[j].lt(range.1),
        i < j ==> m.range_seeds(range)[i].lt(m.range_seeds(range)[j]),
{
    lemma_seeds_from_rise(m, range.0, range.1, range.2, i, j);
}

/// A range has seeds exactly where its step is above zero and its `min`
/// under its `max`.
pub proof fn lemma_range_seeds_emptiness(m: Model, range: (Double, Double, Double))
    ensures
        m.range_seeds(range).len() == 0 <==> !(Double::zero().lt(range.2) && range.0.lt(range.1)),
{
}

/// From seed to seed: the seed after the `k`-th is the `k`-th plus the step;
/// after the last seed that sum does not give another, for it does not lie
/// above the last seed or does not lie under `max`.
pub proof fn lemma_seeds_from_chain(m: Model, guess: Double, max: Double, step: Double, k: int)
    requires
        0 <= k < m.seeds_from(guess, max, step).len(),
    ensures
        ({
            let seeds = m.seeds_from(guess, max, step);
            let next = m.sum(seeds[k], step);
            if k + 1 < seeds.len() {
                seeds[k + 1] == next
            } else {
                !(seeds[k].lt(next) && next.lt(max))
            }
        }),
    decreases k,
{
    let next = m.sum(guess, step);
    if guess.lt(next) {
        let rest = m.seeds_from(next, max, step);
        assert(m.seeds_from(guess, max, step) =~= seq![guess] + rest);
        if k > 0 {
            lemma_seeds_from_chain(m, next, max, step, k - 1);
        } else if rest.len() > 0 {
            lemma_seeds_from_rise(m, next, max, step, 0, 0);
        }
    }
}

/// The same of the seeds of a range.
pub proof fn lemma_range_seeds_chain(m: Model, range: (Double, Double, Double), k: int)
    requires
        0 <= k < m.range_seeds(range).len(),
    ensures
        ({
            let seeds = m.range_seeds(range);
            let next = m.sum(seeds[k], range.2);
            if k + 1 < seeds.len() {
                seeds[k + 1] == next
            } else {
                !(seeds[k].lt(next) && next.lt(range.1))
            }
        }),
{
    lemma_seeds_from_chain(m, range.0, range.1, range.2, k);
}

/// Among the seeds of one range the smallest with a good root decides: where
/// the root of a seed is good, and that of no smaller seed of the range is,
/// the scan of the range returns the root of that seed, and so does a search
/// over this one range whose primary seed has no good root.
pub proof fn lemma_smallest_good_seed_wins(
    m: Model,
    start: Double,
    range: (Double, Double, Double),
    k: int,
)
    requires
        0 <= k < m.range_seeds(range).len(),
        good_rate(m.f, m.newton_root(m.range_seeds(range)[k])),
        forall|j: int|
            0 <= j < m.range_seeds(range).len() && (#[trigger] m.range_seeds(range)[j]).lt(
                m.range_seeds(range)[k],
            ) ==> !good_rate(m.f, m.newton_root(m.range_seeds(range)[j])),
    ensures
        m.first_good_root(m.range_seeds(range)) == m.newton_root(m.range_seeds(range)[k]),
        !good_rate(m.f, m.newton_root(start)) ==> m.brute_force_root(start, seq![range])
            == m.newton_root(m.range_seeds(range)[k]),
{
    let seeds = m.range_seeds(range);
    assert forall|j: int| 0 <= j < k implies !good_rate(m.f, m.newton_root(#[trigger] seeds[j])) by {
        lemma_range_seeds_rise(m, range, j, k);
    }
    lemma_first_good_root_at(m, seeds, k);
    assert(m.scan_seeds_from(seq![range], 1) =~= Seq::empty());
    assert(m.scan_seeds(seq![range]) =~= seeds);
    lemma_first_good_root_step(m, start, seeds);
}

/// Searching twice finds the same root: where the callables compute
/// functions, two results of a multi-start search with the same callables,
/// seed and ranges are equal.
pub proof fn lemma_brute_force_repeatable<F, D, A>(
    f: &F,
    d: &D,
    arith: &A,
    start: Double,
    ranges: Seq<(Double, Double, Double)>,
    first: Double,
    second: Double,
) where F: Fn(Double) -> Double, D: Fn(Double) -> Double, A: Fn(Operation, Double, Double) -> Double
    requires
        exists|m: Model| m.describes(f, d, arith),
        is_brute_force_root(f, d, arith, start, ranges, first),
        is_brute_force_root(f, d, arith, start, ranges, second),
    ensures
        first == second,
{
    let m = choose|m: Model| m.describes(f, d, arith);
    assert(first == m.brute_force_root(start, ranges));
}

} // verus!
