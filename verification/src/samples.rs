//! Sums, means, deviations and order statistics of integer samples.
//!
//! A measured quantity is held in thousandths of its unit, so that every sum and
//! every comparison is exact; a quotient or a root is rounded down to a whole
//! thousandth.

use crate::arith::{floor_div, Wide};
use crate::arith::{floor_root_exists, floor_root_is_root, is_floor_root, root, word};
use crate::natural::{floor_root, wide_root, Natural};
use vstd::arithmetic::mul::*;
use vstd::prelude::*;

verus! {

/// Two to the power of 126, the largest square of a sample.
pub const LARGEST_SQUARE: u128 = 0x4000_0000_0000_0000_0000_0000_0000_0000;

/// The sum of the samples.
pub open spec fn sum(s: Seq<i64>) -> int
    decreases s.len(),
{
    if s.len() == 0 {
        0
    } else {
        sum(s.drop_last()) + s.last()
    }
}

/// The sum of the squares of the samples.
pub open spec fn sum_of_squares(s: Seq<i64>) -> int
    decreases s.len(),
{
    if s.len() == 0 {
        0
    } else {
        sum_of_squares(s.drop_last()) + s.last() * s.last()
    }
}

/// The sum of the squares of `n * x - total` over the samples `x`.
pub open spec fn sum_of_scaled_deviations(s: Seq<i64>, n: int, total: int) -> int
    decreases s.len(),
{
    if s.len() == 0 {
        0
    } else {
        sum_of_scaled_deviations(s.drop_last(), n, total) + (n * s.last() - total) * (n * s.last()
            - total)
    }
}

/// The sum of the squared distances from the mean, times the square of the number
/// of samples.
pub open spec fn squared_deviation(s: Seq<i64>) -> int {
    sum_of_scaled_deviations(s, s.len() as int, sum(s))
}

/// The number of samples times the sum of squares, less the square of the sum.
pub open spec fn dispersion(s: Seq<i64>) -> int {
    s.len() * sum_of_squares(s) - sum(s) * sum(s)
}

/// The mean, rounded down.
pub open spec fn mean(s: Seq<i64>) -> int {
    sum(s) / (s.len() as int)
}

/// The population standard deviation, rounded down: the root of the squared
/// distances from the mean over the number of samples.
pub open spec fn std_dev(s: Seq<i64>) -> int {
    root((s.len() * s.len() * s.len()) as int, squared_deviation(s))
}

/// Half the width of the 95 % confidence interval of the mean, rounded down: 1.96
/// standard deviations over the root of the number of samples.
pub open spec fn confidence_radius(s: Seq<i64>) -> int {
    root((10_000 * (s.len() * s.len() * s.len())) as int, 38_416 * dispersion(s))
}

/// The standard deviation in thousandths of the mean, rounded towards zero.
pub open spec fn relative_deviation(s: Seq<i64>) -> int {
    let size = root(sum(s) * sum(s), 1_000_000 * dispersion(s));
    if sum(s) < 0 {
        -size
    } else {
        size
    }
}

/// Whether the standard deviation is more than 15 % of the mean.
pub open spec fn is_unstable(s: Seq<i64>) -> bool {
    sum(s) >= 0 && 10_000 * dispersion(s) > 225 * (sum(s) * sum(s))
}

/// The number of samples, their sum and the sum of their squares.
#[derive(Clone, Copy, Debug, PartialEq, Eq, Structural)]
pub struct Moments {
    /// The number of samples.
    pub count: u64,
    /// Their sum.
    pub sum: i128,
    /// The sum of their squares.
    pub sum_of_squares: Wide,
}

/// Moments as mathematical integers.
#[verifier::ext_equal]
pub struct Stats {
    pub count: int,
    pub sum: int,
    pub sum_of_squares: int,
}

impl Stats {
    /// The mean of samples with these moments, rounded down.
    pub open spec fn mean(self) -> int {
        self.sum / self.count
    }

    /// The standard deviation of samples with these moments, rounded down.
    pub open spec fn std_dev(self) -> int {
        root(self.count * self.count, self.count * self.sum_of_squares - self.sum * self.sum)
    }
}

/// The moments of some samples.
pub open spec fn stats_of(s: Seq<i64>) -> Stats {
    Stats { count: s.len() as int, sum: sum(s), sum_of_squares: sum_of_squares(s) }
}

/// The moments of no samples.
pub open spec fn no_stats() -> Stats {
    Stats { count: 0, sum: 0, sum_of_squares: 0 }
}

impl View for Moments {
    type V = Stats;

    open spec fn view(&self) -> Stats {
        Stats {
            count: self.count as int,
            sum: self.sum as int,
            sum_of_squares: self.sum_of_squares.value(),
        }
    }
}

impl Moments {
    /// Whether these are the moments of the samples.
    pub open spec fn are_of(self, s: Seq<i64>) -> bool {
        self@ == stats_of(s)
    }

    /// The moments of no samples.
    pub fn none() -> (r: Moments)
        ensures
            r@ == no_stats(),
            r == (Moments { count: 0, sum: 0, sum_of_squares: Wide { hi: 0, lo: 0 } }),
    {
        Moments { count: 0, sum: 0, sum_of_squares: Wide { hi: 0, lo: 0 } }
    }

    /// Moments that stand for the same integers are equal.
    pub proof fn are_unique(self, other: Moments)
        requires
            self@ == other@,
        ensures
            self == other,
    {
        self.sum_of_squares.value_is_unique(other.sum_of_squares);
    }
}

/// A number in thousandths, of either sign.
#[derive(Clone, Copy, Debug, PartialEq, Eq, Structural)]
pub struct Share {
    /// Whether it is below zero.
    pub negative: bool,
    /// Its magnitude.
    pub size: Wide,
}

impl Share {
    /// The number of thousandths.
    pub open spec fn value(self) -> int {
        if self.negative {
            -self.size.value()
        } else {
            self.size.value()
        }
    }

    /// The number of thousandths, where 128 bits can hold it.
    pub fn thousandths(&self) -> (r: Option<i128>)
        ensures
            match r {
                Some(x) => x == self.value(),
                None => !(i128::MIN <= self.value() <= i128::MAX),
            },
    {
        if self.size.hi > 0 {
            assert(self.size.value() >= word());
            return None;
        }
        let lo: u128 = self.size.lo;
        if lo <= i128::MAX as u128 {
            Some(
                if self.negative {
                    -(lo as i128)
                } else {
                    lo as i128
                },
            )
        } else if self.negative && lo == 0x8000_0000_0000_0000_0000_0000_0000_0000 {
            Some(i128::MIN)
        } else {
            None
        }
    }
}

proof fn lemma_square_nonnegative(x: int)
    ensures
        0 <= x * x,
{
    assert(0 <= x * x) by (nonlinear_arith);
}

/// A sum is between the number of samples times the smallest and the largest value.
pub proof fn sum_is_between(s: Seq<i64>, low: int, high: int)
    requires
        forall|i: int| 0 <= i < s.len() ==> low <= #[trigger] s[i] <= high,
    ensures
        s.len() * low <= sum(s) <= s.len() * high,
    decreases s.len(),
{
    if s.len() > 0 {
        let rest = s.drop_last();
        assert forall|i: int| 0 <= i < rest.len() implies low <= #[trigger] rest[i] <= high by {
            assert(rest[i] == s[i]);
        }
        sum_is_between(rest, low, high);
        assert(low <= s[s.len() - 1] <= high);
        assert(s.len() * low == rest.len() * low + low) by (nonlinear_arith)
            requires
                s.len() == rest.len() + 1,
        ;
        assert(s.len() * high == rest.len() * high + high) by (nonlinear_arith)
            requires
                s.len() == rest.len() + 1,
        ;
    } else {
        assert(s.len() * low == 0 && s.len() * high == 0) by (nonlinear_arith)
            requires
                s.len() == 0,
        ;
    }
}

/// A sum is at most the number of samples times the largest magnitude.
pub proof fn sum_is_bounded(s: Seq<i64>, bound: int)
    requires
        forall|i: int| 0 <= i < s.len() ==> -bound <= #[trigger] s[i] <= bound,
    ensures
        -(s.len() * bound) <= sum(s) <= s.len() * bound,
    decreases s.len(),
{
    if s.len() > 0 {
        let rest = s.drop_last();
        assert forall|i: int| 0 <= i < rest.len() implies -bound <= #[trigger] rest[i] <= bound by {
            assert(rest[i] == s[i]);
        }
        sum_is_bounded(rest, bound);
        assert(s.len() * bound == rest.len() * bound + bound) by (nonlinear_arith)
            requires
                s.len() == rest.len() + 1,
        ;
    } else {
        assert(s.len() * bound == 0) by (nonlinear_arith)
            requires
                s.len() == 0,
        ;
    }
}

/// A sum of squares is at most the number of samples times the square of the
/// largest magnitude.
pub proof fn sum_of_squares_is_bounded(s: Seq<i64>, bound: int)
    requires
        forall|i: int| 0 <= i < s.len() ==> -bound <= #[trigger] s[i] <= bound,
    ensures
        0 <= sum_of_squares(s) <= s.len() * (bound * bound),
    decreases s.len(),
{
    if s.len() > 0 {
        let rest = s.drop_last();
        assert forall|i: int| 0 <= i < rest.len() implies -bound <= #[trigger] rest[i] <= bound by {
            assert(rest[i] == s[i]);
        }
        sum_of_squares_is_bounded(rest, bound);
        let x = s.last() as int;
        assert(-bound <= s[s.len() - 1] <= bound);
        assert(0 <= x * x <= bound * bound) by (nonlinear_arith)
            requires
                -bound <= x <= bound,
        ;
        assert(s.len() * (bound * bound) == rest.len() * (bound * bound) + bound * bound)
            by (nonlinear_arith)
            requires
                s.len() == rest.len() + 1,
        ;
    } else {
        assert(s.len() * (bound * bound) == 0) by (nonlinear_arith)
            requires
                s.len() == 0,
        ;
    }
}

proof fn lemma_scaled_deviations(s: Seq<i64>, n: int, total: int)
    ensures
        sum_of_scaled_deviations(s, n, total) == n * n * sum_of_squares(s) - 2 * n * total * sum(s)
            + s.len() * (total * total),
    decreases s.len(),
{
    if s.len() > 0 {
        let rest = s.drop_last();
        lemma_scaled_deviations(rest, n, total);
        let x = s.last() as int;
        let q = sum_of_squares(rest);
        let t = sum(rest);
        let c = rest.len() as int;
        let m = 2 * n * total;
        assert((n * x - total) * (n * x - total) == n * n * (x * x) - m * x + total * total)
            by (nonlinear_arith)
            requires
                m == 2 * n * total,
        ;
        lemma_mul_is_distributive_add(n * n, q, x * x);
        lemma_mul_is_distributive_add(m, t, x);
        lemma_mul_is_distributive_add_other_way(total * total, c, 1);
    } else {
        assert(n * n * 0 - 2 * n * total * 0 + 0 * (total * total) == 0) by (nonlinear_arith);
    }
}

/// The squared distances from the mean can be had from the two moments alone.
pub proof fn deviation_from_moments(s: Seq<i64>)
    ensures
        squared_deviation(s) == s.len() * dispersion(s),
        0 <= squared_deviation(s),
{
    let n = s.len() as int;
    let t = sum(s);
    let q = sum_of_squares(s);
    lemma_scaled_deviations(s, n, t);
    assert(n * n * q - 2 * n * t * t + n * (t * t) == n * (n * q - t * t)) by (nonlinear_arith);
    deviation_is_nonnegative(s, n, t);
}

proof fn deviation_is_nonnegative(s: Seq<i64>, n: int, total: int)
    ensures
        0 <= sum_of_scaled_deviations(s, n, total),
    decreases s.len(),
{
    if s.len() > 0 {
        deviation_is_nonnegative(s.drop_last(), n, total);
        lemma_square_nonnegative(n * s.last() - total);
    }
}

/// The dispersion is not negative, and no more than the second moment times the
/// number of samples.
pub proof fn dispersion_is_bounded(s: Seq<i64>)
    ensures
        0 <= dispersion(s) <= s.len() * sum_of_squares(s),
{
    deviation_from_moments(s);
    lemma_square_nonnegative(sum(s));
    if s.len() > 0 && dispersion(s) < 0 {
        assert(s.len() * dispersion(s) < 0) by (nonlinear_arith)
            requires
                s.len() > 0,
                dispersion(s) < 0,
        ;
    }
    if s.len() == 0 {
        assert(s.len() * sum_of_squares(s) == 0) by (nonlinear_arith)
            requires
                s.len() == 0,
        ;
    }
}

/// The moments of the samples.
pub fn moments(s: &[i64]) -> (r: Moments)
    ensures
        r.are_of(s@),
{
    let mut total: i128 = 0;
    let mut squares = Wide::from_word(0);
    let mut i: usize = 0;
    while i < s.len()
        invariant
            i <= s.len() <= u64::MAX,
            -(i * 0x8000_0000_0000_0000) <= total <= i * 0x8000_0000_0000_0000,
            total == sum(s@.take(i as int)),
            squares.value() == sum_of_squares(s@.take(i as int)),
            squares.value() <= i * LARGEST_SQUARE,
        decreases s.len() - i,
    {
        let x: i128 = s[i] as i128;
        let size: u128 = magnitude(x);
        proof {
            assert(s@.take(i + 1).drop_last() =~= s@.take(i as int));
            lemma_mul_upper_bound(
                size as int,
                0x8000_0000_0000_0000,
                size as int,
                0x8000_0000_0000_0000,
            );
            assert(size * size == x * x) by (nonlinear_arith)
                requires
                    size == x || size == -x,
            ;
            assert((i + 1) * LARGEST_SQUARE < word() * word());
        }
        total = total + x;
        squares = squares.plus(size * size);
        i = i + 1;
    }
    assert(s@.take(s.len() as int) =~= s@);
    Moments { count: s.len() as u64, sum: total, sum_of_squares: squares }
}

impl Moments {
    /// Whether these numbers can be the moments of some samples.
    pub open spec fn consistent(self) -> bool {
        &&& self.sum_of_squares.value() <= self.count * LARGEST_SQUARE
        &&& self.sum * self.sum <= self.count * self.sum_of_squares.value()
    }

    /// The dispersion of samples with these moments.
    pub open spec fn dispersion(self) -> int {
        self.count * self.sum_of_squares.value() - self.sum * self.sum
    }

    /// The dispersion is at most the square of the number of samples times the largest
    /// square.
    pub proof fn dispersion_is_small(self)
        requires
            self.consistent(),
        ensures
            0 <= self.dispersion() <= self.count * self.count * LARGEST_SQUARE,
            self.dispersion() < word() * word(),
    {
        let n = self.count as int;
        let q = self.sum_of_squares.value();
        let b = LARGEST_SQUARE as int;
        lemma_square_nonnegative(self.sum as int);
        assert(n * q <= n * n * b) by (nonlinear_arith)
            requires
                0 <= n,
                q <= n * b,
        ;
        lemma_mul_upper_bound(n, u64::MAX as int, n, u64::MAX as int);
        lemma_mul_inequality(n * n, u64::MAX * u64::MAX, b);
    }

    /// The number of samples times the sum of squares, less the square of the sum.
    pub fn dispersion_of(&self) -> (d: Natural)
        requires
            self.consistent(),
        ensures
            d.value() == self.dispersion(),
    {
        let count = Natural::from_word(self.count as u128);
        let squares = Natural::from_wide(self.sum_of_squares);
        count.times(&squares).minus(&self.squared_sum())
    }

    /// The square of the sum.
    fn squared_sum(&self) -> (r: Natural)
        ensures
            r.value() == self.sum * self.sum,
    {
        let size: u128 = magnitude(self.sum);
        proof {
            assert(size * size == self.sum * self.sum) by (nonlinear_arith)
                requires
                    size == self.sum || size == -self.sum,
            ;
        }
        let t = Natural::from_word(size);
        t.times(&t)
    }

    /// The mean, rounded down.
    pub fn mean(&self) -> (r: i128)
        requires
            self.count > 0,
        ensures
            r == self.sum as int / self.count as int,
    {
        floor_div(self.sum, self.count as i128)
    }

    /// The standard deviation, rounded down.
    pub fn std_dev(&self) -> (r: u128)
        requires
            self.count > 0,
            self.consistent(),
        ensures
            r == root(self.count * self.count, self.dispersion()),
            is_floor_root(r as int, self.count * self.count, self.dispersion()),
    {
        let n = Natural::from_word(self.count as u128);
        proof {
            let c = self.count as int;
            lemma_mul_strictly_positive(c, c);
            self.dispersion_is_small();
            lemma_mul_inequality(1, c * c, word() * word());
        }
        floor_root(&n.times(&n), &self.dispersion_of())
    }

    /// Half the width of the 95 % confidence interval of the mean, rounded down. It is less
    /// than twice the largest magnitude of a sample.
    pub fn confidence_radius(&self) -> (r: u128)
        requires
            self.count > 0,
            self.consistent(),
        ensures
            r == root(
                10_000 * (self.count * self.count * self.count),
                38_416 * self.dispersion(),
            ),
            r < 0x1_0000_0000_0000_0000,
    {
        let n = Natural::from_word(self.count as u128);
        let d = Natural::from_word(10_000).times(&n.times(&n).times(&n));
        let t = Natural::from_word(38_416).times(&self.dispersion_of());
        proof {
            let c = self.count as int;
            let b = LARGEST_SQUARE as int;
            self.dispersion_is_small();
            let cube = c * c * c;
            lemma_mul_strictly_positive(c, c);
            lemma_mul_strictly_positive(c * c, c);
            lemma_mul_inequality(1, c, c * c);
            lemma_mul_is_commutative(c, c * c);
            assert(c * c * b <= cube * b) by (nonlinear_arith)
                requires
                    c * c <= cube,
                    b >= 0,
            ;
            assert(38_416 * (cube * b) < 4 * b * (10_000 * cube)) by (nonlinear_arith)
                requires
                    cube > 0,
                    b > 0,
            ;
            lemma_mul_inequality(4 * b, word() * word(), 10_000 * cube);
        }
        let r: u128 = floor_root(&d, &t);
        proof {
            let h = 0x1_0000_0000_0000_0000int;
            if r >= h {
                assert(r * r * d.value() >= h * h * d.value()) by (nonlinear_arith)
                    requires
                        r >= h,
                        h > 0,
                        d.value() > 0,
                ;
            }
        }
        r
    }

    /// Whether the standard deviation is more than 15 % of the mean.
    pub open spec fn is_unstable(self) -> bool {
        self.sum >= 0 && 10_000 * self.dispersion() > 225 * (self.sum * self.sum)
    }

    /// Whether the standard deviation is more than 15 % of the mean.
    pub fn unstable(&self) -> (r: bool)
        requires
            self.consistent(),
        ensures
            r == self.is_unstable(),
    {
        let spread = Natural::from_word(10_000).times(&self.dispersion_of());
        let limit = Natural::from_word(225).times(&self.squared_sum());
        self.sum >= 0 && !spread.at_most(&limit)
    }

    /// The standard deviation in thousandths of the mean, rounded towards zero.
    pub open spec fn relative_deviation(self) -> int {
        let size = root(self.sum * self.sum, 1_000_000 * self.dispersion());
        if self.sum < 0 {
            -size
        } else {
            size
        }
    }

    /// The standard deviation in thousandths of the mean, rounded towards zero.
    pub fn stability(&self) -> (r: Share)
        requires
            self.consistent(),
            self.sum != 0,
        ensures
            r.value() == self.relative_deviation(),
    {
        let d = self.squared_sum();
        let t = Natural::from_word(1_000_000).times(&self.dispersion_of());
        proof {
            self.dispersion_is_small();
            let s = self.sum as int;
            assert(s * s >= 1) by (nonlinear_arith)
                requires
                    s != 0,
            ;
            let w = (word() * word()) * (word() * word());
            lemma_mul_inequality(1, s * s, w);
            lemma_mul_inequality(1_000_000, word() * word(), word() * word());
            lemma_mul_is_commutative(s * s, w);
        }
        Share { negative: self.sum < 0, size: wide_root(&d, &t) }
    }
}

/// The moments of samples are consistent, and their deviation is that of the samples.
pub proof fn moments_give_deviation(m: Moments, s: Seq<i64>)
    requires
        m.are_of(s),
    ensures
        m.consistent(),
        m.dispersion() == dispersion(s),
        m.relative_deviation() == relative_deviation(s),
        m.is_unstable() == is_unstable(s),
        s.len() > 0 ==> root(m.count * m.count, m.dispersion()) == std_dev(s),
        s.len() > 0 ==> root(10_000 * (m.count * m.count * m.count), 38_416 * m.dispersion())
            == confidence_radius(s),
{
    dispersion_is_bounded(s);
    deviation_from_moments(s);
    sum_of_squares_is_bounded(s, 0x8000_0000_0000_0000);
    if s.len() > 0 {
        stats_give_mean_and_deviation(s);
    }
}

/// The mean and the standard deviation of samples can be had from their moments alone.
pub proof fn stats_give_mean_and_deviation(s: Seq<i64>)
    requires
        s.len() > 0,
    ensures
        stats_of(s).mean() == mean(s),
        stats_of(s).std_dev() == std_dev(s),
{
    let n = s.len() as int;
    let d = dispersion(s);
    dispersion_is_bounded(s);
    deviation_from_moments(s);
    lemma_mul_strictly_positive(n, n);
    lemma_mul_strictly_positive(n * n, n);
    floor_root_exists(n * n, d);
    let square = n * n;
    let k = choose|k: int| is_floor_root(k, square, d);
    lemma_scaled_root(k, n, d);
    floor_root_is_root(k, n * n, d);
    floor_root_is_root(k, n * n * n, n * d);
}

proof fn lemma_squares_follow_the_range(s: Seq<i64>)
    ensures
        sum_of_squares(s) + sum(s) <= s.len() * (LARGEST_SQUARE - 0x8000_0000_0000_0000),
    decreases s.len(),
{
    let b = LARGEST_SQUARE - 0x8000_0000_0000_0000;
    if s.len() > 0 {
        let rest = s.drop_last();
        lemma_squares_follow_the_range(rest);
        let x = s.last() as int;
        let h = 0x8000_0000_0000_0000int;
        assert(x * x + x <= h * (h - 1)) by (nonlinear_arith)
            requires
                -h <= x <= h - 1,
        ;
        assert(s.len() * b == rest.len() * b + b) by (nonlinear_arith)
            requires
                s.len() == rest.len() + 1,
        ;
    } else {
        assert(s.len() * b == 0) by (nonlinear_arith)
            requires
                s.len() == 0,
        ;
    }
}

/// A standard deviation is at most half the distance of the two extreme samples, so that
/// it has no more bits than a sample.
pub proof fn deviation_is_in_range(s: Seq<i64>)
    requires
        s.len() > 0,
    ensures
        0 <= std_dev(s) <= i64::MAX,
{
    let n = s.len() as int;
    let t = sum(s);
    let q = sum_of_squares(s);
    let h = 0x8000_0000_0000_0000int;
    let b = h * h - h;
    let d = dispersion(s);
    lemma_squares_follow_the_range(s);
    dispersion_is_bounded(s);
    deviation_from_moments(s);
    lemma_mul_inequality(q + t, n * b, n);
    assert(4 * d <= n * n * ((2 * h - 1) * (2 * h - 1))) by {
        let e = 2 * t + n;
        lemma_square_nonnegative(e);
        assert(e * e == 4 * (t * t) + 4 * (n * t) + n * n) by (nonlinear_arith)
            requires
                e == 2 * t + n,
        ;
        assert((q + t) * n == n * q + n * t) by (nonlinear_arith);
        assert((n * b) * n == n * n * b) by (nonlinear_arith);
        assert(n * n * ((2 * h - 1) * (2 * h - 1)) == 4 * (n * n * b) + n * n) by (nonlinear_arith)
            requires
                b == h * h - h,
        ;
    }
    lemma_mul_strictly_positive(n, n);
    lemma_mul_strictly_positive(n * n, n);
    floor_root_exists(n * n * n, squared_deviation(s));
    let k = std_dev(s);
    assert(is_floor_root(k, n * n * n, n * d));
    lemma_scaled_root(k, n, d);
    if k >= h {
        let c = n * n;
        assert(4 * (k * k * c) > c * ((2 * h - 1) * (2 * h - 1))) by (nonlinear_arith)
            requires
                k >= h,
                h > 1,
                c > 0,
        ;
    }
}

proof fn lemma_scaled_root(k: int, n: int, d: int)
    requires
        n > 0,
    ensures
        is_floor_root(k, n * n * n, n * d) == is_floor_root(k, n * n, d),
{
    let a = k * k * (n * n);
    let b = (k + 1) * (k + 1) * (n * n);
    assert(k * k * (n * n * n) == n * a) by (nonlinear_arith)
        requires
            a == k * k * (n * n),
    ;
    assert((k + 1) * (k + 1) * (n * n * n) == n * b) by (nonlinear_arith)
        requires
            b == (k + 1) * (k + 1) * (n * n),
    ;
    assert((n * a <= n * d) == (a <= d)) by (nonlinear_arith)
        requires
            n > 0,
    ;
    assert((n * d < n * b) == (d < b)) by (nonlinear_arith)
        requires
            n > 0,
    ;
}

/// The magnitude of a number.
pub fn magnitude(x: i128) -> (r: u128)
    ensures
        r == (if x < 0 {
            -x
        } else {
            x as int
        }),
{
    if x < 0 {
        (-(x + 1)) as u128 + 1
    } else {
        x as u128
    }
}

/// A mean has no more bits than a sample.
pub proof fn mean_is_in_range(s: Seq<i64>)
    requires
        s.len() > 0,
    ensures
        i64::MIN <= mean(s) <= i64::MAX,
{
    sum_is_between(s, i64::MIN as int, i64::MAX as int);
    let n = s.len() as int;
    let t = sum(s);
    assert(i64::MIN <= t / n <= i64::MAX) by (nonlinear_arith)
        requires
            n * i64::MIN <= t <= n * i64::MAX,
            n > 0,
    ;
}

/// The mean of the samples, rounded down.
pub fn mean_of(s: &[i64]) -> (r: i64)
    requires
        s.len() > 0,
    ensures
        r == mean(s@),
{
    let mut total: i128 = 0;
    let mut i: usize = 0;
    while i < s.len()
        invariant
            i <= s.len() <= usize::MAX,
            -(i * 0x8000_0000_0000_0000) <= total <= i * 0x7fff_ffff_ffff_ffff,
            total == sum(s@.take(i as int)),
        decreases s.len() - i,
    {
        assert(s@.take(i + 1).drop_last() =~= s@.take(i as int));
        total = total + s[i] as i128;
        i = i + 1;
    }
    assert(s@.take(s.len() as int) =~= s@);
    proof {
        mean_is_in_range(s@);
    }
    floor_div(total, s.len() as i128) as i64
}

/// A copy of the samples.
pub fn copy_of(s: &[i64]) -> (r: Vec<i64>)
    ensures
        r@ == s@,
{
    let mut r: Vec<i64> = Vec::new();
    let mut i: usize = 0;
    while i < s.len()
        invariant
            i <= s.len(),
            r@ == s@.take(i as int),
        decreases s.len() - i,
    {
        r.push(s[i]);
        i = i + 1;
    }
    assert(s@.take(s.len() as int) =~= s@);
    r
}

} // verus!
