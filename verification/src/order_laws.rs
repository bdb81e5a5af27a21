//! What holds of percentiles, extremes, means and deviations for all samples.

use crate::arith::{floor_root_exists, floor_root_is_root, is_floor_root, quotient_is_near, root};
use crate::detector_laws::{all_equal, only_equal_samples_do_not_deviate};
use crate::order::{count_at_most, count_below, has_rank, is_maximum, is_minimum, max_of, min_of};
use crate::order::{percentile_of, rank, rank_grows, rank_is_nearest};
use crate::order::{highest_percentile_is_maximum, lowest_percentile_is_minimum};
use crate::order::{ranks_are_ordered, value_at_rank_is_sample};
use crate::samples::{deviation_from_moments, dispersion, dispersion_is_bounded, is_unstable};
use crate::samples::{confidence_radius, mean, relative_deviation, squared_deviation, std_dev};
use crate::samples::{sum, sum_is_between, sum_of_squares};
use vstd::arithmetic::mul::*;
use vstd::prelude::*;

verus! {

proof fn lemma_rank_between(s: Seq<i64>, k: int, low: int, high: int) -> (x: int)
    requires
        low < high,
        count_below(s, low) <= k < count_below(s, high),
    ensures
        low <= x < high,
        count_below(s, x) <= k < count_at_most(s, x),
    decreases high - low,
{
    if count_below(s, low + 1) > k {
        low
    } else {
        lemma_rank_between(s, k, low + 1, high)
    }
}

/// As many samples count as below a bound as are below it, and as many as at most a bound
/// as are not above it.
pub proof fn counts_are_counts(s: Seq<i64>, x: int)
    ensures
        count_below(s, x) == s.filter(|v: i64| v < x).len(),
        count_at_most(s, x) == s.filter(|v: i64| v <= x).len(),
    decreases s.len(),
{
    reveal(Seq::filter);
    if s.len() > 0 {
        counts_are_counts(s.drop_last(), x);
    }
}

/// The sums of two runs of samples, one after the other, are the sums of their sums, and
/// those of a single sample are the sample and its square.
pub proof fn sums_add_up(a: Seq<i64>, b: Seq<i64>, x: i64)
    ensures
        sum(a + b) == sum(a) + sum(b),
        sum_of_squares(a + b) == sum_of_squares(a) + sum_of_squares(b),
        sum(seq![x]) == x,
        sum_of_squares(seq![x]) == x * x,
    decreases b.len(),
{
    assert(seq![x].drop_last() =~= seq![]);
    reveal_with_fuel(sum, 2);
    reveal_with_fuel(sum_of_squares, 2);
    if b.len() == 0 {
        assert(a + b =~= a);
    } else {
        assert((a + b).drop_last() =~= a + b.drop_last());
        assert((a + b).last() == b.last());
        sums_add_up(a, b.drop_last(), x);
    }
}

proof fn lemma_extreme_counts(s: Seq<i64>)
    ensures
        count_below(s, i64::MIN as int) == 0,
        count_below(s, i64::MAX + 1) == s.len(),
    decreases s.len(),
{
    if s.len() > 0 {
        lemma_extreme_counts(s.drop_last());
    }
}

/// Every position of the sorted samples has a sample.
pub proof fn every_rank_is_taken(s: Seq<i64>, k: int)
    requires
        0 <= k < s.len(),
    ensures
        exists|x: i64| has_rank(s, x, k),
{
    lemma_extreme_counts(s);
    let x = lemma_rank_between(s, k, i64::MIN as int, i64::MAX + 1) as i64;
    value_at_rank_is_sample(s, x);
    assert(has_rank(s, x, k));
}

/// The percentile of a share has the rank of the share.
pub proof fn percentile_has_its_rank(s: Seq<i64>, permille: int)
    requires
        s.len() > 0,
        0 <= permille <= 1000,
    ensures
        has_rank(s, percentile_of(s, permille), rank(permille, s.len() as int)),
{
    rank_is_nearest(permille, s.len() as int);
    every_rank_is_taken(s, rank(permille, s.len() as int));
}

proof fn lemma_count_without(s: Seq<i64>, i: int, x: int)
    requires
        0 <= i < s.len(),
    ensures
        count_below(s, x) == count_below(s.remove(i), x) + (if s[i] < x {
            1int
        } else {
            0
        }),
    decreases s.len(),
{
    if i < s.len() - 1 {
        lemma_count_without(s.drop_last(), i, x);
        assert(s.remove(i).drop_last() =~= s.drop_last().remove(i));
        assert(s.remove(i).last() == s.last());
    } else {
        assert(s.remove(i) =~= s.drop_last());
    }
}

proof fn lemma_count_of_rearranged(s: Seq<i64>, t: Seq<i64>, x: int)
    requires
        s.to_multiset() == t.to_multiset(),
    ensures
        s.len() == t.len(),
        count_below(s, x) == count_below(t, x),
    decreases s.len(),
{
    s.to_multiset_ensures();
    t.to_multiset_ensures();
    if s.len() > 0 {
        let v = s.last();
        assert(s.contains(v)) by {
            assert(s[s.len() - 1] == v);
        }
        assert(t.contains(v)) by {
            assert(s.to_multiset().count(v) > 0);
        }
        let i = choose|i: int| 0 <= i < t.len() && t[i] == v;
        assert(s.remove(s.len() - 1) =~= s.drop_last());
        assert(s.drop_last().to_multiset() =~= t.remove(i).to_multiset());
        lemma_count_of_rearranged(s.drop_last(), t.remove(i), x);
        lemma_count_without(t, i, x);
    }
}

/// A percentile does not depend on the order of the samples.
pub proof fn percentiles_ignore_the_order(s: Seq<i64>, t: Seq<i64>, permille: int)
    requires
        s.to_multiset() == t.to_multiset(),
        0 <= permille <= 1000,
    ensures
        percentile_of(s, permille) == percentile_of(t, permille),
{
    lemma_count_of_rearranged(s, t, 0);
    if s.len() > 0 {
        let k = rank(permille, s.len() as int);
        let x = percentile_of(s, permille);
        percentile_has_its_rank(s, permille);
        percentile_has_its_rank(t, permille);
        s.to_multiset_ensures();
        t.to_multiset_ensures();
        assert(s.to_multiset().count(x) > 0);
        lemma_count_of_rearranged(s, t, x as int);
        lemma_count_of_rearranged(s, t, x + 1);
        assert(has_rank(t, x, k));
        ranks_are_ordered(t, x, percentile_of(t, permille), k, k);
    }
}

/// The percentile of a larger share is no smaller.
pub proof fn percentiles_grow(s: Seq<i64>, p: int, q: int)
    requires
        s.len() > 0,
        0 <= p <= q <= 1000,
    ensures
        percentile_of(s, p) <= percentile_of(s, q),
{
    let n = s.len() as int;
    percentile_has_its_rank(s, p);
    percentile_has_its_rank(s, q);
    rank_grows(p, q, n);
    ranks_are_ordered(s, percentile_of(s, p), percentile_of(s, q), rank(p, n), rank(q, n));
}

/// The extremes are samples with none beyond them.
pub proof fn extremes_are_extreme(s: Seq<i64>)
    requires
        s.len() > 0,
    ensures
        is_minimum(s, min_of(s)),
        is_maximum(s, max_of(s)),
{
    percentile_has_its_rank(s, 0);
    percentile_has_its_rank(s, 1000);
    lowest_percentile_is_minimum(s, percentile_of(s, 0));
    highest_percentile_is_maximum(s, percentile_of(s, 1000));
    assert(is_minimum(s, percentile_of(s, 0)));
    assert(is_maximum(s, percentile_of(s, 1000)));
}

/// The extremes enclose the percentiles, which grow with their shares.
pub proof fn summary_is_ordered(s: Seq<i64>)
    requires
        s.len() > 0,
    ensures
        min_of(s) <= percentile_of(s, 500) <= percentile_of(s, 900) <= percentile_of(s, 950)
            <= percentile_of(s, 990) <= max_of(s),
{
    extremes_are_extreme(s);
    percentile_has_its_rank(s, 500);
    percentile_has_its_rank(s, 990);
    percentiles_grow(s, 500, 900);
    percentiles_grow(s, 900, 950);
    percentiles_grow(s, 950, 990);
    let low = percentile_of(s, 500);
    let i = choose|i: int| 0 <= i < s.len() && s[i] == low;
    assert(min_of(s) <= s[i]);
    let high = percentile_of(s, 990);
    let j = choose|j: int| 0 <= j < s.len() && s[j] == high;
    assert(s[j] <= max_of(s));
}

/// The mean lies between the extremes.
pub proof fn mean_is_between_extremes(s: Seq<i64>)
    requires
        s.len() > 0,
    ensures
        min_of(s) <= mean(s) <= max_of(s),
{
    extremes_are_extreme(s);
    sum_is_between(s, min_of(s) as int, max_of(s) as int);
    let n = s.len() as int;
    let t = sum(s);
    let a = min_of(s) as int;
    let b = max_of(s) as int;
    assert(a <= t / n <= b) by (nonlinear_arith)
        requires
            n * a <= t <= n * b,
            n > 0,
    ;
}

/// The mean that is reported is at most the exact one, and less than a thousandth below it.
pub proof fn mean_is_within_a_thousandth(s: Seq<i64>)
    requires
        s.len() > 0,
    ensures
        mean(s) * s.len() <= sum(s) < (mean(s) + 1) * s.len(),
{
    quotient_is_near(sum(s), s.len() as int);
}

/// The radius of the confidence interval and the relative deviation that are reported are
/// the exact roots, rounded to a whole thousandth towards zero.
pub proof fn spreads_are_roots(s: Seq<i64>)
    requires
        s.len() > 0,
    ensures
        is_floor_root(
            confidence_radius(s),
            (10_000 * (s.len() * s.len() * s.len())) as int,
            38_416 * dispersion(s),
        ),
        sum(s) > 0 ==> is_floor_root(
            relative_deviation(s),
            sum(s) * sum(s),
            1_000_000 * dispersion(s),
        ),
        sum(s) < 0 ==> is_floor_root(
            -relative_deviation(s),
            sum(s) * sum(s),
            1_000_000 * dispersion(s),
        ),
{
    let n = s.len() as int;
    let t = sum(s);
    dispersion_is_bounded(s);
    lemma_mul_strictly_positive(n, n);
    lemma_mul_strictly_positive(n * n, n);
    floor_root_exists(10_000 * (n * n * n), 38_416 * dispersion(s));
    if t != 0 {
        assert(t * t > 0) by (nonlinear_arith)
            requires
                t != 0,
        ;
        floor_root_exists(t * t, 1_000_000 * dispersion(s));
    }
}

/// Samples with a positive mean that vary by more than 15 % of it have a relative
/// deviation of at least 150 thousandths, and those with more than 150 thousandths vary by
/// more than 15 %.
pub proof fn unsteady_samples_deviate(s: Seq<i64>)
    requires
        sum(s) > 0,
    ensures
        is_unstable(s) ==> relative_deviation(s) >= 150,
        relative_deviation(s) > 150 ==> is_unstable(s),
{
    let q = sum(s) * sum(s);
    let t = 1_000_000 * dispersion(s);
    dispersion_is_bounded(s);
    assert(q > 0) by (nonlinear_arith)
        requires
            sum(s) > 0,
            q == sum(s) * sum(s),
    ;
    floor_root_exists(q, t);
    let r = root(q, t);
    assert(is_floor_root(r, q, t));
    if is_unstable(s) && r < 150 {
        assert((r + 1) * (r + 1) * q <= 22_500 * q) by (nonlinear_arith)
            requires
                0 <= r < 150,
                q > 0,
        ;
    }
    if r > 150 {
        assert(r * r * q > 22_500 * q) by (nonlinear_arith)
            requires
                r > 150,
                q > 0,
        ;
    }
}

/// Whether all samples were multiplied by a factor.
pub open spec fn is_scaled(s: Seq<i64>, k: int, scaled: Seq<i64>) -> bool {
    &&& scaled.len() == s.len()
    &&& forall|i: int| 0 <= i < s.len() ==> #[trigger] scaled[i] == k * s[i]
}

proof fn lemma_scaled_sums(s: Seq<i64>, k: int, scaled: Seq<i64>)
    requires
        is_scaled(s, k, scaled),
    ensures
        sum(scaled) == k * sum(s),
        sum_of_squares(scaled) == k * k * sum_of_squares(s),
    decreases s.len(),
{
    if s.len() > 0 {
        let a = s.drop_last();
        let b = scaled.drop_last();
        assert forall|i: int| 0 <= i < a.len() implies #[trigger] b[i] == k * a[i] by {
            assert(scaled[i] == k * s[i]);
        }
        lemma_scaled_sums(a, k, b);
        let x = s.last() as int;
        assert(scaled[s.len() - 1] == k * s[s.len() - 1]);
        lemma_mul_is_distributive_add(k, sum(a), x);
        lemma_mul_is_distributive_add(k * k, sum_of_squares(a), x * x);
        assert((k * x) * (k * x) == k * k * (x * x)) by (nonlinear_arith);
    } else {
        assert(k * 0 == 0 && k * k * 0 == 0) by (nonlinear_arith);
    }
}

/// The relative deviation has no unit: it stays as it is where all samples are multiplied
/// by a factor, and so does whether they vary too much.
pub proof fn relative_deviation_has_no_unit(s: Seq<i64>, k: int, scaled: Seq<i64>)
    requires
        k > 0,
        is_scaled(s, k, scaled),
        sum(s) != 0,
    ensures
        sum(scaled) != 0,
        relative_deviation(scaled) == relative_deviation(s),
        is_unstable(scaled) == is_unstable(s),
{
    lemma_scaled_sums(s, k, scaled);
    let t = sum(s);
    let q = sum_of_squares(s);
    let n = s.len() as int;
    let c = k * k;
    let d = dispersion(s);
    let square = t * t;
    assert(c > 0) by (nonlinear_arith)
        requires
            k > 0,
            c == k * k,
    ;
    assert(square > 0) by (nonlinear_arith)
        requires
            t != 0,
            square == t * t,
    ;
    assert((k * t) * (k * t) == c * square) by (nonlinear_arith)
        requires
            c == k * k,
            square == t * t,
    ;
    assert(n * (c * q) - c * square == c * (n * q - square)) by (nonlinear_arith);
    assert(dispersion(scaled) == c * d);
    assert((k * t < 0) == (t < 0) && (k * t >= 0) == (t >= 0) && k * t != 0) by (nonlinear_arith)
        requires
            k > 0,
            t != 0,
    ;
    assert(1_000_000 * (c * d) == c * (1_000_000 * d)) by (nonlinear_arith);
    assert((10_000 * (c * d) > 225 * (c * square)) == (10_000 * d > 225 * square))
        by (nonlinear_arith)
        requires
            c > 0,
    ;
    dispersion_is_bounded(s);
    floor_root_exists(square, 1_000_000 * d);
    let r = root(square, 1_000_000 * d);
    lemma_same_root(r, c, square, 1_000_000 * d);
    lemma_mul_strictly_positive(c, square);
    floor_root_is_root(r, c * square, c * (1_000_000 * d));
}

proof fn lemma_same_root(k: int, c: int, d: int, t: int)
    requires
        c > 0,
        is_floor_root(k, d, t),
    ensures
        is_floor_root(k, c * d, c * t),
{
    let a = k * k * d;
    let b = (k + 1) * (k + 1) * d;
    assert(k * k * (c * d) == c * a) by (nonlinear_arith)
        requires
            a == k * k * d,
    ;
    assert((k + 1) * (k + 1) * (c * d) == c * b) by (nonlinear_arith)
        requires
            b == (k + 1) * (k + 1) * d,
    ;
    lemma_mul_inequality(a, t, c);
    lemma_mul_strict_inequality(t, b, c);
    lemma_mul_is_commutative(a, c);
    lemma_mul_is_commutative(b, c);
    lemma_mul_is_commutative(t, c);
}

/// Where the mean is positive, the relative deviation is not negative, and it is zero where
/// all samples are equal.
pub proof fn equal_samples_are_steady(s: Seq<i64>)
    requires
        sum(s) > 0,
    ensures
        relative_deviation(s) >= 0,
        all_equal(s) ==> relative_deviation(s) == 0 && !is_unstable(s),
{
    let square = sum(s) * sum(s);
    lemma_mul_strictly_positive(sum(s), sum(s));
    dispersion_is_bounded(s);
    floor_root_exists(square, 1_000_000 * dispersion(s));
    if all_equal(s) {
        only_equal_samples_do_not_deviate(s);
        assert(0int * 0 * square == 0 && (0int + 1) * (0 + 1) * square == square)
            by (nonlinear_arith);
        assert(is_floor_root(0, square, 0));
        floor_root_is_root(0, square, 0);
    }
}

/// The standard deviation is the root of the mean squared distance from the mean, rounded
/// down, and it is zero where all samples are equal.
pub proof fn standard_deviation_is_a_root(s: Seq<i64>)
    requires
        s.len() > 0,
    ensures
        is_floor_root(
            std_dev(s),
            (s.len() * s.len() * s.len()) as int,
            squared_deviation(s),
        ),
        all_equal(s) ==> std_dev(s) == 0,
{
    let n = s.len() as int;
    deviation_from_moments(s);
    only_equal_samples_do_not_deviate(s);
    assert(n * n * n > 0) by (nonlinear_arith)
        requires
            n > 0,
    ;
    floor_root_exists(n * n * n, squared_deviation(s));
    if all_equal(s) {
        let d = n * n * n;
        assert(0int * 0 * d == 0 && (0int + 1) * (0 + 1) * d == d) by (nonlinear_arith);
        assert(is_floor_root(0, d, 0));
        floor_root_is_root(0, n * n * n, 0);
    }
}

} // verus!
