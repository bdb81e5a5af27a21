//! What holds of regressions, trends and deviations for all values.

use crate::detector::{abs, change_percent, confidence_reaches, direction, exceeds, has_trend};
use crate::detector::{appended, is_window, updated, History};
use crate::detector::{is_confidence, offset, older_values, recent_values, rise, rise_scale};
use crate::arith::{floor_root_exists, is_floor_root, quotient_is_near};
use crate::detector::{is_report, is_trend, z_score, RegressionInfo, TrendInfo};
use crate::profiler::last_items;
use crate::samples::{deviation_from_moments, dispersion, squared_deviation, sum};
use crate::samples::{sum_of_scaled_deviations, sum_of_squares};
use vstd::arithmetic::mul::*;
use vstd::prelude::*;

verus! {

/// The mean itself is never reported, whatever the accepted change.
pub proof fn mean_is_no_regression(values: Seq<i64>, new_value: int, threshold: int)
    requires
        values.len() * new_value == sum(values),
        threshold >= 0,
    ensures
        !exceeds(values, new_value, threshold),
{
    lemma_mul_nonnegative(threshold, abs(sum(values)));
}

/// What exceeds a threshold exceeds every smaller one: a change that is critical is
/// also severe, and a severe one is reported.
pub proof fn smaller_thresholds_are_exceeded(
    values: Seq<i64>,
    new_value: int,
    small: int,
    large: int,
)
    requires
        small <= large,
        exceeds(values, new_value, large),
    ensures
        exceeds(values, new_value, small),
{
    lemma_mul_inequality(small, large, abs(sum(values)));
}

/// A value farther from the mean is judged no more mildly.
pub proof fn farther_values_exceed(values: Seq<i64>, near: int, far: int, threshold: int)
    requires
        abs(offset(values, near)) <= abs(offset(values, far)),
        exceeds(values, near, threshold),
    ensures
        exceeds(values, far, threshold),
{
}

/// Where the mean is positive, a value above it has a positive change or none, and a
/// value below it a negative one.
pub proof fn change_has_the_sign_of_the_offset(values: Seq<i64>, new_value: int)
    requires
        sum(values) > 0,
    ensures
        change_percent(values, new_value) matches Some(c) && (c >= 0 <==> offset(values, new_value)
            >= 0),
{
    let a = offset(values, new_value) * 100_000;
    let t = sum(values);
    assert((a / t >= 0) == (a >= 0)) by (nonlinear_arith)
        requires
            t > 0,
    ;
}

/// Where the mean is positive, a rise is reported only if its change in percent is at
/// least the threshold, and it is reported if the change is above it by a thousandth.
pub proof fn reported_rise_reaches_threshold(values: Seq<i64>, new_value: int, threshold: int)
    requires
        sum(values) > 0,
        offset(values, new_value) >= 0,
    ensures
        exceeds(values, new_value, threshold) ==> change_percent(values, new_value)->0 >= threshold,
        change_percent(values, new_value)->0 > threshold ==> exceeds(values, new_value, threshold),
{
    let a = offset(values, new_value) * 100_000;
    let t = sum(values);
    let c = a / t;
    assert(t * c <= a < t * (c + 1)) by (nonlinear_arith)
        requires
            t > 0,
            c == a / t,
    ;
    if a > threshold * t {
        assert(c >= threshold) by (nonlinear_arith)
            requires
                t > 0,
                a > threshold * t,
                a < t * (c + 1),
        ;
    }
    if c > threshold {
        assert(c >= threshold + 1);
        assert(threshold * t < t * c) by (nonlinear_arith)
            requires
                t > 0,
                c >= threshold + 1,
        ;
    }
}

/// A change in percent that is reported is at most the exact one, and less than a
/// thousandth below it.
pub proof fn change_is_within_a_thousandth(values: Seq<i64>, new_value: int)
    requires
        sum(values) != 0,
    ensures
        change_percent(values, new_value) matches Some(c) && if sum(values) > 0 {
            c * sum(values) <= offset(values, new_value) * 100_000 < (c + 1) * sum(values)
        } else {
            (c + 1) * sum(values) < offset(values, new_value) * 100_000 <= c * sum(values)
        },
{
    let a = offset(values, new_value) * 100_000;
    let t = sum(values);
    if t > 0 {
        quotient_is_near(a, t);
    } else {
        quotient_is_near(-a, -t);
        let c = (-a) / (-t);
        assert(c * (-t) == -(c * t) && (c + 1) * (-t) == -((c + 1) * t)) by (nonlinear_arith);
    }
}

/// The distance in standard deviations that is reported is the exact one, rounded to a
/// whole thousandth towards zero.
pub proof fn z_score_is_a_root(values: Seq<i64>, new_value: int)
    requires
        dispersion(values) != 0,
    ensures
        z_score(values, new_value) matches Some(z) && is_floor_root(
            abs(z),
            dispersion(values),
            (1000 * abs(offset(values, new_value))) * (1000 * abs(offset(values, new_value))),
        ),
{
    let a = 1000 * abs(offset(values, new_value));
    crate::samples::dispersion_is_bounded(values);
    lemma_mul_nonnegative(a, a);
    floor_root_exists(dispersion(values), a * a);
}

/// A slope that is reported is at most the exact one, and less than a thousandth below it.
pub proof fn slope_is_within_a_thousandth(t: TrendInfo, id: Seq<char>, values: Seq<i64>, window: int)
    requires
        has_trend(values, window),
        is_trend(t, id, values, window),
    ensures
        t.slope * rise_scale(values, window) <= rise(values, window) < (t.slope + 1) * rise_scale(
            values,
            window,
        ),
{
    let m = older_values(values, window).len() as int;
    assert(window * window * m > 0) by (nonlinear_arith)
        requires
            window > 0,
            m > 0,
    ;
    quotient_is_near(rise(values, window), rise_scale(values, window));
}

proof fn lemma_reaches_downwards(values: Seq<i64>, new_value: int, j: int, k: int)
    requires
        0 <= j <= k <= 1000,
        values.len() > 0,
        dispersion(values) >= 0,
        confidence_reaches(values, new_value, k),
    ensures
        confidence_reaches(values, new_value, j),
{
    let a = abs(offset(values, new_value));
    let n = values.len() as int;
    let d = dispersion(values);
    lemma_mul_inequality(j, k, a);
    lemma_mul_nonnegative(j, a);
    let x = j * a;
    let y = k * a;
    assert(x * x <= y * y) by (nonlinear_arith)
        requires
            0 <= x <= y,
    ;
    lemma_mul_inequality(x * x, y * y, n);
    lemma_mul_inequality(1000 - k, 1000 - j, n - 1);
    lemma_mul_nonnegative(1000 - k, n - 1);
    let u = (1000 - k) * (n - 1);
    let v = (1000 - j) * (n - 1);
    assert(u * u <= v * v) by (nonlinear_arith)
        requires
            0 <= u <= v,
    ;
    lemma_mul_inequality(u * u, v * v, d);
}

/// A value has one confidence.
pub proof fn confidence_is_unique(values: Seq<i64>, new_value: int, j: int, k: int)
    requires
        values.len() > 0,
        is_confidence(values, new_value, j),
        is_confidence(values, new_value, k),
    ensures
        j == k,
{
    crate::samples::dispersion_is_bounded(values);
    if j < k {
        lemma_reaches_downwards(values, new_value, j + 1, k);
    }
    if k < j {
        lemma_reaches_downwards(values, new_value, k + 1, j);
    }
}

/// The confidence falls as a value moves away from the mean, equally on both sides.
pub proof fn confidence_falls_with_distance(
    values: Seq<i64>,
    near: int,
    far: int,
    near_confidence: int,
    far_confidence: int,
)
    requires
        values.len() > 0,
        abs(offset(values, near)) <= abs(offset(values, far)),
        is_confidence(values, near, near_confidence),
        is_confidence(values, far, far_confidence),
    ensures
        0 <= far_confidence <= near_confidence <= 1000,
        abs(offset(values, near)) == abs(offset(values, far)) ==> far_confidence
            == near_confidence,
{
    crate::samples::dispersion_is_bounded(values);
    if near_confidence < far_confidence {
        lemma_reaches_nearer(values, near, far, far_confidence);
        lemma_reaches_downwards(values, near, near_confidence + 1, far_confidence);
    }
    if abs(offset(values, near)) == abs(offset(values, far)) && far_confidence < near_confidence {
        lemma_reaches_nearer(values, far, near, near_confidence);
        lemma_reaches_downwards(values, far, far_confidence + 1, near_confidence);
    }
}

proof fn lemma_reaches_nearer(values: Seq<i64>, near: int, far: int, k: int)
    requires
        0 <= k,
        abs(offset(values, near)) <= abs(offset(values, far)),
        confidence_reaches(values, far, k),
    ensures
        confidence_reaches(values, near, k),
{
    let a = abs(offset(values, near));
    let b = abs(offset(values, far));
    lemma_mul_inequality(a, b, k);
    lemma_mul_is_commutative(k, a);
    lemma_mul_is_commutative(k, b);
    lemma_mul_nonnegative(k, a);
    let x = k * a;
    let y = k * b;
    assert(x * x <= y * y) by (nonlinear_arith)
        requires
            0 <= x <= y,
    ;
    lemma_mul_inequality(x * x, y * y, values.len() as int);
}

/// The mean itself has the full confidence, and no other one.
pub proof fn confidence_is_full_at_the_mean(values: Seq<i64>, new_value: int, k: int)
    requires
        values.len() > 0,
        values.len() * new_value == sum(values),
    ensures
        is_confidence(values, new_value, 1000),
        is_confidence(values, new_value, k) ==> k == 1000,
{
    let n = values.len() as int;
    let d = dispersion(values);
    assert((1000int * 0) * (1000 * 0) * n == 0) by (nonlinear_arith);
    assert(((1000int - 1000) * (n - 1)) * ((1000 - 1000) * (n - 1)) * d == 0) by (nonlinear_arith);
    assert(confidence_reaches(values, new_value, 1000));
    if is_confidence(values, new_value, k) {
        confidence_is_unique(values, new_value, k, 1000);
    }
}

/// To bring a history up to date a second time changes nothing.
pub proof fn second_update_changes_nothing(h: History, needed: int)
    ensures
        updated(updated(h, needed), needed) == updated(h, needed),
{
}

/// A value that is added to a window gives a window, of which it is the last.
pub proof fn windows_stay_windows(h: History, value: i64, timestamp: u64, needed: int)
    requires
        is_window(h, needed),
    ensures
        is_window(appended(h, value, timestamp, needed), needed),
        appended(h, value, timestamp, needed).values.last() == value,
        appended(h, value, timestamp, needed).timestamps.last() == timestamp,
{
}

/// Whether all values are equal.
pub open spec fn all_equal(s: Seq<i64>) -> bool {
    forall|i: int, j: int| 0 <= i < s.len() && 0 <= j < s.len() ==> s[i] == s[j]
}

proof fn lemma_sum_of_equal(s: Seq<i64>, v: i64)
    requires
        forall|i: int| 0 <= i < s.len() ==> #[trigger] s[i] == v,
    ensures
        sum(s) == s.len() * v,
    decreases s.len(),
{
    if s.len() > 0 {
        let rest = s.drop_last();
        assert forall|i: int| 0 <= i < rest.len() implies #[trigger] rest[i] == v by {
            assert(rest[i] == s[i]);
        }
        lemma_sum_of_equal(rest, v);
        assert(s.len() * v == rest.len() * v + v) by (nonlinear_arith)
            requires
                s.len() == rest.len() + 1,
        ;
    } else {
        assert(s.len() * v == 0) by (nonlinear_arith)
            requires
                s.len() == 0,
        ;
    }
}

proof fn lemma_deviation_bounds_each(s: Seq<i64>, n: int, total: int, i: int)
    requires
        0 <= i < s.len(),
    ensures
        0 <= (n * s[i] - total) * (n * s[i] - total) <= sum_of_scaled_deviations(s, n, total),
    decreases s.len(),
{
    let rest = s.drop_last();
    let x = n * s.last() - total;
    let y = n * s[i] - total;
    assert(0 <= x * x) by (nonlinear_arith);
    assert(0 <= y * y) by (nonlinear_arith);
    if i < s.len() - 1 {
        assert(rest[i] == s[i]);
        lemma_deviation_bounds_each(rest, n, total, i);
    } else if rest.len() > 0 {
        lemma_deviation_bounds_each(rest, n, total, 0);
        let z = n * rest[0] - total;
        assert(0 <= z * z) by (nonlinear_arith);
        assert(s[i] == s.last());
    } else {
        assert(s[i] == s.last());
        reveal_with_fuel(sum_of_scaled_deviations, 2);
    }
}

proof fn lemma_no_deviation(s: Seq<i64>, n: int, total: int)
    requires
        forall|i: int| 0 <= i < s.len() ==> n * #[trigger] s[i] == total,
    ensures
        sum_of_scaled_deviations(s, n, total) == 0,
    decreases s.len(),
{
    if s.len() > 0 {
        let rest = s.drop_last();
        assert forall|i: int| 0 <= i < rest.len() implies n * #[trigger] rest[i] == total by {
            assert(rest[i] == s[i]);
        }
        lemma_no_deviation(rest, n, total);
        assert(n * s[s.len() - 1] == total);
        assert(0int * 0 == 0);
    }
}

/// Samples deviate from their mean exactly where they are not all equal.
pub proof fn only_equal_samples_do_not_deviate(s: Seq<i64>)
    requires
        s.len() > 0,
    ensures
        dispersion(s) == 0 <==> all_equal(s),
        squared_deviation(s) == 0 <==> all_equal(s),
{
    let n = s.len() as int;
    let t = sum(s);
    deviation_from_moments(s);
    assert((n * dispersion(s) == 0) == (dispersion(s) == 0)) by (nonlinear_arith)
        requires
            n > 0,
    ;
    if all_equal(s) {
        assert forall|i: int| 0 <= i < s.len() implies #[trigger] s[i] == s[0] by {}
        lemma_sum_of_equal(s, s[0]);
        assert forall|i: int| 0 <= i < s.len() implies n * #[trigger] s[i] == t by {
            assert(s[i] == s[0]);
        }
        lemma_no_deviation(s, n, t);
    }
    if squared_deviation(s) == 0 {
        assert forall|i: int, j: int| 0 <= i < s.len() && 0 <= j < s.len() implies s[i] == s[j] by {
            lemma_deviation_bounds_each(s, n, t, i);
            lemma_deviation_bounds_each(s, n, t, j);
            let x = n * s[i] - t;
            let y = n * s[j] - t;
            assert(x == 0) by (nonlinear_arith)
                requires
                    x * x == 0,
            ;
            assert(y == 0) by (nonlinear_arith)
                requires
                    y * y == 0,
            ;
            let p = s[i] as int;
            let q = s[j] as int;
            assert(p == q) by (nonlinear_arith)
                requires
                    n * p == n * q,
                    n > 0,
            ;
        }
    }
}

/// A history whose values are all equal is stable.
pub proof fn equal_values_are_stable(values: Seq<i64>, window: int)
    requires
        has_trend(values, window),
        all_equal(values),
    ensures
        rise(values, window) == 0,
        direction(values, window) == "stable"@,
{
    let v = values[0];
    let recent = recent_values(values, window);
    let older = older_values(values, window);
    assert forall|i: int| 0 <= i < recent.len() implies #[trigger] recent[i] == v by {
        assert(recent[i] == values[values.len() - window + i]);
    }
    let front = values.take(values.len() - window);
    assert forall|i: int| 0 <= i < older.len() implies #[trigger] older[i] == v by {
        assert(older =~= last_items(front, window));
        assert(older[i] == front[front.len() - older.len() + i]);
    }
    lemma_sum_of_equal(recent, v);
    lemma_sum_of_equal(older, v);
    let m = older.len() as int;
    assert(window * v * m == m * v * window) by (nonlinear_arith);
    assert(0 <= window * window * m) by (nonlinear_arith)
        requires
            window > 0,
            m >= 0,
    ;
}

/// A trend is not increasing and decreasing at once: the mean of the latest values is
/// above that of the earlier ones where it increases, and below where it decreases.
pub proof fn directions_follow_the_means(values: Seq<i64>, window: int)
    requires
        has_trend(values, window),
    ensures
        rise(values, window) > 10 * rise_scale(values, window) ==> sum(
            recent_values(values, window),
        ) * older_values(values, window).len() > sum(older_values(values, window)) * window,
        rise(values, window) < -10 * rise_scale(values, window) ==> sum(
            recent_values(values, window),
        ) * older_values(values, window).len() < sum(older_values(values, window)) * window,
{
    let m = older_values(values, window).len() as int;
    assert(0 <= window * window * m) by (nonlinear_arith)
        requires
            window > 0,
            m >= 0,
    ;
}

/// The distance of a number from zero.
pub proof fn abs_is_the_distance(x: int)
    ensures
        abs(x) >= 0,
        abs(x) == x || abs(x) == -x,
{
}

/// A value is reported where its distance from the mean is more than the threshold, in
/// thousandths of a percent of the mean; all multiplied by the number of values.
pub proof fn judgements_compare_with_the_mean(values: Seq<i64>, new_value: int, threshold: int)
    ensures
        exceeds(values, new_value, threshold) <==> abs(values.len() * new_value - sum(values))
            * 100_000 > threshold * abs(sum(values)),
{
}

/// The severity of a reported change: critical above three times the threshold, severe
/// above twice, and a warning otherwise.
pub proof fn severity_follows_the_threshold(
    info: RegressionInfo,
    id: Seq<char>,
    values: Seq<i64>,
    new_value: i64,
    threshold: int,
)
    requires
        is_report(info, id, values, new_value, threshold),
    ensures
        ({
            let distance = abs(values.len() * new_value - sum(values)) * 100_000;
            let mean = abs(sum(values));
            &&& info.severity@ == "CRITICAL"@ <==> distance > 3 * threshold * mean
            &&& info.severity@ == "SEVERE"@ <==> distance <= 3 * threshold * mean && distance > 2
                * threshold * mean
            &&& info.severity@ == "WARNING"@ <==> distance <= 3 * threshold * mean && distance <= 2
                * threshold * mean
        }),
{
    reveal_strlit("CRITICAL");
    reveal_strlit("SEVERE");
    reveal_strlit("WARNING");
    assert("CRITICAL"@.len() == 8 && "SEVERE"@.len() == 6 && "WARNING"@.len() == 7);
}

/// What a report says of the new value and the past ones: the mean, the change from it in
/// percent and in standard deviations, and the confidence. Each is the exact number in
/// thousandths, rounded.
pub proof fn reports_are_exact(
    info: RegressionInfo,
    id: Seq<char>,
    values: Seq<i64>,
    new_value: i64,
    threshold: int,
)
    requires
        values.len() > 0,
        is_report(info, id, values, new_value, threshold),
    ensures
        ({
            let n = values.len() as int;
            let t = sum(values);
            let a = n * new_value - t;
            let spread = n * sum_of_squares(values) - t * t;
            &&& info.benchmark_id@ == id
            &&& info.new_value == new_value
            &&& info.baseline_mean * n <= t < (info.baseline_mean + 1) * n
            &&& match info.change_percent {
                Some(c) => if t > 0 {
                    c * t <= a * 100_000 < (c + 1) * t
                } else {
                    t < 0 && (c + 1) * t < a * 100_000 <= c * t
                },
                None => t == 0,
            }
            &&& match info.z_score {
                Some(z) => {
                    &&& spread > 0
                    &&& z > 0 ==> a > 0
                    &&& z < 0 ==> a < 0
                    &&& abs(z as int) * abs(z as int) * spread <= (1000 * a) * (1000 * a)
                    &&& (1000 * a) * (1000 * a) < (abs(z as int) + 1) * (abs(z as int) + 1) * spread
                },
                None => spread == 0,
            }
            &&& match info.confidence {
                Some(k) => {
                    &&& spread > 0
                    &&& k <= 1000
                    &&& (k * a) * (k * a) * n <= ((1000 - k) * (n - 1)) * ((1000 - k) * (n - 1))
                        * spread
                    &&& k < 1000 ==> ((k + 1) * a) * ((k + 1) * a) * n > ((999 - k) * (n - 1)) * ((
                    999 - k) * (n - 1)) * spread
                },
                None => spread == 0,
            }
        }),
{
    let n = values.len() as int;
    let t = sum(values);
    let a = n * new_value - t;
    let b = abs(a);
    quotient_is_near(t, n);
    crate::samples::dispersion_is_bounded(values);
    if t != 0 {
        change_is_within_a_thousandth(values, new_value as int);
    }
    if dispersion(values) != 0 {
        z_score_is_a_root(values, new_value as int);
        assert((1000 * b) * (1000 * b) == (1000 * a) * (1000 * a)) by (nonlinear_arith)
            requires
                b == a || b == -a,
        ;
        if a == 0 {
            let z = abs(info.z_score->Some_0 as int);
            let d = dispersion(values);
            assert((1000 * b) * (1000 * b) == 0) by (nonlinear_arith)
                requires
                    b == 0,
            ;
            assert(z == 0) by (nonlinear_arith)
                requires
                    z >= 0,
                    d > 0,
                    z * z * d <= 0,
            ;
        }
        let k = info.confidence->Some_0 as int;
        assert((k * b) * (k * b) == (k * a) * (k * a)) by (nonlinear_arith)
            requires
                b == a || b == -a,
        ;
        let j = k + 1;
        assert((j * b) * (j * b) == (j * a) * (j * a)) by (nonlinear_arith)
            requires
                b == a || b == -a,
        ;
        assert(1000 - j == 999 - k);
    }
}

/// A trend compares the latest `window` values with those right before them: as many, or
/// as there are. Both means are those of their values, the slope is the difference of the
/// means over the window, and it counts as stable within a hundredth.
pub proof fn trends_compare_neighbours(
    t: TrendInfo,
    id: Seq<char>,
    values: Seq<i64>,
    window: int,
    recent: Seq<i64>,
    older: Seq<i64>,
)
    requires
        0 < window < values.len(),
        is_trend(t, id, values, window),
        recent.len() == window,
        forall|i: int|
            0 <= i < recent.len() ==> #[trigger] recent[i] == values[values.len() - window + i],
        older.len() == (if values.len() - window < window {
            values.len() - window
        } else {
            window
        }),
        forall|i: int|
            0 <= i < older.len() ==> #[trigger] older[i] == values[values.len() - window
                - older.len() + i],
    ensures
        ({
            let m = older.len() as int;
            let up = sum(recent) * m - sum(older) * window;
            let scale = window * window * m;
            &&& t.benchmark_id@ == id
            &&& m > 0
            &&& t.recent_mean * window <= sum(recent) < (t.recent_mean + 1) * window
            &&& t.older_mean * m <= sum(older) < (t.older_mean + 1) * m
            &&& t.slope * scale <= up < (t.slope + 1) * scale
            &&& t.direction@ == "increasing"@ <==> up > 10 * scale
            &&& t.direction@ == "decreasing"@ <==> up < -10 * scale
            &&& t.direction@ == "stable"@ <==> -10 * scale <= up <= 10 * scale
        }),
{
    assert(has_trend(values, window));
    assert(recent =~= recent_values(values, window));
    assert(older =~= older_values(values, window));
    let m = older.len() as int;
    slope_is_within_a_thousandth(t, id, values, window);
    quotient_is_near(sum(recent), window);
    quotient_is_near(sum(older), m);
    assert(window * window * m > 0) by (nonlinear_arith)
        requires
            window > 0,
            m > 0,
    ;
    reveal_strlit("increasing");
    reveal_strlit("decreasing");
    reveal_strlit("stable");
    assert("increasing"@[0] == 'i' && "decreasing"@[0] == 'd' && "stable"@[0] == 's');
}

/// There is a trend where the window is not empty and values come before it.
pub proof fn trends_need_older_values(values: Seq<i64>, window: int)
    ensures
        has_trend(values, window) <==> window > 0 && values.len() > window,
{
}

/// What a history holds after one more value: the value and its time are the last, those
/// before them keep their order, and only the oldest leaves, once there are a thousand. The
/// moments are computed anew where there are as many values as are needed.
pub proof fn added_values_come_last(h: History, value: i64, timestamp: u64, needed: int, i: int)
    requires
        h.values.len() == h.timestamps.len() <= 1000,
    ensures
        ({
            let next = appended(h, value, timestamp, needed);
            let dropped: int = if h.values.len() == 1000 { 1 } else { 0 };
            &&& next.values.len() == h.values.len() + 1 - dropped
            &&& next.timestamps.len() == next.values.len()
            &&& next.values[next.values.len() - 1] == value
            &&& next.timestamps[next.values.len() - 1] == timestamp
            &&& 0 <= i < next.values.len() - 1 ==> next.values[i] == h.values[i + dropped]
                && next.timestamps[i] == h.timestamps[i + dropped]
            &&& next.values.len() >= needed ==> next.stats.count == next.values.len()
                && next.stats.sum == sum(next.values) && next.stats.sum_of_squares
                == sum_of_squares(next.values)
            &&& next.values.len() < needed ==> next.stats == h.stats
        }),
{
}

/// The last items of a sequence are as many as are asked for, or all, and end where it
/// ends.
pub proof fn last_items_are_the_last<T>(s: Seq<T>, n: int, i: int)
    requires
        n >= 0,
    ensures
        last_items(s, n).len() == (if s.len() < n {
            s.len() as int
        } else {
            n
        }),
        0 <= i < last_items(s, n).len() ==> last_items(s, n)[i] == s[s.len() - last_items(
            s,
            n,
        ).len() + i],
{
}

} // verus!
