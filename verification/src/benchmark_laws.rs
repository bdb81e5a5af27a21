//! What the metrics of a benchmark say of the samples that they summarise.

use crate::arith::is_floor_root;
use crate::benchmark::{exec_time_metrics, metric_views, pair_views, peak_of, resource_metrics};
use crate::benchmark::{Metric, MetricUnit};
use crate::order::{max_of, min_of, percentile_of, rank, rank_is_nearest};
use crate::order_laws::{counts_are_counts, extremes_are_extreme, mean_is_between_extremes};
use crate::order_laws::{mean_is_within_a_thousandth, percentile_has_its_rank};
use crate::order_laws::{spreads_are_roots, summary_is_ordered};
use crate::samples::{dispersion, is_unstable, relative_deviation, std_dev, sum, sum_of_squares};
use crate::samples::stats_give_mean_and_deviation;
use vstd::arithmetic::mul::*;
use vstd::prelude::*;

verus! {

/// Whether a number is a whole mean: at most the exact one, and less than one below it.
pub open spec fn is_mean(m: int, s: Seq<i64>) -> bool {
    m * s.len() <= sum(s) < (m + 1) * s.len()
}

/// Whether a number is one of the samples, with none below it.
pub open spec fn is_bottom(m: int, s: Seq<i64>) -> bool {
    &&& exists|i: int| 0 <= i < s.len() && #[trigger] s[i] == m
    &&& forall|i: int| 0 <= i < s.len() ==> m <= #[trigger] s[i]
}

/// Whether a number is one of the samples, with none above it.
pub open spec fn is_top(m: int, s: Seq<i64>) -> bool {
    &&& exists|i: int| 0 <= i < s.len() && #[trigger] s[i] == m
    &&& forall|i: int| 0 <= i < s.len() ==> #[trigger] s[i] <= m
}

/// Whether a sample stands at the position of the sorted samples that is nearest to a
/// share of the way from the first to the last; of two that are equally near, the first.
pub open spec fn stands_at(m: int, s: Seq<i64>, permille: int) -> bool {
    &&& exists|i: int| 0 <= i < s.len() && #[trigger] s[i] == m
    &&& exists|k: int|
        {
            &&& 2000 * k - 1000 < 2 * permille * (s.len() - 1) <= #[trigger] (2000 * k) + 1000
            &&& s.filter(|v: i64| v < m).len() <= k < s.filter(|v: i64| v <= m).len()
        }
}

proof fn lemma_stands_at(s: Seq<i64>, permille: int)
    requires
        s.len() > 0,
        0 <= permille <= 1000,
    ensures
        stands_at(percentile_of(s, permille) as int, s, permille),
{
    let v = percentile_of(s, permille);
    let m = v as int;
    let k = rank(permille, s.len() as int);
    percentile_has_its_rank(s, permille);
    rank_is_nearest(permille, s.len() as int);
    counts_are_counts(s, m);
    assert(s.contains(v));
    let i = choose|i: int| 0 <= i < s.len() && s[i] == v;
    assert(s[i] == m);
    assert(2000 * k - 1000 < 2 * permille * (s.len() - 1) <= (2000 * k) + 1000);
}

/// Whether a number is the standard deviation of samples, rounded down: its square, times
/// that of the number of samples, is at most that number times the sum of squares, less the
/// square of the sum.
pub open spec fn is_deviation(d: int, s: Seq<i64>) -> bool {
    let n = s.len() as int;
    let spread = n * sum_of_squares(s) - sum(s) * sum(s);
    0 <= d && d * d * (n * n) <= spread < (d + 1) * (d + 1) * (n * n)
}

/// Whether a number is 1.96 standard deviations over the root of the number of samples,
/// rounded down.
pub open spec fn is_radius(r: int, s: Seq<i64>) -> bool {
    let n = s.len() as int;
    let spread = n * sum_of_squares(s) - sum(s) * sum(s);
    &&& 0 <= r
    &&& r * r * (100 * 100 * (n * n * n)) <= 196 * 196 * spread
    &&& 196 * 196 * spread < (r + 1) * (r + 1) * (100 * 100 * (n * n * n))
}

proof fn lemma_spreads(s: Seq<i64>)
    requires
        s.len() > 0,
    ensures
        is_deviation(std_dev(s), s),
        is_radius(crate::samples::confidence_radius(s), s),
{
    let n = s.len() as int;
    stats_give_mean_and_deviation(s);
    spreads_are_roots(s);
    crate::samples::dispersion_is_bounded(s);
    lemma_mul_strictly_positive(n, n);
    crate::arith::floor_root_exists(n * n, dispersion(s));
    assert(is_floor_root(std_dev(s), n * n, dispersion(s)));
}

/// The eight metrics of execution times: their names, units and tags, and what each of
/// their values is of the times. Only the mean has an interval, which it is the middle of,
/// and the samples, in their order.
pub proof fn execution_metrics_summarise(id: Seq<char>, times: Seq<i64>, metrics: Seq<Metric>)
    requires
        times.len() > 0,
        metric_views(metrics) == exec_time_metrics(id, times),
    ensures
        metrics.len() == 8,
        metrics[0].name@ == id + ".exec_time.mean"@,
        metrics[1].name@ == id + ".exec_time.median"@,
        metrics[2].name@ == id + ".exec_time.p90"@,
        metrics[3].name@ == id + ".exec_time.p95"@,
        metrics[4].name@ == id + ".exec_time.p99"@,
        metrics[5].name@ == id + ".exec_time.min"@,
        metrics[6].name@ == id + ".exec_time.max"@,
        metrics[7].name@ == id + ".exec_time.std_dev"@,
        is_mean(metrics[0].value as int, times),
        stands_at(metrics[1].value as int, times, 500),
        stands_at(metrics[2].value as int, times, 900),
        stands_at(metrics[3].value as int, times, 950),
        stands_at(metrics[4].value as int, times, 990),
        is_bottom(metrics[5].value as int, times),
        is_top(metrics[6].value as int, times),
        is_deviation(metrics[7].value as int, times),
        metrics[5].value <= metrics[1].value <= metrics[2].value <= metrics[3].value
            <= metrics[4].value <= metrics[6].value,
        metrics[5].value <= metrics[0].value <= metrics[6].value,
        metrics[0].confidence_interval matches Some((low, high)) && is_radius(
            high - metrics[0].value,
            times,
        ) && metrics[0].value - low == high - metrics[0].value,
        metrics[0].samples matches Some(v) && v@ == times,
        forall|i: int|
            0 < i < 8 ==> (#[trigger] metrics[i]).confidence_interval is None
                && metrics[i].samples is None,
        forall|i: int|
            0 <= i < 8 ==> (#[trigger] metrics[i]).unit == MetricUnit::Nanoseconds && pair_views(
                metrics[i].tags@,
            ) == seq![("benchmark"@, id)],
{
    let all = exec_time_metrics(id, times);
    assert(metric_views(metrics).len() == metrics.len());
    assert forall|i: int| 0 <= i < metrics.len() implies (#[trigger] metrics[i])@ == all[i] by {
        assert(metric_views(metrics)[i] == metrics[i]@);
    }
    assert(metrics[0]@ == all[0]);
    assert(metrics[1]@ == all[1]);
    assert(metrics[2]@ == all[2]);
    assert(metrics[3]@ == all[3]);
    assert(metrics[4]@ == all[4]);
    assert(metrics[5]@ == all[5]);
    assert(metrics[6]@ == all[6]);
    assert(metrics[7]@ == all[7]);
    mean_is_within_a_thousandth(times);
    mean_is_between_extremes(times);
    summary_is_ordered(times);
    extremes_are_extreme(times);
    lemma_stands_at(times, 500);
    lemma_stands_at(times, 900);
    lemma_stands_at(times, 950);
    lemma_stands_at(times, 990);
    lemma_spreads(times);
    lemma_extremes(times);
}

proof fn lemma_extremes(s: Seq<i64>)
    requires
        s.len() > 0,
    ensures
        is_bottom(min_of(s) as int, s),
        is_top(max_of(s) as int, s),
{
    extremes_are_extreme(s);
    let i = choose|i: int| 0 <= i < s.len() && s[i] == min_of(s);
    assert(s[i] == min_of(s));
    let j = choose|j: int| 0 <= j < s.len() && s[j] == max_of(s);
    assert(s[j] == max_of(s));
}

/// Without execution times there are no metrics of them.
pub proof fn no_times_give_no_metrics(id: Seq<char>, metrics: Seq<Metric>)
    requires
        metric_views(metrics) == exec_time_metrics(id, seq![]),
    ensures
        metrics.len() == 0,
{
    assert(metric_views(metrics).len() == metrics.len());
}

/// Whether a number is the largest of some samples and zero.
pub open spec fn is_peak(m: int, s: Seq<i64>) -> bool {
    &&& 0 <= m
    &&& forall|i: int| 0 <= i < s.len() ==> #[trigger] s[i] <= m
    &&& m == 0 || exists|i: int| 0 <= i < s.len() && #[trigger] s[i] == m
}

/// Whether a metric of a benchmark has this name and unit, the tag of the benchmark, no
/// interval, and these samples if any.
pub open spec fn is_metric(
    m: Metric,
    name: Seq<char>,
    unit: MetricUnit,
    id: Seq<char>,
    samples: Option<Seq<i64>>,
) -> bool {
    &&& m.name@ == name
    &&& m.unit == unit
    &&& pair_views(m.tags@) == seq![("benchmark"@, id)]
    &&& m.confidence_interval is None
    &&& match samples {
        Some(s) => m.samples is Some && m.samples->Some_0@ == s,
        None => m.samples is None,
    }
}

/// The metrics of the resources: the mean and the peak of the loads, the mean of the memory
/// and the mean and the peak of the temperatures, each only where there are samples of it.
pub proof fn resource_metrics_summarise(
    id: Seq<char>,
    cpu: Seq<i64>,
    mem: Seq<i64>,
    temp: Seq<i64>,
    metrics: Seq<Metric>,
)
    requires
        metric_views(metrics) == resource_metrics(id, cpu, mem, temp),
    ensures
        ({
            let a: int = if cpu.len() > 0 { 2 } else { 0 };
            let b: int = if mem.len() > 0 { 1 } else { 0 };
            let c: int = if temp.len() > 0 { 2 } else { 0 };
            let percent = MetricUnit::Percentage;
            let degrees = MetricUnit::Temperature;
            &&& metrics.len() == a + b + c
            &&& cpu.len() > 0 ==> {
                &&& is_metric(metrics[0], id + ".cpu.mean"@, percent, id, Some(cpu))
                &&& is_mean(metrics[0].value as int, cpu)
                &&& is_metric(metrics[1], id + ".cpu.max"@, percent, id, None)
                &&& is_peak(metrics[1].value as int, cpu)
            }
            &&& mem.len() > 0 ==> {
                &&& is_metric(
                    metrics[a],
                    id + ".memory.mean_mb"@,
                    MetricUnit::Bytes,
                    id,
                    Some(mem),
                )
                &&& is_mean(metrics[a].value as int, mem)
            }
            &&& temp.len() > 0 ==> {
                &&& is_metric(metrics[a + b], id + ".temperature.mean"@, degrees, id, None)
                &&& is_mean(metrics[a + b].value as int, temp)
                &&& is_metric(metrics[a + b + 1], id + ".temperature.max"@, degrees, id, None)
                &&& is_peak(metrics[a + b + 1].value as int, temp)
            }
        }),
{
    let all = resource_metrics(id, cpu, mem, temp);
    let a: int = if cpu.len() > 0 { 2 } else { 0 };
    let b: int = if mem.len() > 0 { 1 } else { 0 };
    assert(metric_views(metrics).len() == metrics.len());
    assert forall|i: int| 0 <= i < metrics.len() implies (#[trigger] metrics[i])@ == all[i] by {
        assert(metric_views(metrics)[i] == metrics[i]@);
    }
    if cpu.len() > 0 {
        assert(metrics[0]@ == all[0]);
        assert(metrics[1]@ == all[1]);
        mean_is_within_a_thousandth(cpu);
        lemma_peak(cpu);
    }
    if mem.len() > 0 {
        assert(metrics[a]@ == all[a]);
        mean_is_within_a_thousandth(mem);
    }
    if temp.len() > 0 {
        assert(metrics[a + b]@ == all[a + b]);
        assert(metrics[a + b + 1]@ == all[a + b + 1]);
        mean_is_within_a_thousandth(temp);
        lemma_peak(temp);
    }
}

proof fn lemma_peak(s: Seq<i64>)
    requires
        s.len() > 0,
    ensures
        is_peak(peak_of(s), s),
{
    lemma_extremes(s);
    let top = max_of(s);
    let i = choose|i: int| 0 <= i < s.len() && #[trigger] s[i] == top;
    assert(s[i] == top);
}

/// Execution times vary too much where their mean is not negative and their standard
/// deviation is more than 15 percent of it. The relative deviation is the standard
/// deviation in thousandths of the mean, rounded towards zero, with the sign of the mean.
pub proof fn stability_is_the_relative_deviation(s: Seq<i64>)
    requires
        sum(s) != 0,
    ensures
        ({
            let t = sum(s);
            let spread = s.len() * sum_of_squares(s) - t * t;
            let size = if t < 0 { -relative_deviation(s) } else { relative_deviation(s) };
            &&& 0 <= size
            &&& size * size * (t * t) <= 1000 * 1000 * spread
            &&& 1000 * 1000 * spread < (size + 1) * (size + 1) * (t * t)
            &&& is_unstable(s) <==> t >= 0 && 100 * 100 * spread > 15 * 15 * (t * t)
        }),
{
    if s.len() > 0 {
        spreads_are_roots(s);
    }
}

/// The report of a run lists the metrics of the times before those of the resources, and
/// nothing else.
pub proof fn run_reports_list_times_first(
    id: Seq<char>,
    times: Seq<i64>,
    cpu: Seq<i64>,
    mem: Seq<i64>,
    temp: Seq<i64>,
    metrics: Seq<Metric>,
)
    requires
        metric_views(metrics) == exec_time_metrics(id, times) + resource_metrics(id, cpu, mem, temp),
    ensures
        ({
            let k: int = if times.len() > 0 { 8 } else { 0 };
            &&& metric_views(metrics.take(k)) == exec_time_metrics(id, times)
            &&& metric_views(metrics.skip(k)) == resource_metrics(id, cpu, mem, temp)
            &&& metrics.len() == k + (if cpu.len() > 0 { 2int } else { 0 }) + (if mem.len() > 0 {
                1int
            } else {
                0
            }) + (if temp.len() > 0 { 2int } else { 0 })
        }),
{
    let k: int = if times.len() > 0 { 8 } else { 0 };
    let a = exec_time_metrics(id, times);
    let b = resource_metrics(id, cpu, mem, temp);
    assert(a.len() == k);
    assert(metric_views(metrics).len() == metrics.len());
    assert(metric_views(metrics.take(k)) =~= (a + b).take(k));
    assert((a + b).take(k) =~= a);
    assert(metric_views(metrics.skip(k)) =~= (a + b).skip(k));
    assert((a + b).skip(k) =~= b);
}

} // verus!
