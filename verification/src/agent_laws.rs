//! What the agent keeps of results, and which changes it reports.

use crate::agent::{after_result, are_judgements, are_reports, history_is_the_latest_values};
use crate::agent::{history_of, is_judgement, mean_times, other_benchmarks_stay};
use crate::agent::{regressed, regressed_values, with_results, with_values};
use crate::agent::{is_environment, BenchmarkResult, EnvironmentInfo, EnvironmentReadings};
use crate::agent::Judgement;
use crate::benchmark::Metric;
use crate::decimal::{parsed, parsed_or_is_bounded};
use crate::detector::{abs, is_report, is_trend, History, RegressionInfo, WINDOW};
use crate::profiler::last_items;
use crate::samples::sum;
use crate::text::{has_substring, trimmed};
use vstd::prelude::*;

verus! {

/// Whether a value differs from the mean of some values by more than `threshold`
/// thousandths of a percent of it, where there are as many values as are needed.
pub open spec fn stands_out(values: Seq<i64>, value: i64, threshold: int, needed: int) -> bool {
    &&& values.len() >= needed
    &&& abs(values.len() * value - sum(values)) * 100_000 > threshold * abs(sum(values))
}

/// The mean execution times are the values of the metrics with that name, in their order.
pub proof fn mean_times_are_those_named(metrics: Seq<Metric>)
    ensures
        mean_times(metrics) == metrics.filter(
            |m: Metric| has_substring(m.name@, "exec_time.mean"@),
        ).map_values(|m: Metric| m.value),
    decreases metrics.len(),
{
    reveal(Seq::filter);
    let named = |m: Metric| has_substring(m.name@, "exec_time.mean"@);
    let value = |m: Metric| m.value;
    if metrics.len() > 0 {
        mean_times_are_those_named(metrics.drop_last());
        assert(mean_times(metrics) =~= metrics.filter(named).map_values(value));
    } else {
        assert(mean_times(metrics) =~= metrics.filter(named).map_values(value));
    }
}

/// How many mean execution times of a result stand out against some histories.
pub open spec fn standing_out(
    m: Map<Seq<char>, History>,
    result: BenchmarkResult,
    threshold: int,
    needed: int,
) -> int {
    let id = result.benchmark_id@;
    if m.contains_key(id) {
        mean_times(result.metrics@).filter(
            |v: i64| stands_out(m[id].values, v, threshold, needed),
        ).len() as int
    } else {
        0
    }
}

proof fn lemma_values_are_filtered(
    m: Map<Seq<char>, History>,
    id: Seq<char>,
    values: Seq<i64>,
    threshold: int,
    needed: int,
)
    ensures
        !m.contains_key(id) ==> regressed_values(m, id, values, threshold, needed).len() == 0,
        m.contains_key(id) ==> regressed_values(m, id, values, threshold, needed).len()
            == values.filter(|v: i64| stands_out(m[id].values, v, threshold, needed)).len(),
    decreases values.len(),
{
    reveal(Seq::filter);
    if values.len() > 0 {
        lemma_values_are_filtered(m, id, values.drop_last(), threshold, needed);
    }
}

proof fn lemma_values_are_kept(
    m: Map<Seq<char>, History>,
    id: Seq<char>,
    values: Seq<i64>,
    threshold: int,
    needed: int,
    j: int,
)
    requires
        0 <= j < values.len(),
        m.contains_key(id),
        stands_out(m[id].values, values[j], threshold, needed),
    ensures
        regressed_values(m, id, values, threshold, needed).contains((id, values[j])),
    decreases values.len(),
{
    let rest = values.drop_last();
    let before = regressed_values(m, id, rest, threshold, needed);
    let all = regressed_values(m, id, values, threshold, needed);
    if j < rest.len() {
        lemma_values_are_kept(m, id, rest, threshold, needed, j);
        let k = choose|k: int| 0 <= k < before.len() && before[k] == (id, values[j]);
        assert(all[k] == before[k]);
    } else {
        assert(all[all.len() - 1] == (id, values[j]));
    }
}

proof fn lemma_kept_values_stand_out(
    m: Map<Seq<char>, History>,
    id: Seq<char>,
    values: Seq<i64>,
    threshold: int,
    needed: int,
    k: int,
)
    requires
        0 <= k < regressed_values(m, id, values, threshold, needed).len(),
    ensures
        ({
            let (name, v) = regressed_values(m, id, values, threshold, needed)[k];
            name == id && m.contains_key(id) && values.contains(v) && stands_out(
                m[id].values,
                v,
                threshold,
                needed,
            )
        }),
    decreases values.len(),
{
    let rest = values.drop_last();
    let before = regressed_values(m, id, rest, threshold, needed);
    let all = regressed_values(m, id, values, threshold, needed);
    if k < before.len() {
        lemma_kept_values_stand_out(m, id, rest, threshold, needed, k);
        assert(all[k] == before[k]);
        let v = all[k].1;
        let j = choose|j: int| 0 <= j < rest.len() && rest[j] == v;
        assert(values[j] == v);
    } else {
        assert(values[values.len() - 1] == all[k].1);
    }
}

proof fn lemma_results_are_kept(
    m: Map<Seq<char>, History>,
    results: Seq<BenchmarkResult>,
    threshold: int,
    needed: int,
    i: int,
    j: int,
)
    requires
        0 <= i < results.len(),
        0 <= j < mean_times(results[i].metrics@).len(),
        m.contains_key(results[i].benchmark_id@),
        stands_out(
            m[results[i].benchmark_id@].values,
            mean_times(results[i].metrics@)[j],
            threshold,
            needed,
        ),
    ensures
        regressed(m, results, threshold, needed).contains(
            (results[i].benchmark_id@, mean_times(results[i].metrics@)[j]),
        ),
    decreases results.len(),
{
    let rest = results.drop_last();
    let last = results.last();
    let before = regressed(m, rest, threshold, needed);
    let all = regressed(m, results, threshold, needed);
    let wanted = (results[i].benchmark_id@, mean_times(results[i].metrics@)[j]);
    if i < rest.len() {
        assert(rest[i] == results[i]);
        lemma_results_are_kept(m, rest, threshold, needed, i, j);
        let k = choose|k: int| 0 <= k < before.len() && before[k] == wanted;
        assert(all[k] == wanted);
    } else {
        let id = last.benchmark_id@;
        let values = mean_times(last.metrics@);
        lemma_values_are_kept(m, id, values, threshold, needed, j);
        let here = regressed_values(m, id, values, threshold, needed);
        let k = choose|k: int| 0 <= k < here.len() && here[k] == wanted;
        assert(all[before.len() + k] == wanted);
    }
}

/// Every mean execution time of every current result that stands out against the history
/// of its benchmark is reported, with its benchmark and its value.
pub proof fn every_regression_is_reported(
    reports: Seq<RegressionInfo>,
    m: Map<Seq<char>, History>,
    current: Seq<BenchmarkResult>,
    threshold: int,
    needed: int,
    i: int,
    j: int,
)
    requires
        are_reports(reports, regressed(m, current, threshold, needed), m, threshold),
        0 <= i < current.len(),
        0 <= j < mean_times(current[i].metrics@).len(),
        m.contains_key(current[i].benchmark_id@),
        stands_out(
            m[current[i].benchmark_id@].values,
            mean_times(current[i].metrics@)[j],
            threshold,
            needed,
        ),
    ensures
        exists|k: int|
            0 <= k < reports.len() && (#[trigger] reports[k]).benchmark_id@
                == current[i].benchmark_id@ && reports[k].new_value == mean_times(
                current[i].metrics@,
            )[j],
{
    lemma_results_are_kept(m, current, threshold, needed, i, j);
    let all = regressed(m, current, threshold, needed);
    let wanted = (current[i].benchmark_id@, mean_times(current[i].metrics@)[j]);
    let k = choose|k: int| 0 <= k < all.len() && all[k] == wanted;
    assert(is_report(reports[k], all[k].0, m[all[k].0].values, all[k].1, threshold));
    assert(reports[k].benchmark_id@ == wanted.0);
}

/// Only what stands out is reported: each report is that of a mean execution time of some
/// current result, against the history of its benchmark.
pub proof fn only_regressions_are_reported(
    reports: Seq<RegressionInfo>,
    m: Map<Seq<char>, History>,
    current: Seq<BenchmarkResult>,
    threshold: int,
    needed: int,
    k: int,
)
    requires
        are_reports(reports, regressed(m, current, threshold, needed), m, threshold),
        0 <= k < reports.len(),
    ensures
        exists|i: int|
            {
                &&& 0 <= i < current.len()
                &&& (#[trigger] current[i]).benchmark_id@ == reports[k].benchmark_id@
                &&& mean_times(current[i].metrics@).contains(reports[k].new_value)
            },
        m.contains_key(reports[k].benchmark_id@),
        stands_out(
            m[reports[k].benchmark_id@].values,
            reports[k].new_value,
            threshold,
            needed,
        ),
{
    let all = regressed(m, current, threshold, needed);
    assert(is_report(reports[k], all[k].0, m[all[k].0].values, all[k].1, threshold));
    lemma_kept_results_stand_out(m, current, threshold, needed, k);
}

proof fn lemma_kept_results_stand_out(
    m: Map<Seq<char>, History>,
    results: Seq<BenchmarkResult>,
    threshold: int,
    needed: int,
    k: int,
)
    requires
        0 <= k < regressed(m, results, threshold, needed).len(),
    ensures
        ({
            let (name, v) = regressed(m, results, threshold, needed)[k];
            &&& m.contains_key(name)
            &&& stands_out(m[name].values, v, threshold, needed)
            &&& exists|i: int|
                0 <= i < results.len() && (#[trigger] results[i]).benchmark_id@ == name
                    && mean_times(results[i].metrics@).contains(v)
        }),
    decreases results.len(),
{
    let rest = results.drop_last();
    let last = results.last();
    let before = regressed(m, rest, threshold, needed);
    let all = regressed(m, results, threshold, needed);
    let (name, v) = all[k];
    if k < before.len() {
        lemma_kept_results_stand_out(m, rest, threshold, needed, k);
        assert(all[k] == before[k]);
        let i = choose|i: int|
            0 <= i < rest.len() && (#[trigger] rest[i]).benchmark_id@ == name && mean_times(
                rest[i].metrics@,
            ).contains(v);
        assert(results[i] == rest[i]);
    } else {
        let values = mean_times(last.metrics@);
        let here = regressed_values(m, last.benchmark_id@, values, threshold, needed);
        assert(all[k] == here[k - before.len()]);
        lemma_kept_values_stand_out(
            m,
            last.benchmark_id@,
            values,
            threshold,
            needed,
            k - before.len(),
        );
        assert(results[results.len() - 1].benchmark_id@ == name);
    }
}

/// There are as many reports as mean execution times of all current results that stand
/// out, and those of a round that goes on come after those of its beginning.
pub proof fn regressions_are_counted(
    m: Map<Seq<char>, History>,
    current: Seq<BenchmarkResult>,
    more: Seq<BenchmarkResult>,
    threshold: int,
    needed: int,
)
    ensures
        regressed(m, current, threshold, needed).len() == current.fold_left(
            0int,
            |n: int, r: BenchmarkResult| n + standing_out(m, r, threshold, needed),
        ),
        regressed(m, current + more, threshold, needed) == regressed(m, current, threshold, needed)
            + regressed(m, more, threshold, needed),
    decreases current.len(), more.len(),
{
    if current.len() > 0 {
        let last = current.last();
        regressions_are_counted(m, current.drop_last(), seq![], threshold, needed);
        lemma_values_are_filtered(
            m,
            last.benchmark_id@,
            mean_times(last.metrics@),
            threshold,
            needed,
        );
    }
    if more.len() > 0 {
        assert((current + more).drop_last() =~= current + more.drop_last());
        assert((current + more).last() == more.last());
        regressions_are_counted(m, current, more.drop_last(), threshold, needed);
        assert(regressed(m, current + more, threshold, needed) =~= regressed(
            m,
            current,
            threshold,
            needed,
        ) + regressed(m, more, threshold, needed));
    } else {
        assert(current + more =~= current);
        assert(regressed(m, current, threshold, needed) + regressed(m, more, threshold, needed)
            =~= regressed(m, current, threshold, needed));
    }
}

/// The mean execution times of the results of one benchmark, in their order.
pub open spec fn times_of_benchmark(results: Seq<BenchmarkResult>, id: Seq<char>) -> Seq<i64> {
    results.fold_left(
        Seq::<i64>::empty(),
        |times: Seq<i64>, r: BenchmarkResult|
            if r.benchmark_id@ == id {
                times + mean_times(r.metrics@)
            } else {
                times
            },
    )
}

proof fn lemma_last_of_last<T>(a: Seq<T>, b: Seq<T>, n: int)
    requires
        n >= 0,
    ensures
        last_items(last_items(a, n) + b, n) == last_items(a + b, n),
{
    assert(last_items(last_items(a, n) + b, n) =~= last_items(a + b, n));
}

/// After some results, the history of a benchmark is what it was before, followed by the
/// mean execution times of the results of that benchmark, cut to the latest thousand.
pub proof fn histories_follow_the_results(
    m: Map<Seq<char>, History>,
    results: Seq<BenchmarkResult>,
    needed: int,
    id: Seq<char>,
)
    requires
        history_of(m, id).values.len() <= WINDOW,
    ensures
        history_of(with_results(m, results, needed), id).values == last_items(
            history_of(m, id).values + times_of_benchmark(results, id),
            1000,
        ),
        with_results(m, results, needed).contains_key(id) <==> m.contains_key(id)
            || times_of_benchmark(results, id).len() > 0,
    decreases results.len(),
{
    let start = history_of(m, id).values;
    if results.len() == 0 {
        assert(start + times_of_benchmark(results, id) =~= start);
    } else {
        let rest = results.drop_last();
        let last = results.last();
        let values = mean_times(last.metrics@);
        histories_follow_the_results(m, rest, needed, id);
        let before = with_results(m, rest, needed);
        if last.benchmark_id@ == id {
            history_is_the_latest_values(before, id, values, last.timestamp, needed);
            lemma_last_of_last(start + times_of_benchmark(rest, id), values, 1000);
            assert(start + times_of_benchmark(rest, id) + values =~= start + times_of_benchmark(
                results,
                id,
            ));
            lemma_known_with_values(before, id, values, last.timestamp, needed);
        } else {
            other_benchmarks_stay(
                before,
                last.benchmark_id@,
                values,
                last.timestamp,
                needed,
                id,
            );
        }
    }
}

proof fn lemma_known_with_values(
    m: Map<Seq<char>, History>,
    id: Seq<char>,
    values: Seq<i64>,
    timestamp: u64,
    needed: int,
)
    ensures
        with_values(m, id, values, timestamp, needed).contains_key(id) <==> m.contains_key(id)
            || values.len() > 0,
    decreases values.len(),
{
    if values.len() > 0 {
        lemma_known_with_values(m, id, values.drop_last(), timestamp, needed);
    }
}

/// A judgement reports a value that stands out against the history that holds it already,
/// and has a trend where there are more than ten values.
pub proof fn judgements_are_exact(
    j: Judgement,
    id: Seq<char>,
    values: Seq<i64>,
    value: i64,
    threshold: int,
    needed: int,
)
    requires
        is_judgement(j, id, values, value, threshold, needed),
    ensures
        j.regression is Some <==> stands_out(values, value, threshold, needed),
        j.regression matches Some(info) ==> is_report(info, id, values, value, threshold)
            && info.benchmark_id@ == id && info.new_value == value,
        j.trend is Some <==> values.len() > 10,
        j.trend matches Some(t) ==> is_trend(t, id, values, 10) && t.benchmark_id@ == id,
{
}

/// Each mean execution time of a result has one judgement, in their order, made against
/// the history with that time and those before it, but not those after it.
pub proof fn each_time_is_judged_in_turn(
    v: Seq<Judgement>,
    result: BenchmarkResult,
    m: Map<Seq<char>, History>,
    threshold: int,
    needed: int,
    i: int,
)
    requires
        are_judgements(v, result, m, threshold, needed),
        history_of(m, result.benchmark_id@).values.len() <= WINDOW,
        0 <= i < mean_times(result.metrics@).len(),
    ensures
        v.len() == mean_times(result.metrics@).len(),
        is_judgement(
            v[i],
            result.benchmark_id@,
            last_items(
                history_of(m, result.benchmark_id@).values + mean_times(result.metrics@).take(i + 1),
                1000,
            ),
            mean_times(result.metrics@)[i],
            threshold,
            needed,
        ),
{
    let values = mean_times(result.metrics@);
    let id = result.benchmark_id@;
    history_is_the_latest_values(m, id, values.take(i + 1), result.timestamp, needed);
    lemma_known_with_values(m, id, values.take(i + 1), result.timestamp, needed);
    assert(is_judgement(
        v[i],
        id,
        with_values(m, id, values.take(i + 1), result.timestamp, needed)[id].values,
        values[i],
        threshold,
        needed,
    ));
}

/// A result adds its mean execution times to the history of its own benchmark, at its own
/// time, and leaves every other benchmark as it is.
pub proof fn results_are_kept_under_their_benchmark(
    m: Map<Seq<char>, History>,
    result: BenchmarkResult,
    needed: int,
    other: Seq<char>,
)
    requires
        history_of(m, result.benchmark_id@).values.len() == history_of(
            m,
            result.benchmark_id@,
        ).timestamps.len() <= WINDOW,
        other != result.benchmark_id@,
    ensures
        history_of(after_result(m, result, needed), result.benchmark_id@).values == last_items(
            history_of(m, result.benchmark_id@).values + mean_times(result.metrics@),
            1000,
        ),
        history_of(after_result(m, result, needed), result.benchmark_id@).timestamps == last_items(
            history_of(m, result.benchmark_id@).timestamps + Seq::new(
                mean_times(result.metrics@).len(),
                |i: int| result.timestamp,
            ),
            1000,
        ),
        history_of(after_result(m, result, needed), other) == history_of(m, other),
        after_result(m, result, needed).contains_key(other) == m.contains_key(other),
{
    let values = mean_times(result.metrics@);
    let id = result.benchmark_id@;
    history_is_the_latest_values(m, id, values, result.timestamp, needed);
    lemma_times_of_history(m, id, values, result.timestamp, needed);
    other_benchmarks_stay(m, id, values, result.timestamp, needed, other);
}

proof fn lemma_times_of_history(
    m: Map<Seq<char>, History>,
    id: Seq<char>,
    values: Seq<i64>,
    timestamp: u64,
    needed: int,
)
    requires
        history_of(m, id).timestamps.len() <= WINDOW,
    ensures
        history_of(with_values(m, id, values, timestamp, needed), id).timestamps == last_items(
            history_of(m, id).timestamps + Seq::new(values.len(), |i: int| timestamp),
            1000,
        ),
    decreases values.len(),
{
    let start = history_of(m, id).timestamps;
    let all = Seq::new(values.len(), |i: int| timestamp);
    if values.len() == 0 {
        assert(start + all =~= start);
    } else {
        let rest = values.drop_last();
        let some = Seq::new(rest.len(), |i: int| timestamp);
        lemma_times_of_history(m, id, rest, timestamp, needed);
        lemma_last_of_last(start + some, seq![timestamp], 1000);
        assert(start + some + seq![timestamp] =~= start + all);
        let before = last_items(start + some, 1000);
        assert(before + seq![timestamp] =~= before.push(timestamp));
    }
}

/// The description of a device says what was read: sizes in whole megabytes, the number in
/// the file of the battery and of the temperature, the first processor, and whether the
/// thermal state is above zero.
pub proof fn environments_say_what_was_read(e: EnvironmentInfo, r: EnvironmentReadings)
    requires
        is_environment(e, r),
    ensures
        e.total_ram_mb * 1024 * 1024 <= r.total_memory < (e.total_ram_mb + 1) * 1024 * 1024,
        r.free_disk matches Some(b) ==> e.disk_free_mb * 1024 * 1024 <= b < (e.disk_free_mb + 1)
            * 1024 * 1024,
        r.free_disk is None ==> e.disk_free_mb == 0,
        r.capacity matches Some(s) ==> match parsed(trimmed(s@), 255) {
            Ok(v) => e.battery_level == v,
            Err(_) => e.battery_level == 100,
        },
        r.capacity is None ==> e.battery_level == 100,
        r.zone matches Some(s) ==> match parsed(trimmed(s@), 0xffff_ffff) {
            Ok(v) => e.temperature_celsius is Some && e.temperature_celsius->Some_0 == v,
            Err(_) => e.temperature_celsius is None,
        },
        r.zone is None ==> e.temperature_celsius is None,
        e.thermal_throttling <==> (r.cur_state matches Some(s) && (parsed(
            trimmed(s@),
            0xffff_ffff,
        ) matches Ok(v) && v != 0)),
        r.cpu_brands@.len() > 0 ==> e.cpu_model@ == r.cpu_brands@.first()@,
        r.cpu_brands@.len() == 0 ==> e.cpu_model@ == "unknown"@,
        r.uname is None ==> e.kernel_version@ == "unknown"@,
        r.uname matches Some(s) ==> e.kernel_version@ == trimmed(s@),
        e.os_version@ == r.os@,
        e.cpu_cores == r.cpu_cores,
        e.network_interfaces@ == r.network_interfaces@,
        e.process_count == r.process_count,
        e.uptime_seconds == r.uptime_seconds,
{
    match r.cur_state {
        Some(s) => {
            parsed_or_is_bounded(trimmed(s@), 0xffff_ffff, 0);
        },
        None => {},
    }
}

} // verus!
