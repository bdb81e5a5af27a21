//! The benchmark agent: its results, its schedule, and how results are judged.

use crate::agent_laws::{every_regression_is_reported, regressions_are_counted};
use crate::agent_laws::{standing_out, stands_out};
use crate::benchmark::{Benchmark, Metric};
use crate::decimal::{decimal, decimal_text};
use crate::detector::{appended, empty_history, exceeds, has_trend, is_report, is_trend, History};
use crate::detector::{RegressionDetector, RegressionInfo, TrendInfo, WINDOW};
use crate::device::{file_number, get_battery_level, get_cpu_temperature, get_kernel_version};
use crate::device::is_thermal_throttling;
use crate::procfs::{borrowed, owned_text};
use crate::profiler::{last_items, MEGABYTE};
use crate::text::{chars_of, contains, has_substring, is_text, trimmed};
use vstd::prelude::*;

verus! {

/// How the agent was built.
#[derive(Debug)]
pub struct BuildInfo {
    pub rust_version: String,
    pub target: String,
    pub optimization_level: String,
    pub debug_symbols: bool,
    /// Seconds since the epoch.
    pub build_time: u64,
}

/// The device at the time of a result.
#[derive(Debug)]
pub struct EnvironmentInfo {
    pub os_version: String,
    pub kernel_version: String,
    pub cpu_cores: usize,
    pub cpu_model: String,
    pub cpu_freq_mhz: u64,
    pub total_ram_mb: u64,
    /// Percent.
    pub battery_level: u8,
    /// Thousandths of a degree.
    pub temperature_celsius: Option<u32>,
    pub thermal_throttling: bool,
    pub disk_free_mb: u64,
    pub network_interfaces: Vec<String>,
    pub process_count: usize,
    pub uptime_seconds: u64,
}

/// What was read of the device. A file that could not be read is `None`.
#[derive(Debug)]
pub struct EnvironmentReadings {
    pub os: String,
    /// The output of `uname -r`.
    pub uname: Option<String>,
    pub cpu_cores: usize,
    /// The brand of each processor.
    pub cpu_brands: Vec<String>,
    /// Bytes of memory.
    pub total_memory: u64,
    /// The file with the charge of the battery.
    pub capacity: Option<String>,
    /// The file with the processor temperature.
    pub zone: Option<String>,
    /// The file with the thermal state.
    pub cur_state: Option<String>,
    /// Free bytes on the root file system.
    pub free_disk: Option<u64>,
    pub network_interfaces: Vec<String>,
    pub process_count: usize,
    pub uptime_seconds: u64,
}

/// Whether the description of the device is that of the readings.
pub open spec fn is_environment(e: EnvironmentInfo, r: EnvironmentReadings) -> bool {
    &&& e.os_version@ == r.os@
    &&& e.kernel_version@ == (match r.uname {
        Some(s) => trimmed(s@),
        None => "unknown"@,
    })
    &&& e.cpu_cores == r.cpu_cores
    &&& e.cpu_model@ == (if r.cpu_brands@.len() > 0 {
        r.cpu_brands@[0]@
    } else {
        "unknown"@
    })
    &&& e.cpu_freq_mhz == 0
    &&& e.total_ram_mb == r.total_memory as int / 1_048_576
    &&& e.battery_level == (match file_number(owned_text(r.capacity), u8::MAX as int) {
        Some(v) => v,
        None => 100,
    })
    &&& match file_number(owned_text(r.zone), u32::MAX as int) {
        Some(t) => e.temperature_celsius is Some && e.temperature_celsius->0 == t,
        None => e.temperature_celsius is None,
    }
    &&& e.thermal_throttling == (file_number(owned_text(r.cur_state), u32::MAX as int) matches Some(
        v,
    ) && v > 0)
    &&& e.disk_free_mb == (match r.free_disk {
        Some(b) => b as int / 1_048_576,
        None => 0,
    })
    &&& e.network_interfaces@ == r.network_interfaces@
    &&& e.process_count == r.process_count
    &&& e.uptime_seconds == r.uptime_seconds
}

/// Describes the device by what was read of it.
pub fn collect_environment_info(r: EnvironmentReadings) -> (e: EnvironmentInfo)
    ensures
        is_environment(e, r),
{
    let cpu_model: String = if r.cpu_brands.len() > 0 {
        r.cpu_brands[0].clone()
    } else {
        "unknown".to_owned()
    };
    let kernel_version: String = get_kernel_version(borrowed(&r.uname));
    let battery_level: u8 = get_battery_level(borrowed(&r.capacity));
    let temperature_celsius: Option<u32> = get_cpu_temperature(borrowed(&r.zone));
    let thermal_throttling: bool = is_thermal_throttling(borrowed(&r.cur_state));
    EnvironmentInfo {
        os_version: r.os,
        kernel_version,
        cpu_cores: r.cpu_cores,
        cpu_model,
        cpu_freq_mhz: 0,
        total_ram_mb: r.total_memory / MEGABYTE,
        battery_level,
        temperature_celsius,
        thermal_throttling,
        disk_free_mb: match r.free_disk {
            Some(b) => b / MEGABYTE,
            None => 0,
        },
        network_interfaces: r.network_interfaces,
        process_count: r.process_count,
        uptime_seconds: r.uptime_seconds,
    }
}

/// What a run of a benchmark gave.
#[derive(Debug)]
pub struct BenchmarkResult {
    pub benchmark_id: String,
    pub commit_hash: String,
    pub device_id: String,
    /// Seconds since the epoch.
    pub timestamp: u64,
    pub metrics: Vec<Metric>,
    pub environment: EnvironmentInfo,
    pub build_info: BuildInfo,
    pub tags: Vec<(String, String)>,
}

impl BenchmarkResult {
    /// The result of a run.
    pub fn new(
        benchmark: &Benchmark,
        commit_hash: &str,
        device_id: &str,
        timestamp: u64,
        metrics: Vec<Metric>,
        environment: EnvironmentInfo,
        build_info: BuildInfo,
        tags: Vec<(String, String)>,
    ) -> (r: BenchmarkResult)
        ensures
            r.benchmark_id@ == benchmark.config.id@,
            r.commit_hash@ == commit_hash@,
            r.device_id@ == device_id@,
            r.timestamp == timestamp,
            r.metrics == metrics,
            r.environment == environment,
            r.build_info == build_info,
            r.tags == tags,
    {
        BenchmarkResult {
            benchmark_id: benchmark.config.id.clone(),
            commit_hash: commit_hash.to_owned(),
            device_id: device_id.to_owned(),
            timestamp,
            metrics,
            environment,
            build_info,
            tags,
        }
    }

    /// The name of the file that holds the result.
    pub fn file_name(&self) -> (r: String)
        ensures
            r@ == self.benchmark_id@ + "_"@ + self.commit_hash@ + "_"@ + decimal(
                self.timestamp as nat,
            ) + ".json"@,
    {
        let digits: String = decimal_text(self.timestamp);
        let mut r: String = self.benchmark_id.clone();
        r.append("_");
        r.append(self.commit_hash.as_str());
        r.append("_");
        r.append(digits.as_str());
        r.append(".json");
        r
    }
}

/// Where results are sent; nowhere where there is no server.
pub fn upload_url(server_url: &str) -> (r: Option<String>)
    ensures
        match r {
            Some(url) => server_url@.len() > 0 && url@ == server_url@ + "/api/results"@,
            None => server_url@.len() == 0,
        },
{
    if chars_of(server_url).len() == 0 {
        return None;
    }
    let mut url: String = server_url.to_owned();
    url.append("/api/results");
    Some(url)
}

/// What became of a result that was sent.
#[derive(Clone, Copy, Debug, PartialEq, Eq, Structural)]
pub enum UploadOutcome {
    /// The server took it.
    Sent,
    /// The server answered with another status.
    Refused { status: u16 },
    /// There was no answer.
    Failed,
}

/// What became of a result, by the status of the answer.
pub fn upload_outcome(status: Option<u16>) -> (r: UploadOutcome)
    ensures
        r == (match status {
            Some(s) => if 200 <= s < 300 {
                UploadOutcome::Sent
            } else {
                UploadOutcome::Refused { status: s }
            },
            None => UploadOutcome::Failed,
        }),
        r is Sent <==> (status matches Some(s) && s as int / 100 == 2),
        r is Failed <==> status is None,
        r matches UploadOutcome::Refused { status: s } ==> status == Some(s),
{
    match status {
        Some(s) => if 200 <= s && s < 300 {
            UploadOutcome::Sent
        } else {
            UploadOutcome::Refused { status: s }
        },
        None => UploadOutcome::Failed,
    }
}

/// The name of a device: its host name and the number of the process.
pub fn device_name(host: &str, process: u32) -> (r: String)
    ensures
        r@ == host@ + "-"@ + decimal(process as nat),
{
    let digits: String = decimal_text(process as u64);
    let mut r: String = host.to_owned();
    r.append("-");
    r.append(digits.as_str());
    r
}

/// The name of the file that holds the chart of a commit.
pub fn report_name(commit_hash: &str) -> (r: String)
    ensures
        r@ == "report_"@ + commit_hash@ + ".png"@,
{
    let mut r: String = "report_".to_owned();
    r.append(commit_hash);
    r.append(".png");
    r
}

/// How the agent runs.
#[derive(Clone, Copy, Debug, PartialEq, Eq, Structural)]
pub enum RunMode {
    /// On a schedule, for ever.
    Continuous,
    /// One commit against another.
    Regression,
    /// Once.
    Once,
}

/// How the agent runs, by the name of the mode. Any other name means once.
pub fn run_mode(name: &str) -> (r: RunMode)
    ensures
        r == (if name@ == "continuous"@ {
            RunMode::Continuous
        } else if name@ == "regression"@ {
            RunMode::Regression
        } else {
            RunMode::Once
        }),
{
    let text = chars_of(name);
    if is_text(&text, "continuous") {
        RunMode::Continuous
    } else if is_text(&text, "regression") {
        RunMode::Regression
    } else {
        RunMode::Once
    }
}

/// The mean execution times among some metrics, in their order.
pub open spec fn mean_times(metrics: Seq<Metric>) -> Seq<i64>
    decreases metrics.len(),
{
    if metrics.len() == 0 {
        seq![]
    } else if has_substring(metrics.last().name@, "exec_time.mean"@) {
        mean_times(metrics.drop_last()).push(metrics.last().value)
    } else {
        mean_times(metrics.drop_last())
    }
}

/// The mean execution times among some metrics, in their order.
pub fn mean_times_of(metrics: &Vec<Metric>) -> (r: Vec<i64>)
    ensures
        r@ == mean_times(metrics@),
{
    let mut r: Vec<i64> = Vec::new();
    let mut i: usize = 0;
    while i < metrics.len()
        invariant
            i <= metrics@.len(),
            r@ == mean_times(metrics@.take(i as int)),
        decreases metrics@.len() - i,
    {
        assert(metrics@.take(i + 1).drop_last() =~= metrics@.take(i as int));
        if contains(metrics[i].name.as_str(), "exec_time.mean") {
            r.push(metrics[i].value);
        }
        i = i + 1;
    }
    assert(metrics@.take(metrics@.len() as int) =~= metrics@);
    r
}

/// The history of a benchmark.
pub open spec fn history_of(m: Map<Seq<char>, History>, id: Seq<char>) -> History {
    if m.contains_key(id) {
        m[id]
    } else {
        empty_history()
    }
}

/// The histories after some values of a benchmark, where a judgement needs `needed` values.
pub open spec fn with_values(
    m: Map<Seq<char>, History>,
    id: Seq<char>,
    values: Seq<i64>,
    timestamp: u64,
    needed: int,
) -> Map<Seq<char>, History>
    decreases values.len(),
{
    if values.len() == 0 {
        m
    } else {
        let before = with_values(m, id, values.drop_last(), timestamp, needed);
        before.insert(id, appended(history_of(before, id), values.last(), timestamp, needed))
    }
}

/// Values of one benchmark leave the others as they are.
pub proof fn other_benchmarks_stay(
    m: Map<Seq<char>, History>,
    id: Seq<char>,
    values: Seq<i64>,
    timestamp: u64,
    needed: int,
    other: Seq<char>,
)
    requires
        other != id,
    ensures
        with_values(m, id, values, timestamp, needed).contains_key(other) == m.contains_key(other),
        m.contains_key(other) ==> with_values(m, id, values, timestamp, needed)[other] == m[other],
    decreases values.len(),
{
    if values.len() > 0 {
        other_benchmarks_stay(m, id, values.drop_last(), timestamp, needed, other);
    }
}

/// The history of a benchmark is that of the latest values, up to a thousand.
pub proof fn history_is_the_latest_values(
    m: Map<Seq<char>, History>,
    id: Seq<char>,
    values: Seq<i64>,
    timestamp: u64,
    needed: int,
)
    requires
        history_of(m, id).values.len() <= WINDOW,
    ensures
        history_of(with_values(m, id, values, timestamp, needed), id).values == last_items(
            history_of(m, id).values + values,
            WINDOW as int,
        ),
    decreases values.len(),
{
    let start = history_of(m, id).values;
    if values.len() == 0 {
        assert(start + values =~= start);
    } else {
        let rest = values.drop_last();
        history_is_the_latest_values(m, id, rest, timestamp, needed);
        let all = start + rest;
        let last = values.last();
        assert(start + values =~= all.push(last));
        let n = WINDOW as int;
        if all.len() >= n {
            assert(last_items(last_items(all, n).push(last), n) =~= last_items(all.push(last), n));
        }
    }
}

/// How a value was judged when it came in.
#[derive(Debug)]
pub struct Judgement {
    pub regression: Option<RegressionInfo>,
    pub trend: Option<TrendInfo>,
}

/// Whether the judgement of a value is that of a history which holds it already.
pub open spec fn is_judgement(
    j: Judgement,
    id: Seq<char>,
    values: Seq<i64>,
    value: i64,
    threshold: int,
    needed: int,
) -> bool {
    &&& j.regression is Some <==> values.len() >= needed && exceeds(values, value as int, threshold)
    &&& j.regression matches Some(info) ==> is_report(info, id, values, value, threshold)
    &&& j.trend is Some <==> has_trend(values, 10)
    &&& j.trend matches Some(t) ==> is_trend(t, id, values, 10)
}

/// The histories after the mean execution times of a result.
pub open spec fn after_result(
    m: Map<Seq<char>, History>,
    result: BenchmarkResult,
    needed: int,
) -> Map<Seq<char>, History> {
    with_values(m, result.benchmark_id@, mean_times(result.metrics@), result.timestamp, needed)
}

/// Whether the judgements are those of a result against some histories: there is one for
/// each mean execution time, made when that one and those before it were added.
pub open spec fn are_judgements(
    v: Seq<Judgement>,
    result: BenchmarkResult,
    m: Map<Seq<char>, History>,
    threshold: int,
    needed: int,
) -> bool {
    let values = mean_times(result.metrics@);
    let id = result.benchmark_id@;
    &&& v.len() == values.len()
    &&& forall|i: int|
        0 <= i < v.len() ==> is_judgement(
            #[trigger] v[i],
            id,
            with_values(m, id, values.take(i + 1), result.timestamp, needed)[id].values,
            values[i],
            threshold,
            needed,
        )
}

/// Judges the mean execution times of a result: each is added to the history of the
/// benchmark, and then held against it.
pub fn judge_result(detector: &mut RegressionDetector, result: &BenchmarkResult) -> (r: Vec<
    Judgement,
>)
    requires
        old(detector).wf(),
    ensures
        final(detector).wf(),
        final(detector).threshold() == old(detector).threshold(),
        final(detector).samples_needed() == old(detector).samples_needed(),
        final(detector)@ == after_result(old(detector)@, *result, old(detector).samples_needed()),
        are_judgements(
            r@,
            *result,
            old(detector)@,
            old(detector).threshold(),
            old(detector).samples_needed(),
        ),
{
    let ghost start = detector@;
    let ghost values = mean_times(result.metrics@);
    let ghost id = result.benchmark_id@;
    let ghost needed = detector.samples_needed();
    let times: Vec<i64> = mean_times_of(&result.metrics);
    let mut r: Vec<Judgement> = Vec::new();
    let mut i: usize = 0;
    while i < times.len()
        invariant
            i <= times@.len(),
            times@ == values,
            id == result.benchmark_id@,
            needed == old(detector).samples_needed(),
            detector.wf(),
            detector.threshold() == old(detector).threshold(),
            detector.samples_needed() == needed,
            detector@ == with_values(start, id, values.take(i as int), result.timestamp, needed),
            r@.len() == i,
            forall|j: int|
                0 <= j < i ==> is_judgement(
                    #[trigger] r@[j],
                    id,
                    with_values(start, id, values.take(j + 1), result.timestamp, needed)[id].values,
                    values[j],
                    old(detector).threshold(),
                    needed,
                ),
        decreases times@.len() - i,
    {
        let value: i64 = times[i];
        let ghost next = values.take(i + 1);
        assert(next.drop_last() =~= values.take(i as int));
        assert(next.last() == value);
        detector.add_sample(result.benchmark_id.as_str(), value, result.timestamp);
        assert(detector@ == with_values(start, id, next, result.timestamp, needed));
        let regression = detector.check_regression(result.benchmark_id.as_str(), value);
        let trend = detector.get_trend(result.benchmark_id.as_str(), 10);
        r.push(Judgement { regression, trend });
        i = i + 1;
    }
    assert(values.take(values.len() as int) =~= values);
    r
}

/// The histories after some results.
pub open spec fn with_results(
    m: Map<Seq<char>, History>,
    results: Seq<BenchmarkResult>,
    needed: int,
) -> Map<Seq<char>, History>
    decreases results.len(),
{
    if results.len() == 0 {
        m
    } else {
        after_result(with_results(m, results.drop_last(), needed), results.last(), needed)
    }
}

/// Adds the mean execution times of a result to the histories, without judging them.
pub fn add_result(detector: &mut RegressionDetector, result: &BenchmarkResult)
    requires
        old(detector).wf(),
    ensures
        final(detector).wf(),
        final(detector).threshold() == old(detector).threshold(),
        final(detector).samples_needed() == old(detector).samples_needed(),
        final(detector)@ == after_result(old(detector)@, *result, old(detector).samples_needed()),
{
    let ghost start = detector@;
    let ghost values = mean_times(result.metrics@);
    let ghost id = result.benchmark_id@;
    let ghost needed = detector.samples_needed();
    let times: Vec<i64> = mean_times_of(&result.metrics);
    let mut i: usize = 0;
    while i < times.len()
        invariant
            i <= times@.len(),
            times@ == values,
            id == result.benchmark_id@,
            needed == old(detector).samples_needed(),
            detector.wf(),
            detector.threshold() == old(detector).threshold(),
            detector.samples_needed() == needed,
            detector@ == with_values(start, id, values.take(i as int), result.timestamp, needed),
        decreases times@.len() - i,
    {
        let value: i64 = times[i];
        let ghost next = values.take(i + 1);
        assert(next.drop_last() =~= values.take(i as int));
        detector.add_sample(result.benchmark_id.as_str(), value, result.timestamp);
        i = i + 1;
    }
    assert(values.take(values.len() as int) =~= values);
}

/// Whether a value of a benchmark is a regression against some histories.
pub open spec fn is_regression(
    m: Map<Seq<char>, History>,
    id: Seq<char>,
    value: int,
    threshold: int,
    needed: int,
) -> bool {
    m.contains_key(id) && m[id].values.len() >= needed && exceeds(m[id].values, value, threshold)
}

/// The values of a benchmark that are regressions against some histories.
pub open spec fn regressed_values(
    m: Map<Seq<char>, History>,
    id: Seq<char>,
    values: Seq<i64>,
    threshold: int,
    needed: int,
) -> Seq<(Seq<char>, i64)>
    decreases values.len(),
{
    if values.len() == 0 {
        seq![]
    } else {
        let before = regressed_values(m, id, values.drop_last(), threshold, needed);
        if is_regression(m, id, values.last() as int, threshold, needed) {
            before.push((id, values.last()))
        } else {
            before
        }
    }
}

/// The values of some results that are regressions against some histories, in their order.
pub open spec fn regressed(
    m: Map<Seq<char>, History>,
    results: Seq<BenchmarkResult>,
    threshold: int,
    needed: int,
) -> Seq<(Seq<char>, i64)>
    decreases results.len(),
{
    if results.len() == 0 {
        seq![]
    } else {
        let last = results.last();
        regressed(m, results.drop_last(), threshold, needed) + regressed_values(
            m,
            last.benchmark_id@,
            mean_times(last.metrics@),
            threshold,
            needed,
        )
    }
}

/// A benchmark with too few past values has no regressions.
pub proof fn few_values_have_no_regression(
    m: Map<Seq<char>, History>,
    id: Seq<char>,
    values: Seq<i64>,
    threshold: int,
    needed: int,
)
    requires
        m.contains_key(id) ==> m[id].values.len() < needed,
    ensures
        regressed_values(m, id, values, threshold, needed).len() == 0,
    decreases values.len(),
{
    if values.len() > 0 {
        few_values_have_no_regression(m, id, values.drop_last(), threshold, needed);
    }
}

/// Whether the reports are those of the values, one for each.
pub open spec fn are_reports(
    reports: Seq<RegressionInfo>,
    values: Seq<(Seq<char>, i64)>,
    m: Map<Seq<char>, History>,
    threshold: int,
) -> bool {
    &&& reports.len() == values.len()
    &&& forall|i: int|
        0 <= i < reports.len() ==> is_report(
            #[trigger] reports[i],
            values[i].0,
            m[values[i].0].values,
            values[i].1,
            threshold,
        )
}

fn push_regressions(
    detector: &RegressionDetector,
    result: &BenchmarkResult,
    reports: &mut Vec<RegressionInfo>,
    Ghost(before): Ghost<Seq<(Seq<char>, i64)>>,
)
    requires
        detector.wf(),
        are_reports(old(reports)@, before, detector@, detector.threshold()),
    ensures
        are_reports(
            final(reports)@,
            before + regressed_values(
                detector@,
                result.benchmark_id@,
                mean_times(result.metrics@),
                detector.threshold(),
                detector.samples_needed(),
            ),
            detector@,
            detector.threshold(),
        ),
{
    let ghost values = mean_times(result.metrics@);
    let ghost id = result.benchmark_id@;
    let ghost t = detector.threshold();
    let ghost n = detector.samples_needed();
    let times: Vec<i64> = mean_times_of(&result.metrics);
    let mut i: usize = 0;
    assert(before + regressed_values(detector@, id, values.take(0), t, n) =~= before);
    while i < times.len()
        invariant
            i <= times@.len(),
            times@ == values,
            id == result.benchmark_id@,
            detector.wf(),
            t == detector.threshold(),
            n == detector.samples_needed(),
            are_reports(
                reports@,
                before + regressed_values(detector@, id, values.take(i as int), t, n),
                detector@,
                t,
            ),
        decreases times@.len() - i,
    {
        let value: i64 = times[i];
        let ghost seen = regressed_values(detector@, id, values.take(i as int), t, n);
        let ghost next = values.take(i + 1);
        let ghost now = regressed_values(detector@, id, next, t, n);
        assert(next.drop_last() =~= values.take(i as int));
        assert(next.last() == value);
        match detector.check_regression(result.benchmark_id.as_str(), value) {
            Some(info) => {
                reports.push(info);
                assert(now == seen.push((id, value)));
                assert(before + now =~= (before + seen).push((id, value)));
            },
            None => {
                assert(now == seen);
            },
        }
        i = i + 1;
    }
    assert(values.take(values.len() as int) =~= values);
}

/// Holds the current results of a commit against those of a baseline: a change of more
/// than five percent is reported, where the baseline has at least ten values.
pub fn find_regressions(baseline: &Vec<BenchmarkResult>, current: &Vec<BenchmarkResult>) -> (r:
    Vec<RegressionInfo>)
    ensures
        ({
            let m = with_results(Map::empty(), baseline@, 10);
            are_reports(r@, regressed(m, current@, 5_000, 10), m, 5_000)
        }),
        forall|i: int, j: int|
            #![trigger mean_times(current@[i].metrics@)[j]]
            {
                let m = with_results(Map::empty(), baseline@, 10);
                let id = current@[i].benchmark_id@;
                let v = mean_times(current@[i].metrics@)[j];
                0 <= i < current@.len() && 0 <= j < mean_times(current@[i].metrics@).len()
                    && m.contains_key(id) && stands_out(m[id].values, v, 5_000, 10) ==> exists|
                    k: int,
                |
                    0 <= k < r@.len() && (#[trigger] r@[k]).benchmark_id@ == id && r@[k].new_value
                        == v
            },
        r@.len() == current@.fold_left(
            0int,
            |n: int, c: BenchmarkResult|
                n + standing_out(with_results(Map::empty(), baseline@, 10), c, 5_000, 10),
        ),
{
    let mut detector = RegressionDetector::new(5_000, 10);
    let ghost none = Map::<Seq<char>, History>::empty();
    let mut i: usize = 0;
    while i < baseline.len()
        invariant
            i <= baseline@.len(),
            none == Map::<Seq<char>, History>::empty(),
            detector.wf(),
            detector.threshold() == 5_000,
            detector.samples_needed() == 10,
            detector@ == with_results(none, baseline@.take(i as int), 10),
        decreases baseline@.len() - i,
    {
        assert(baseline@.take(i + 1).drop_last() =~= baseline@.take(i as int));
        add_result(&mut detector, &baseline[i]);
        i = i + 1;
    }
    assert(baseline@.take(baseline@.len() as int) =~= baseline@);
    let mut reports: Vec<RegressionInfo> = Vec::new();
    let mut k: usize = 0;
    while k < current.len()
        invariant
            k <= current@.len(),
            none == Map::<Seq<char>, History>::empty(),
            detector.wf(),
            detector.threshold() == 5_000,
            detector.samples_needed() == 10,
            detector@ == with_results(none, baseline@, 10),
            are_reports(
                reports@,
                regressed(detector@, current@.take(k as int), 5_000, 10),
                detector@,
                5_000,
            ),
        decreases current@.len() - k,
    {
        let ghost seen = regressed(detector@, current@.take(k as int), 5_000, 10);
        assert(current@.take(k + 1).drop_last() =~= current@.take(k as int));
        push_regressions(&detector, &current[k], &mut reports, Ghost(seen));
        k = k + 1;
    }
    assert(current@.take(current@.len() as int) =~= current@);
    proof {
        let m = detector@;
        regressions_are_counted(m, current@, seq![], 5_000, 10);
        assert forall|i: int, j: int|
            #![trigger mean_times(current@[i].metrics@)[j]]
            0 <= i < current@.len() && 0 <= j < mean_times(current@[i].metrics@).len()
                && m.contains_key(current@[i].benchmark_id@) && stands_out(
                m[current@[i].benchmark_id@].values,
                mean_times(current@[i].metrics@)[j],
                5_000,
                10,
            ) implies exists|k: int|
            0 <= k < reports@.len() && (#[trigger] reports@[k]).benchmark_id@
                == current@[i].benchmark_id@ && reports@[k].new_value == mean_times(
                current@[i].metrics@,
            )[j] by {
            every_regression_is_reported(reports@, m, current@, 5_000, 10, i, j);
        }
    }
    reports
}

} // verus!
