//! Benchmarks: configuration, the course of a run, and the metrics of its samples.

use crate::arith::Wide;
use crate::benchmark_laws::{execution_metrics_summarise, is_bottom, is_deviation, is_mean};
use crate::benchmark_laws::{is_top, stands_at};
use crate::order::{maximum, minimum, percentile};
use crate::order::{max_of, min_of, percentile_of};
use crate::profiler::{last_items, SystemProfiler, SystemSnapshot};
use crate::samples::{confidence_radius, deviation_is_in_range, is_unstable, mean};
use crate::samples::{copy_of, mean_of, moments, Share};
use crate::samples::{moments_give_deviation, relative_deviation, std_dev, sum, sum_of_squares};
use vstd::prelude::*;

verus! {

/// What a metric is counted in.
#[derive(Clone, Copy, Debug, PartialEq, Eq, Structural)]
pub enum MetricUnit {
    Nanoseconds,
    Microseconds,
    Milliseconds,
    Seconds,
    Bytes,
    BytesPerSecond,
    Percentage,
    FPS,
    Count,
    Ratio,
    Temperature,
    Frequency,
}

/// One number that a benchmark gives. The value, the interval and the samples are in
/// thousandths of the unit.
#[derive(Debug)]
pub struct Metric {
    /// The benchmark and the kind of number.
    pub name: String,
    /// The number.
    pub value: i64,
    /// What it is counted in.
    pub unit: MetricUnit,
    /// Names and values that describe where it comes from.
    pub tags: Vec<(String, String)>,
    /// Where the true mean lies with a certainty of 95 %.
    pub confidence_interval: Option<(i128, i128)>,
    /// The samples that the number summarises.
    pub samples: Option<Vec<i64>>,
}

/// A metric as a mathematical value.
#[verifier::ext_equal]
pub struct MetricView {
    pub name: Seq<char>,
    pub value: int,
    pub unit: MetricUnit,
    pub tags: Seq<(Seq<char>, Seq<char>)>,
    pub confidence_interval: Option<(int, int)>,
    pub samples: Option<Seq<i64>>,
}

/// The texts of a list of pairs of strings.
pub open spec fn pair_views(tags: Seq<(String, String)>) -> Seq<(Seq<char>, Seq<char>)> {
    tags.map_values(|t: (String, String)| (t.0@, t.1@))
}

impl View for Metric {
    type V = MetricView;

    open spec fn view(&self) -> MetricView {
        MetricView {
            name: self.name@,
            value: self.value as int,
            unit: self.unit,
            tags: pair_views(self.tags@),
            confidence_interval: match self.confidence_interval {
                Some(p) => Some((p.0 as int, p.1 as int)),
                None => None,
            },
            samples: match self.samples {
                Some(v) => Some(v@),
                None => None,
            },
        }
    }
}

/// The metrics that a list holds.
pub open spec fn metric_views(v: Seq<Metric>) -> Seq<MetricView> {
    v.map_values(|m: Metric| m@)
}

/// A metric of the benchmark `id`, tagged with it.
pub open spec fn metric_view(
    id: Seq<char>,
    suffix: Seq<char>,
    value: int,
    unit: MetricUnit,
    confidence_interval: Option<(int, int)>,
    samples: Option<Seq<i64>>,
) -> MetricView {
    MetricView {
        name: id + suffix,
        value,
        unit,
        tags: seq![("benchmark"@, id)],
        confidence_interval,
        samples,
    }
}

/// The metrics of the execution times of a benchmark.
pub open spec fn exec_time_metrics(id: Seq<char>, times: Seq<i64>) -> Seq<MetricView> {
    let u = MetricUnit::Nanoseconds;
    let m = mean(times);
    let c = confidence_radius(times);
    if times.len() == 0 {
        seq![]
    } else {
        seq![
            metric_view(id, ".exec_time.mean"@, m, u, Some((m - c, m + c)), Some(times)),
            metric_view(id, ".exec_time.median"@, percentile_of(times, 500) as int, u, None, None),
            metric_view(id, ".exec_time.p90"@, percentile_of(times, 900) as int, u, None, None),
            metric_view(id, ".exec_time.p95"@, percentile_of(times, 950) as int, u, None, None),
            metric_view(id, ".exec_time.p99"@, percentile_of(times, 990) as int, u, None, None),
            metric_view(id, ".exec_time.min"@, min_of(times) as int, u, None, None),
            metric_view(id, ".exec_time.max"@, max_of(times) as int, u, None, None),
            metric_view(id, ".exec_time.std_dev"@, std_dev(times), u, None, None),
        ]
    }
}

/// The greatest of the samples, or 0 where none is above it.
pub open spec fn peak_of(s: Seq<i64>) -> int {
    if max_of(s) > 0 {
        max_of(s) as int
    } else {
        0
    }
}

/// The metrics of the processor load, the memory use and the temperature during a
/// benchmark.
pub open spec fn resource_metrics(
    id: Seq<char>,
    cpu: Seq<i64>,
    mem: Seq<i64>,
    temp: Seq<i64>,
) -> Seq<MetricView> {
    let p = MetricUnit::Percentage;
    let t = MetricUnit::Temperature;
    (if cpu.len() == 0 {
        seq![]
    } else {
        seq![
            metric_view(id, ".cpu.mean"@, mean(cpu), p, None, Some(cpu)),
            metric_view(id, ".cpu.max"@, peak_of(cpu), p, None, None),
        ]
    }) + (if mem.len() == 0 {
        seq![]
    } else {
        seq![metric_view(id, ".memory.mean_mb"@, mean(mem), MetricUnit::Bytes, None, Some(mem))]
    }) + (if temp.len() == 0 {
        seq![]
    } else {
        seq![
            metric_view(id, ".temperature.mean"@, mean(temp), t, None, None),
            metric_view(id, ".temperature.max"@, peak_of(temp), t, None, None),
        ]
    })
}

/// Why samples cannot be summarised.
#[derive(Clone, Copy, Debug, PartialEq, Eq, Structural)]
pub enum AnalysisError {
    /// Their mean is zero, and nothing can be a share of it.
    ZeroMean,
}

fn metric(
    id: &str,
    suffix: &str,
    value: i64,
    unit: MetricUnit,
    confidence_interval: Option<(i128, i128)>,
    samples: Option<Vec<i64>>,
) -> (r: Metric)
    ensures
        r@ == metric_view(
            id@,
            suffix@,
            value as int,
            unit,
            match confidence_interval {
                Some(p) => Some((p.0 as int, p.1 as int)),
                None => None,
            },
            match samples {
                Some(v) => Some(v@),
                None => None,
            },
        ),
{
    let mut tags: Vec<(String, String)> = Vec::new();
    tags.push(("benchmark".to_owned(), id.to_owned()));
    let mut name: String = id.to_owned();
    name.append(suffix);
    assert(pair_views(tags@) =~= seq![("benchmark"@, id@)]);
    Metric { name, value, unit, tags, confidence_interval, samples }
}

fn peak(s: &[i64]) -> (r: i64)
    requires
        s.len() > 0,
    ensures
        r == peak_of(s@),
{
    let m: i64 = maximum(s);
    if m > 0 {
        m
    } else {
        0
    }
}

/// How a benchmark is run.
#[derive(Clone, Debug)]
pub struct BenchmarkConfig {
    /// The name of the benchmark.
    pub id: String,
    /// The program.
    pub command: String,
    /// Its arguments.
    pub args: Vec<String>,
    /// Names and values added to its environment.
    pub env_vars: Vec<(String, String)>,
    /// Where it is started, if not in the current directory.
    pub working_dir: Option<String>,
    /// Runs before the measurement.
    pub warmup_iterations: usize,
    /// Runs that are measured.
    pub measure_iterations: usize,
    /// Seconds that one run may take.
    pub timeout_secs: u64,
    /// What the benchmark needs of the device.
    pub required_resources: Vec<String>,
    /// Samples below which the result counts for little.
    pub min_samples: usize,
    /// The largest accepted relative deviation, in thousandths.
    pub max_sample_variance: u64,
}

impl Default for BenchmarkConfig {
    fn default() -> (r: BenchmarkConfig)
        ensures
            r.id@ == Seq::<char>::empty(),
            r.command@ == Seq::<char>::empty(),
            r.args@.len() == 0,
            r.env_vars@.len() == 0,
            r.working_dir is None,
            r.warmup_iterations == 3,
            r.measure_iterations == 10,
            r.timeout_secs == 30,
            r.required_resources@.len() == 0,
            r.min_samples == 5,
            r.max_sample_variance == 150,
    {
        BenchmarkConfig {
            id: String::new(),
            command: String::new(),
            args: Vec::new(),
            env_vars: Vec::new(),
            working_dir: None,
            warmup_iterations: 3,
            measure_iterations: 10,
            timeout_secs: 30,
            required_resources: Vec::new(),
            min_samples: 5,
            max_sample_variance: 150,
        }
    }
}

/// What the device offers.
#[derive(Clone, Copy, Debug, PartialEq, Eq, Structural)]
pub struct DeviceResources {
    /// Whether the process has root privileges.
    pub is_root: bool,
    /// Number of network interfaces.
    pub network_interfaces: usize,
    /// Free bytes on the root file system, where they are known.
    pub free_disk_bytes: Option<u64>,
}

/// Why a required resource is missing, or nothing where it is there.
pub open spec fn missing_resource(resource: Seq<char>, device: DeviceResources) -> Option<
    Seq<char>,
> {
    let free = match device.free_disk_bytes {
        Some(b) => b as int,
        None => 0,
    };
    if resource == "root"@ && !device.is_root {
        Some("Root privileges required"@)
    } else if resource == "network"@ && device.network_interfaces == 0 {
        Some("No network interfaces available"@)
    } else if resource == "disk_space"@ && free < 100 * 1024 * 1024 {
        Some("Insufficient disk space"@)
    } else {
        None
    }
}

/// Whether the device has all of the required resources.
pub open spec fn has_resources(required: Seq<String>, device: DeviceResources) -> bool {
    forall|i: int|
        0 <= i < required.len() ==> missing_resource(#[trigger] required[i]@, device) is None
}

/// Whether this is what the first missing one of the required resources gives.
pub open spec fn is_first_missing(
    required: Seq<String>,
    device: DeviceResources,
    error: Seq<char>,
) -> bool {
    exists|i: int|
        0 <= i < required.len() && missing_resource(#[trigger] required[i]@, device) == Some(error)
            && has_resources(required.take(i), device)
}

/// A benchmark.
#[derive(Debug)]
pub struct Benchmark {
    /// How it is run.
    pub config: BenchmarkConfig,
    /// The state of the system during its runs.
    pub profiler: SystemProfiler,
}

/// What a run gives.
#[derive(Debug)]
pub struct RunReport {
    /// The metrics of the run.
    pub metrics: Vec<Metric>,
    /// Whether the execution times vary by more than 15 % of their mean.
    pub high_variance: bool,
}

impl Benchmark {
    /// A benchmark with this configuration.
    pub fn new(config: BenchmarkConfig) -> (r: Benchmark)
        ensures
            r.config == config,
            r.profiler.sample_interval_ms == 100,
            r.profiler.max_history == 1000,
            r.profiler.history@.len() == 0,
    {
        Benchmark { config, profiler: SystemProfiler::new(100, 1000) }
    }

    /// Records the snapshots that were taken during a measurement, in the run and in the
    /// history.
    pub fn collect(&mut self, run: &mut BenchmarkRun, snapshots: &Vec<SystemSnapshot>)
        requires
            old(self).profiler.history@.len() <= old(self).profiler.max_history,
            forall|i: int| 0 <= i < snapshots@.len() ==> can_record(#[trigger] snapshots@[i]),
        ensures
            final(self).config == old(self).config,
            final(self).profiler.max_history == old(self).profiler.max_history,
            final(self).profiler.sample_interval_ms == old(self).profiler.sample_interval_ms,
            final(self).profiler.history@ == last_items(
                old(self).profiler.history@ + snapshots@,
                old(self).profiler.max_history as int,
            ),
            final(run).warmups_done == old(run).warmups_done,
            final(run).execution_times == old(run).execution_times,
            final(run).cpu_samples@ == old(run).cpu_samples@ + loads_of(snapshots@),
            final(run).mem_samples@ == old(run).mem_samples@ + memory_of(snapshots@),
            final(run).temp_samples@ == old(run).temp_samples@ + temps_of(snapshots@),
    {
        let mut i: usize = 0;
        proof {
            let h = self.profiler.history@;
            assert(h + snapshots@.take(0) =~= h);
            assert(run.cpu_samples@ + loads_of(snapshots@.take(0)) =~= run.cpu_samples@);
            assert(run.mem_samples@ + memory_of(snapshots@.take(0)) =~= run.mem_samples@);
            assert(run.temp_samples@ + temps_of(snapshots@.take(0)) =~= run.temp_samples@);
        }
        while i < snapshots.len()
            invariant
                i <= snapshots@.len(),
                forall|j: int| 0 <= j < snapshots@.len() ==> can_record(#[trigger] snapshots@[j]),
                self.config == old(self).config,
                self.profiler.max_history == old(self).profiler.max_history,
                self.profiler.sample_interval_ms == old(self).profiler.sample_interval_ms,
                self.profiler.history@ == last_items(
                    old(self).profiler.history@ + snapshots@.take(i as int),
                    old(self).profiler.max_history as int,
                ),
                run.warmups_done == old(run).warmups_done,
                run.execution_times == old(run).execution_times,
                run.cpu_samples@ == old(run).cpu_samples@ + loads_of(snapshots@.take(i as int)),
                run.mem_samples@ == old(run).mem_samples@ + memory_of(snapshots@.take(i as int)),
                run.temp_samples@ == old(run).temp_samples@ + temps_of(snapshots@.take(i as int)),
            decreases snapshots@.len() - i,
        {
            let ghost seen = snapshots@.take(i as int);
            let ghost next = snapshots@.take(i + 1);
            let ghost all = old(self).profiler.history@ + seen;
            let ghost n = self.profiler.max_history as int;
            let s: SystemSnapshot = snapshots[i];
            assert(can_record(snapshots@[i as int]));
            run.absorb(&s);
            self.profiler.add_to_history(s);
            proof {
                assert(next.drop_last() =~= seen);
                assert(next.last() == s);
                assert(old(self).profiler.history@ + next =~= all.push(s));
                if all.len() > n {
                    assert(all.skip(all.len() - n).push(s).skip(1) =~= all.push(s).skip(
                        all.len() + 1 - n,
                    ));
                }
                assert(run.cpu_samples@ =~= old(run).cpu_samples@ + loads_of(next));
                assert(run.mem_samples@ =~= old(run).mem_samples@ + memory_of(next));
                assert(run.temp_samples@ =~= old(run).temp_samples@ + temps_of(next));
            }
            i = i + 1;
        }
        assert(snapshots@.take(snapshots@.len() as int) =~= snapshots@);
    }

    /// Checks that the device has what the benchmark needs; the first missing resource
    /// is the error.
    pub fn check_resources(&self, device: &DeviceResources) -> (r: Result<(), String>)
        ensures
            match r {
                Ok(_) => has_resources(self.config.required_resources@, *device),
                Err(e) => is_first_missing(self.config.required_resources@, *device, e@),
            },
            r is Ok <==> has_resources(self.config.required_resources@, *device),
    {
        let needed = &self.config.required_resources;
        let free: u64 = match device.free_disk_bytes {
            Some(b) => b,
            None => 0,
        };
        proof {
            reveal_strlit("root");
            reveal_strlit("network");
            reveal_strlit("disk_space");
            assert("root"@.len() == 4 && "network"@.len() == 7 && "disk_space"@.len() == 10);
        }
        let mut i: usize = 0;
        while i < needed.len()
            invariant
                i <= needed@.len(),
                *needed == self.config.required_resources,
                free == (match device.free_disk_bytes {
                    Some(b) => b,
                    None => 0,
                }),
                forall|j: int|
                    0 <= j < i ==> missing_resource(#[trigger] needed@[j]@, *device) is None,
                "root"@ != "network"@,
                "root"@ != "disk_space"@,
                "network"@ != "disk_space"@,
            decreases needed@.len() - i,
        {
            let resource: &String = &needed[i];
            assert(has_resources(needed@.take(i as int), *device));
            if *resource == "root".to_owned() {
                if !device.is_root {
                    return Err("Root privileges required".to_owned());
                }
            } else if *resource == "network".to_owned() {
                if device.network_interfaces == 0 {
                    return Err("No network interfaces available".to_owned());
                }
            } else if *resource == "disk_space".to_owned() {
                if free < 100 * 1024 * 1024 {
                    return Err("Insufficient disk space".to_owned());
                }
            }
            i = i + 1;
        }
        Ok(())
    }

    /// Starts a run, unless a required resource is missing: then nothing is executed, and
    /// the first missing one is the error.
    pub fn start_run(&self, device: &DeviceResources) -> (r: Result<BenchmarkRun, String>)
        ensures
            match r {
                Ok(run) => {
                    &&& has_resources(self.config.required_resources@, *device)
                    &&& run.course() == start_of_run()
                    &&& run.cpu_samples@.len() == 0
                    &&& run.mem_samples@.len() == 0
                    &&& run.temp_samples@.len() == 0
                },
                Err(e) => is_first_missing(self.config.required_resources@, *device, e@),
            },
            r is Ok <==> has_resources(self.config.required_resources@, *device),
    {
        match self.check_resources(device) {
            Ok(_) => Ok(BenchmarkRun::new()),
            Err(e) => Err(e),
        }
    }

    /// The metrics of the execution times, in thousandths of a nanosecond.
    pub fn analyze_execution_times(&self, times: &[i64]) -> (r: Result<Vec<Metric>, AnalysisError>)
        ensures
            r matches Ok(metrics) && metric_views(metrics@) == exec_time_metrics(
                self.config.id@,
                times@,
            ),
            times@.len() > 0 ==> (r matches Ok(metrics) && {
                &&& metrics@.len() == 8
                &&& is_mean(metrics@[0].value as int, times@)
                &&& stands_at(metrics@[1].value as int, times@, 500)
                &&& stands_at(metrics@[2].value as int, times@, 900)
                &&& stands_at(metrics@[3].value as int, times@, 950)
                &&& stands_at(metrics@[4].value as int, times@, 990)
                &&& is_bottom(metrics@[5].value as int, times@)
                &&& is_top(metrics@[6].value as int, times@)
                &&& is_deviation(metrics@[7].value as int, times@)
            }),
    {
        let id: &str = self.config.id.as_str();
        let mut r: Vec<Metric> = Vec::new();
        if times.len() == 0 {
            assert(metric_views(r@) =~= exec_time_metrics(self.config.id@, times@));
            return Ok(r);
        }
        let m = moments(times);
        proof {
            moments_give_deviation(m, times@);
            deviation_is_in_range(times@);
        }
        let unit = MetricUnit::Nanoseconds;
        let mean_value: i64 = mean_of(times);
        let radius: i128 = m.confidence_radius() as i128;
        let interval: (i128, i128) = (mean_value as i128 - radius, mean_value as i128 + radius);
        let samples: Vec<i64> = copy_of(times);
        r.push(metric(id, ".exec_time.mean", mean_value, unit, Some(interval), Some(samples)));
        r.push(metric(id, ".exec_time.median", percentile(times, 500), unit, None, None));
        r.push(metric(id, ".exec_time.p90", percentile(times, 900), unit, None, None));
        r.push(metric(id, ".exec_time.p95", percentile(times, 950), unit, None, None));
        r.push(metric(id, ".exec_time.p99", percentile(times, 990), unit, None, None));
        r.push(metric(id, ".exec_time.min", minimum(times), unit, None, None));
        r.push(metric(id, ".exec_time.max", maximum(times), unit, None, None));
        r.push(metric(id, ".exec_time.std_dev", m.std_dev() as i64, unit, None, None));
        assert(metric_views(r@) =~= exec_time_metrics(self.config.id@, times@));
        proof {
            execution_metrics_summarise(self.config.id@, times@, r@);
        }
        Ok(r)
    }

    /// The metrics of the processor load, the memory use and the temperature.
    pub fn analyze_resource_usage(&self, cpu: &[i64], mem: &[i64], temp: &[i64]) -> (r: Result<
        Vec<Metric>,
        AnalysisError,
    >)
        ensures
            r matches Ok(metrics) && metric_views(metrics@) == resource_metrics(
                self.config.id@,
                cpu@,
                mem@,
                temp@,
            ),
    {
        let id: &str = self.config.id.as_str();
        let mut r: Vec<Metric> = Vec::new();
        if cpu.len() > 0 {
            let unit = MetricUnit::Percentage;
            let samples: Vec<i64> = copy_of(cpu);
            r.push(metric(id, ".cpu.mean", mean_of(cpu), unit, None, Some(samples)));
            r.push(metric(id, ".cpu.max", peak(cpu), unit, None, None));
        }
        if mem.len() > 0 {
            let unit = MetricUnit::Bytes;
            let samples: Vec<i64> = copy_of(mem);
            r.push(metric(id, ".memory.mean_mb", mean_of(mem), unit, None, Some(samples)));
        }
        if temp.len() > 0 {
            let unit = MetricUnit::Temperature;
            r.push(metric(id, ".temperature.mean", mean_of(temp), unit, None, None));
            r.push(metric(id, ".temperature.max", peak(temp), unit, None, None));
        }
        assert(metric_views(r@) =~= resource_metrics(self.config.id@, cpu@, mem@, temp@));
        Ok(r)
    }

    /// The standard deviation in thousandths of the mean; 1000 where there are fewer than
    /// two samples.
    pub fn check_stability(&self, times: &[i64]) -> (r: Result<Share, AnalysisError>)
        ensures
            match r {
                Ok(v) => if times@.len() < 2 {
                    v.value() == 1000
                } else {
                    sum(times@) != 0 && v.value() == relative_deviation(times@)
                },
                Err(AnalysisError::ZeroMean) => times@.len() >= 2 && sum(times@) == 0,
            },
    {
        if times.len() < 2 {
            return Ok(Share { negative: false, size: Wide::from_word(1000) });
        }
        let m = moments(times);
        proof {
            moments_give_deviation(m, times@);
        }
        if m.sum == 0 {
            Err(AnalysisError::ZeroMean)
        } else {
            Ok(m.stability())
        }
    }
}

/// The longest execution time that can be recorded, in nanoseconds.
pub const MAX_NANOS: u64 = 9_223_372_036_854_775;

/// What a run does next.
#[derive(Clone, Copy, Debug, PartialEq, Eq, Structural)]
pub enum RunStep {
    /// Execute without measuring, then pause.
    Warmup { iteration: usize, pause_ms: u64 },
    /// Execute and measure, pause, then collect the snapshots.
    Measure { iteration: usize, pause_ms: u64 },
    /// Analyse what was collected.
    Finish,
}

/// The course of a run: what was executed and collected so far. The samples are in
/// thousandths of their unit.
#[derive(Debug)]
pub struct BenchmarkRun {
    /// Executions before the measurement.
    pub warmups_done: usize,
    /// Measured execution times.
    pub execution_times: Vec<i64>,
    /// Processor loads.
    pub cpu_samples: Vec<i64>,
    /// Megabytes in use.
    pub mem_samples: Vec<i64>,
    /// Processor temperatures.
    pub temp_samples: Vec<i64>,
}

/// How far the executions of a run have come: how many warm-ups were done and which times
/// were measured, or the error that ended the run.
pub enum Course {
    Running { warmups: int, times: Seq<i64> },
    Failed { error: String },
}

/// Before the first execution.
pub open spec fn start_of_run() -> Course {
    Course::Running { warmups: 0, times: seq![] }
}

/// The course after one more execution, which took some nanoseconds or failed. First all
/// warm-ups are done, then all times are measured. A failure ends the run.
pub open spec fn after_outcome(
    course: Course,
    config: BenchmarkConfig,
    outcome: Result<u64, String>,
) -> Course {
    match (course, outcome) {
        (Course::Failed { error }, _) => course,
        (Course::Running { warmups, times }, Err(e)) => Course::Failed { error: e },
        (Course::Running { warmups, times }, Ok(ns)) => if warmups < config.warmup_iterations {
            Course::Running { warmups: warmups + 1, times }
        } else if times.len() < config.measure_iterations {
            Course::Running { warmups, times: times.push((ns * 1000) as i64) }
        } else {
            course
        },
    }
}

/// The course after some executions.
pub open spec fn after_outcomes(
    config: BenchmarkConfig,
    outcomes: Seq<Result<u64, String>>,
) -> Course
    decreases outcomes.len(),
{
    if outcomes.len() == 0 {
        start_of_run()
    } else {
        after_outcome(after_outcomes(config, outcomes.drop_last()), config, outcomes.last())
    }
}

/// How many executions a run still has before it.
pub open spec fn executions_left(run: BenchmarkRun, config: BenchmarkConfig) -> int {
    (if run.warmups_done < config.warmup_iterations {
        config.warmup_iterations - run.warmups_done
    } else {
        0
    }) + (if run.execution_times@.len() < config.measure_iterations {
        config.measure_iterations - run.execution_times@.len()
    } else {
        0
    })
}

/// Whether the numbers of a snapshot can be recorded.
pub open spec fn can_record(s: SystemSnapshot) -> bool {
    s.cpu_usage_percent <= i64::MAX && s.memory_used_mb <= MAX_NANOS
}

/// The processor loads of some snapshots.
pub open spec fn loads_of(s: Seq<SystemSnapshot>) -> Seq<i64> {
    s.map_values(|x: SystemSnapshot| x.cpu_usage_percent as i64)
}

/// The thousandths of a megabyte in use of some snapshots.
pub open spec fn memory_of(s: Seq<SystemSnapshot>) -> Seq<i64> {
    s.map_values(|x: SystemSnapshot| (x.memory_used_mb * 1000) as i64)
}

/// The processor temperatures of the snapshots that have one.
pub open spec fn temps_of(s: Seq<SystemSnapshot>) -> Seq<i64>
    decreases s.len(),
{
    if s.len() == 0 {
        seq![]
    } else {
        match s.last().cpu_temp_celsius {
            Some(t) => temps_of(s.drop_last()).push(t as i64),
            None => temps_of(s.drop_last()),
        }
    }
}

impl BenchmarkRun {
    /// How far the executions have come.
    pub open spec fn course(self) -> Course {
        Course::Running { warmups: self.warmups_done as int, times: self.execution_times@ }
    }

    /// A run at its start.
    pub fn new() -> (r: BenchmarkRun)
        ensures
            r.course() == start_of_run(),
            r.warmups_done == 0,
            r.execution_times@.len() == 0,
            r.cpu_samples@.len() == 0,
            r.mem_samples@.len() == 0,
            r.temp_samples@.len() == 0,
    {
        let r = BenchmarkRun {
            warmups_done: 0,
            execution_times: Vec::new(),
            cpu_samples: Vec::new(),
            mem_samples: Vec::new(),
            temp_samples: Vec::new(),
        };
        assert(r.execution_times@ =~= seq![]);
        r
    }

    /// First all warm-ups, then all measurements, then the analysis.
    pub fn next_step(&self, config: &BenchmarkConfig) -> (r: RunStep)
        ensures
            r == (if self.warmups_done < config.warmup_iterations {
                RunStep::Warmup {
                    iteration: (self.warmups_done + 1) as usize,
                    pause_ms: 100,
                }
            } else if self.execution_times@.len() < config.measure_iterations {
                RunStep::Measure {
                    iteration: (self.execution_times@.len() + 1) as usize,
                    pause_ms: 50,
                }
            } else {
                RunStep::Finish
            }),
            r is Finish <==> executions_left(*self, *config) == 0,
    {
        if self.warmups_done < config.warmup_iterations {
            RunStep::Warmup { iteration: self.warmups_done + 1, pause_ms: 100 }
        } else if self.execution_times.len() < config.measure_iterations {
            RunStep::Measure { iteration: self.execution_times.len() + 1, pause_ms: 50 }
        } else {
            RunStep::Finish
        }
    }

    /// Takes the outcome of the execution that was next: the nanoseconds that it took, or
    /// its error. A success counts as the warm-up or the measurement that was next; an
    /// error leaves the run as it is, and ends it.
    pub fn after_execution(
        &mut self,
        config: &BenchmarkConfig,
        outcome: Result<u64, String>,
    ) -> (r: Result<(), String>)
        requires
            old(self).warmups_done >= config.warmup_iterations ==> (outcome matches Ok(ns) ==> ns
                <= MAX_NANOS),
        ensures
            match outcome {
                Ok(_) => r is Ok && final(self).course() == after_outcome(
                    old(self).course(),
                    *config,
                    outcome,
                ),
                Err(e) => r == Err::<(), String>(e) && *final(self) == *old(self),
            },
            final(self).cpu_samples == old(self).cpu_samples,
            final(self).mem_samples == old(self).mem_samples,
            final(self).temp_samples == old(self).temp_samples,
            r is Ok && executions_left(*old(self), *config) > 0 ==> executions_left(
                *final(self),
                *config,
            ) == executions_left(*old(self), *config) - 1,
    {
        let nanos: u64 = match outcome {
            Ok(ns) => ns,
            Err(e) => {
                return Err(e);
            },
        };
        match self.next_step(config) {
            RunStep::Warmup { .. } => {
                self.warmup_finished(config);
            },
            RunStep::Measure { .. } => {
                self.measured(nanos);
            },
            RunStep::Finish => {},
        }
        Ok(())
    }

    /// Notes that a warm-up is done.
    pub fn warmup_finished(&mut self, config: &BenchmarkConfig)
        requires
            old(self).warmups_done < config.warmup_iterations,
        ensures
            final(self).warmups_done == old(self).warmups_done + 1,
            final(self).execution_times == old(self).execution_times,
            final(self).cpu_samples == old(self).cpu_samples,
            final(self).mem_samples == old(self).mem_samples,
            final(self).temp_samples == old(self).temp_samples,
            executions_left(*final(self), *config) == executions_left(*old(self), *config) - 1,
    {
        self.warmups_done = self.warmups_done + 1;
    }

    /// Records a measured execution time.
    pub fn measured(&mut self, nanos: u64)
        requires
            nanos <= MAX_NANOS,
        ensures
            final(self).execution_times@ == old(self).execution_times@.push((nanos * 1000) as i64),
            final(self).warmups_done == old(self).warmups_done,
            final(self).cpu_samples == old(self).cpu_samples,
            final(self).mem_samples == old(self).mem_samples,
            final(self).temp_samples == old(self).temp_samples,
    {
        self.execution_times.push((nanos * 1000) as i64);
    }

    /// Records the load, the memory use and the temperature of a snapshot.
    pub fn absorb(&mut self, snapshot: &SystemSnapshot)
        requires
            can_record(*snapshot),
        ensures
            final(self).cpu_samples@ == old(self).cpu_samples@.push(
                snapshot.cpu_usage_percent as i64,
            ),
            final(self).mem_samples@ == old(self).mem_samples@.push(
                (snapshot.memory_used_mb * 1000) as i64,
            ),
            final(self).temp_samples@ == (match snapshot.cpu_temp_celsius {
                Some(t) => old(self).temp_samples@.push(t as i64),
                None => old(self).temp_samples@,
            }),
            final(self).warmups_done == old(self).warmups_done,
            final(self).execution_times == old(self).execution_times,
    {
        self.cpu_samples.push(snapshot.cpu_usage_percent as i64);
        self.mem_samples.push((snapshot.memory_used_mb * 1000) as i64);
        if let Some(t) = snapshot.cpu_temp_celsius {
            self.temp_samples.push(t as i64);
        }
    }

    /// The metrics of all that was collected, and whether the times vary too much.
    pub fn finish(&self, benchmark: &Benchmark) -> (r: Result<RunReport, AnalysisError>)
        ensures
            r matches Ok(report) && {
                &&& metric_views(report.metrics@) == exec_time_metrics(
                    benchmark.config.id@,
                    self.execution_times@,
                ) + resource_metrics(
                    benchmark.config.id@,
                    self.cpu_samples@,
                    self.mem_samples@,
                    self.temp_samples@,
                )
                &&& report.high_variance == (self.execution_times@.len() < 2 || is_unstable(
                    self.execution_times@,
                ))
            },
            r matches Ok(report) && {
                let times = self.execution_times@;
                let spread = times.len() * sum_of_squares(times) - sum(times) * sum(times);
                &&& times.len() <= 1 ==> report.high_variance
                &&& times.len() >= 2 ==> (report.high_variance <==> sum(times) >= 0 && 100 * 100
                    * spread > 15 * 15 * (sum(times) * sum(times)))
            },
    {
        let times: &[i64] = self.execution_times.as_slice();
        let mut metrics: Vec<Metric> = match benchmark.analyze_execution_times(times) {
            Ok(m) => m,
            Err(e) => {
                return Err(e);
            },
        };
        let ghost first = metrics@;
        let mut usage: Vec<Metric> = match benchmark.analyze_resource_usage(
            self.cpu_samples.as_slice(),
            self.mem_samples.as_slice(),
            self.temp_samples.as_slice(),
        ) {
            Ok(m) => m,
            Err(e) => {
                return Err(e);
            },
        };
        let ghost second = usage@;
        metrics.append(&mut usage);
        assert(metric_views(metrics@) =~= metric_views(first) + metric_views(second));
        let m = moments(times);
        proof {
            moments_give_deviation(m, times@);
        }
        Ok(RunReport { metrics, high_variance: times.len() < 2 || m.unstable() })
    }
}

/// Every warm-up and every measurement that a run asks for brings it nearer to its end.
pub proof fn runs_come_to_an_end(before: BenchmarkRun, after: BenchmarkRun, config: BenchmarkConfig)
    requires
        ({
            ||| before.warmups_done < config.warmup_iterations && after.warmups_done
                == before.warmups_done + 1 && after.execution_times@.len()
                == before.execution_times@.len()
            ||| before.execution_times@.len() < config.measure_iterations
                && after.execution_times@.len() == before.execution_times@.len() + 1
                && after.warmups_done == before.warmups_done
        }),
    ensures
        0 <= executions_left(after, config) < executions_left(before, config),
{
}

/// The times of some executions, in thousandths of a nanosecond.
pub open spec fn times_of(outcomes: Seq<Result<u64, String>>) -> Seq<i64> {
    outcomes.map_values(|o: Result<u64, String>| (o->Ok_0 * 1000) as i64)
}

/// A run whose executions all succeed does all warm-ups and measures all times: the times
/// are those of the executions after the warm-ups, in their order.
pub proof fn successful_runs_measure_all(
    config: BenchmarkConfig,
    outcomes: Seq<Result<u64, String>>,
)
    requires
        outcomes.len() <= config.warmup_iterations + config.measure_iterations,
        forall|i: int| 0 <= i < outcomes.len() ==> (#[trigger] outcomes[i]) is Ok,
    ensures
        after_outcomes(config, outcomes) == (if outcomes.len() < config.warmup_iterations {
            Course::Running { warmups: outcomes.len() as int, times: seq![] }
        } else {
            Course::Running {
                warmups: config.warmup_iterations as int,
                times: times_of(outcomes.skip(config.warmup_iterations as int)),
            }
        }),
    decreases outcomes.len(),
{
    let w = config.warmup_iterations as int;
    if outcomes.len() == 0 {
        assert(times_of(outcomes.skip(0)) =~= seq![]);
    } else {
        let rest = outcomes.drop_last();
        assert forall|i: int| 0 <= i < rest.len() implies (#[trigger] rest[i]) is Ok by {
            assert(outcomes[i] is Ok);
        }
        successful_runs_measure_all(config, rest);
        assert(outcomes[outcomes.len() - 1] is Ok);
        if rest.len() >= w {
            assert(times_of(outcomes.skip(w)) =~= times_of(rest.skip(w)).push(
                (outcomes.last()->Ok_0 * 1000) as i64,
            ));
        } else if outcomes.len() == w {
            assert(times_of(outcomes.skip(w)) =~= seq![]);
        }
    }
}

/// The first execution that fails ends a run with its error, whatever comes after it.
pub proof fn first_failure_ends_a_run(
    config: BenchmarkConfig,
    outcomes: Seq<Result<u64, String>>,
    k: int,
)
    requires
        0 <= k < outcomes.len(),
        outcomes[k] is Err,
        forall|i: int| 0 <= i < k ==> (#[trigger] outcomes[i]) is Ok,
    ensures
        after_outcomes(config, outcomes) == (Course::Failed { error: outcomes[k]->Err_0 }),
    decreases outcomes.len(),
{
    let rest = outcomes.drop_last();
    if k < rest.len() {
        first_failure_ends_a_run(config, rest, k);
    } else {
        lemma_no_failure(config, rest);
    }
}

proof fn lemma_no_failure(config: BenchmarkConfig, outcomes: Seq<Result<u64, String>>)
    requires
        forall|i: int| 0 <= i < outcomes.len() ==> (#[trigger] outcomes[i]) is Ok,
    ensures
        after_outcomes(config, outcomes) is Running,
    decreases outcomes.len(),
{
    if outcomes.len() > 0 {
        lemma_no_failure(config, outcomes.drop_last());
        assert(outcomes[outcomes.len() - 1] is Ok);
    }
}

/// What one execution of the program gives: its output, or an error with what it
/// wrote to its error stream.
pub fn execution_outcome(success: bool, stdout: String, stderr: &str) -> (r: Result<String, String>)
    ensures
        match r {
            Ok(out) => success && out@ == stdout@,
            Err(e) => !success && e@ == "Benchmark failed: "@ + stderr@,
        },
{
    if success {
        Ok(stdout)
    } else {
        let mut e: String = "Benchmark failed: ".to_owned();
        e.append(stderr);
        Err(e)
    }
}

} // verus!
