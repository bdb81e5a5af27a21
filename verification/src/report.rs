//! Summaries of finished stress tests. Shares are in thousandths of a percent,
//! temperatures in thousandths of a degree and times in nanoseconds.

use crate::profiler::MEGABYTE;
use crate::report_laws::comprehensive_report_summarises;
use crate::series::{average, lowest, peak};
use crate::series::{average_of, lowest_of, peak_of, vec_of};
use crate::stress::SystemMetrics;
use std::collections::VecDeque;
use vstd::prelude::*;

verus! {

/// The processor loads of some metrics.
pub open spec fn cpu_loads(s: Seq<SystemMetrics>) -> Seq<u64> {
    Seq::new(s.len(), |i: int| s[i].cpu_usage)
}

/// The processor temperatures of some metrics.
pub open spec fn cpu_temps(s: Seq<SystemMetrics>) -> Seq<u64> {
    Seq::new(s.len(), |i: int| s[i].cpu_temp)
}

/// The bytes of memory in use of some metrics.
pub open spec fn memory_uses(s: Seq<SystemMetrics>) -> Seq<u64> {
    Seq::new(s.len(), |i: int| s[i].memory_used)
}

/// The bytes of swap space in use of some metrics.
pub open spec fn swap_uses(s: Seq<SystemMetrics>) -> Seq<u64> {
    Seq::new(s.len(), |i: int| s[i].swap_used)
}

/// The charges of the battery of some metrics.
pub open spec fn battery_levels(s: Seq<SystemMetrics>) -> Seq<u64> {
    Seq::new(s.len(), |i: int| s[i].battery_level)
}

/// The temperatures of the battery of some metrics.
pub open spec fn battery_temps(s: Seq<SystemMetrics>) -> Seq<u64> {
    Seq::new(s.len(), |i: int| s[i].battery_temperature)
}

/// The throttling stages of some metrics.
pub open spec fn stages(s: Seq<SystemMetrics>) -> Seq<u64> {
    Seq::new(s.len(), |i: int| s[i].throttling_stage as u64)
}

/// The largest current of the battery; 0 where there are no metrics.
pub open spec fn largest_current(s: Seq<SystemMetrics>) -> int
    decreases s.len(),
{
    if s.len() == 0 {
        0
    } else if s.len() == 1 || s.last().battery_current > largest_current(s.drop_last()) {
        s.last().battery_current as int
    } else {
        largest_current(s.drop_last())
    }
}

/// How many of the metrics found the processor throttled.
pub open spec fn throttled_count(s: Seq<SystemMetrics>) -> int
    decreases s.len(),
{
    if s.len() == 0 {
        0
    } else {
        throttled_count(s.drop_last()) + if s.last().thermal_throttling {
            1int
        } else {
            0
        }
    }
}

/// The time between the first and the last of some metrics.
pub open spec fn covered_time(s: Seq<SystemMetrics>) -> int {
    if s.len() == 0 || s.last().timestamp_ns < s[0].timestamp_ns {
        0
    } else {
        s.last().timestamp_ns - s[0].timestamp_ns
    }
}

/// The columns of a table of metrics.
struct Columns {
    cpu: Vec<u64>,
    temp: Vec<u64>,
    memory: Vec<u64>,
    swap: Vec<u64>,
    level: Vec<u64>,
    battery_temp: Vec<u64>,
    stage: Vec<u64>,
    current: i32,
    throttled: usize,
}

impl Columns {
    spec fn are_of(self, s: Seq<SystemMetrics>) -> bool {
        &&& self.cpu@ == cpu_loads(s)
        &&& self.temp@ == cpu_temps(s)
        &&& self.memory@ == memory_uses(s)
        &&& self.swap@ == swap_uses(s)
        &&& self.level@ == battery_levels(s)
        &&& self.battery_temp@ == battery_temps(s)
        &&& self.stage@ == stages(s)
        &&& self.current == largest_current(s)
        &&& self.throttled == throttled_count(s)
        &&& self.throttled <= s.len()
    }

    fn new() -> (r: Columns)
        ensures
            r.are_of(seq![]),
    {
        let r = Columns {
            cpu: Vec::new(),
            temp: Vec::new(),
            memory: Vec::new(),
            swap: Vec::new(),
            level: Vec::new(),
            battery_temp: Vec::new(),
            stage: Vec::new(),
            current: 0,
            throttled: 0,
        };
        assert(r.cpu@ =~= cpu_loads(seq![]));
        assert(r.temp@ =~= cpu_temps(seq![]));
        assert(r.memory@ =~= memory_uses(seq![]));
        assert(r.swap@ =~= swap_uses(seq![]));
        assert(r.level@ =~= battery_levels(seq![]));
        assert(r.battery_temp@ =~= battery_temps(seq![]));
        assert(r.stage@ =~= stages(seq![]));
        r
    }

    fn push(&mut self, m: &SystemMetrics, Ghost(s): Ghost<Seq<SystemMetrics>>)
        requires
            old(self).are_of(s),
            s.len() < usize::MAX,
        ensures
            final(self).are_of(s.push(*m)),
    {
        let ghost next = s.push(*m);
        assert(next.drop_last() =~= s);
        if self.cpu.len() == 0 || m.battery_current > self.current {
            self.current = m.battery_current;
        }
        self.cpu.push(m.cpu_usage);
        self.temp.push(m.cpu_temp);
        self.memory.push(m.memory_used);
        self.swap.push(m.swap_used);
        self.level.push(m.battery_level);
        self.battery_temp.push(m.battery_temperature);
        self.stage.push(m.throttling_stage as u64);
        if m.thermal_throttling {
            self.throttled = self.throttled + 1;
        }
        assert(self.cpu@ =~= cpu_loads(next));
        assert(self.temp@ =~= cpu_temps(next));
        assert(self.memory@ =~= memory_uses(next));
        assert(self.swap@ =~= swap_uses(next));
        assert(self.level@ =~= battery_levels(next));
        assert(self.battery_temp@ =~= battery_temps(next));
        assert(self.stage@ =~= stages(next));
    }
}

fn columns_of(metrics: &Vec<SystemMetrics>) -> (r: Columns)
    ensures
        r.are_of(metrics@),
{
    let mut r = Columns::new();
    let mut i: usize = 0;
    assert(metrics@.take(0) =~= seq![]);
    while i < metrics.len()
        invariant
            i <= metrics.len(),
            r.are_of(metrics@.take(i as int)),
        decreases metrics.len() - i,
    {
        r.push(&metrics[i], Ghost(metrics@.take(i as int)));
        assert(metrics@.take(i + 1) =~= metrics@.take(i as int).push(metrics@[i as int]));
        i = i + 1;
    }
    assert(metrics@.take(metrics.len() as int) =~= metrics@);
    r
}

/// What a processor stress test gives.
#[derive(Clone, Copy, Debug, PartialEq, Eq, Structural)]
pub struct StressSummary {
    pub average_cpu: u64,
    /// Bytes of memory.
    pub average_memory: u64,
    pub average_temp: u64,
    pub peak_temp: u64,
    pub total_ops: u64,
    pub duration_ns: u64,
}

/// The summary of a processor stress test.
pub open spec fn stress_summary(s: Seq<SystemMetrics>, total_ops: u64) -> StressSummary {
    StressSummary {
        average_cpu: average(cpu_loads(s)) as u64,
        average_memory: average(memory_uses(s)) as u64,
        average_temp: average(cpu_temps(s)) as u64,
        peak_temp: peak(cpu_temps(s)) as u64,
        total_ops,
        duration_ns: covered_time(s) as u64,
    }
}

fn covered(metrics: &Vec<SystemMetrics>) -> (r: u64)
    ensures
        r == covered_time(metrics@),
{
    if metrics.len() == 0 {
        return 0;
    }
    let first: u64 = metrics[0].timestamp_ns;
    let last: u64 = metrics[metrics.len() - 1].timestamp_ns;
    if last < first {
        0
    } else {
        last - first
    }
}

/// Summarises a processor stress test; nothing where there are no metrics.
pub fn analyze_stress_results(metrics: &VecDeque<SystemMetrics>, total_ops: u64) -> (r: Option<
    StressSummary,
>)
    ensures
        r == (if metrics@.len() == 0 {
            None
        } else {
            Some(stress_summary(metrics@, total_ops))
        }),
{
    let table = vec_of(metrics, 0, metrics.len());
    assert(table@ =~= metrics@);
    if table.len() == 0 {
        return None;
    }
    let c = columns_of(&table);
    Some(
        StressSummary {
            average_cpu: average_of(&c.cpu),
            average_memory: average_of(&c.memory),
            average_temp: average_of(&c.temp),
            peak_temp: peak_of(&c.temp),
            total_ops,
            duration_ns: covered(&table),
        },
    )
}

/// What a memory pressure test gives: nothing of the times where there were no
/// allocations, and nothing of the pressure where there were no events.
#[derive(Clone, Copy, Debug, PartialEq, Eq)]
pub struct MemorySummary {
    /// The mean and the longest allocation time.
    pub times: Option<(u64, u64)>,
    /// The largest share of memory in use.
    pub peak_pressure: Option<i128>,
}

/// The largest of some shares, or 0 where none is above it.
pub open spec fn peak_share(s: Seq<i128>) -> int
    decreases s.len(),
{
    if s.len() == 0 {
        0
    } else if s.last() > peak_share(s.drop_last()) {
        s.last() as int
    } else {
        peak_share(s.drop_last())
    }
}

/// The summary of a memory pressure test.
pub open spec fn memory_summary(times: Seq<u64>, events: Seq<i128>) -> MemorySummary {
    MemorySummary {
        times: if times.len() == 0 {
            None
        } else {
            Some((average(times) as u64, peak(times) as u64))
        },
        peak_pressure: if events.len() == 0 {
            None
        } else {
            Some(peak_share(events) as i128)
        },
    }
}

/// Summarises a memory pressure test by the allocation times and the shares of memory in
/// use.
pub fn analyze_memory_patterns(times: &Vec<u64>, events: &Vec<i128>) -> (r: MemorySummary)
    ensures
        r == memory_summary(times@, events@),
{
    let mut best: i128 = 0;
    let mut i: usize = 0;
    while i < events.len()
        invariant
            i <= events.len(),
            best == peak_share(events@.take(i as int)),
        decreases events.len() - i,
    {
        assert(events@.take(i + 1).drop_last() =~= events@.take(i as int));
        if events[i] > best {
            best = events[i];
        }
        i = i + 1;
    }
    assert(events@.take(events.len() as int) =~= events@);
    MemorySummary {
        times: if times.len() == 0 {
            None
        } else {
            Some((average_of(times), peak_of(times)))
        },
        peak_pressure: if events.len() == 0 {
            None
        } else {
            Some(best)
        },
    }
}

/// One look at the temperatures.
#[derive(Clone, Copy, Debug, PartialEq, Eq, Structural)]
pub struct ThermalSample {
    /// Seconds since the test started.
    pub elapsed_secs: u64,
    pub cpu_temp: u64,
    pub battery_temp: u64,
    pub throttling: bool,
    pub stage: u32,
}

/// The processor temperatures of some looks.
pub open spec fn sample_temps(s: Seq<ThermalSample>) -> Seq<u64> {
    Seq::new(s.len(), |i: int| s[i].cpu_temp)
}

/// The battery temperatures of some looks.
pub open spec fn sample_battery_temps(s: Seq<ThermalSample>) -> Seq<u64> {
    Seq::new(s.len(), |i: int| s[i].battery_temp)
}

/// How many looks found the processor throttled.
pub open spec fn throttled_samples(s: Seq<ThermalSample>) -> int
    decreases s.len(),
{
    if s.len() == 0 {
        0
    } else {
        throttled_samples(s.drop_last()) + if s.last().throttling {
            1int
        } else {
            0
        }
    }
}

/// What a thermal stress test gives.
#[derive(Clone, Copy, Debug, PartialEq, Eq, Structural)]
pub struct ThermalSummary {
    pub peak_cpu_temp: u64,
    pub peak_battery_temp: u64,
    pub average_cpu_temp: u64,
    /// The share of looks that found the processor throttled, in whole percent.
    pub throttled_percent: u64,
}

/// The summary of a thermal stress test.
pub open spec fn thermal_summary(s: Seq<ThermalSample>) -> ThermalSummary {
    ThermalSummary {
        peak_cpu_temp: peak(sample_temps(s)) as u64,
        peak_battery_temp: peak(sample_battery_temps(s)) as u64,
        average_cpu_temp: average(sample_temps(s)) as u64,
        throttled_percent: (throttled_samples(s) * 100 / s.len() as int) as u64,
    }
}

/// Summarises a thermal stress test; nothing where there were no looks.
pub fn analyze_thermal_data(history: &Vec<ThermalSample>) -> (r: Option<ThermalSummary>)
    ensures
        r == (if history@.len() == 0 {
            None
        } else {
            Some(thermal_summary(history@))
        }),
{
    if history.len() == 0 {
        return None;
    }
    let mut temps: Vec<u64> = Vec::new();
    let mut battery: Vec<u64> = Vec::new();
    let mut throttled: usize = 0;
    let mut i: usize = 0;
    while i < history.len()
        invariant
            i <= history.len(),
            temps@ == sample_temps(history@.take(i as int)),
            battery@ == sample_battery_temps(history@.take(i as int)),
            throttled == throttled_samples(history@.take(i as int)),
            throttled <= i,
        decreases history.len() - i,
    {
        let sample = history[i];
        let ghost next = history@.take(i + 1);
        assert(next.drop_last() =~= history@.take(i as int));
        temps.push(sample.cpu_temp);
        battery.push(sample.battery_temp);
        if sample.throttling {
            throttled = throttled + 1;
        }
        assert(temps@ =~= sample_temps(next));
        assert(battery@ =~= sample_battery_temps(next));
        i = i + 1;
    }
    assert(history@.take(history.len() as int) =~= history@);
    let percent: u128 = throttled as u128 * 100 / history.len() as u128;
    assert(percent <= 100) by (nonlinear_arith)
        requires
            percent == throttled * 100 / (history@.len() as int),
            0 <= throttled <= history@.len(),
            history@.len() > 0,
    ;
    Some(
        ThermalSummary {
            peak_cpu_temp: peak_of(&temps),
            peak_battery_temp: peak_of(&battery),
            average_cpu_temp: average_of(&temps),
            throttled_percent: percent as u64,
        },
    )
}

/// What a graphics stress test gives.
#[derive(Clone, Copy, Debug, PartialEq, Eq)]
pub struct GpuSummary {
    /// The mean frame time, and the one that stands at 95 percent of the series.
    pub frames: Option<(u64, u64)>,
    /// Frames per second in thousandths, where the mean frame time is not zero.
    pub fps: Option<u64>,
    /// The mean and the largest load.
    pub usage: Option<(u64, u64)>,
    /// The mean memory, in megabytes.
    pub memory_mb: Option<u64>,
}

/// The frames per second that a frame time stands for, in thousandths.
pub open spec fn frame_rate(frame_ns: int) -> Option<int> {
    if frame_ns == 0 {
        None
    } else {
        Some(1_000_000_000_000int / frame_ns)
    }
}

/// The summary of a graphics stress test.
pub open spec fn gpu_summary(frames: Seq<u64>, usage: Seq<u64>, memory: Seq<u64>) -> GpuSummary {
    GpuSummary {
        frames: if frames.len() == 0 {
            None
        } else {
            Some((average(frames) as u64, frames[frames.len() as int * 95 / 100]))
        },
        fps: if frames.len() == 0 {
            None
        } else {
            match frame_rate(average(frames)) {
                Some(v) => Some(v as u64),
                None => None,
            }
        },
        usage: if usage.len() == 0 {
            None
        } else {
            Some((average(usage) as u64, peak(usage) as u64))
        },
        memory_mb: if memory.len() == 0 {
            None
        } else {
            Some((average(memory) / MEGABYTE as int) as u64)
        },
    }
}

/// Summarises a graphics stress test.
pub fn analyze_gpu_results(frames: &Vec<u64>, usage: &Vec<u64>, memory: &Vec<u64>) -> (r:
    GpuSummary)
    ensures
        r == gpu_summary(frames@, usage@, memory@),
{
    let mut r = GpuSummary { frames: None, fps: None, usage: None, memory_mb: None };
    if frames.len() > 0 {
        let mean: u64 = average_of(frames);
        let at: usize = (frames.len() as u128 * 95 / 100) as usize;
        r.frames = Some((mean, frames[at]));
        if mean > 0 {
            r.fps = Some(1_000_000_000_000 / mean);
        }
    }
    if usage.len() > 0 {
        r.usage = Some((average_of(usage), peak_of(usage)));
    }
    if memory.len() > 0 {
        r.memory_mb = Some(average_of(memory) / MEGABYTE);
    }
    r
}

/// What the comprehensive stress test gives.
#[derive(Clone, Copy, Debug, PartialEq, Eq, Structural)]
pub struct ComprehensiveReport {
    pub duration_ns: u64,
    pub average_cpu: u64,
    pub peak_cpu: u64,
    pub average_temp: u64,
    /// Bytes of memory.
    pub average_memory: u64,
    /// Bytes of memory.
    pub peak_memory: u64,
    /// Bytes of memory that cache files, at the end.
    pub cache: u64,
    /// Bytes of swap space.
    pub average_swap: u64,
    /// The lowest charge of the battery, at most 100 percent.
    pub min_battery_level: u64,
    pub max_battery_temp: u64,
    /// Milliamperes.
    pub max_battery_current: i32,
    pub throttling_events: usize,
    pub max_throttling_stage: u32,
    /// At the end.
    pub uptime_ns: u64,
    /// At the end.
    pub processes: u32,
    /// At the end.
    pub threads: u32,
    /// The context switches since boot, for each second of the test; nothing where the
    /// test took no time.
    pub context_switches_per_sec: Option<u128>,
    /// Whether there were no critical events.
    pub passed: bool,
}

/// The context switches since boot, for each second of the test.
pub open spec fn switches_per_sec(switches: int, duration_ns: int) -> Option<int> {
    if duration_ns == 0 {
        None
    } else {
        Some(switches * 1_000_000_000 / duration_ns)
    }
}

/// The report on the comprehensive stress test.
pub open spec fn comprehensive_report(
    s: Seq<SystemMetrics>,
    critical_events: int,
) -> ComprehensiveReport {
    ComprehensiveReport {
        duration_ns: covered_time(s) as u64,
        average_cpu: average(cpu_loads(s)) as u64,
        peak_cpu: peak(cpu_loads(s)) as u64,
        average_temp: average(cpu_temps(s)) as u64,
        average_memory: average(memory_uses(s)) as u64,
        peak_memory: peak(memory_uses(s)) as u64,
        cache: s.last().memory_cache,
        average_swap: average(swap_uses(s)) as u64,
        min_battery_level: lowest(battery_levels(s), 100_000) as u64,
        max_battery_temp: peak(battery_temps(s)) as u64,
        max_battery_current: largest_current(s) as i32,
        throttling_events: throttled_count(s) as usize,
        max_throttling_stage: peak(stages(s)) as u32,
        uptime_ns: s.last().uptime_ns,
        processes: s.last().processes,
        threads: s.last().threads,
        context_switches_per_sec: match switches_per_sec(
            s.last().context_switches as int,
            covered_time(s),
        ) {
            Some(v) => Some(v as u128),
            None => None,
        },
        passed: critical_events == 0,
    }
}

/// Reports on the comprehensive stress test; nothing where there are no metrics.
pub fn generate_comprehensive_report(
    metrics: &Vec<SystemMetrics>,
    critical_events: usize,
) -> (r: Option<ComprehensiveReport>)
    ensures
        r == (if metrics@.len() == 0 {
            None
        } else {
            Some(comprehensive_report(metrics@, critical_events as int))
        }),
        r matches Some(report) ==> {
            let s = metrics@;
            &&& forall|i: int| 0 <= i < s.len() ==> (#[trigger] s[i]).cpu_usage <= report.peak_cpu
            &&& exists|i: int| 0 <= i < s.len() && (#[trigger] s[i]).cpu_usage == report.peak_cpu
            &&& forall|i: int|
                0 <= i < s.len() ==> (#[trigger] s[i]).memory_used <= report.peak_memory
            &&& exists|i: int|
                0 <= i < s.len() && (#[trigger] s[i]).memory_used == report.peak_memory
            &&& report.average_cpu <= report.peak_cpu
            &&& report.average_memory <= report.peak_memory
            &&& forall|i: int|
                0 <= i < s.len() ==> report.min_battery_level <= (#[trigger] s[i]).battery_level
            &&& forall|i: int|
                0 <= i < s.len() ==> (#[trigger] s[i]).battery_temperature
                    <= report.max_battery_temp
            &&& forall|i: int|
                0 <= i < s.len() ==> (#[trigger] s[i]).battery_current
                    <= report.max_battery_current
            &&& forall|i: int|
                0 <= i < s.len() ==> (#[trigger] s[i]).throttling_stage
                    <= report.max_throttling_stage
            &&& report.passed <==> critical_events == 0
        },
{
    if metrics.len() == 0 {
        return None;
    }
    let last: SystemMetrics = metrics[metrics.len() - 1];
    let c = columns_of(metrics);
    let duration_ns: u64 = covered(metrics);
    let stage: u64 = peak_of(&c.stage);
    proof {
        stage_peak_fits(metrics@);
        comprehensive_report_summarises(
            metrics@,
            critical_events as int,
            comprehensive_report(metrics@, critical_events as int),
        );
    }
    let rate: Option<u128> = if duration_ns == 0 {
        None
    } else {
        Some(last.context_switches as u128 * 1_000_000_000 / duration_ns as u128)
    };
    Some(
        ComprehensiveReport {
            duration_ns,
            average_cpu: average_of(&c.cpu),
            peak_cpu: peak_of(&c.cpu),
            average_temp: average_of(&c.temp),
            average_memory: average_of(&c.memory),
            peak_memory: peak_of(&c.memory),
            cache: last.memory_cache,
            average_swap: average_of(&c.swap),
            min_battery_level: lowest_of(&c.level, 100_000),
            max_battery_temp: peak_of(&c.battery_temp),
            max_battery_current: c.current,
            throttling_events: c.throttled,
            max_throttling_stage: stage as u32,
            uptime_ns: last.uptime_ns,
            processes: last.processes,
            threads: last.threads,
            context_switches_per_sec: rate,
            passed: critical_events == 0,
        },
    )
}

proof fn stage_peak_fits(s: Seq<SystemMetrics>)
    ensures
        0 <= peak(stages(s)) <= u32::MAX,
    decreases s.len(),
{
    if s.len() > 0 {
        stage_peak_fits(s.drop_last());
        assert(stages(s).drop_last() =~= stages(s.drop_last()));
    }
}

/// In every report the mean load, temperature and memory are not above their peaks.
pub proof fn report_means_are_at_most_peaks(s: Seq<SystemMetrics>)
    ensures
        average(cpu_loads(s)) <= peak(cpu_loads(s)),
        average(cpu_temps(s)) <= peak(cpu_temps(s)),
        average(memory_uses(s)) <= peak(memory_uses(s)),
{
    crate::series::average_is_at_most_peak(cpu_loads(s));
    crate::series::average_is_at_most_peak(cpu_temps(s));
    crate::series::average_is_at_most_peak(memory_uses(s));
}

/// A report counts no more throttled metrics than there are.
pub proof fn throttled_metrics_are_metrics(s: Seq<SystemMetrics>)
    ensures
        0 <= throttled_count(s) <= s.len(),
    decreases s.len(),
{
    if s.len() > 0 {
        throttled_metrics_are_metrics(s.drop_last());
    }
}

} // verus!
