//! What the reports on stress tests say of the metrics that they are made of.

use crate::profiler::MEGABYTE;
use crate::report::{battery_levels, battery_temps, cpu_loads, cpu_temps, memory_uses, stages};
use crate::report::{comprehensive_report, gpu_summary, stress_summary, thermal_summary};
use crate::report::{largest_current, peak_share, sample_battery_temps, sample_temps, swap_uses};
use crate::report::{throttled_count, throttled_samples, GpuSummary};
use crate::report::{memory_summary, MemorySummary};
use crate::report::{ComprehensiveReport, StressSummary, ThermalSample, ThermalSummary};
use crate::series::{average_is_at_most_peak, average_is_within_one, lowest_is_the_smallest};
use crate::series::{peak_is_the_largest, total};
use crate::stress::SystemMetrics;
use vstd::prelude::*;

verus! {

/// Whether a number is a whole mean: at most the exact one, and less than one below it.
pub open spec fn is_mean(m: int, s: Seq<u64>) -> bool {
    m * s.len() <= total(s) < (m + 1) * s.len()
}

/// Whether a number is in a series that has none above it.
pub open spec fn is_top(m: int, s: Seq<u64>) -> bool {
    &&& exists|i: int| 0 <= i < s.len() && #[trigger] s[i] == m
    &&& forall|i: int| 0 <= i < s.len() ==> #[trigger] s[i] <= m
}

proof fn lemma_mean_and_top(s: Seq<u64>)
    requires
        s.len() > 0,
    ensures
        is_mean(crate::series::average(s), s),
        is_top(crate::series::peak(s), s),
        0 <= crate::series::average(s) <= crate::series::peak(s) <= u64::MAX,
{
    average_is_within_one(s);
    peak_is_the_largest(s);
    average_is_at_most_peak(s);
    let i = choose|i: int| 0 <= i < s.len() && #[trigger] s[i] == crate::series::peak(s);
    assert(s[i] <= u64::MAX);
}

/// The largest current is one of the currents, and none is above it.
pub proof fn current_is_the_largest(s: Seq<SystemMetrics>)
    requires
        s.len() > 0,
    ensures
        exists|i: int| 0 <= i < s.len() && (#[trigger] s[i]).battery_current == largest_current(s),
        forall|i: int|
            0 <= i < s.len() ==> (#[trigger] s[i]).battery_current <= largest_current(s),
    decreases s.len(),
{
    let rest = s.drop_last();
    if rest.len() > 0 {
        current_is_the_largest(rest);
        let k = choose|k: int|
            0 <= k < rest.len() && (#[trigger] rest[k]).battery_current == largest_current(rest);
        assert(s[k] == rest[k]);
        assert forall|i: int| 0 <= i < s.len() implies (#[trigger] s[i]).battery_current
            <= largest_current(s) by {
            if i < rest.len() {
                assert(rest[i] == s[i]);
            }
        }
    }
    assert(s[s.len() - 1] == s.last());
}

/// As many metrics count as throttled as say that the processor is throttled.
pub proof fn throttled_metrics_are_counted(s: Seq<SystemMetrics>)
    ensures
        throttled_count(s) == s.filter(|m: SystemMetrics| m.thermal_throttling).len(),
    decreases s.len(),
{
    reveal(Seq::filter);
    if s.len() > 0 {
        throttled_metrics_are_counted(s.drop_last());
    }
}

/// As many looks count as throttled as found the processor throttled.
pub proof fn throttled_looks_are_counted(s: Seq<ThermalSample>)
    ensures
        throttled_samples(s) == s.filter(|m: ThermalSample| m.throttling).len(),
        0 <= throttled_samples(s) <= s.len(),
    decreases s.len(),
{
    reveal(Seq::filter);
    if s.len() > 0 {
        throttled_looks_are_counted(s.drop_last());
    }
}

/// What the report on the comprehensive stress test says of the metrics: each mean is that
/// of its column, each extreme is one of its column with none beyond it, what stands at
/// the end is that of the last metrics, and the test has passed where there were no
/// critical events.
pub proof fn comprehensive_report_summarises(
    s: Seq<SystemMetrics>,
    critical_events: int,
    r: ComprehensiveReport,
)
    requires
        s.len() > 0,
        r == comprehensive_report(s, critical_events),
    ensures
        is_mean(r.average_cpu as int, Seq::new(s.len(), |i: int| s[i].cpu_usage)),
        is_mean(r.average_temp as int, Seq::new(s.len(), |i: int| s[i].cpu_temp)),
        is_mean(r.average_memory as int, Seq::new(s.len(), |i: int| s[i].memory_used)),
        is_mean(r.average_swap as int, Seq::new(s.len(), |i: int| s[i].swap_used)),
        forall|i: int| 0 <= i < s.len() ==> (#[trigger] s[i]).cpu_usage <= r.peak_cpu,
        exists|i: int| 0 <= i < s.len() && (#[trigger] s[i]).cpu_usage == r.peak_cpu,
        forall|i: int| 0 <= i < s.len() ==> (#[trigger] s[i]).memory_used <= r.peak_memory,
        exists|i: int| 0 <= i < s.len() && (#[trigger] s[i]).memory_used == r.peak_memory,
        r.average_cpu <= r.peak_cpu,
        r.average_memory <= r.peak_memory,
        r.min_battery_level <= 100_000,
        forall|i: int| 0 <= i < s.len() ==> r.min_battery_level <= (#[trigger] s[i]).battery_level,
        r.min_battery_level == 100_000 || exists|i: int|
            0 <= i < s.len() && (#[trigger] s[i]).battery_level == r.min_battery_level,
        forall|i: int|
            0 <= i < s.len() ==> (#[trigger] s[i]).battery_temperature <= r.max_battery_temp,
        exists|i: int|
            0 <= i < s.len() && (#[trigger] s[i]).battery_temperature == r.max_battery_temp,
        forall|i: int|
            0 <= i < s.len() ==> (#[trigger] s[i]).battery_current <= r.max_battery_current,
        exists|i: int|
            0 <= i < s.len() && (#[trigger] s[i]).battery_current == r.max_battery_current,
        forall|i: int|
            0 <= i < s.len() ==> (#[trigger] s[i]).throttling_stage <= r.max_throttling_stage,
        exists|i: int|
            0 <= i < s.len() && (#[trigger] s[i]).throttling_stage == r.max_throttling_stage,
        s.len() <= usize::MAX ==> r.throttling_events == s.filter(
            |m: SystemMetrics| m.thermal_throttling,
        ).len(),
        s[0].timestamp_ns <= s[s.len() - 1].timestamp_ns ==> r.duration_ns == s[s.len()
            - 1].timestamp_ns - s[0].timestamp_ns,
        s[0].timestamp_ns > s[s.len() - 1].timestamp_ns ==> r.duration_ns == 0,
        r.cache == s[s.len() - 1].memory_cache,
        r.uptime_ns == s[s.len() - 1].uptime_ns,
        r.processes == s[s.len() - 1].processes,
        r.threads == s[s.len() - 1].threads,
        match r.context_switches_per_sec {
            Some(v) => r.duration_ns > 0 && v * r.duration_ns <= s[s.len() - 1].context_switches
                * 1_000_000_000 < (v + 1) * r.duration_ns,
            None => r.duration_ns == 0,
        },
        r.passed <==> critical_events == 0,
{
    let n = s.len() as int;
    let cpu = cpu_loads(s);
    let temp = cpu_temps(s);
    let memory = memory_uses(s);
    let swap = swap_uses(s);
    let level = battery_levels(s);
    let battery = battery_temps(s);
    let stage = stages(s);
    assert(cpu =~= Seq::new(s.len(), |i: int| s[i].cpu_usage));
    assert(temp =~= Seq::new(s.len(), |i: int| s[i].cpu_temp));
    assert(memory =~= Seq::new(s.len(), |i: int| s[i].memory_used));
    assert(swap =~= Seq::new(s.len(), |i: int| s[i].swap_used));
    lemma_mean_and_top(cpu);
    lemma_mean_and_top(temp);
    lemma_mean_and_top(memory);
    lemma_mean_and_top(swap);
    lemma_mean_and_top(battery);
    lemma_mean_and_top(stage);
    lowest_is_the_smallest(level, 100_000);
    current_is_the_largest(s);
    throttled_metrics_are_counted(s);
    crate::report::throttled_metrics_are_metrics(s);
    assert forall|i: int| 0 <= i < n implies (#[trigger] s[i]).cpu_usage <= r.peak_cpu by {
        assert(cpu[i] <= r.peak_cpu);
    }
    let i = choose|i: int| 0 <= i < cpu.len() && #[trigger] cpu[i] == r.peak_cpu;
    assert(s[i].cpu_usage == r.peak_cpu);
    assert forall|i: int| 0 <= i < n implies (#[trigger] s[i]).memory_used <= r.peak_memory by {
        assert(memory[i] <= r.peak_memory);
    }
    let i = choose|i: int| 0 <= i < memory.len() && #[trigger] memory[i] == r.peak_memory;
    assert(s[i].memory_used == r.peak_memory);
    assert forall|i: int| 0 <= i < n implies (#[trigger] s[i]).battery_temperature
        <= r.max_battery_temp by {
        assert(battery[i] <= r.max_battery_temp);
    }
    let i = choose|i: int| 0 <= i < battery.len() && #[trigger] battery[i] == r.max_battery_temp;
    assert(s[i].battery_temperature == r.max_battery_temp);
    let top = crate::series::peak(stage);
    let i = choose|i: int| 0 <= i < stage.len() && #[trigger] stage[i] == top;
    assert(s[i].throttling_stage == r.max_throttling_stage);
    assert forall|i: int| 0 <= i < n implies (#[trigger] s[i]).throttling_stage
        <= r.max_throttling_stage by {
        assert(stage[i] <= top);
    }
    assert(lowest_fits(level)) by {
        lemma_lowest_fits(level);
    }
    assert forall|i: int| 0 <= i < n implies r.min_battery_level <= (
    #[trigger] s[i]).battery_level by {
        assert(r.min_battery_level <= level[i]);
    }
    if r.min_battery_level != 100_000 {
        let i = choose|i: int| 0 <= i < level.len() && #[trigger] level[i] == r.min_battery_level;
        assert(s[i].battery_level == r.min_battery_level);
    }
    let d = r.duration_ns as int;
    if d > 0 {
        let w = s.last().context_switches * 1_000_000_000;
        crate::arith::quotient_is_near(w, d);
        assert(0 <= w / d <= w) by (nonlinear_arith)
            requires
                w >= 0,
                d > 0,
        ;
    }
}

spec fn lowest_fits(s: Seq<u64>) -> bool {
    0 <= crate::series::lowest(s, 100_000) <= u64::MAX
}

proof fn lemma_lowest_fits(s: Seq<u64>)
    ensures
        lowest_fits(s),
    decreases s.len(),
{
    if s.len() > 0 {
        lemma_lowest_fits(s.drop_last());
    }
}

/// What the summary of a processor stress test says of the metrics.
pub proof fn stress_summary_summarises(s: Seq<SystemMetrics>, total_ops: u64, r: StressSummary)
    requires
        s.len() > 0,
        r == stress_summary(s, total_ops),
    ensures
        is_mean(r.average_cpu as int, Seq::new(s.len(), |i: int| s[i].cpu_usage)),
        is_mean(r.average_memory as int, Seq::new(s.len(), |i: int| s[i].memory_used)),
        is_mean(r.average_temp as int, Seq::new(s.len(), |i: int| s[i].cpu_temp)),
        forall|i: int| 0 <= i < s.len() ==> (#[trigger] s[i]).cpu_temp <= r.peak_temp,
        exists|i: int| 0 <= i < s.len() && (#[trigger] s[i]).cpu_temp == r.peak_temp,
        r.average_temp <= r.peak_temp,
        r.total_ops == total_ops,
        s[0].timestamp_ns <= s[s.len() - 1].timestamp_ns ==> r.duration_ns == s[s.len()
            - 1].timestamp_ns - s[0].timestamp_ns,
        s[0].timestamp_ns > s[s.len() - 1].timestamp_ns ==> r.duration_ns == 0,
{
    let cpu = cpu_loads(s);
    let temp = cpu_temps(s);
    let memory = memory_uses(s);
    assert(cpu =~= Seq::new(s.len(), |i: int| s[i].cpu_usage));
    assert(temp =~= Seq::new(s.len(), |i: int| s[i].cpu_temp));
    assert(memory =~= Seq::new(s.len(), |i: int| s[i].memory_used));
    lemma_mean_and_top(cpu);
    lemma_mean_and_top(temp);
    lemma_mean_and_top(memory);
    assert forall|i: int| 0 <= i < s.len() implies (#[trigger] s[i]).cpu_temp <= r.peak_temp by {
        assert(temp[i] <= r.peak_temp);
    }
    let i = choose|i: int| 0 <= i < temp.len() && #[trigger] temp[i] == r.peak_temp;
    assert(s[i].cpu_temp == r.peak_temp);
}

/// What the summary of a thermal stress test says of the looks.
pub proof fn thermal_summary_summarises(s: Seq<ThermalSample>, r: ThermalSummary)
    requires
        s.len() > 0,
        r == thermal_summary(s),
    ensures
        forall|i: int| 0 <= i < s.len() ==> (#[trigger] s[i]).cpu_temp <= r.peak_cpu_temp,
        exists|i: int| 0 <= i < s.len() && (#[trigger] s[i]).cpu_temp == r.peak_cpu_temp,
        forall|i: int| 0 <= i < s.len() ==> (#[trigger] s[i]).battery_temp <= r.peak_battery_temp,
        exists|i: int| 0 <= i < s.len() && (#[trigger] s[i]).battery_temp == r.peak_battery_temp,
        is_mean(r.average_cpu_temp as int, Seq::new(s.len(), |i: int| s[i].cpu_temp)),
        r.average_cpu_temp <= r.peak_cpu_temp,
        r.throttled_percent <= 100,
        r.throttled_percent * s.len() <= 100 * s.filter(|m: ThermalSample| m.throttling).len() < (
        r.throttled_percent + 1) * s.len(),
{
    let temp = sample_temps(s);
    let battery = sample_battery_temps(s);
    assert(temp =~= Seq::new(s.len(), |i: int| s[i].cpu_temp));
    lemma_mean_and_top(temp);
    lemma_mean_and_top(battery);
    assert forall|i: int| 0 <= i < s.len() implies (#[trigger] s[i]).cpu_temp
        <= r.peak_cpu_temp by {
        assert(temp[i] <= r.peak_cpu_temp);
    }
    let i = choose|i: int| 0 <= i < temp.len() && #[trigger] temp[i] == r.peak_cpu_temp;
    assert(s[i].cpu_temp == r.peak_cpu_temp);
    assert forall|i: int| 0 <= i < s.len() implies (#[trigger] s[i]).battery_temp
        <= r.peak_battery_temp by {
        assert(battery[i] <= r.peak_battery_temp);
    }
    let i = choose|i: int| 0 <= i < battery.len() && #[trigger] battery[i] == r.peak_battery_temp;
    assert(s[i].battery_temp == r.peak_battery_temp);
    throttled_looks_are_counted(s);
    let t = throttled_samples(s);
    let n = s.len() as int;
    crate::arith::quotient_is_near(t * 100, n);
    assert(0 <= t * 100 / n <= 100) by (nonlinear_arith)
        requires
            0 <= t <= n,
            n > 0,
    ;
}

/// What the summary of a graphics stress test says of the three series.
pub proof fn gpu_summary_summarises(
    frames: Seq<u64>,
    usage: Seq<u64>,
    memory: Seq<u64>,
    r: GpuSummary,
)
    requires
        r == gpu_summary(frames, usage, memory),
    ensures
        match r.frames {
            Some((mean, late)) => frames.len() > 0 && is_mean(mean as int, frames) && exists|k: int|
                0 <= k < frames.len() && 100 * k <= 95 * frames.len() < 100 * (k + 1)
                    && late == #[trigger] frames[k],
            None => frames.len() == 0,
        },
        match r.fps {
            Some(fps) => r.frames matches Some((mean, _)) && fps * mean <= 1_000_000_000_000 < (fps
                + 1) * mean,
            None => r.frames matches Some((mean, _)) ==> mean == 0,
        },
        match r.usage {
            Some((mean, top)) => usage.len() > 0 && is_mean(mean as int, usage) && is_top(
                top as int,
                usage,
            ) && mean <= top,
            None => usage.len() == 0,
        },
        match r.memory_mb {
            Some(mb) => exists|mean: int|
                is_mean(mean, memory) && mb * MEGABYTE <= mean < (mb + 1) * MEGABYTE,
            None => memory.len() == 0,
        },
{
    if frames.len() > 0 {
        lemma_mean_and_top(frames);
        let k = frames.len() as int * 95 / 100;
        let (_, late) = r.frames->Some_0;
        assert(frames[k] == late);
        let mean = crate::series::average(frames);
        if mean > 0 {
            crate::arith::quotient_is_near(1_000_000_000_000, mean);
            assert(0 <= 1_000_000_000_000int / mean <= 1_000_000_000_000) by (nonlinear_arith)
                requires
                    mean > 0,
            ;
        }
    }
    if usage.len() > 0 {
        lemma_mean_and_top(usage);
    }
    if memory.len() > 0 {
        lemma_mean_and_top(memory);
        assert(is_mean(crate::series::average(memory), memory));
    }
}

/// The peak of some shares is below none of them, nor below zero; it is one of them or
/// zero.
pub proof fn peak_share_is_the_largest(s: Seq<i128>)
    ensures
        0 <= peak_share(s),
        forall|i: int| 0 <= i < s.len() ==> #[trigger] s[i] <= peak_share(s),
        peak_share(s) == 0 || exists|i: int| 0 <= i < s.len() && #[trigger] s[i] == peak_share(s),
    decreases s.len(),
{
    if s.len() > 0 {
        let rest = s.drop_last();
        peak_share_is_the_largest(rest);
        assert forall|i: int| 0 <= i < s.len() implies #[trigger] s[i] <= peak_share(s) by {
            if i < rest.len() {
                assert(rest[i] == s[i]);
            }
        }
        if s.last() > peak_share(rest) {
            assert(s[s.len() - 1] == peak_share(s));
        } else if peak_share(rest) != 0 {
            let i = choose|i: int| 0 <= i < rest.len() && #[trigger] rest[i] == peak_share(rest);
            assert(s[i] == peak_share(s));
        }
    }
}

/// What the summary of a memory pressure test says of the allocation times and of the
/// shares of memory in use.
pub proof fn memory_summary_summarises(times: Seq<u64>, events: Seq<i128>, r: MemorySummary)
    requires
        r == memory_summary(times, events),
    ensures
        match r.times {
            Some((mean, top)) => times.len() > 0 && is_mean(mean as int, times) && is_top(
                top as int,
                times,
            ) && mean <= top,
            None => times.len() == 0,
        },
        match r.peak_pressure {
            Some(p) => {
                &&& events.len() > 0
                &&& 0 <= p
                &&& forall|i: int| 0 <= i < events.len() ==> #[trigger] events[i] <= p
                &&& p == 0 || exists|i: int| 0 <= i < events.len() && #[trigger] events[i] == p
            },
            None => events.len() == 0,
        },
{
    if times.len() > 0 {
        lemma_mean_and_top(times);
    }
    if events.len() > 0 {
        peak_share_is_the_largest(events);
        let p = peak_share(events);
        if p != 0 {
            let i = choose|i: int| 0 <= i < events.len() && #[trigger] events[i] == p;
            assert(events[i] <= i128::MAX);
        }
    }
}

} // verus!
