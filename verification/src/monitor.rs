//! What the stress tests watch while they run, and when they stop.

use crate::arith::quotient_is_near;
use crate::profiler::{last_items, rate, rate_of, MEGABYTE};
use crate::profiler_laws::{is_rate, rates_are_exact};
use crate::random::gen_range;
use crate::report::ThermalSample;
use crate::stress::{StressTestConfig, SystemMetrics};
use std::collections::VecDeque;
use vstd::prelude::*;

verus! {

/// How many metrics are kept.
pub const KEPT_METRICS: usize = 1000;

/// Adds metrics to a history, and drops the oldest ones when there are more than a
/// thousand.
pub fn remember(history: &mut VecDeque<SystemMetrics>, m: SystemMetrics)
    requires
        old(history)@.len() <= KEPT_METRICS,
    ensures
        final(history)@ == last_items(old(history)@.push(m), KEPT_METRICS as int),
        final(history)@.len() <= KEPT_METRICS,
        final(history)@.last() == m,
        old(history)@.len() < 1000 ==> final(history)@ == old(history)@.push(m),
        old(history)@.len() == 1000 ==> final(history)@ == old(history)@.drop_first().push(m),
{
    let ghost all = history@.push(m);
    history.push_back(m);
    if history.len() > KEPT_METRICS {
        let _ = history.pop_front();
        assert(history@ =~= all.skip(1));
        assert(history@ =~= old(history)@.drop_first().push(m));
    }
}

/// Counts the operations of a stress test from second to second.
#[derive(Clone, Copy, Debug, PartialEq, Eq, Structural)]
pub struct OpsMonitor {
    /// Operations up to the last look.
    pub last: u64,
    /// The most operations between two looks.
    pub peak: u64,
}

/// What a look at the operations gives.
#[derive(Clone, Copy, Debug, PartialEq, Eq, Structural)]
pub struct OpsReading {
    /// Operations since the last look.
    pub per_second: u64,
    /// Whether there are fewer than a tenth of the most, after more than ten seconds.
    pub degraded: bool,
}

/// The greater of two numbers.
pub open spec fn larger(a: u64, b: u64) -> u64 {
    if a > b {
        a
    } else {
        b
    }
}

impl OpsMonitor {
    /// Before the first look.
    pub fn new() -> (r: OpsMonitor)
        ensures
            r == (OpsMonitor { last: 0, peak: 0 }),
    {
        OpsMonitor { last: 0, peak: 0 }
    }

    /// Looks at the count of operations, which never falls.
    pub fn observe(&mut self, current: u64, elapsed_secs: u64) -> (r: OpsReading)
        requires
            old(self).last <= current,
        ensures
            *final(self) == (OpsMonitor {
                last: current,
                peak: larger((current - old(self).last) as u64, old(self).peak),
            }),
            r.per_second == current - old(self).last,
            r.degraded == (r.per_second < final(self).peak / 10 && elapsed_secs > 10),
            old(self).last + r.per_second == current,
            final(self).peak >= old(self).peak,
            final(self).peak >= r.per_second,
            final(self).peak == old(self).peak || final(self).peak == r.per_second,
            r.degraded <==> elapsed_secs >= 11 && 10 * (r.per_second + 1) <= final(self).peak,
    {
        let per_second: u64 = current - self.last;
        self.last = current;
        if per_second > self.peak {
            self.peak = per_second;
        }
        OpsReading { per_second, degraded: per_second < self.peak / 10 && elapsed_secs > 10 }
    }
}

/// Why a thermal stress test fails.
#[derive(Clone, Copy, Debug, PartialEq, Eq, Structural)]
pub enum ThermalFault {
    /// The processor temperature has reached its limit.
    CpuCritical,
    /// The battery temperature has reached its limit.
    BatteryCritical,
}

/// What a thermal stress test has seen.
#[derive(Debug)]
pub struct ThermalMonitor {
    /// All looks, in their order.
    pub history: Vec<ThermalSample>,
    /// How many of them found the processor throttled.
    pub throttling_events: usize,
    /// The highest processor temperature.
    pub max_temp: u64,
}

/// What a look means for the test: a fault, or whether the load ends.
pub open spec fn thermal_verdict(s: ThermalSample, c: StressTestConfig) -> Result<
    bool,
    ThermalFault,
> {
    if s.cpu_temp >= c.max_cpu_temp {
        Err(ThermalFault::CpuCritical)
    } else if s.battery_temp >= c.max_temperature_celsius {
        Err(ThermalFault::BatteryCritical)
    } else {
        Ok(s.throttling && s.stage >= 2 && c.enable_thermal_safety)
    }
}

impl ThermalMonitor {
    /// The counts and the highest temperature are those of the looks.
    pub open spec fn wf(self) -> bool {
        &&& self.throttling_events == crate::report::throttled_samples(self.history@)
        &&& self.throttling_events <= self.history@.len()
        &&& self.max_temp == crate::series::peak(crate::report::sample_temps(self.history@))
    }

    /// Before the first look.
    pub fn new() -> (r: ThermalMonitor)
        ensures
            r.wf(),
            r.history@.len() == 0,
    {
        let r = ThermalMonitor { history: Vec::new(), throttling_events: 0, max_temp: 0 };
        assert(crate::report::sample_temps(r.history@) =~= seq![]);
        r
    }

    /// Records a look, and says whether the load ends, or why the test fails.
    pub fn observe(&mut self, s: ThermalSample, c: &StressTestConfig) -> (r: Result<
        bool,
        ThermalFault,
    >)
        requires
            old(self).wf(),
            old(self).history@.len() < usize::MAX,
        ensures
            final(self).wf(),
            final(self).history@ == old(self).history@.push(s),
            r == thermal_verdict(s, *c),
    {
        let ghost before = self.history@;
        self.history.push(s);
        if s.throttling {
            self.throttling_events = self.throttling_events + 1;
        }
        if s.cpu_temp > self.max_temp {
            self.max_temp = s.cpu_temp;
        }
        proof {
            assert(self.history@.drop_last() =~= before);
            let temps = crate::report::sample_temps(self.history@);
            assert(temps.drop_last() =~= crate::report::sample_temps(before));
        }
        if s.cpu_temp >= c.max_cpu_temp {
            Err(ThermalFault::CpuCritical)
        } else if s.battery_temp >= c.max_temperature_celsius {
            Err(ThermalFault::BatteryCritical)
        } else {
            Ok(s.throttling && s.stage >= 2 && c.enable_thermal_safety)
        }
    }
}

/// The loads of the thermal stress test.
#[derive(Clone, Copy, Debug, PartialEq, Eq, Structural)]
pub enum ThermalLoad {
    Light,
    Medium,
    Heavy,
    Gpu,
    Combined,
}

impl ThermalLoad {
    /// The name of the load.
    pub fn name(&self) -> (r: &'static str)
        ensures
            r@ == (match *self {
                ThermalLoad::Light => "light"@,
                ThermalLoad::Medium => "medium"@,
                ThermalLoad::Heavy => "heavy"@,
                ThermalLoad::Gpu => "gpu"@,
                ThermalLoad::Combined => "combined"@,
            }),
    {
        match self {
            ThermalLoad::Light => "light",
            ThermalLoad::Medium => "medium",
            ThermalLoad::Heavy => "heavy",
            ThermalLoad::Gpu => "gpu",
            ThermalLoad::Combined => "combined",
        }
    }

    /// How many seconds the load is kept up.
    pub fn duration_secs(&self) -> (r: u64)
        ensures
            r == (match *self {
                ThermalLoad::Light => 2int,
                ThermalLoad::Medium => 3,
                ThermalLoad::Heavy => 5,
                ThermalLoad::Gpu => 4,
                ThermalLoad::Combined => 10,
            }),
    {
        match self {
            ThermalLoad::Light => 2,
            ThermalLoad::Medium => 3,
            ThermalLoad::Heavy => 5,
            ThermalLoad::Gpu => 4,
            ThermalLoad::Combined => 10,
        }
    }
}

/// What makes a comprehensive stress test fail.
#[derive(Clone, Copy, Debug, PartialEq, Eq, Structural)]
pub enum CriticalEvent {
    /// The processor temperature is above its limit.
    HighCpuTemp { temp: u64 },
    /// The battery temperature is above its limit.
    HighBatteryTemp { temp: u64 },
    /// More than six fifths of the memory is in use, in bytes.
    HighMemory { bytes: u64 },
    /// The processor is throttled.
    Throttling { stage: u32 },
}

/// The critical events in some metrics.
pub open spec fn critical_events(m: SystemMetrics, c: StressTestConfig) -> Seq<CriticalEvent> {
    (if m.cpu_temp > c.max_cpu_temp {
        seq![CriticalEvent::HighCpuTemp { temp: m.cpu_temp }]
    } else {
        seq![]
    }) + (if m.battery_temperature > c.max_temperature_celsius {
        seq![CriticalEvent::HighBatteryTemp { temp: m.battery_temperature }]
    } else {
        seq![]
    }) + (if 5 * m.memory_used > 6 * c.max_memory_mb * MEGABYTE {
        seq![CriticalEvent::HighMemory { bytes: m.memory_used }]
    } else {
        seq![]
    }) + (if m.thermal_throttling {
        seq![CriticalEvent::Throttling { stage: m.throttling_stage }]
    } else {
        seq![]
    })
}

/// Whether the comprehensive stress test stops at some metrics.
pub open spec fn stops_at(m: SystemMetrics, c: StressTestConfig) -> bool {
    m.thermal_throttling && c.enable_throttling_protection && m.throttling_stage >= 2
}

/// Adds the critical events in some metrics to those before, and says whether the test
/// stops.
pub fn watch(m: &SystemMetrics, c: &StressTestConfig, events: &mut Vec<CriticalEvent>) -> (stop:
    bool)
    ensures
        final(events)@ == old(events)@ + critical_events(*m, *c),
        stop == stops_at(*m, *c),
{
    if m.cpu_temp > c.max_cpu_temp {
        events.push(CriticalEvent::HighCpuTemp { temp: m.cpu_temp });
    }
    if m.battery_temperature > c.max_temperature_celsius {
        events.push(CriticalEvent::HighBatteryTemp { temp: m.battery_temperature });
    }
    if 5 * m.memory_used as u128 > 6 * c.max_memory_mb as u128 * 1_048_576 {
        events.push(CriticalEvent::HighMemory { bytes: m.memory_used });
    }
    if m.thermal_throttling {
        events.push(CriticalEvent::Throttling { stage: m.throttling_stage });
    }
    assert(events@ =~= old(events)@ + critical_events(*m, *c));
    m.thermal_throttling && c.enable_throttling_protection && m.throttling_stage >= 2
}

/// A test that stops has met a critical event.
pub proof fn stopping_is_critical(m: SystemMetrics, c: StressTestConfig)
    requires
        stops_at(m, c),
    ensures
        critical_events(m, c).len() > 0,
{
}

/// Metrics that exceed the limit on temperatures or memory give a critical event.
pub proof fn exceeded_limits_are_critical(m: SystemMetrics, c: StressTestConfig)
    requires
        crate::stress::exceeded_limit(m, c) == Some(crate::stress::LimitFault::CpuTemp)
            || crate::stress::exceeded_limit(m, c) == Some(crate::stress::LimitFault::Memory)
            || crate::stress::exceeded_limit(m, c) == Some(
            crate::stress::LimitFault::BatteryTemp,
        ),
    ensures
        critical_events(m, c).len() > 0,
{
}

/// How a file system stress test went so far.
#[derive(Clone, Copy, Debug, PartialEq, Eq, Structural)]
pub struct IOMetrics {
    pub bytes_read: u64,
    pub bytes_written: u64,
    pub read_ops: u64,
    pub write_ops: u64,
    /// Nanoseconds of the operations after which the counts were handed in.
    pub read_latency_ns: u64,
    /// Nanoseconds of the operations after which the counts were handed in.
    pub write_latency_ns: u64,
}

/// What one thread has counted since it last handed its counts in.
#[derive(Clone, Copy, Debug, PartialEq, Eq, Structural)]
pub struct LocalCounts {
    pub read: u64,
    pub written: u64,
    pub ops: u64,
}

impl LocalCounts {
    /// Nothing counted yet.
    pub fn new() -> (r: LocalCounts)
        ensures
            r == (LocalCounts { read: 0, written: 0, ops: 0 }),
            r.wf(),
    {
        LocalCounts { read: 0, written: 0, ops: 0 }
    }

    /// A thread hands its counts in after a hundred operations.
    pub open spec fn wf(self) -> bool {
        self.ops < 100
    }

    /// Counts an operation that read and wrote some bytes. Whether the counts are due to
    /// be handed in comes back.
    pub fn record(&mut self, read: u64, written: u64) -> (due: bool)
        requires
            old(self).wf(),
            old(self).read + read <= u64::MAX,
            old(self).written + written <= u64::MAX,
        ensures
            final(self).read == old(self).read + read,
            final(self).written == old(self).written + written,
            final(self).ops == old(self).ops + 1,
            due == (final(self).ops == 100),
            !due ==> final(self).wf(),
    {
        self.read = self.read + read;
        self.written = self.written + written;
        self.ops = self.ops + 1;
        self.ops % 100 == 0
    }

    /// Hands the counts in, with the time of the last operation, and starts again.
    pub fn hand_in(&mut self, shared: &mut IOMetrics, elapsed_ns: u64)
        requires
            old(shared).bytes_read + old(self).read <= u64::MAX,
            old(shared).bytes_written + old(self).written <= u64::MAX,
            old(shared).read_ops + old(self).ops <= u64::MAX,
            old(shared).write_ops + old(self).ops <= u64::MAX,
            old(shared).read_latency_ns + elapsed_ns <= u64::MAX,
            old(shared).write_latency_ns + elapsed_ns <= u64::MAX,
        ensures
            final(self).wf(),
            *final(self) == (LocalCounts { read: 0, written: 0, ops: 0 }),
            *final(shared) == (IOMetrics {
                bytes_read: (old(shared).bytes_read + old(self).read) as u64,
                bytes_written: (old(shared).bytes_written + old(self).written) as u64,
                read_ops: (old(shared).read_ops + old(self).ops) as u64,
                write_ops: (old(shared).write_ops + old(self).ops) as u64,
                read_latency_ns: (old(shared).read_latency_ns + elapsed_ns) as u64,
                write_latency_ns: (old(shared).write_latency_ns + elapsed_ns) as u64,
            }),
    {
        shared.bytes_read = shared.bytes_read + self.read;
        shared.bytes_written = shared.bytes_written + self.written;
        shared.read_ops = shared.read_ops + self.ops;
        shared.write_ops = shared.write_ops + self.ops;
        shared.read_latency_ns = shared.read_latency_ns + elapsed_ns;
        shared.write_latency_ns = shared.write_latency_ns + elapsed_ns;
        self.read = 0;
        self.written = 0;
        self.ops = 0;
    }
}

/// How fast a file system stress test reads and writes.
#[derive(Clone, Copy, Debug, PartialEq, Eq, Structural)]
pub struct IOReading {
    /// Thousandths of a megabyte per second.
    pub read_speed: u128,
    /// Thousandths of a megabyte per second.
    pub write_speed: u128,
    /// Nanoseconds.
    pub read_latency_ns: u64,
    /// Nanoseconds.
    pub write_latency_ns: u64,
}

impl IOMetrics {
    /// Nothing read or written yet.
    pub fn new() -> (r: IOMetrics)
        ensures
            r == (IOMetrics {
                bytes_read: 0,
                bytes_written: 0,
                read_ops: 0,
                write_ops: 0,
                read_latency_ns: 0,
                write_latency_ns: 0,
            }),
    {
        IOMetrics {
            bytes_read: 0,
            bytes_written: 0,
            read_ops: 0,
            write_ops: 0,
            read_latency_ns: 0,
            write_latency_ns: 0,
        }
    }

    /// The speeds since the start and the latencies of an operation; nothing where there
    /// was no operation.
    pub fn reading(&self, elapsed_ns: u64) -> (r: Option<IOReading>)
        ensures
            r == (if self.read_ops > 0 && self.write_ops > 0 {
                Some(
                    IOReading {
                        read_speed: rate(
                            self.bytes_read as int,
                            elapsed_ns as int,
                            MEGABYTE as int,
                        ) as u128,
                        write_speed: rate(
                            self.bytes_written as int,
                            elapsed_ns as int,
                            MEGABYTE as int,
                        ) as u128,
                        read_latency_ns: (self.read_latency_ns as int / self.read_ops as int) as u64,
                        write_latency_ns: (self.write_latency_ns as int
                            / self.write_ops as int) as u64,
                    },
                )
            } else {
                None
            }),
            r is Some <==> self.read_ops > 0 && self.write_ops > 0,
            r matches Some(v) ==> {
                &&& v.read_latency_ns * self.read_ops <= self.read_latency_ns < (v.read_latency_ns
                    + 1) * self.read_ops
                &&& v.write_latency_ns * self.write_ops <= self.write_latency_ns < (
                v.write_latency_ns + 1) * self.write_ops
                &&& elapsed_ns > 0 ==> is_rate(
                    v.read_speed as int,
                    self.bytes_read as int,
                    elapsed_ns as int,
                    1024int * 1024,
                ) && is_rate(
                    v.write_speed as int,
                    self.bytes_written as int,
                    elapsed_ns as int,
                    1024int * 1024,
                )
                &&& elapsed_ns == 0 ==> v.read_speed == 0 && v.write_speed == 0
            },
    {
        if self.read_ops == 0 || self.write_ops == 0 {
            return None;
        }
        proof {
            quotient_is_near(self.read_latency_ns as int, self.read_ops as int);
            quotient_is_near(self.write_latency_ns as int, self.write_ops as int);
            if elapsed_ns > 0 {
                rates_are_exact(self.bytes_read as int, elapsed_ns as int, 1_048_576);
                rates_are_exact(self.bytes_written as int, elapsed_ns as int, 1_048_576);
            }
        }
        Some(
            IOReading {
                read_speed: rate_of(self.bytes_read, elapsed_ns, MEGABYTE),
                write_speed: rate_of(self.bytes_written, elapsed_ns, MEGABYTE),
                read_latency_ns: self.read_latency_ns / self.read_ops,
                write_latency_ns: self.write_latency_ns / self.write_ops,
            },
        )
    }
}

/// Threads that each of ten operations gets.
pub fn threads_per_operation(max_threads: usize) -> (r: usize)
    ensures
        r == (if max_threads < 10 {
            1
        } else {
            max_threads as int / 10
        }),
        r >= 1,
        max_threads >= 10 ==> r * 10 <= max_threads < (r + 1) * 10,
{
    if max_threads < 10 {
        1
    } else {
        max_threads / 10
    }
}

/// Whether there is room for a file system stress test: more than 50 megabytes.
pub fn has_disk_room(free_mb: u64) -> (r: bool)
    ensures
        r == (free_mb > 50),
{
    free_mb > 50
}

/// What a hundred frames of a scene give.
#[derive(Clone, Copy, Debug, PartialEq, Eq, Structural)]
pub struct SceneReading {
    /// Nanoseconds for each frame.
    pub frame_ns: u64,
    /// Whether there are fewer than thirty frames in a second.
    pub low_fps: bool,
}

/// Judges a scene by the time that a hundred of its frames took.
pub fn judge_scene(scene_ns: u64) -> (r: SceneReading)
    ensures
        r.frame_ns == scene_ns as int / 100,
        r.low_fps == (100 * 1_000_000_000 < 30 * scene_ns),
        r.frame_ns * 100 <= scene_ns < (r.frame_ns + 1) * 100,
        r.low_fps <==> 3 * scene_ns > 10 * 1_000_000_000,
{
    SceneReading {
        frame_ns: scene_ns / 100,
        low_fps: 100_000_000_000u128 < 30 * scene_ns as u128,
    }
}

/// What the memory part of the comprehensive stress test does with some allocations: it
/// makes one of a drawn size while it has fewer than a thousand, and gives all back then.
pub fn memory_stress_step(allocations: usize) -> (r: Option<u64>)
    ensures
        match r {
            Some(size) => allocations < 1000 && 1_048_576 <= size <= 16_777_216,
            None => allocations >= 1000,
        },
{
    if allocations < 1000 {
        Some(gen_range(1_048_576, 16_777_217))
    } else {
        None
    }
}

/// Whether the file part of the comprehensive stress test opens another file.
pub fn opens_file(files: usize) -> (r: bool)
    ensures
        r == (files < 100),
{
    files < 100
}

/// How many files the file part of the comprehensive stress test gives up, the oldest
/// first.
pub fn files_to_drop(files: usize) -> (r: usize)
    ensures
        r == (if files >= 100 {
            50int
        } else {
            0
        }),
        r <= files,
        files <= 100 ==> files - r < 100,
{
    if files >= 100 {
        50
    } else {
        0
    }
}

} // verus!
