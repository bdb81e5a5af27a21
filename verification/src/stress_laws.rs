//! What the stress tests hold against their limits, and what they do when memory or
//! cooling runs short.

use crate::decimal::{parsed, parsed_i32};
use crate::detector::abs;
use crate::monitor::{critical_events, larger, stops_at, thermal_verdict, CriticalEvent};
use crate::monitor::{ThermalFault, ThermalMonitor};
use crate::pressure::{allocation_sizes, gives_memory_back, next_allocations, next_score, pressure};
use crate::pressure::{protects, released, used_below, used_share, PressureTest};
use crate::report::ThermalSample;
use crate::report_laws::throttled_looks_are_counted;
use crate::stress::{are_metrics_of, exceeded_limit, files_fit, DeviceFiles, LimitFault};
use crate::procfs::first_field;
use crate::stress::{StressTestConfig, SystemMetrics};
use crate::text::{split, trimmed};
use vstd::prelude::*;

verus! {

/// Whether metrics are beyond a limit: the load beyond one and a half times its limit, the
/// processor temperature beyond its own, the memory beyond one and a half times its limit
/// in megabytes, the battery temperature beyond six fifths, and the current beyond twice
/// its limit in either direction.
pub open spec fn is_beyond(m: SystemMetrics, c: StressTestConfig, f: LimitFault) -> bool {
    match f {
        LimitFault::CpuUsage => m.cpu_usage * 10 > c.max_cpu_usage * 15,
        LimitFault::CpuTemp => m.cpu_temp > c.max_cpu_temp,
        LimitFault::Memory => m.memory_used * 10 > c.max_memory_mb * 1024 * 1024 * 15,
        LimitFault::BatteryTemp => m.battery_temperature * 10 > c.max_temperature_celsius * 12,
        LimitFault::BatteryCurrent => abs(m.battery_current as int) > c.max_battery_current_ma * 2,
    }
}

/// Metrics are within the limits where they are beyond none of them, and otherwise the
/// fault is the first limit that they are beyond, in the order of load, processor
/// temperature, memory, battery temperature and current.
pub proof fn limits_are_checked_in_order(m: SystemMetrics, c: StressTestConfig)
    ensures
        exceeded_limit(m, c) is None <==> forall|f: LimitFault| !#[trigger] is_beyond(m, c, f),
        exceeded_limit(m, c) matches Some(f) ==> is_beyond(m, c, f),
        exceeded_limit(m, c) == Some(LimitFault::CpuUsage) <==> is_beyond(
            m,
            c,
            LimitFault::CpuUsage,
        ),
        exceeded_limit(m, c) == Some(LimitFault::CpuTemp) <==> is_beyond(m, c, LimitFault::CpuTemp)
            && !is_beyond(m, c, LimitFault::CpuUsage),
        exceeded_limit(m, c) == Some(LimitFault::Memory) <==> is_beyond(m, c, LimitFault::Memory)
            && !is_beyond(m, c, LimitFault::CpuUsage) && !is_beyond(m, c, LimitFault::CpuTemp),
        exceeded_limit(m, c) == Some(LimitFault::BatteryTemp) <==> is_beyond(
            m,
            c,
            LimitFault::BatteryTemp,
        ) && !is_beyond(m, c, LimitFault::CpuUsage) && !is_beyond(m, c, LimitFault::CpuTemp)
            && !is_beyond(m, c, LimitFault::Memory),
        exceeded_limit(m, c) == Some(LimitFault::BatteryCurrent) <==> is_beyond(
            m,
            c,
            LimitFault::BatteryCurrent,
        ) && !is_beyond(m, c, LimitFault::CpuUsage) && !is_beyond(m, c, LimitFault::CpuTemp)
            && !is_beyond(m, c, LimitFault::Memory) && !is_beyond(m, c, LimitFault::BatteryTemp),
{
    match exceeded_limit(m, c) {
        Some(f) => {
            assert(is_beyond(m, c, f));
        },
        None => {
            assert forall|f: LimitFault| !#[trigger] is_beyond(m, c, f) by {}
        },
    }
    assert(is_beyond(m, c, LimitFault::CpuUsage) == (2 * m.cpu_usage > 3 * c.max_cpu_usage));
}

/// Metrics that were collected agree with each other and with the files: what is in use and
/// what is available make up the whole, the processor is throttled where its stage is not
/// zero, and the times are those that were given.
pub proof fn metrics_are_consistent(m: SystemMetrics, f: DeviceFiles)
    requires
        files_fit(f),
        are_metrics_of(m, f),
    ensures
        m.memory_used <= m.memory_total,
        m.swap_used <= m.swap_total,
        m.thermal_throttling <==> m.throttling_stage != 0,
        m.uptime_ns == f.uptime_ns,
        m.timestamp_ns == f.timestamp_ns,
        crate::sensors::cpu_share(crate::procfs::owned_text(f.stat)) matches Some(v)
            ==> m.cpu_usage == v && m.cpu_usage <= 100_000,
        f.stat is None ==> 20_000 <= m.cpu_usage < 60_000 && m.context_switches == 1_000_000
            && m.interrupts == 500_000,
        f.zone is None ==> 35_000 <= m.cpu_temp < 65_000,
        f.battery_temp is None ==> 25_000 <= m.battery_temperature < 40_000,
        f.current is None ==> -500 <= m.battery_current < 500,
        f.capacity matches Some(Some(v)) ==> m.battery_level == v,
        f.gpu_busy matches Some(Some(v)) ==> m.gpu_usage == v,
        f.meminfo is None ==> m.memory_total == 4 * 1024 * 1024 * 1024 && m.memory_used == 2 * 1024
            * 1024 * 1024 && m.swap_total == 1024 * 1024 * 1024,
        f.message is None && f.cooling is None && f.zone is None ==> !m.thermal_throttling,
{
    match f.stat {
        Some(s) => {
            crate::sensors::busy_share_is_at_most_all(crate::text::split(s@, '\n'));
        },
        None => {},
    }
    crate::procfs_laws::sizes_are_not_negative(
        crate::procfs::owned_text(f.meminfo),
        "MemAvailable:"@,
        2_147_483_648,
    );
    crate::procfs_laws::sizes_are_not_negative(
        crate::procfs::owned_text(f.meminfo),
        "SwapFree:"@,
        838_860_800,
    );
}

/// Metrics hold what the files say: a temperature, a current, a voltage, a stage or a size
/// is the number in its file, in the unit of the metric, and the processes and threads are
/// those that are listed.
pub proof fn metrics_are_read_from_the_files(m: SystemMetrics, f: DeviceFiles)
    requires
        files_fit(f),
        are_metrics_of(m, f),
    ensures
        f.zone matches Some(s) ==> (parsed(trimmed(s@), 0xffff_ffff) matches Ok(v) ==> m.cpu_temp
            == v),
        f.battery_temp matches Some(s) ==> match parsed(trimmed(s@), 0xffff_ffff) {
            Ok(v) => m.battery_temperature == 100 * v,
            Err(_) => m.battery_temperature == 30 * 1000,
        },
        f.current matches Some(s) ==> match parsed_i32(trimmed(s@)) {
            Some(v) => m.battery_current == v,
            None => m.battery_current == 0,
        },
        f.voltage matches Some(s) ==> match parsed(trimmed(s@), 0xffff_ffff) {
            Ok(v) => m.battery_voltage * 1000 <= v < (m.battery_voltage + 1) * 1000,
            Err(_) => m.battery_voltage == 3700,
        },
        f.message matches Some(s) ==> match parsed(trimmed(s@), 0xffff_ffff) {
            Ok(v) => m.throttling_stage == v,
            Err(_) => m.throttling_stage == 0,
        },
        f.message is None ==> (f.cooling matches Some(s) ==> match parsed(
            trimmed(s@),
            0xffff_ffff,
        ) {
            Ok(v) => m.throttling_stage == v,
            Err(_) => m.throttling_stage == 0,
        }),
        f.message is None && f.cooling is None ==> (f.zone matches Some(s) ==> (parsed(
            trimmed(s@),
            0xffff_ffff,
        ) matches Ok(v) ==> m.throttling_stage == (if v > 80_000 {
            2int
        } else if v > 70_000 {
            1
        } else {
            0
        }))),
        f.meminfo matches Some(s) ==> {
            let lines = split(s@, '\n');
            &&& first_field(lines, "MemTotal:"@) matches Some(w) ==> (parsed(
                w,
                0xffff_ffff_ffff_ffff,
            ) matches Ok(v) ==> m.memory_total == 1024 * v)
            &&& first_field(lines, "MemAvailable:"@) matches Some(w) ==> (parsed(
                w,
                0xffff_ffff_ffff_ffff,
            ) matches Ok(v) ==> m.memory_used + 1024 * v == m.memory_total)
            &&& first_field(lines, "Cached:"@) matches Some(w) ==> (parsed(
                w,
                0xffff_ffff_ffff_ffff,
            ) matches Ok(v) ==> m.memory_cache == 1024 * v)
            &&& first_field(lines, "SwapTotal:"@) matches Some(w) ==> (parsed(
                w,
                0xffff_ffff_ffff_ffff,
            ) matches Ok(v) ==> m.swap_total == 1024 * v)
            &&& first_field(lines, "SwapFree:"@) matches Some(w) ==> (parsed(
                w,
                0xffff_ffff_ffff_ffff,
            ) matches Ok(v) ==> m.swap_used + 1024 * v == m.swap_total)
        },
        f.stat matches Some(s) ==> {
            let lines = split(s@, '\n');
            &&& first_field(lines, "ctxt "@) matches Some(w) ==> (parsed(
                w,
                0xffff_ffff_ffff_ffff,
            ) matches Ok(v) ==> m.context_switches == v)
            &&& first_field(lines, "intr "@) matches Some(w) ==> (parsed(
                w,
                0xffff_ffff_ffff_ffff,
            ) matches Ok(v) ==> m.interrupts == v)
        },
        f.proc_names matches Some(names) ==> m.processes == names@.filter(
            |n: String| parsed(n@, 0xffff_ffff) is Ok,
        ).len(),
{
    match f.proc_names {
        Some(names) => {
            crate::procfs_laws::processes_are_counted(names@);
        },
        None => {},
    }
}

/// A look fails the test where the processor or else the battery has reached its limit, and
/// ends the load where the processor is throttled at the second stage or above, if that is
/// asked for.
pub proof fn looks_are_judged(s: ThermalSample, c: StressTestConfig)
    ensures
        thermal_verdict(s, c) == Err::<bool, ThermalFault>(ThermalFault::CpuCritical) <==> s.cpu_temp
            >= c.max_cpu_temp,
        thermal_verdict(s, c) == Err::<bool, ThermalFault>(ThermalFault::BatteryCritical)
            <==> s.cpu_temp < c.max_cpu_temp && s.battery_temp >= c.max_temperature_celsius,
        thermal_verdict(s, c) == Ok::<bool, ThermalFault>(true) <==> s.cpu_temp < c.max_cpu_temp
            && s.battery_temp < c.max_temperature_celsius && s.throttling && s.stage > 1
            && c.enable_thermal_safety,
{
}

/// What a thermal monitor has counted is what its looks show: as many events as looks that
/// found the processor throttled, and the highest temperature of all, or zero before the
/// first.
pub proof fn monitors_count_their_looks(t: ThermalMonitor)
    requires
        t.wf(),
    ensures
        t.throttling_events == t.history@.filter(|s: ThermalSample| s.throttling).len(),
        forall|i: int| 0 <= i < t.history@.len() ==> (#[trigger] t.history@[i]).cpu_temp
            <= t.max_temp,
        t.history@.len() > 0 ==> exists|i: int|
            0 <= i < t.history@.len() && (#[trigger] t.history@[i]).cpu_temp == t.max_temp,
        t.history@.len() == 0 ==> t.max_temp == 0,
{
    let temps = crate::report::sample_temps(t.history@);
    throttled_looks_are_counted(t.history@);
    crate::series::peak_is_the_largest(temps);
    assert forall|i: int| 0 <= i < t.history@.len() implies (#[trigger] t.history@[i]).cpu_temp
        <= t.max_temp by {
        assert(temps[i] <= t.max_temp);
    }
    if t.history@.len() > 0 {
        let i = choose|i: int| 0 <= i < temps.len() && #[trigger] temps[i] == t.max_temp;
        assert(t.history@[i].cpu_temp == t.max_temp);
    }
}

/// The critical events in some metrics: which of the four there are, and that each comes at
/// most once.
pub proof fn critical_events_are_those_exceeded(m: SystemMetrics, c: StressTestConfig)
    ensures
        ({
            let e = critical_events(m, c);
            let hot = m.cpu_temp > c.max_cpu_temp;
            let warm = m.battery_temperature > c.max_temperature_celsius;
            let full = m.memory_used * 10 > c.max_memory_mb * 1024 * 1024 * 12;
            let slow = m.thermal_throttling;
            &&& e.contains(CriticalEvent::HighCpuTemp { temp: m.cpu_temp }) <==> hot
            &&& e.contains(CriticalEvent::HighBatteryTemp { temp: m.battery_temperature }) <==> warm
            &&& e.contains(CriticalEvent::HighMemory { bytes: m.memory_used }) <==> full
            &&& e.contains(CriticalEvent::Throttling { stage: m.throttling_stage }) <==> slow
            &&& e.len() == (if hot { 1int } else { 0 }) + (if warm { 1int } else { 0 }) + (if full {
                1int
            } else {
                0
            }) + (if slow { 1int } else { 0 })
        }),
        stops_at(m, c) <==> m.thermal_throttling && c.enable_throttling_protection
            && m.throttling_stage > 1,
{
    let e = critical_events(m, c);
    let hot = m.cpu_temp > c.max_cpu_temp;
    let warm = m.battery_temperature > c.max_temperature_celsius;
    let full = m.memory_used * 10 > c.max_memory_mb * 1024 * 1024 * 12;
    let a: int = if hot { 1 } else { 0 };
    let b: int = a + if warm { 1int } else { 0 };
    let d: int = b + if full { 1int } else { 0 };
    assert(full == (5 * m.memory_used > 6 * c.max_memory_mb * crate::profiler::MEGABYTE));
    if hot {
        assert(e[0] == CriticalEvent::HighCpuTemp { temp: m.cpu_temp });
    }
    if warm {
        assert(e[a] == CriticalEvent::HighBatteryTemp { temp: m.battery_temperature });
    }
    if full {
        assert(e[b] == CriticalEvent::HighMemory { bytes: m.memory_used });
    }
    if m.thermal_throttling {
        assert(e[d] == CriticalEvent::Throttling { stage: m.throttling_stage });
    }
}

/// The larger of two numbers is one of them and below neither.
pub proof fn larger_is_the_larger(a: u64, b: u64)
    ensures
        larger(a, b) >= a,
        larger(a, b) >= b,
        larger(a, b) == a || larger(a, b) == b,
{
}

/// Memory is critically scarce where more than nine tenths are in use, highly where more
/// than three quarters are, medium where more than a half is, and not scarce otherwise.
pub proof fn pressure_follows_the_use(free: int, total: int)
    requires
        0 <= free,
        0 < total,
    ensures
        pressure(free, total) is Critical <==> 10 * (total - free) > 9 * total,
        pressure(free, total) is High <==> 10 * (total - free) <= 9 * total && 4 * (total - free)
            > 3 * total,
        pressure(free, total) is Medium <==> 4 * (total - free) <= 3 * total && 2 * (total - free)
            > total,
        pressure(free, total) is Low <==> 2 * (total - free) <= total,
        used_below(free, total, 85) <==> 20 * (total - free) < 17 * total,
        used_share(free, total) matches Some(v) && v * total <= 100_000 * (total - free) < (v + 1)
            * total,
{
    crate::arith::quotient_is_near((total - free) * 100_000, total);
}

/// What a step of the memory pressure test does. Under critical pressure with protection it
/// waits ten times, and then gives back a thousand allocations, or all; under high pressure
/// it gives one back where the coin says so; and below 85 percent it makes one.
pub proof fn steps_follow_the_pressure(
    t: PressureTest,
    free: int,
    total: int,
    protection: bool,
    coin: bool,
)
    requires
        t.wf(),
    ensures
        ({
            let gone = released(t, free, total, protection, coin);
            let level = pressure(free, total);
            let score = next_score(t, free, total, protection);
            &&& 0 <= gone <= t.allocations
            &&& level is Critical && protection && t.oom_score == 10 ==> gone == (if t.allocations
                < 1000 {
                t.allocations as int
            } else {
                1000
            }) && score == 0 && protects(t, free, total, protection)
            &&& level is Critical && protection && t.oom_score < 10 ==> gone == 0 && score
                == t.oom_score + 1 && !protects(t, free, total, protection)
            &&& !(level is Critical) || !protection ==> score == t.oom_score && !protects(
                t,
                free,
                total,
                protection,
            )
            &&& level is Critical && !protection ==> gone == 0
            &&& level is High ==> gone == (if coin && t.allocations > 0 { 1int } else { 0 })
            &&& level is Medium || level is Low ==> gone == 0
            &&& next_allocations(t, free, total, protection, coin) == t.allocations - gone + (
            if used_below(free, total, 85) { 1int } else { 0 })
        }),
{
}

/// There are four sizes of allocations: a kilobyte, 64 kilobytes, a megabyte and 16
/// megabytes.
pub proof fn sizes_grow(i: int)
    ensures
        allocation_sizes().len() == 4,
        allocation_sizes()[0] == 1024,
        allocation_sizes()[3] == 16 * 1024 * 1024,
        0 <= i < 3 ==> allocation_sizes()[i] * 16 <= allocation_sizes()[i + 1] <= allocation_sizes()[i]
            * 64,
        allocation_sizes()[1] == 64 * allocation_sizes()[0],
        allocation_sizes()[2] == 16 * allocation_sizes()[1],
{
}

/// Memory counts as given back where the free memory after differs from that before by
/// less than ten megabytes, up or down.
pub proof fn small_differences_are_given_back(before: int, after: int)
    ensures
        gives_memory_back(before, after) <==> -10 * 1024 * 1024 < after - before < 10 * 1024 * 1024,
        gives_memory_back(before, after) == gives_memory_back(after, before),
{
}

} // verus!
