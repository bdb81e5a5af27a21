//! Stress tests: limits, the metrics that are held against them, and the memory
//! pressure that a test may put on the device.

use crate::device::file_number;
use crate::procfs::{borrowed, counter_or, get_memory_cached, get_memory_total, get_memory_used};
use crate::procfs::{get_swap_total, get_swap_used, owned_text, size_or};
use crate::profiler::MEGABYTE;
use crate::sensors::{cpu_share, file_stage, fraction_or, millivolts, process_names};
use crate::sensors::{get_battery_current, get_battery_level, get_battery_temperature};
use crate::sensors::{get_battery_voltage, get_context_switches, get_cpu_usage, get_gpu_usage};
use crate::sensors::{get_interrupts, get_process_count, get_thread_count, get_throttling_stage};
use crate::sensors::{measure_cpu_temperature, temperature_stage, thread_total, Platform};
use vstd::prelude::*;

verus! {

/// What a stress test may ask of the device. Shares and temperatures are in thousandths.
#[derive(Clone, Copy, Debug, PartialEq, Eq, Structural)]
pub struct StressTestConfig {
    /// Seconds that the test takes.
    pub test_duration_secs: u64,
    /// Processor load in thousandths of a percent.
    pub max_cpu_usage: u64,
    /// Processor temperature.
    pub max_cpu_temp: u64,
    /// Memory in use.
    pub max_memory_mb: u64,
    /// Number of threads.
    pub max_threads: usize,
    /// Size of a file.
    pub max_file_size_mb: u64,
    /// Number of open files.
    pub max_open_files: usize,
    /// Battery charge that the test may cost, in thousandths of a percent.
    pub max_battery_drain_percent: u64,
    /// Battery current in milliamperes.
    pub max_battery_current_ma: i32,
    /// Battery temperature.
    pub max_temperature_celsius: u64,
    /// Whether the test ends when the processor is throttled.
    pub enable_throttling_protection: bool,
    /// Whether memory is given back when it runs out.
    pub enable_oom_protection: bool,
    /// Whether the load ends when the processor is hot.
    pub enable_thermal_safety: bool,
}

impl StressTestConfig {
    /// The limits on a platform.
    pub fn for_platform(platform: Platform) -> (r: StressTestConfig)
        ensures
            r == (StressTestConfig {
                test_duration_secs: 60,
                max_cpu_usage: if platform == Platform::Android { 80_000 } else { 70_000 },
                max_cpu_temp: 85_000,
                max_memory_mb: if platform == Platform::Android { 400 } else { 300 },
                max_threads: if platform == Platform::Android { 100 } else { 60 },
                max_file_size_mb: if platform == Platform::Android { 200 } else { 100 },
                max_open_files: if platform == Platform::Android { 500 } else { 250 },
                max_battery_drain_percent: 1_000,
                max_battery_current_ma: 2_000,
                max_temperature_celsius: 45_000,
                enable_throttling_protection: true,
                enable_oom_protection: true,
                enable_thermal_safety: true,
            }),
    {
        let android: bool = platform == Platform::Android;
        StressTestConfig {
            test_duration_secs: 60,
            max_cpu_usage: if android { 80_000 } else { 70_000 },
            max_cpu_temp: 85_000,
            max_memory_mb: if android { 400 } else { 300 },
            max_threads: if android { 100 } else { 60 },
            max_file_size_mb: if android { 200 } else { 100 },
            max_open_files: if android { 500 } else { 250 },
            max_battery_drain_percent: 1_000,
            max_battery_current_ma: 2_000,
            max_temperature_celsius: 45_000,
            enable_throttling_protection: true,
            enable_oom_protection: true,
            enable_thermal_safety: true,
        }
    }
}

/// The state of the device at one moment. Shares are in thousandths of a percent and
/// temperatures in thousandths of a degree.
#[derive(Clone, Copy, Debug, PartialEq, Eq, Structural)]
pub struct SystemMetrics {
    pub cpu_usage: u64,
    pub cpu_temp: u64,
    pub gpu_usage: u64,
    pub memory_used: u64,
    pub memory_total: u64,
    pub memory_cache: u64,
    pub swap_used: u64,
    pub swap_total: u64,
    pub battery_level: u64,
    pub battery_current: i32,
    pub battery_temperature: u64,
    pub battery_voltage: u32,
    pub thermal_throttling: bool,
    pub throttling_stage: u32,
    /// Nanoseconds since boot.
    pub uptime_ns: u64,
    pub processes: u32,
    pub threads: u32,
    pub context_switches: u64,
    pub interrupts: u64,
    /// Nanoseconds since the test started.
    pub timestamp_ns: u64,
}

/// The files of the device, as far as they could be read.
#[derive(Debug)]
pub struct DeviceFiles {
    /// The platform.
    pub platform: Platform,
    /// `/proc/stat`.
    pub stat: Option<String>,
    /// `/proc/meminfo`.
    pub meminfo: Option<String>,
    /// The temperature of the first thermal zone.
    pub zone: Option<String>,
    /// The load of the graphics processor: a number, where it is one.
    pub gpu_busy: Option<Option<u64>>,
    /// The charge of the battery: a number, where it is one.
    pub capacity: Option<Option<u64>>,
    /// The current of the battery.
    pub current: Option<String>,
    /// The temperature of the battery.
    pub battery_temp: Option<String>,
    /// The voltage of the battery.
    pub voltage: Option<String>,
    /// The state of the thermal message.
    pub message: Option<String>,
    /// The state of the first cooling device.
    pub cooling: Option<String>,
    /// The names in `/proc`.
    pub proc_names: Option<Vec<String>>,
    /// The names in `/proc` with the numbers of threads that could be listed.
    pub threads: Vec<(String, Option<usize>)>,
    /// Nanoseconds since boot.
    pub uptime_ns: u64,
    /// Nanoseconds since the test started.
    pub timestamp_ns: u64,
}

/// Whether every number that the files give fits.
pub open spec fn files_fit(f: DeviceFiles) -> bool {
    let info = owned_text(f.meminfo);
    let total = size_or(info, "MemTotal:"@, 4_294_967_296);
    let available = size_or(info, "MemAvailable:"@, 2_147_483_648);
    let swap = size_or(info, "SwapTotal:"@, 1_073_741_824);
    let free = size_or(info, "SwapFree:"@, 838_860_800);
    &&& available <= total <= u64::MAX
    &&& free <= swap <= u64::MAX
    &&& size_or(info, "Cached:"@, 524_288_000) <= u64::MAX
    &&& f.platform == Platform::Android ==> thread_total(f.threads@) <= u32::MAX
}

/// Whether the metrics are those of the files. Where a file could not be read, a number
/// was drawn from its range.
pub open spec fn are_metrics_of(m: SystemMetrics, f: DeviceFiles) -> bool {
    let stat = owned_text(f.stat);
    let info = owned_text(f.meminfo);
    let zone = file_number(owned_text(f.zone), u32::MAX as int);
    &&& match cpu_share(stat) {
        Some(v) => m.cpu_usage == v,
        None => 20_000 <= m.cpu_usage < 60_000,
    }
    &&& match zone {
        Some(t) => m.cpu_temp == t,
        None => 35_000 <= m.cpu_temp < 65_000,
    }
    &&& match fraction_or(f.gpu_busy, 0) {
        Some(v) => m.gpu_usage == v,
        None => 30_000 <= m.gpu_usage < 80_000,
    }
    &&& m.memory_total == size_or(info, "MemTotal:"@, 4_294_967_296)
    &&& m.memory_used == m.memory_total - size_or(info, "MemAvailable:"@, 2_147_483_648)
    &&& m.memory_cache == size_or(info, "Cached:"@, 524_288_000)
    &&& m.swap_total == size_or(info, "SwapTotal:"@, 1_073_741_824)
    &&& m.swap_used == m.swap_total - size_or(info, "SwapFree:"@, 838_860_800)
    &&& match fraction_or(f.capacity, 50_000) {
        Some(v) => m.battery_level == v,
        None => 30_000 <= m.battery_level < 70_000,
    }
    &&& match owned_text(f.current) {
        Some(s) => m.battery_current == (match crate::decimal::parsed_i32(crate::text::trimmed(s)) {
            Some(v) => v,
            None => 0,
        }),
        None => -500 <= m.battery_current < 500,
    }
    &&& match owned_text(f.battery_temp) {
        Some(s) => m.battery_temperature == crate::decimal::parsed_or(
            crate::text::trimmed(s),
            u32::MAX as int,
            300,
        ) * 100,
        None => 25_000 <= m.battery_temperature < 40_000,
    }
    &&& m.battery_voltage == millivolts(owned_text(f.voltage))
    &&& m.throttling_stage == (match file_stage(owned_text(f.message), owned_text(f.cooling)) {
        Some(v) => v,
        None => match zone {
            Some(t) => temperature_stage(t),
            None => 0,
        },
    })
    &&& m.thermal_throttling == (m.throttling_stage > 0)
    &&& m.uptime_ns == f.uptime_ns
    &&& m.processes == (match f.proc_names {
        Some(v) => process_names(v@),
        None => 200,
    })
    &&& m.threads == (match f.platform {
        Platform::Android => thread_total(f.threads@),
        Platform::Ios => 1000,
    })
    &&& m.context_switches == counter_or(stat, "ctxt "@, 1_000_000)
    &&& m.interrupts == counter_or(stat, "intr "@, 500_000)
    &&& m.timestamp_ns == f.timestamp_ns
}

/// The metrics that the files of the device give; nothing where a number does not fit.
pub fn collect_system_metrics(f: &DeviceFiles) -> (r: Option<SystemMetrics>)
    requires
        f.proc_names matches Some(v) ==> v@.len() <= u32::MAX,
    ensures
        r is Some <==> files_fit(*f),
        r matches Some(m) ==> are_metrics_of(m, *f),
{
    let stat = borrowed(&f.stat);
    let meminfo = borrowed(&f.meminfo);
    let zone = borrowed(&f.zone);
    let memory_used: u64 = match get_memory_used(meminfo) {
        Some(v) => v,
        None => {
            return None;
        },
    };
    let memory_total: u64 = match get_memory_total(meminfo) {
        Some(v) => v,
        None => {
            return None;
        },
    };
    let memory_cache: u64 = match get_memory_cached(meminfo) {
        Some(v) => v,
        None => {
            return None;
        },
    };
    let swap_used: u64 = match get_swap_used(meminfo) {
        Some(v) => v,
        None => {
            return None;
        },
    };
    let swap_total: u64 = match get_swap_total(meminfo) {
        Some(v) => v,
        None => {
            return None;
        },
    };
    let threads: u32 = match get_thread_count(f.platform, &f.threads) {
        Some(v) => v,
        None => {
            return None;
        },
    };
    let names: Option<&Vec<String>> = match &f.proc_names {
        Some(v) => Some(v),
        None => None,
    };
    let throttling_stage: u32 = get_throttling_stage(
        borrowed(&f.message),
        borrowed(&f.cooling),
        zone,
    );
    Some(
        SystemMetrics {
            cpu_usage: get_cpu_usage(stat),
            cpu_temp: measure_cpu_temperature(zone),
            gpu_usage: get_gpu_usage(f.gpu_busy),
            memory_used,
            memory_total,
            memory_cache,
            swap_used,
            swap_total,
            battery_level: get_battery_level(f.capacity),
            battery_current: get_battery_current(borrowed(&f.current)),
            battery_temperature: get_battery_temperature(borrowed(&f.battery_temp)),
            battery_voltage: get_battery_voltage(borrowed(&f.voltage)),
            thermal_throttling: throttling_stage > 0,
            throttling_stage,
            uptime_ns: f.uptime_ns,
            processes: get_process_count(names),
            threads,
            context_switches: get_context_switches(stat),
            interrupts: get_interrupts(stat),
            timestamp_ns: f.timestamp_ns,
        },
    )
}

/// Which limit is exceeded.
#[derive(Clone, Copy, Debug, PartialEq, Eq, Structural)]
pub enum LimitFault {
    /// The processor load is above one and a half times its limit.
    CpuUsage,
    /// The processor temperature is above its limit.
    CpuTemp,
    /// More than one and a half times the memory is in use.
    Memory,
    /// The battery temperature is above six fifths of its limit.
    BatteryTemp,
    /// The battery current is above twice its limit, in either direction.
    BatteryCurrent,
}

/// The first limit that the metrics exceed.
pub open spec fn exceeded_limit(m: SystemMetrics, c: StressTestConfig) -> Option<LimitFault> {
    let current = m.battery_current as int;
    if 2 * m.cpu_usage > 3 * c.max_cpu_usage {
        Some(LimitFault::CpuUsage)
    } else if m.cpu_temp > c.max_cpu_temp {
        Some(LimitFault::CpuTemp)
    } else if 2 * m.memory_used > 3 * c.max_memory_mb * MEGABYTE {
        Some(LimitFault::Memory)
    } else if 5 * m.battery_temperature > 6 * c.max_temperature_celsius {
        Some(LimitFault::BatteryTemp)
    } else if current > 2 * c.max_battery_current_ma || -current > 2 * c.max_battery_current_ma {
        Some(LimitFault::BatteryCurrent)
    } else {
        None
    }
}

/// Holds the metrics against the limits; the first one exceeded is the error.
pub fn check_limits(m: &SystemMetrics, c: &StressTestConfig) -> (r: Result<(), LimitFault>)
    ensures
        r == (match exceeded_limit(*m, *c) {
            Some(fault) => Err::<(), LimitFault>(fault),
            None => Ok::<(), LimitFault>(()),
        }),
{
    let current: i64 = m.battery_current as i64;
    let max_current: i64 = 2 * c.max_battery_current_ma as i64;
    if 2 * m.cpu_usage as u128 > 3 * c.max_cpu_usage as u128 {
        Err(LimitFault::CpuUsage)
    } else if m.cpu_temp > c.max_cpu_temp {
        Err(LimitFault::CpuTemp)
    } else if 2 * m.memory_used as u128 > 3 * c.max_memory_mb as u128 * MEGABYTE as u128 {
        Err(LimitFault::Memory)
    } else if 5 * m.battery_temperature as u128 > 6 * c.max_temperature_celsius as u128 {
        Err(LimitFault::BatteryTemp)
    } else if current > max_current || -current > max_current {
        Err(LimitFault::BatteryCurrent)
    } else {
        Ok(())
    }
}

/// Metrics that are nowhere above ones within the limits are within the limits.
pub proof fn calmer_metrics_stay_within_limits(
    m: SystemMetrics,
    calmer: SystemMetrics,
    c: StressTestConfig,
)
    requires
        exceeded_limit(m, c) is None,
        calmer.cpu_usage <= m.cpu_usage,
        calmer.cpu_temp <= m.cpu_temp,
        calmer.memory_used <= m.memory_used,
        calmer.battery_temperature <= m.battery_temperature,
        crate::detector::abs(calmer.battery_current as int) <= crate::detector::abs(
            m.battery_current as int,
        ),
    ensures
        exceeded_limit(calmer, c) is None,
{
}

} // verus!
