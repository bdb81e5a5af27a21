use mobile_perf::checks::{self, FilesystemFault, KernelStats, NetworkFault};
use mobile_perf::files::{self, FileAccess, FileWorkload, StabilityOperation};
use mobile_perf::media;
use mobile_perf::monitor::{self, CriticalEvent, IOMetrics, LocalCounts, OpsMonitor, ThermalFault};
use mobile_perf::monitor::{ThermalLoad, ThermalMonitor};
use mobile_perf::network::{self, Attempts, NetworkCondition, NetworkKind};
use mobile_perf::pressure::{self, MemoryPressure, PressureTest};
use mobile_perf::report::{self, ThermalSample};
use mobile_perf::sensors::Platform;
use mobile_perf::series;
use mobile_perf::stress::{self, DeviceFiles, LimitFault, StressTestConfig, SystemMetrics};
use mobile_perf::workload;
use std::collections::VecDeque;

fn metrics() -> SystemMetrics {
    SystemMetrics {
        cpu_usage: 50_000,
        cpu_temp: 40_000,
        gpu_usage: 10_000,
        memory_used: 100 << 20,
        memory_total: 1 << 30,
        memory_cache: 7 << 20,
        swap_used: 1 << 20,
        swap_total: 2 << 20,
        battery_level: 80_000,
        battery_current: -100,
        battery_temperature: 30_000,
        battery_voltage: 3800,
        thermal_throttling: false,
        throttling_stage: 0,
        uptime_ns: 5,
        processes: 6,
        threads: 7,
        context_switches: 10_000,
        interrupts: 9,
        timestamp_ns: 1_000_000_000,
    }
}

fn unread(platform: Platform) -> DeviceFiles {
    DeviceFiles {
        platform,
        stat: None,
        meminfo: None,
        zone: None,
        gpu_busy: None,
        capacity: None,
        current: None,
        battery_temp: None,
        voltage: None,
        message: None,
        cooling: None,
        proc_names: None,
        threads: Vec::new(),
        uptime_ns: 3,
        timestamp_ns: 4,
    }
}

#[test]
fn limits_depend_on_the_platform() {
    let a = StressTestConfig::for_platform(Platform::Android);
    let i = StressTestConfig::for_platform(Platform::Ios);
    assert_eq!((a.max_cpu_usage, a.max_memory_mb, a.max_threads), (80_000, 400, 100));
    assert_eq!((i.max_cpu_usage, i.max_memory_mb, i.max_threads), (70_000, 300, 60));
    assert_eq!((a.max_file_size_mb, a.max_open_files), (200, 500));
    assert_eq!((i.max_file_size_mb, i.max_open_files), (100, 250));
    assert_eq!((i.max_cpu_temp, i.max_temperature_celsius), (85_000, 45_000));
}

#[test]
fn metrics_are_collected() {
    let m = stress::collect_system_metrics(&unread(Platform::Ios)).unwrap();
    assert_eq!((m.memory_total, m.memory_used), (4 << 30, 2 << 30));
    assert_eq!(m.swap_used, 224 << 20);
    assert_eq!((m.processes, m.threads, m.battery_voltage), (200, 1000, 3700));
    assert_eq!((m.throttling_stage, m.thermal_throttling), (0, false));
    assert_eq!((m.uptime_ns, m.timestamp_ns), (3, 4));
    assert!((20_000..60_000).contains(&m.cpu_usage));
    let mut f = unread(Platform::Android);
    f.stat = Some("cpu 1 1 1 1\nctxt 5\nintr 6\n".to_string());
    f.message = Some("2".to_string());
    f.zone = Some("81000".to_string());
    f.threads = vec![("1".to_string(), Some(3))];
    f.proc_names = Some(vec!["1".to_string(), "x".to_string()]);
    let m = stress::collect_system_metrics(&f).unwrap();
    assert_eq!((m.cpu_usage, m.cpu_temp), (75_000, 81_000));
    assert_eq!((m.throttling_stage, m.thermal_throttling), (2, true));
    assert_eq!((m.processes, m.threads, m.context_switches, m.interrupts), (1, 3, 5, 6));
    f.meminfo = Some("MemTotal: 1\nMemAvailable: 2\n".to_string());
    assert!(stress::collect_system_metrics(&f).is_none());
}

#[test]
fn limits_are_checked_in_order() {
    let c = StressTestConfig::for_platform(Platform::Android);
    let mut m = metrics();
    assert_eq!(stress::check_limits(&m, &c), Ok(()));
    m.cpu_usage = 120_000;
    m.cpu_temp = 85_000;
    m.memory_used = 600 << 20;
    m.battery_temperature = 54_000;
    m.battery_current = -4000;
    assert_eq!(stress::check_limits(&m, &c), Ok(()));
    m.battery_current = -4001;
    assert_eq!(stress::check_limits(&m, &c), Err(LimitFault::BatteryCurrent));
    m.battery_temperature = 54_001;
    assert_eq!(stress::check_limits(&m, &c), Err(LimitFault::BatteryTemp));
    m.memory_used += 1;
    assert_eq!(stress::check_limits(&m, &c), Err(LimitFault::Memory));
    m.cpu_temp += 1;
    assert_eq!(stress::check_limits(&m, &c), Err(LimitFault::CpuTemp));
    m.cpu_usage += 1;
    assert_eq!(stress::check_limits(&m, &c), Err(LimitFault::CpuUsage));
    let mut m = metrics();
    m.battery_current = i32::MIN;
    assert_eq!(stress::check_limits(&m, &c), Err(LimitFault::BatteryCurrent));
}

#[test]
fn memory_pressure_has_levels() {
    assert_eq!(pressure::pressure_level(50, 100), MemoryPressure::Low);
    assert_eq!(pressure::pressure_level(49, 100), MemoryPressure::Medium);
    assert_eq!(pressure::pressure_level(24, 100), MemoryPressure::High);
    assert_eq!(pressure::pressure_level(10, 100), MemoryPressure::High);
    assert_eq!(pressure::pressure_level(9, 100), MemoryPressure::Critical);
    assert_eq!(pressure::pressure_level(0, 0), MemoryPressure::Low);
    assert_eq!(pressure::used_percent(1, 3), Some(66_666));
    assert_eq!(pressure::used_percent(4, 3), Some(-33_334));
    assert_eq!(pressure::used_percent(4, 0), None);
}

#[test]
fn pressure_is_relieved() {
    let mut t = PressureTest::new();
    for i in 0..1200 {
        let a = t.step(50, 100, true, true);
        assert!(a.allocate && a.release == 0);
        assert_eq!(a.report, i == 999);
    }
    for _ in 0..10 {
        let a = t.step(0, 100, true, false);
        assert!(!a.allocate && !a.protection && a.release == 0);
    }
    let a = t.step(0, 100, true, false);
    assert!(a.protection);
    assert_eq!((a.release, t.allocations, t.oom_score), (1000, 200, 0));
    let a = t.step(20, 100, true, true);
    assert_eq!((a.release, a.allocate, t.allocations), (1, true, 200));
    let a = t.step(15, 100, true, false);
    assert_eq!((a.release, a.allocate, t.allocations), (0, false, 200));
    for _ in 0..20 {
        assert_eq!(t.step(0, 100, false, true).release, 0);
    }
    let (a, size) = t.random_step(50, 100, true);
    assert!(a.allocate);
    assert!([1_024, 65_536, 1_048_576, 16_777_216].contains(&size));
    assert_eq!(pressure::allocation_size(3), 16_777_216);
    assert!(t.step(1, 0, true, false).allocate);
    assert!(!t.step(0, 0, true, false).allocate);
}

#[test]
fn allocations_are_averaged_and_returned() {
    assert_eq!(pressure::recent_average(&vec![2000; 10]), 20);
    let mut times = vec![1_000_000; 5];
    times.extend(vec![3000; 1000]);
    assert_eq!(pressure::recent_average(&times), 3000);
    assert_eq!(pressure::check_leak(100 << 20, 91 << 20), Ok(()));
    assert_eq!(pressure::check_leak(100 << 20, 90 << 20), Err(10));
    assert_eq!(pressure::check_leak(90 << 20, 101 << 20), Err(11));
}

#[test]
fn operations_are_watched() {
    let mut ops = OpsMonitor::new();
    assert_eq!(ops.observe(1000, 1).per_second, 1000);
    let r = ops.observe(1099, 10);
    assert!(!r.degraded);
    let r = ops.observe(1198, 11);
    assert_eq!((r.per_second, r.degraded, ops.peak), (99, true, 1000));
    let mut history = VecDeque::new();
    for i in 0..1005 {
        let mut m = metrics();
        m.timestamp_ns = i;
        monitor::remember(&mut history, m);
    }
    assert_eq!((history.len(), history[0].timestamp_ns), (1000, 5));
}

#[test]
fn heat_ends_a_load() {
    let c = StressTestConfig::for_platform(Platform::Android);
    let mut t = ThermalMonitor::new();
    let mut s = ThermalSample {
        elapsed_secs: 1,
        cpu_temp: 60_000,
        battery_temp: 30_000,
        throttling: true,
        stage: 1,
    };
    assert_eq!(t.observe(s, &c), Ok(false));
    s.stage = 2;
    assert_eq!(t.observe(s, &c), Ok(true));
    s.throttling = false;
    assert_eq!(t.observe(s, &c), Ok(false));
    s.battery_temp = 45_000;
    assert_eq!(t.observe(s, &c), Err(ThermalFault::BatteryCritical));
    s.cpu_temp = 85_000;
    assert_eq!(t.observe(s, &c), Err(ThermalFault::CpuCritical));
    assert_eq!((t.history.len(), t.throttling_events, t.max_temp), (5, 2, 85_000));
    let summary = report::analyze_thermal_data(&t.history).unwrap();
    assert_eq!((summary.peak_cpu_temp, summary.peak_battery_temp), (85_000, 45_000));
    assert_eq!((summary.average_cpu_temp, summary.throttled_percent), (65_000, 40));
    assert_eq!(report::analyze_thermal_data(&Vec::new()), None);
    assert_eq!((ThermalLoad::Combined.name(), ThermalLoad::Combined.duration_secs()), ("combined", 10));
    assert_eq!((ThermalLoad::Gpu.name(), ThermalLoad::Gpu.duration_secs()), ("gpu", 4));
}

#[test]
fn critical_events_are_collected() {
    let c = StressTestConfig::for_platform(Platform::Android);
    let mut events = Vec::new();
    let mut m = metrics();
    m.memory_used = 480 << 20;
    assert!(!monitor::watch(&m, &c, &mut events));
    assert!(events.is_empty());
    m.memory_used += 1;
    m.cpu_temp = 85_001;
    m.battery_temperature = 45_001;
    m.thermal_throttling = true;
    m.throttling_stage = 1;
    assert!(!monitor::watch(&m, &c, &mut events));
    assert_eq!(
        events,
        vec![
            CriticalEvent::HighCpuTemp { temp: 85_001 },
            CriticalEvent::HighBatteryTemp { temp: 45_001 },
            CriticalEvent::HighMemory { bytes: (480 << 20) + 1 },
            CriticalEvent::Throttling { stage: 1 },
        ]
    );
    m.throttling_stage = 2;
    assert!(monitor::watch(&m, &c, &mut events));
}

#[test]
fn reads_and_writes_are_counted() {
    let mut shared = IOMetrics::new();
    assert_eq!(shared.reading(1), None);
    let mut local = LocalCounts::new();
    for i in 0..100 {
        assert_eq!(local.record(1 << 20, 2 << 20), i == 99);
    }
    local.hand_in(&mut shared, 500);
    assert_eq!(local, LocalCounts::new());
    assert_eq!((shared.bytes_read, shared.read_ops), (100 << 20, 100));
    let r = shared.reading(10_000_000_000).unwrap();
    assert_eq!((r.read_speed, r.write_speed), (10_000, 20_000));
    assert_eq!((r.read_latency_ns, r.write_latency_ns), (5, 5));
    assert_eq!(monitor::threads_per_operation(100), 10);
    assert_eq!(monitor::threads_per_operation(9), 1);
    assert!(monitor::has_disk_room(51) && !monitor::has_disk_room(50));
}

#[test]
fn scenes_and_pools() {
    let r = monitor::judge_scene(3_333_333_333);
    assert_eq!((r.frame_ns, r.low_fps), (33_333_333, false));
    assert!(monitor::judge_scene(3_333_333_334).low_fps);
    let size = monitor::memory_stress_step(999).unwrap();
    assert!((1_048_576..=16_777_216).contains(&size));
    assert_eq!(monitor::memory_stress_step(1000), None);
    assert!(monitor::opens_file(99) && !monitor::opens_file(100));
    assert_eq!((monitor::files_to_drop(99), monitor::files_to_drop(100)), (0, 50));
}

#[test]
fn stress_tests_are_summarised() {
    let mut history = VecDeque::new();
    assert_eq!(report::analyze_stress_results(&history, 5), None);
    history.push_back(metrics());
    let mut m = metrics();
    m.cpu_usage = 60_001;
    m.cpu_temp = 50_000;
    m.memory_used = 200 << 20;
    m.timestamp_ns = 3_000_000_000;
    history.push_back(m);
    let s = report::analyze_stress_results(&history, 5).unwrap();
    assert_eq!((s.average_cpu, s.average_temp, s.peak_temp), (55_000, 45_000, 50_000));
    assert_eq!((s.average_memory, s.total_ops, s.duration_ns), (150 << 20, 5, 2_000_000_000));
}

#[test]
fn memory_and_graphics_are_summarised() {
    let s = report::analyze_memory_patterns(&vec![1, 2, 6], &vec![-5, 90_000, 80_000]);
    assert_eq!((s.times, s.peak_pressure), (Some((3, 6)), Some(90_000)));
    let s = report::analyze_memory_patterns(&Vec::new(), &vec![-5]);
    assert_eq!((s.times, s.peak_pressure), (None, Some(0)));
    assert_eq!(report::analyze_memory_patterns(&Vec::new(), &Vec::new()).peak_pressure, None);
    let frames: Vec<u64> = (1..=20).map(|i| i * 1_000_000).collect();
    let g = report::analyze_gpu_results(&frames, &vec![10, 30], &vec![3 << 20, 4 << 20]);
    assert_eq!(g.frames, Some((10_500_000, 20_000_000)));
    assert_eq!((g.fps, g.usage, g.memory_mb), (Some(95_238), Some((20, 30)), Some(3)));
    let g = report::analyze_gpu_results(&vec![0], &Vec::new(), &Vec::new());
    assert_eq!((g.frames, g.fps, g.usage, g.memory_mb), (Some((0, 0)), None, None, None));
}

#[test]
fn the_comprehensive_report() {
    assert_eq!(report::generate_comprehensive_report(&Vec::new(), 0), None);
    let mut m = metrics();
    m.cpu_usage = 70_000;
    m.battery_level = 79_000;
    m.battery_current = -300;
    m.thermal_throttling = true;
    m.throttling_stage = 1;
    m.memory_cache = 9;
    m.context_switches = 20_000;
    m.timestamp_ns = 5_000_000_000;
    let all = vec![metrics(), m];
    let r = report::generate_comprehensive_report(&all, 1).unwrap();
    assert_eq!((r.duration_ns, r.average_cpu, r.peak_cpu), (4_000_000_000, 60_000, 70_000));
    assert_eq!((r.min_battery_level, r.max_battery_current), (79_000, -100));
    assert_eq!((r.throttling_events, r.max_throttling_stage, r.cache), (1, 1, 9));
    assert_eq!(r.context_switches_per_sec, Some(5_000));
    assert!(!r.passed);
    let r = report::generate_comprehensive_report(&vec![m], 0).unwrap();
    assert_eq!((r.context_switches_per_sec, r.max_battery_current, r.passed), (None, -300, true));
    m.battery_level = 120_000;
    let r = report::generate_comprehensive_report(&vec![m], 0).unwrap();
    assert_eq!(r.min_battery_level, 100_000);
}

#[test]
fn series_are_summarised() {
    assert_eq!(series::average_of(&vec![u64::MAX, u64::MAX - 1]), u64::MAX - 1);
    assert_eq!(series::average_of(&Vec::new()), 0);
    assert_eq!(series::peak_of(&vec![3, 9, 4]), 9);
    assert_eq!(series::lowest_of(&vec![3, 9, 4], 100), 3);
    assert_eq!(series::lowest_of(&vec![3, 9, 4], 1), 1);
    assert_eq!(series::sum_from(&vec![1, 2, 3], 1), 5);
}

#[test]
fn cameras_and_microphones() {
    assert_eq!(media::compress_video_frames(60), 60 * 124_416);
    assert_eq!(media::encode_audio(21), Some(42));
    assert_eq!(media::encode_audio(1 << 63), None);
    assert_eq!(media::frame_size(3840, 2160), Some(24_883_200));
    assert_eq!(media::frame_size(65_536, 65_536), None);
    assert_eq!(media::frame_pause(33_333_000), 333);
    assert_eq!(media::frame_pause(40_000_000), 0);
    assert!(media::camera_keeps_up(60, 3_000_000_000));
    assert!(!media::camera_keeps_up(60, 3_000_000_001));
    assert!(media::camera_keeps_up(1, 0) && !media::camera_keeps_up(0, 0));
    assert!(!media::audio_keeps_up(0, 0, 8_000));
    assert_eq!(media::record_audio(44_100, 2, 2), Some(176_400));
    assert_eq!(media::record_audio(44_100, 2, 0), Some(0));
    assert_eq!(media::record_audio(u32::MAX, u32::MAX, u64::MAX), None);
    assert!(media::audio_keeps_up(7_200, 1_000_000_000, 8_000));
    assert!(!media::audio_keeps_up(7_199, 1_000_000_000, 8_000));
}

#[test]
fn probes_are_judged() {
    let mut a = Attempts::new();
    assert_eq!(a.test_http_throughput().loss_permille, None);
    a.record(true);
    a.record(true);
    a.record(false);
    assert_eq!(a.test_http_throughput().throughput, 2 * 1024 * 8);
    assert_eq!(a.test_http_throughput().loss_permille, Some(333));
    assert_eq!(a.test_dns_performance().throughput, 200);
    assert_eq!(a.test_icmp_latency().throughput, 1024);
    a.record_lookups();
    assert_eq!(a.successes + a.failures, 8);
    assert_eq!(network::test_tcp_throughput(1000, 900, 2_000_000_000), (4000, Some(100)));
    assert_eq!(network::test_tcp_throughput(1000, 1100, 2_000_000_000), (4000, Some(100)));
    assert_eq!(network::test_tcp_throughput(0, 5, 0), (0, None));
    assert_eq!(network::throughput_of(1, 0), u64::MAX);
    assert_eq!(network::throughput_of(u64::MAX, 1), u64::MAX);
    let u = network::test_udp_throughput(14_000, 9, 1_000_000_000);
    assert_eq!((u.throughput, u.loss_permille), (112_000, Some(100)));
    assert_eq!(network::test_udp_throughput(1399, 9, 1).loss_permille, Some(0));
    assert_eq!(network::test_udp_throughput(1400, 9, 1).loss_permille, None);
}

#[test]
fn networks_are_simulated() {
    let c = NetworkKind::TwoG.condition();
    assert_eq!((c.latency_ms, c.jitter_us, c.loss_permille), (500, 20_000, 200));
    assert_eq!((NetworkKind::TwoG.name(), NetworkKind::Lossy.name()), ("2g", "lossy"));
    let mut lost = 0;
    for _ in 0..300 {
        let p = network::simulate_network_condition(&c);
        assert_eq!(p.latency_ms, 500);
        assert!(p.jitter_ms < 20);
        if p.loss_ms > 0 {
            lost += 1;
        }
    }
    assert!(lost > 0 && lost < 300);
    let p = network::simulate_network_condition(&NetworkKind::Ideal.condition());
    assert_eq!((p.latency_ms, p.loss_ms, p.jitter_ms), (0, 0, 0));
    let all = NetworkCondition { latency_ms: 1, jitter_us: 0, loss_permille: 1000 };
    assert_eq!(network::simulate_network_condition(&all).loss_ms, 1000);
    assert_eq!(network::pauses_of(&c, true, 19_999).jitter_ms, 19);
}

#[test]
fn file_workloads_name_their_files() {
    let (made, written) = files::created_files(3, 2);
    assert_eq!((made.len(), written), (2, 2048));
    assert_eq!((made[1].name.as_str(), made[1].byte, made[1].len), ("create_3_1.tmp", 1, 1024));
    let (made, written) = files::create_files_workload(3);
    assert!((10..50).contains(&made.len()));
    assert_eq!(written, made.len() as u64 * 1024);
    let w = files::write_files_workload(258);
    assert_eq!((w.name.as_str(), w.byte), ("write_258.dat", 2));
    assert!((1024..=1_048_576).contains(&w.len));
    assert_eq!(
        files::append_files_workload(4, 99),
        ("append_4.log".to_string(), "[99] log entry 4\n".to_string())
    );
    assert_eq!(files::random_access_file(4), "random_4.db");
    assert_eq!(files::rename_files_workload(1).1, "renamed_1.tmp");
    assert_eq!(files::link_files_workload(1).0, "link_orig_1.tmp");
    assert!(files::link_is_counted(2) && !files::link_is_counted(1));
    assert_eq!(files::permission_workload(1), "perms_1.tmp");
    let (dir, inside) = files::directory_workload(7);
    assert_eq!((dir.as_str(), inside.len(), inside[9].name.as_str()), ("subdir_7", 10, "file_9.tmp"));
    assert_eq!(files::mmap_workload(7), "mmap_7.dat");
    assert_eq!(files::io_intensive_workload()[3].name, "io_3.tmp");
    assert_eq!(files::stress_dir(0xdead_beef), "stress_deadbeef");
    assert_eq!(files::stress_dir(0), "stress_0");
    assert!(files::random_stress_dir().starts_with("stress_"));
    assert!(files::random_stress_file().ends_with(".tmp"));
    assert_ne!(files::random_stress_file(), files::random_stress_file());
    assert_eq!(FileWorkload::Permissions.name(), "perms");
    assert_eq!(FileWorkload::Directories.fixed_bytes(), Some((0, 10_240)));
    assert_eq!(FileWorkload::Mmap.fixed_bytes(), Some((1_048_576, 1_048_576)));
    assert_eq!(FileWorkload::Read.fixed_bytes(), None);
}

#[test]
fn random_accesses_stay_in_the_file() {
    assert_eq!(files::random_access_workload(0, 258), vec![FileAccess::Fill { byte: 2 }]);
    let plan = files::random_access_workload(100, 1);
    assert_eq!(plan.len(), 10);
    for a in &plan {
        assert!(matches!(a, FileAccess::Read { pos } | FileAccess::Write { pos, .. } if *pos < 100));
    }
    let plan = vec![
        FileAccess::Read { pos: 1 },
        FileAccess::Write { pos: 1, byte: 2 },
        FileAccess::Fill { byte: 2 },
        FileAccess::Read { pos: 3 },
    ];
    let moved = vec![Some(512), Some(100), Some(1024), None];
    assert_eq!(files::count_accesses(&plan, &moved), (512, 1124));
    assert_eq!(files::drawn_access(5, true, 9), FileAccess::Read { pos: 5 });
    assert_eq!(files::drawn_access(5, false, 9), FileAccess::Write { pos: 5, byte: 9 });
}

#[test]
fn stability_operations_are_drawn() {
    let size = 1_048_576 + 5;
    assert_eq!(files::choose_operation(10, size), StabilityOperation::Allocate { size: 5 });
    assert_eq!(files::choose_operation(11, size), StabilityOperation::WriteFile);
    assert_eq!(files::choose_operation(12, size), StabilityOperation::Connect);
    assert_eq!(files::choose_operation(13, size), StabilityOperation::SpawnThread);
    assert_eq!(files::choose_operation(14, size), StabilityOperation::Rest);
    let drawn: Vec<StabilityOperation> =
        (0..100).map(|_| files::perform_stability_operation()).collect();
    assert!(drawn.iter().any(|o| *o != drawn[0]));
}

#[test]
fn workloads_compute() {
    assert_eq!(workload::int_step(5, 0), None);
    assert_eq!(workload::int_step(5, 3), Some(6));
    assert_eq!(workload::int_step(u64::MAX, 2), Some((u64::MAX - 2) / 2));
    assert_eq!(workload::run_int_steps(&vec![(5, 3), (7, 2), (9, 0)]), Some((7, 2, 10)));
    assert_eq!(workload::run_int_steps(&vec![(5, 0), (9, 0)]), None);
    assert_eq!(workload::run_int_steps(&Vec::new()), None);
    let (a, b, q) = workload::int_intensive_workload().unwrap();
    assert_eq!(workload::int_step(a, b), Some(q));
    let again = workload::int_intensive_workload().unwrap();
    assert_ne!((a, b), (again.0, again.1));
    assert_eq!(workload::fill_pattern(258)[255..], [255, 0, 1]);
    assert_eq!(workload::sum_bytes(&workload::fill_pattern(300)), 32_640 + 946);
    let (size, sum) = workload::memory_intensive_workload();
    assert!((1024..=1_048_576).contains(&size));
    let rest = (size % 256) as u64;
    assert_eq!(sum, (size / 256) as u64 * 32_640 + if rest > 0 { rest * (rest - 1) / 2 } else { 0 });
    assert_eq!(workload::recursive_workload(), 6765);
    assert_eq!(workload::fib(10), 55);
}

#[test]
fn branches_are_taken() {
    assert_eq!(workload::take_branch(4, 2, true), 18);
    assert_eq!(workload::take_branch(4, 1, false), 1);
    assert_eq!(workload::take_branch(-4, 1, true), -1);
    assert_eq!(workload::take_branch(-7, 0, true), -6);
    assert_eq!(workload::take_branch(i32::MAX, 1, true), i32::MIN.wrapping_mul(3));
    let coins: Vec<bool> = (0..50).map(|i| i % 3 == 0).collect();
    let mut x: i32 = 0;
    for (i, up) in coins.iter().enumerate() {
        let i = i as i32;
        x = if *up { x.wrapping_add(i) } else { x.wrapping_sub(i) };
        x = if x % 2 == 0 {
            x.wrapping_mul(3)
        } else if x % 3 == 0 {
            x.wrapping_div(2)
        } else {
            x.wrapping_add(1)
        };
    }
    assert_eq!(workload::run_branches(&coins), x);
    workload::branch_intensive_workload();
}

#[test]
fn caches_are_thrashed() {
    let data = workload::thrash(130, 2);
    assert_eq!((data[0], data[1], data[63], data[64], data[128]), (0, 1, 63, 576, 1152));
    let data = workload::cache_thrashing_workload();
    assert_eq!(data.len(), 1_310_720);
    let mut expected: u64 = 64;
    for _ in 0..100 {
        expected = expected.wrapping_mul(3);
    }
    assert_eq!((data[64], data[65]), (expected, 65));
}

#[test]
fn test_kernel_basics() {
    let stats = checks::get_kernel_stats(
        Ok(350_735_470),
        Ok("cpu 1 2 3 4\nintr 114930548 113199788\nctxt 1990473\n".to_string()),
        Ok("0.52 0.58 0.59 2/467 12345\n".to_string()),
        Ok((520, 580, 590)),
    )
    .unwrap();
    let report = checks::run_kernel_basics(&stats, 1_000);
    assert!(report.passed, "Kernel basics test failed: {:?}", report.errors);
    assert_eq!(report.name, "kernel_basics");
}

#[test]
fn kernels_are_judged() {
    let text = |s: &str| Ok::<String, String>(s.to_string());
    let stat = "ctxt 5\nintr 6\n";
    let load = "0.1 0.2 0.3 2/9 1";
    let k = checks::get_kernel_stats(Ok(5_000), text(stat), text(load), Ok((100, 200, 300))).unwrap();
    assert_eq!((k.context_switches, k.interrupts, k.processes, k.threads), (5, 6, 2, 9));
    let e = |s: &str| s.to_string();
    let r = checks::get_kernel_stats(Err(e("u")), Err(e("s")), Err(e("l")), Err(e("a")));
    assert_eq!(r.unwrap_err(), "u");
    let r = checks::get_kernel_stats(Ok(1), Err(e("s")), Err(e("l")), Err(e("a")));
    assert_eq!(r.unwrap_err(), "s");
    let r = checks::get_kernel_stats(Ok(1), text("ctxt 5"), Err(e("l")), Err(e("a")));
    assert_eq!(r.unwrap_err(), "intr not found in /proc/stat");
    let r = checks::get_kernel_stats(Ok(1), text(stat), Err(e("l")), Err(e("a")));
    assert_eq!(r.unwrap_err(), "l");
    let r = checks::get_kernel_stats(Ok(1), text(stat), text("x"), Err(e("a")));
    assert_eq!(r.unwrap_err(), "Invalid loadavg format");
    let r = checks::get_kernel_stats(Ok(1), text(stat), text(load), Err(e("a")));
    assert_eq!(r.unwrap_err(), "a");
    let report = checks::run_kernel_basics(&k, 77);
    assert!(report.passed && report.errors.is_empty());
    assert_eq!(report.metrics[0], ("uptime_secs".to_string(), 5_000));
    assert_eq!(report.metrics[1], ("context_switches".to_string(), 5_000));
    let bad = KernelStats {
        uptime_ms: 999,
        context_switches: 0,
        interrupts: 0,
        processes: 0,
        threads: 0,
        load_average: (100_001, 0, 0),
    };
    let report = checks::run_kernel_basics(&bad, 77);
    assert_eq!(
        report.errors,
        vec!["Uptime is zero", "No context switches", "Load average too high"]
    );
    assert!(!report.passed);
}

#[test]
fn the_system_is_fast_enough() {
    assert_eq!(checks::check_scheduler(&Vec::new()), Ok(()));
    assert_eq!(checks::check_scheduler(&vec![99_999, 100_000]), Ok(()));
    assert_eq!(checks::check_scheduler(&vec![100_000]), Err(100_000));
    assert_eq!(checks::check_allocation(4096, 39_999), Ok(()));
    assert_eq!(checks::check_allocation(4096, 40_000), Err(40_000));
    assert!(checks::mapping_keeps_up(99_999_999) && !checks::mapping_keeps_up(100_000_000));
    assert!(checks::loopback_keeps_up(999_999) && !checks::loopback_keeps_up(1_000_000));
    assert!(checks::lookup_keeps_up(1_999_999_999) && !checks::lookup_keeps_up(2_000_000_000));
    let mb = 1 << 20;
    assert_eq!(checks::check_tcp(mb, mb, 99_999_999), Ok(()));
    assert_eq!(checks::check_tcp(mb, mb, 100_000_000), Err(NetworkFault::TooSlow));
    assert_eq!(checks::check_tcp(mb, mb - 1, 1), Err(NetworkFault::Incomplete));
    assert_eq!(checks::check_udp(1_400_000, 951, 200_000_000), Ok(()));
    assert_eq!(checks::check_udp(1_400_000, 950, 200_000_000), Err(NetworkFault::Incomplete));
    assert_eq!(checks::check_udp(1_400_000, 1000, 300_000_000), Err(NetworkFault::TooSlow));
    assert!(checks::is_reassembled(10_000, 10_000) && checks::is_reassembled(10_000, 0));
    assert!(!checks::is_reassembled(10_000, 9_999));
    assert_eq!(checks::minimum_speed("f2fs"), 50);
    assert_eq!(checks::minimum_speed("ext4"), 30);
    assert_eq!(checks::minimum_speed("vfat"), 20);
    let bytes = 100 << 20;
    assert_eq!(checks::check_filesystem(bytes, 1_999_999_999, 999_999_999, "f2fs"), Ok(()));
    assert_eq!(
        checks::check_filesystem(bytes, 2_000_000_000, 1, "f2fs"),
        Err(FilesystemFault::WriteTooSlow)
    );
    assert_eq!(
        checks::check_filesystem(bytes, 1, 1_000_000_000, "f2fs"),
        Err(FilesystemFault::ReadTooSlow)
    );
}

#[test]
fn addresses_are_spread() {
    assert_eq!(checks::base_address("7fAb000-7fac000 r-xp"), Some(0x7fab000));
    assert_eq!(checks::base_address("+10-"), Some(16));
    assert_eq!(checks::base_address("-10"), None);
    assert_eq!(checks::base_address("12g-"), None);
    assert_eq!(checks::base_address("fffffffffffffffff-"), None);
    assert_eq!(checks::count_distinct(&vec![3, 1, 3, 2, 1]), 3);
    assert_eq!(checks::check_aslr(&(0..8).collect()), Ok(8));
    assert_eq!(checks::check_aslr(&vec![1, 1, 2]), Err(2));
}

#[test]
fn stability_is_tallied() {
    assert_eq!(checks::low_memory_message(100 << 20), None);
    assert_eq!(
        checks::low_memory_message((100 << 20) - 1),
        Some("Low memory: 99 MB available".to_string())
    );
    assert_eq!(checks::tally(&vec![true, false, true]), (2, 1));
    assert_eq!(checks::tally(&Vec::new()), (0, 0));
}
