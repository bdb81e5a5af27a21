use mobile_perf::agent::{collect_environment_info, device_name, find_regressions, judge_result};
use mobile_perf::agent::{report_name, run_mode, upload_outcome, upload_url};
use mobile_perf::agent::{BenchmarkResult, BuildInfo, EnvironmentInfo, EnvironmentReadings};
use mobile_perf::agent::{RunMode, UploadOutcome};
use mobile_perf::benchmark::{Benchmark, BenchmarkConfig, Metric, MetricUnit};
use mobile_perf::catalog::{standard_benchmarks, standard_schedule};
use mobile_perf::detector::RegressionDetector;
use mobile_perf::scheduler::BenchmarkScheduler;

fn readings() -> EnvironmentReadings {
    EnvironmentReadings {
        os: "android".to_string(),
        uname: Some("6.1.0\n".to_string()),
        cpu_cores: 8,
        cpu_brands: vec!["Cortex".to_string(), "Other".to_string()],
        total_memory: 4 * 1_048_576 + 5,
        capacity: Some(" 87\n".to_string()),
        zone: Some("41500\n".to_string()),
        cur_state: Some("1\n".to_string()),
        free_disk: Some(3 * 1_048_576),
        network_interfaces: vec!["wlan0".to_string()],
        process_count: 12,
        uptime_seconds: 99,
    }
}

fn environment() -> EnvironmentInfo {
    collect_environment_info(readings())
}

fn metric(name: &str, value: i64) -> Metric {
    Metric {
        name: name.to_string(),
        value,
        unit: MetricUnit::Nanoseconds,
        tags: Vec::new(),
        confidence_interval: None,
        samples: None,
    }
}

fn result(id: &str, metrics: Vec<Metric>) -> BenchmarkResult {
    let mut config = BenchmarkConfig::default();
    config.id = id.to_string();
    let build = BuildInfo {
        rust_version: "1".to_string(),
        target: "aarch64".to_string(),
        optimization_level: "3".to_string(),
        debug_symbols: false,
        build_time: 1,
    };
    let benchmark = Benchmark::new(config);
    BenchmarkResult::new(&benchmark, "abc", "phone", 17, metrics, environment(), build, Vec::new())
}

#[test]
fn the_environment_is_described() {
    let e = environment();
    assert_eq!(e.kernel_version, "6.1.0");
    assert_eq!(e.cpu_model, "Cortex");
    assert_eq!((e.cpu_freq_mhz, e.total_ram_mb, e.disk_free_mb), (0, 4, 3));
    assert_eq!((e.battery_level, e.temperature_celsius), (87, Some(41_500)));
    assert!(e.thermal_throttling);
    let mut bare = readings();
    bare.uname = None;
    bare.cpu_brands = Vec::new();
    bare.capacity = Some("300".to_string());
    bare.zone = None;
    bare.cur_state = Some("0".to_string());
    bare.free_disk = None;
    let e = collect_environment_info(bare);
    assert_eq!((e.kernel_version.as_str(), e.cpu_model.as_str()), ("unknown", "unknown"));
    assert_eq!((e.battery_level, e.temperature_celsius, e.disk_free_mb), (100, None, 0));
    assert!(!e.thermal_throttling);
}

#[test]
fn names_are_put_together() {
    assert_eq!(result("cpu.prime", Vec::new()).file_name(), "cpu.prime_abc_17.json");
    assert_eq!(upload_url(""), None);
    assert_eq!(upload_url("http://h"), Some("http://h/api/results".to_string()));
    assert_eq!(device_name("phone", 4096), "phone-4096");
    assert_eq!(report_name("abc"), "report_abc.png");
}

#[test]
fn uploads_are_judged_by_their_status() {
    assert_eq!(upload_outcome(Some(204)), UploadOutcome::Sent);
    assert_eq!(upload_outcome(Some(199)), UploadOutcome::Refused { status: 199 });
    assert_eq!(upload_outcome(Some(300)), UploadOutcome::Refused { status: 300 });
    assert_eq!(upload_outcome(None), UploadOutcome::Failed);
}

#[test]
fn modes_have_names() {
    assert_eq!(run_mode("continuous"), RunMode::Continuous);
    assert_eq!(run_mode("regression"), RunMode::Regression);
    assert_eq!(run_mode("once"), RunMode::Once);
    assert_eq!(run_mode("Continuous"), RunMode::Once);
}

#[test]
fn results_are_judged_as_they_come_in() {
    let mut detector = RegressionDetector::new(5_000, 10);
    for _ in 0..19 {
        let r = result("a", vec![metric("a.exec_time.mean", 100_000), metric("a.cpu.mean", 9)]);
        let judged = judge_result(&mut detector, &r);
        assert_eq!(judged.len(), 1);
        assert!(judged[0].regression.is_none());
    }
    let r = result("a", vec![metric("a.exec_time.mean", 200_000)]);
    let judged = judge_result(&mut detector, &r);
    let info = judged[0].regression.as_ref().unwrap();
    assert_eq!(info.baseline_mean, 105_000);
    assert_eq!(info.severity, "CRITICAL");
    assert_eq!(judged[0].trend.as_ref().unwrap().direction, "increasing");
    let r = result("a", vec![metric("a.cpu.mean", 200_000)]);
    assert!(judge_result(&mut detector, &r).is_empty());
    let r = result("a", vec![metric("a.exec_time.mean", 1 << 60)]);
    let judged = judge_result(&mut detector, &r);
    assert_eq!(judged[0].regression.as_ref().unwrap().severity, "CRITICAL");
    let total: i128 = 2_100_000 + (1 << 60);
    assert_eq!(detector.check_regression("a", 200_000).unwrap().baseline_mean, total / 21);
}

#[test]
fn commits_are_compared() {
    let slow = result("a", vec![metric("a.exec_time.mean", 106_000)]);
    let mut baseline = Vec::new();
    for _ in 0..9 {
        baseline.push(result("a", vec![metric("a.exec_time.mean", 100_000)]));
    }
    let current = vec![slow];
    assert!(find_regressions(&baseline, &current).is_empty());
    baseline.push(result("a", vec![metric("a.exec_time.mean", 100_000)]));
    let found = find_regressions(&baseline, &current);
    assert_eq!(found.len(), 1);
    assert_eq!(found[0].change_percent, Some(6_000));
    let same = vec![result("a", vec![metric("a.exec_time.mean", 105_000)])];
    assert!(find_regressions(&baseline, &same).is_empty());
    let huge = vec![result("a", vec![metric("a.exec_time.mean", -(1 << 60))])];
    let found = find_regressions(&baseline, &huge);
    assert_eq!(found.len(), 1);
    assert_eq!(found[0].new_value, -(1 << 60));
    assert!(find_regressions(&huge, &current).is_empty());
}

#[test]
fn benchmarks_come_due() {
    let mut scheduler = BenchmarkScheduler::new();
    for c in standard_benchmarks() {
        scheduler.add_benchmark(c);
    }
    let mut now = 100;
    for (id, secs) in standard_schedule() {
        scheduler.schedule_benchmark(id, secs, Vec::new(), now);
        now += 100;
    }
    scheduler.schedule_benchmark("missing".to_string(), 1, Vec::new(), 0);
    assert!(scheduler.due_benchmarks(99).is_empty());
    assert_eq!(scheduler.due_benchmarks(100), vec![0]);
    assert_eq!(scheduler.due_benchmarks(250), vec![0, 1]);
    assert_eq!(scheduler.due_benchmarks(1_000_000), vec![0, 1, 2]);
    assert_eq!(scheduler.find_benchmark(&"network.tcp".to_string()), Some(4));
    assert_eq!(scheduler.schedule[1].interval_secs, 300);
    assert_eq!(scheduler.schedule[1].last_run_ns, None);
}

#[test]
fn a_round_leaves_failures_out() {
    let mut scheduler = BenchmarkScheduler::new();
    let first = result("a", vec![metric("a.exec_time.mean", 1_000)]);
    let last = result("b", vec![metric("b.exec_time.mean", 1 << 60)]);
    let judged = scheduler.run_once(vec![Some(first), None, Some(last)]);
    assert_eq!(judged.len(), 2);
    assert_eq!(judged[0].result.benchmark_id, "a");
    assert_eq!(judged[0].judgements.len(), 1);
    assert_eq!(judged[1].result.benchmark_id, "b");
    assert_eq!(judged[1].judgements.len(), 1);
    assert!(scheduler.detector.get_trend("b", 1).is_none());
}

#[test]
fn the_catalogue_is_complete() {
    let all = standard_benchmarks();
    let ids: Vec<&str> = all.iter().map(|c| c.id.as_str()).collect();
    assert_eq!(
        ids,
        vec!["syscall.getpid", "fileio.read", "cpu.prime", "memory.alloc", "network.tcp"]
    );
    assert_eq!(all[0].args[2], "cycles,instructions,cache-misses");
    assert_eq!(all[1].required_resources, vec!["disk_space".to_string()]);
    assert_eq!((all[2].timeout_secs, all[2].max_sample_variance), (300, 200));
    assert_eq!(all[4].args.len(), 6);
}
