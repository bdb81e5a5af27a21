use mobile_perf::benchmark::{AnalysisError, Benchmark, BenchmarkConfig, BenchmarkRun, MetricUnit};
use mobile_perf::benchmark::{execution_outcome, DeviceResources, RunStep};
use mobile_perf::detector::RegressionDetector;
use mobile_perf::order::{maximum, minimum, percentile, sorted};
use mobile_perf::profiler::{Counters, Reading, SystemProfiler, SystemSnapshot};
use mobile_perf::detector::HistoricalData;
use mobile_perf::samples::{moments, Moments};
use std::collections::VecDeque;

fn thousandths(values: &[f64]) -> Vec<i64> {
    values.iter().map(|v| (v * 1000.0).round() as i64).collect()
}

fn config(id: &str) -> BenchmarkConfig {
    BenchmarkConfig {
        id: id.to_string(),
        command: "echo".to_string(),
        args: vec!["test".to_string()],
        env_vars: Vec::new(),
        working_dir: None,
        warmup_iterations: 1,
        measure_iterations: 3,
        timeout_secs: 5,
        required_resources: vec![],
        min_samples: 3,
        max_sample_variance: 100,
    }
}

#[test]
fn test_percentile_calculation() {
    let data = thousandths(&[1.0, 2.0, 3.0, 4.0, 5.0, 6.0, 7.0, 8.0, 9.0, 10.0]);
    assert_eq!(percentile(&data, 500), 5000);
    assert_eq!(percentile(&data, 900), 9000);
    assert_eq!(percentile(&data, 950), 10000);
}

#[test]
fn test_trend_detection() {
    let mut detector = RegressionDetector::new(5000, 10);

    for i in 0..20 {
        detector.add_sample("trend", (100 + i as i64) * 1000, i as u64);
    }

    let trend = detector.get_trend("trend", 5);
    assert!(trend.is_some());
    let trend = trend.unwrap();
    assert_eq!(trend.direction, "increasing");
}

#[test]
fn test_benchmark_stability() {
    let benchmark = Benchmark::new(config("test"));
    let times = thousandths(&[100.0, 102.0, 98.0]);
    let stability = benchmark.check_stability(&times).unwrap().thousandths().unwrap();
    assert!(stability < 50);

    let times = thousandths(&[100.0, 150.0, 80.0, 120.0, 90.0]);
    let stability = benchmark.check_stability(&times).unwrap().thousandths().unwrap();
    assert!(stability > 100);
}

#[test]
fn test_regression_detector() {
    let mut detector = RegressionDetector::new(10_000, 5);

    for i in 0..10 {
        detector.add_sample("test", 100_000 + i * 100, i as u64);
    }

    let regression = detector.check_regression("test", 101_000);
    assert!(regression.is_none());
}

fn slowly_rising() -> RegressionDetector {
    let mut detector = RegressionDetector::new(10_000, 5);
    for i in 0..10 {
        detector.add_sample("test", 100_000 + i * 100, i as u64);
    }
    detector
}

#[test]
fn a_change_within_the_threshold_is_no_regression() {
    let detector = slowly_rising();
    assert!(detector.check_regression("test", 110_000).is_none());
    assert!(detector.check_regression("test", 101_000).is_none());
}

#[test]
fn a_change_beyond_the_threshold_is_a_regression() {
    let detector = slowly_rising();
    let info = detector.check_regression("test", 111_000).unwrap();
    assert_eq!(info.benchmark_id, "test");
    assert_eq!(info.baseline_mean, 100_450);
    assert_eq!(info.new_value, 111_000);
    assert_eq!(info.change_percent, Some(10_502));
    assert_eq!(info.severity, "WARNING");
    assert_eq!(info.z_score, Some(36_730));
    assert_eq!(info.confidence, Some(71));
}

#[test]
fn severity_grows_with_the_change() {
    let detector = slowly_rising();
    assert_eq!(detector.check_regression("test", 121_000).unwrap().severity, "SEVERE");
    assert_eq!(detector.check_regression("test", 131_000).unwrap().severity, "CRITICAL");
    assert_eq!(detector.check_regression("test", 69_000).unwrap().severity, "CRITICAL");
}

#[test]
fn a_judgement_needs_enough_values() {
    let mut detector = RegressionDetector::new(10_000, 5);
    for i in 0..4 {
        detector.add_sample("test", 100_000, i);
    }
    assert!(detector.check_regression("test", 900_000).is_none());
    assert!(detector.check_regression("other", 900_000).is_none());
    detector.add_sample("test", 100_000, 4);
    let info = detector.check_regression("test", 900_000).unwrap();
    assert_eq!(info.z_score, None);
    assert_eq!(info.confidence, None);
    assert_eq!(info.change_percent, Some(800_000));
}

#[test]
fn a_zero_mean_has_no_change_in_percent() {
    let mut detector = RegressionDetector::new(10_000, 2);
    detector.add_sample("test", -5, 0);
    detector.add_sample("test", 5, 1);
    assert!(detector.check_regression("test", 0).is_none());
    assert_eq!(detector.check_regression("test", 1).unwrap().change_percent, None);
}

#[test]
fn histories_keep_the_latest_thousand_values() {
    let mut detector = RegressionDetector::new(10_000, 5);
    for i in 0..10 {
        detector.add_sample("test", 900_000_000, i);
    }
    for i in 0..1000 {
        detector.add_sample("test", 100_000, i);
    }
    let info = detector.check_regression("test", 200_000).unwrap();
    assert_eq!(info.baseline_mean, 100_000);
}

#[test]
fn benchmarks_do_not_mix() {
    let mut detector = RegressionDetector::new(10_000, 1);
    detector.add_sample("a", 100_000, 0);
    detector.add_sample("b", 900_000, 0);
    assert!(detector.check_regression("a", 100_000).is_none());
    assert!(detector.check_regression("b", 900_000).is_none());
    assert!(detector.check_regression("a", 900_000).is_some());
}

#[test]
fn trends_have_three_directions() {
    let mut detector = RegressionDetector::new(5000, 10);
    for i in 0..20 {
        detector.add_sample("down", (100 - i) * 1000, i as u64);
        detector.add_sample("flat", 100_000, i as u64);
    }
    let down = detector.get_trend("down", 5).unwrap();
    assert_eq!(down.direction, "decreasing");
    assert_eq!(down.slope, -1000);
    assert_eq!(down.recent_mean, 83_000);
    assert_eq!(down.older_mean, 88_000);
    assert_eq!(detector.get_trend("flat", 5).unwrap().direction, "stable");
    assert!(detector.get_trend("flat", 0).is_none());
    assert!(detector.get_trend("flat", 20).is_none());
    assert!(detector.get_trend("none", 5).is_none());
    assert_eq!(detector.get_trend("flat", 15).unwrap().older_mean, 100_000);
}

#[test]
fn percentiles_and_extremes() {
    assert_eq!(percentile(&[], 500), 0);
    assert_eq!(percentile(&[7], 990), 7);
    assert_eq!(percentile(&[3, 1, 2], 500), percentile(&[2, 3, 1], 500));
    assert_eq!(percentile(&[3, 1, 2], 0), 1);
    assert_eq!(percentile(&[3, 1, 2], 1000), 3);
    assert_eq!(minimum(&[3, -1, 2]), -1);
    assert_eq!(maximum(&[3, -1, 2]), 3);
    assert_eq!(sorted(&[3, -1, 2, -1]), vec![-1, -1, 2, 3]);
}

#[test]
fn execution_times_are_summarised() {
    let benchmark = Benchmark::new(config("b"));
    let times = thousandths(&[2.0, 4.0, 4.0, 4.0, 5.0, 5.0, 7.0, 9.0]);
    let metrics = benchmark.analyze_execution_times(&times).unwrap();
    let named: Vec<(&str, i64)> = metrics.iter().map(|m| (m.name.as_str(), m.value)).collect();
    assert_eq!(
        named,
        vec![
            ("b.exec_time.mean", 5000),
            ("b.exec_time.median", 4000),
            ("b.exec_time.p90", 7000),
            ("b.exec_time.p95", 9000),
            ("b.exec_time.p99", 9000),
            ("b.exec_time.min", 2000),
            ("b.exec_time.max", 9000),
            ("b.exec_time.std_dev", 2000),
        ]
    );
    assert_eq!(metrics[0].confidence_interval, Some((5000 - 1385, 5000 + 1385)));
    assert_eq!(metrics[0].samples.as_ref().unwrap(), &times);
    assert_eq!(metrics[0].unit, MetricUnit::Nanoseconds);
    assert_eq!(metrics[0].tags, vec![("benchmark".to_string(), "b".to_string())]);
    assert!(metrics[1].samples.is_none());
    assert!(benchmark.analyze_execution_times(&[]).unwrap().is_empty());
}

fn stability_of(times: &[i64]) -> Option<i128> {
    let benchmark = Benchmark::new(config("b"));
    benchmark.check_stability(times).unwrap().thousandths()
}

#[test]
fn the_largest_samples_are_summarised() {
    let benchmark = Benchmark::new(config("b"));
    let times = vec![i64::MAX; 3];
    let metrics = benchmark.analyze_execution_times(&times).unwrap();
    assert_eq!(metrics.len(), 8);
    assert_eq!(metrics[0].value, i64::MAX);
    let m = i64::MAX as i128;
    assert_eq!(metrics[0].confidence_interval, Some((m, m)));
    assert_eq!(metrics[7].value, 0);
    let times = vec![i64::MAX, i64::MIN];
    let metrics = benchmark.analyze_execution_times(&times).unwrap();
    assert_eq!(metrics[0].value, -1);
    assert_eq!(metrics[7].value, i64::MAX);
    // 1.96 * (2^63 - 1/2) / sqrt(2), rounded down.
    let radius: i128 = 12_782_941_468_826_126_567;
    assert_eq!(metrics[0].confidence_interval, Some((-1 - radius, -1 + radius)));
    let m = moments(&times);
    assert_eq!((m.count, m.sum), (2, -1));
    assert_eq!(stability_of(&times), Some(-18_446_744_073_709_551_615_000));
    let mut run = BenchmarkRun::new();
    run.execution_times = vec![i64::MAX; 3];
    let report = run.finish(&benchmark).unwrap();
    assert_eq!(report.metrics.len(), 8);
    assert!(!report.high_variance);
}

#[test]
fn a_deviation_is_relative() {
    let benchmark = Benchmark::new(config("b"));
    assert!(matches!(benchmark.check_stability(&[5, -5]), Err(AnalysisError::ZeroMean)));
    assert_eq!(stability_of(&[5]), Some(1000));
    assert_eq!(stability_of(&[]), Some(1000));
    assert_eq!(stability_of(&[7, 7, 7]), Some(0));
    let times = vec![2000, 4000, 4000, 4000, 5000, 5000, 7000, 9000];
    assert_eq!(stability_of(&times), Some(400));
    let scaled: Vec<i64> = times.iter().map(|t| t * 1024).collect();
    assert_eq!(stability_of(&scaled), Some(400));
    let negative: Vec<i64> = times.iter().map(|t| -t).collect();
    assert_eq!(stability_of(&negative), Some(-400));
}

#[test]
fn moments_wait_for_enough_values() {
    let mut data = HistoricalData::new();
    for (i, value) in [96_000, 104_000, 96_000].into_iter().enumerate() {
        data.add(value, i as u64 + 1, 4);
        assert_eq!(data.moments, Moments::none());
    }
    data.add(104_000, 4, 4);
    assert_eq!(data.values, VecDeque::from(vec![96_000, 104_000, 96_000, 104_000]));
    assert_eq!(data.timestamps, VecDeque::from(vec![1, 2, 3, 4]));
    assert_eq!(data.moments.mean(), 100_000);
    assert_eq!(data.moments.std_dev(), 4_000);
    let before = data.moments;
    data.update_stats(4);
    assert_eq!(data.moments, before);
}

#[test]
fn confidence_falls_with_the_distance() {
    let detector = RegressionDetector::new(10_000, 5);
    let samples = VecDeque::from(vec![96_000, 104_000, 96_000, 104_000]);
    assert_eq!(detector.calculate_confidence(&samples, 100_000), Some(1000));
    assert_eq!(detector.calculate_confidence(&samples, 102_000), Some(750));
    assert_eq!(detector.calculate_confidence(&samples, 98_000), Some(750));
    assert_eq!(detector.calculate_confidence(&samples, 106_000), Some(500));
    assert_eq!(detector.calculate_confidence(&samples, i64::MAX), Some(0));
    assert_eq!(detector.calculate_confidence(&VecDeque::from(vec![5, 5]), 9), None);
    assert_eq!(detector.calculate_confidence(&VecDeque::new(), 9), None);
    let extreme = VecDeque::from(vec![i64::MIN, i64::MAX]);
    assert_eq!(detector.calculate_confidence(&extreme, i64::MAX), Some(414));
}

#[test]
fn the_largest_values_are_judged() {
    let mut detector = RegressionDetector::new(10_000, 2);
    detector.add_sample("test", i64::MAX, 0);
    detector.add_sample("test", i64::MAX, 1);
    assert!(detector.check_regression("test", i64::MAX).is_none());
    let info = detector.check_regression("test", i64::MIN).unwrap();
    assert_eq!(info.baseline_mean, i64::MAX as i128);
    assert_eq!(info.change_percent, Some(-200_001));
    assert_eq!(info.severity, "CRITICAL");
    assert_eq!(info.z_score, None);
    detector.add_sample("test", i64::MIN, 2);
    detector.add_sample("test", i64::MIN, 3);
    let info = detector.check_regression("test", i64::MAX).unwrap();
    assert_eq!(info.baseline_mean, -1);
    assert_eq!(info.z_score, Some(1_000));
    assert_eq!(detector.get_trend("test", 2).unwrap().direction, "decreasing");
    let strict = {
        let mut d = RegressionDetector::new(i64::MIN, 1);
        d.add_sample("test", 1, 0);
        d.add_sample("zero", 0, 0);
        d
    };
    assert_eq!(strict.check_regression("test", 1).unwrap().severity, "CRITICAL");
    assert!(strict.check_regression("zero", 0).is_none());
    let mut lenient = RegressionDetector::new(i64::MAX, 1);
    lenient.add_sample("test", 1, 0);
    assert!(lenient.check_regression("test", 1 << 40).is_none());
    assert_eq!(lenient.check_regression("test", i64::MAX).unwrap().severity, "CRITICAL");
}

#[test]
fn resource_usage_is_summarised() {
    let benchmark = Benchmark::new(config("b"));
    let cpu = thousandths(&[10.0, 30.0]);
    let mem = thousandths(&[100.0, 101.0]);
    let temp = thousandths(&[40.0, 42.0, 41.0]);
    let metrics = benchmark.analyze_resource_usage(&cpu, &mem, &temp).unwrap();
    let named: Vec<(&str, i64)> = metrics.iter().map(|m| (m.name.as_str(), m.value)).collect();
    assert_eq!(
        named,
        vec![
            ("b.cpu.mean", 20_000),
            ("b.cpu.max", 30_000),
            ("b.memory.mean_mb", 100_500),
            ("b.temperature.mean", 41_000),
            ("b.temperature.max", 42_000),
        ]
    );
    assert!(benchmark.analyze_resource_usage(&[], &[], &[]).unwrap().is_empty());
    let below = benchmark.analyze_resource_usage(&[], &[], &[-3, -2]).unwrap();
    assert_eq!(below[1].value, 0);
}

#[test]
fn missing_resources_are_named() {
    let mut c = config("b");
    c.required_resources =
        vec!["gpu".to_string(), "disk_space".to_string(), "network".to_string(), "root".to_string()];
    let benchmark = Benchmark::new(c);
    let mut device =
        DeviceResources { is_root: true, network_interfaces: 1, free_disk_bytes: Some(104_857_600) };
    assert_eq!(benchmark.check_resources(&device), Ok(()));
    device.is_root = false;
    assert_eq!(benchmark.check_resources(&device), Err("Root privileges required".to_string()));
    device.network_interfaces = 0;
    assert_eq!(
        benchmark.check_resources(&device),
        Err("No network interfaces available".to_string())
    );
    device.free_disk_bytes = Some(104_857_599);
    assert_eq!(benchmark.check_resources(&device), Err("Insufficient disk space".to_string()));
    device.free_disk_bytes = None;
    assert_eq!(benchmark.check_resources(&device), Err("Insufficient disk space".to_string()));
}

#[test]
fn configurations_have_defaults() {
    let c = BenchmarkConfig::default();
    assert_eq!((c.warmup_iterations, c.measure_iterations, c.timeout_secs), (3, 10, 30));
    assert_eq!((c.min_samples, c.max_sample_variance), (5, 150));
    assert!(c.id.is_empty() && c.args.is_empty() && c.working_dir.is_none());
}

fn snapshot(cpu: u64, memory: u64, temp: Option<u32>, timestamp: u64) -> SystemSnapshot {
    SystemSnapshot {
        cpu_usage_percent: cpu,
        cpu_temp_celsius: temp,
        memory_used_mb: memory,
        memory_total_mb: 4096,
        swap_used_mb: 0,
        processes: 1,
        threads: 1,
        disk_read_mb_s: 0,
        disk_write_mb_s: 0,
        network_rx_kb_s: 0,
        network_tx_kb_s: 0,
        timestamp,
        context_switches: 0,
        interrupts: 0,
    }
}

#[test]
fn a_run_warms_up_measures_and_finishes() {
    let mut benchmark = Benchmark::new(config("b"));
    let mut run = BenchmarkRun::new();
    assert_eq!(run.next_step(&benchmark.config), RunStep::Warmup { iteration: 1, pause_ms: 100 });
    run.warmup_finished(&benchmark.config);
    for i in 0..3 {
        assert_eq!(
            run.next_step(&benchmark.config),
            RunStep::Measure { iteration: i + 1, pause_ms: 50 }
        );
        run.measured(100 + i as u64);
        let taken = vec![snapshot(50_000, 7, Some(40_000), 1), snapshot(51_000, 8, None, 2)];
        benchmark.collect(&mut run, &taken);
    }
    assert_eq!(run.next_step(&benchmark.config), RunStep::Finish);
    assert_eq!(run.execution_times, vec![100_000, 101_000, 102_000]);
    assert_eq!(run.cpu_samples.len(), 6);
    assert_eq!(run.mem_samples[..2], [7000, 8000]);
    assert_eq!(run.temp_samples, vec![40_000; 3]);
    assert_eq!(benchmark.profiler.history.len(), 6);
    let report = run.finish(&benchmark).unwrap();
    assert_eq!(report.metrics.len(), 13);
    assert_eq!(report.metrics[0].value, 101_000);
    assert!(!report.high_variance);
}

#[test]
fn the_first_failure_ends_a_run() {
    let mut c = config("b");
    c.required_resources = vec!["network".to_string()];
    let benchmark = Benchmark::new(c);
    let mut device =
        DeviceResources { is_root: false, network_interfaces: 0, free_disk_bytes: None };
    let refused = benchmark.start_run(&device);
    assert_eq!(refused.err(), Some("No network interfaces available".to_string()));
    device.network_interfaces = 1;
    let mut run = benchmark.start_run(&device).unwrap();
    let broken = || Err("broken".to_string());
    assert_eq!(run.after_execution(&benchmark.config, broken()), broken().map(|_: u64| ()));
    assert_eq!(run.warmups_done, 0);
    assert_eq!(run.after_execution(&benchmark.config, Ok(9)), Ok(()));
    assert_eq!((run.warmups_done, run.execution_times.len()), (1, 0));
    assert_eq!(run.after_execution(&benchmark.config, Ok(7)), Ok(()));
    assert_eq!(run.after_execution(&benchmark.config, broken()), Err("broken".to_string()));
    assert_eq!(run.execution_times, vec![7_000]);
    assert_eq!(run.after_execution(&benchmark.config, Ok(8)), Ok(()));
    assert_eq!(run.after_execution(&benchmark.config, Ok(9)), Ok(()));
    assert_eq!(run.next_step(&benchmark.config), RunStep::Finish);
    assert_eq!(run.after_execution(&benchmark.config, Ok(10)), Ok(()));
    assert_eq!(run.execution_times, vec![7_000, 8_000, 9_000]);
}

#[test]
fn a_single_measurement_counts_as_unsteady() {
    let benchmark = Benchmark::new(config("b"));
    let mut run = BenchmarkRun::new();
    run.measured(5);
    assert!(run.finish(&benchmark).unwrap().high_variance);
    run.measured(50);
    assert!(run.finish(&benchmark).unwrap().high_variance);
}

#[test]
fn a_failed_execution_tells_why() {
    assert_eq!(execution_outcome(true, "out".to_string(), "err"), Ok("out".to_string()));
    assert_eq!(
        execution_outcome(false, "out".to_string(), "err"),
        Err("Benchmark failed: err".to_string())
    );
}

#[test]
fn readings_become_rates() {
    let mut counters = Counters::new();
    let mut reading = Reading {
        elapsed_ns: 0,
        networks: vec![(1024, 2048), (1024, 0)],
        disks: vec![(1_048_576, 0)],
        cpu_usage_percent: 12_500,
        cpu_temp_celsius: Some(41_000),
        used_memory: 5 * 1_048_576 + 7,
        total_memory: 10 * 1_048_576,
        used_swap: 0,
        process_threads: vec![3, 4],
        timestamp: 9,
        context_switches: 1,
        interrupts: 2,
    };
    let first = counters.advance(&reading).unwrap();
    assert_eq!(first.network_rx_kb_s, 0);
    assert_eq!(first.memory_used_mb, 5);
    assert_eq!((first.processes, first.threads), (2, 7));
    reading.elapsed_ns = 500_000_000;
    reading.networks = vec![(4096, 2048), (1024, 0)];
    reading.disks = vec![(1_048_576, 1_048_576)];
    let second = counters.advance(&reading).unwrap();
    assert_eq!(second.network_rx_kb_s, 6000);
    assert_eq!(second.network_tx_kb_s, 0);
    assert_eq!(second.disk_write_mb_s, 2000);
    reading.networks = vec![(1, 2048)];
    assert!(counters.advance(&reading).is_none());
    assert_eq!(counters.net_rx, 5120);
    reading.elapsed_ns = 0;
    let instant = counters.advance(&reading).unwrap();
    assert_eq!((instant.network_rx_kb_s, instant.network_tx_kb_s), (0, 0));
    assert_eq!((instant.disk_read_mb_s, instant.disk_write_mb_s), (0, 0));
    assert_eq!(counters, Counters { net_rx: 1, net_tx: 2048, disk_read: 1 << 20, disk_write: 1 << 20 });
    reading.networks = vec![(u64::MAX, 2048), (1, 0)];
    assert!(counters.advance(&reading).is_none());
}

#[test]
fn histories_of_snapshots_are_bounded() {
    let mut profiler = SystemProfiler::new(100, 2);
    for i in 1..=3 {
        profiler.add_to_history(snapshot(i * 10_000, i, None, i));
    }
    assert_eq!(profiler.history.len(), 2);
    assert_eq!(
        profiler.get_stats(0),
        vec![
            ("cpu.avg".to_string(), 25_000),
            ("cpu.max".to_string(), 30_000),
            ("memory.avg_mb".to_string(), 2_500),
        ]
    );
    assert_eq!(profiler.get_stats(2_000_000_000)[0], ("cpu.avg".to_string(), 30_000));
    assert!(profiler.get_stats(3_000_000_000).is_empty());
    let mut nothing = SystemProfiler::new(100, 0);
    nothing.add_to_history(snapshot(1, 1, None, 1));
    assert!(nothing.history.is_empty());
}
