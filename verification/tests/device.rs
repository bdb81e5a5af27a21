use mobile_perf::android::{binder_keeps_up, check_selinux_enforcement, get_gpu_info};
use mobile_perf::android::{get_lmk_parameters, get_power_profile, get_thermal_zones};
use mobile_perf::android::{measure_binder_latency, test_binder_communication, test_neon_support};
use mobile_perf::decimal::{decimal_int_text, decimal_text, parse_i32, parse_unsigned, ParseIntError};
use mobile_perf::device;
use mobile_perf::ios::{get_battery_info, get_power_consumption, test_mach_ipc, test_runloop};
use mobile_perf::power::{self, DevicePower, PowerState, SuspendFault, WakeLock};
use mobile_perf::procfs::{self, MemoryStats};
use mobile_perf::sensors::{self, Platform};
use mobile_perf::text::{after_last, chars_of, contains, split_on, split_whitespace, trim_text};
use mobile_perf::text::{is_text, lines, word_strings};

const STAT: &str = "cpu  10 20 30 40 5\ncpu0 1 2 3 4\nintr 77 1 2\nctxt 123456\nbtime 1\n";
const MEMINFO: &str = "MemTotal:        4096 kB\nMemFree: 1000 kB\nMemAvailable: 2048 kB\n\
                       Cached: 512 kB\nSwapTotal: 100 kB\nSwapFree: 60 kB\n";

fn pair(a: &str, b: &str) -> (String, String) {
    (a.to_string(), b.to_string())
}

#[test]
fn counters_are_read() {
    assert_eq!(procfs::read_context_switches(STAT), Ok(123_456));
    assert_eq!(procfs::read_interrupts(STAT), Ok(77));
    assert_eq!(
        procfs::read_context_switches("cpu 1\n"),
        Err("ctxt not found in /proc/stat".to_string())
    );
    assert_eq!(procfs::read_interrupts(""), Err("intr not found in /proc/stat".to_string()));
    assert_eq!(
        procfs::read_context_switches("ctxt \nctxt x\nctxt 5\n"),
        Err("invalid digit found in string".to_string())
    );
    assert_eq!(
        procfs::read_interrupts("intr 18446744073709551616"),
        Err("number too large to fit in target type".to_string())
    );
    assert_eq!(procfs::read_interrupts("intr +18446744073709551615\r\n"), Ok(u64::MAX));
}

#[test]
fn counters_have_fallbacks() {
    assert_eq!(device::get_context_switches(Some(STAT)), 123_456);
    assert_eq!(device::get_context_switches(None), 0);
    assert_eq!(device::get_interrupts(Some("ctxt 5")), 0);
    assert_eq!(sensors::get_context_switches(None), 1_000_000);
    assert_eq!(sensors::get_context_switches(Some("ctxt many")), 0);
    assert_eq!(sensors::get_interrupts(Some("ctxt 5")), 500_000);
    assert_eq!(sensors::get_interrupts(Some(STAT)), 77);
}

#[test]
fn loads_are_read() {
    let text = "0.52 0.58 0.59 2/467 12345\n";
    assert_eq!(procfs::read_process_stats(text), Ok((2, 467)));
    let loads = procfs::read_load_average(text).unwrap();
    assert_eq!(loads, ("0.52".to_string(), "0.58".to_string(), "0.59".to_string()));
    let invalid = Err("Invalid loadavg format".to_string());
    assert_eq!(procfs::read_process_stats("0.52 0.58 0.59"), invalid);
    assert_eq!(procfs::read_process_stats("0.52 0.58 0.59 2"), invalid);
    assert!(procfs::read_load_average("0.52 0.58").is_err());
    assert_eq!(
        procfs::read_process_stats("0 0 0 /3"),
        Err("cannot parse integer from empty string".to_string())
    );
    assert_eq!(
        procfs::read_process_stats("0 0 0 1/4294967296"),
        Err("number too large to fit in target type".to_string())
    );
    assert_eq!(procfs::read_uptime("350735.47 234388.90\n"), Ok("350735.47".to_string()));
    assert_eq!(procfs::read_uptime(" \n"), Err("Invalid uptime format".to_string()));
}

#[test]
fn memory_sizes_are_read() {
    assert_eq!(
        procfs::get_memory_stats(MEMINFO),
        Some(MemoryStats {
            total: 4096 * 1024,
            free: 1000 * 1024,
            available: 2048 * 1024,
            cached: 512 * 1024,
            swap_total: 100 * 1024,
            swap_used: 40 * 1024,
        })
    );
    assert_eq!(procfs::get_memory_stats("MemFree: x kB\nMemTotal:\n").unwrap().free, 0);
    assert_eq!(procfs::get_memory_stats("SwapFree: 1 kB\n"), None);
    assert_eq!(procfs::get_memory_stats("MemTotal: 18014398509481984 kB\n"), None);
    assert_eq!(procfs::get_memory_total(Some(MEMINFO)), Some(4096 * 1024));
    assert_eq!(procfs::get_memory_cached(Some(MEMINFO)), Some(512 * 1024));
    assert_eq!(procfs::get_memory_used(Some(MEMINFO)), Some(2048 * 1024));
    assert_eq!(procfs::get_swap_used(Some(MEMINFO)), Some(40 * 1024));
    assert_eq!(procfs::get_swap_free(Some("SwapFree: x")), Some(0));
    assert_eq!(procfs::get_memory_total(None), Some(4 << 30));
    assert_eq!(procfs::get_memory_available(None), Some(2 << 30));
    assert_eq!(procfs::get_memory_used(None), Some(2 << 30));
    assert_eq!(procfs::get_memory_cached(None), Some(500 << 20));
    assert_eq!(procfs::get_swap_total(None), Some(1 << 30));
    assert_eq!(procfs::get_swap_free(None), Some(800 << 20));
    assert_eq!(procfs::get_memory_used(Some("MemTotal: 1\nMemAvailable: 2\n")), None);
    assert_eq!(procfs::get_memory_total(Some("MemTotal: 18014398509481984")), None);
}

#[test]
fn small_files_hold_numbers() {
    assert_eq!(device::get_cpu_temperature(Some(" 41234\n")), Some(41_234));
    assert_eq!(device::get_cpu_temperature(Some("-1")), None);
    assert_eq!(device::get_cpu_temperature(None), None);
    assert_eq!(device::get_battery_level(Some("55")), 55);
    assert_eq!(device::get_battery_level(Some("256")), 100);
    assert_eq!(device::get_battery_level(None), 100);
    assert!(device::is_thermal_throttling(Some("2\n")));
    assert!(!device::is_thermal_throttling(Some("0")));
    assert!(!device::is_thermal_throttling(Some("hot")));
    assert_eq!(device::get_kernel_version(Some(" 5.4\n")), "5.4");
    assert_eq!(device::get_kernel_version(None), "unknown");
}

#[test]
fn file_systems_and_priorities() {
    assert!(device::supports_hard_links("/dev/x ext4 1 2"));
    assert!(!device::supports_hard_links("/dev/x vfat 1 2"));
    assert!(!device::supports_hard_links("x fuse.sdcardfs"));
    assert_eq!(device::set_thread_priority(0), Some(10));
    assert_eq!(device::set_thread_priority(1), Some(0));
    assert_eq!(device::set_thread_priority(2), Some(-10));
    assert_eq!(device::set_thread_priority(3), None);
}

#[test]
fn sensors_read_files() {
    assert_eq!(sensors::get_cpu_usage(Some(STAT)), 60_000);
    assert_eq!(sensors::read_cpu_usage(Some("cpu 0 0 0 0\ncpu 1 0 0 2\n")), Some(33_333));
    assert_eq!(sensors::read_cpu_usage(Some("cpu 1 2 3\ncpu0 1 1 1 1")), None);
    assert_eq!(sensors::measure_cpu_temperature(Some("71000")), 71_000);
    assert_eq!(sensors::get_gpu_usage(Some(Some(12_500))), 12_500);
    assert_eq!(sensors::get_gpu_usage(Some(None)), 0);
    assert_eq!(sensors::get_battery_level(Some(None)), 50_000);
    assert_eq!(sensors::get_battery_level(Some(Some(77_000))), 77_000);
    assert_eq!(sensors::get_battery_current(Some("-250\n")), -250);
    assert_eq!(sensors::get_battery_current(Some("2147483648")), 0);
    assert_eq!(sensors::get_battery_current(Some("-2147483648")), i32::MIN);
    assert_eq!(sensors::get_battery_temperature(Some("312")), 31_200);
    assert_eq!(sensors::get_battery_temperature(Some("cold")), 30_000);
    assert_eq!(sensors::get_battery_voltage(Some("3812345\n")), 3812);
    assert_eq!(sensors::get_battery_voltage(Some("?")), 3700);
    assert_eq!(sensors::get_battery_voltage(None), 3700);
}

#[test]
fn unreadable_sensors_are_drawn() {
    let mut seen = Vec::new();
    for _ in 0..200 {
        let cpu = sensors::get_cpu_usage(None);
        assert!((20_000..60_000).contains(&cpu));
        seen.push(cpu);
        assert!((35_000..65_000).contains(&sensors::measure_cpu_temperature(None)));
        assert!((30_000..80_000).contains(&sensors::get_gpu_usage(None)));
        assert!((30_000..70_000).contains(&sensors::get_battery_level(None)));
        assert!((-500..500).contains(&sensors::get_battery_current(None)));
        assert!((25_000..40_000).contains(&sensors::get_battery_temperature(None)));
    }
    seen.sort();
    seen.dedup();
    assert!(seen.len() > 100);
}

#[test]
fn throttling_has_stages() {
    assert_eq!(sensors::get_throttling_stage(Some("3"), Some("1"), None), 3);
    assert_eq!(sensors::get_throttling_stage(Some("x"), Some("1"), None), 0);
    assert_eq!(sensors::get_throttling_stage(None, Some("1"), None), 1);
    assert_eq!(sensors::get_throttling_stage(None, None, Some("80001")), 2);
    assert_eq!(sensors::get_throttling_stage(None, None, Some("80000")), 1);
    assert_eq!(sensors::get_throttling_stage(None, None, Some("70000")), 0);
    assert_eq!(sensors::get_throttling_stage(None, None, None), 0);
    assert!(sensors::is_thermal_throttling(None, None, Some("70001")));
    assert!(!sensors::is_thermal_throttling(Some("0"), None, Some("90000")));
}

#[test]
fn processes_and_threads_are_counted() {
    let names: Vec<String> =
        ["1", "22", "self", "4294967296", "+7"].iter().map(|s| s.to_string()).collect();
    assert_eq!(sensors::get_process_count(Some(&names)), 3);
    assert_eq!(sensors::get_process_count(None), 200);
    let entries = vec![
        ("1".to_string(), Some(4)),
        ("2".to_string(), None),
        ("self".to_string(), Some(9)),
        ("33".to_string(), Some(2)),
    ];
    assert_eq!(sensors::get_thread_count(Platform::Android, &entries), Some(6));
    assert_eq!(sensors::get_thread_count(Platform::Ios, &entries), Some(1000));
    assert_eq!(sensors::get_thread_count(Platform::Android, &Vec::new()), Some(0));
    let many = vec![("1".to_string(), Some(u32::MAX as usize)), ("2".to_string(), Some(1))];
    assert_eq!(sensors::get_thread_count(Platform::Android, &many), None);
    assert_eq!(sensors::count_open_files(Some(7)), 7);
    assert_eq!(sensors::count_open_files(None), 100);
    assert_eq!(sensors::free_disk_space_mb(Some(5 * 1_048_576 - 1)), 4);
    assert_eq!(sensors::free_disk_space_mb(None), 1000);
}

#[test]
fn test_directories_depend_on_the_platform() {
    assert_eq!(sensors::get_mobile_test_dir(Platform::Android, Some("/home")), "/data/local/tmp");
    assert_eq!(sensors::get_mobile_test_dir(Platform::Ios, Some("/home")), "/home/tmp");
    assert_eq!(sensors::get_mobile_test_dir(Platform::Ios, Some("/home/")), "/home/tmp");
    assert_eq!(sensors::get_mobile_test_dir(Platform::Ios, Some("")), "tmp");
    assert_eq!(sensors::get_mobile_test_dir(Platform::Ios, None), "/tmp");
}

#[test]
fn android_devices_describe_themselves() {
    assert_eq!(test_binder_communication(3, 0, 8), Ok(()));
    assert_eq!(
        test_binder_communication(-1, 0, 8),
        Err("Failed to open binder driver".to_string())
    );
    assert_eq!(
        test_binder_communication(3, -1, 8),
        Err("Binder version check failed: 8".to_string())
    );
    assert_eq!(
        test_binder_communication(3, 0, -7),
        Err("Binder version check failed: -7".to_string())
    );
    assert_eq!(measure_binder_latency(1_999, 1000), 1);
    assert!(binder_keeps_up(99_999));
    assert!(!binder_keeps_up(100_000));
    assert!(check_selinux_enforcement(Some("1\n")));
    assert!(!check_selinux_enforcement(Some("10")));
    assert!(!check_selinux_enforcement(None));
    assert!(test_neon_support(Some("Features: fp asimd")));
    assert!(test_neon_support(Some("neon")));
    assert!(!test_neon_support(Some("fp")));
    assert!(!test_neon_support(None));
    assert_eq!(
        get_gpu_info(Some(" Adreno \n"), Some("1 2")),
        vec![pair("model", "Adreno"), pair("frequencies", "1 2")]
    );
    assert_eq!(get_gpu_info(None, Some("1")), vec![pair("frequencies", "1")]);
    assert_eq!(
        get_lmk_parameters(Some("1,2\n"), None, Some("32")),
        vec![pair("minfree", "1,2"), pair("cost", "32")]
    );
    assert_eq!(get_lmk_parameters(None, Some("0"), None), vec![pair("adj", "0")]);
    assert_eq!(
        get_power_profile(Some("1800000\n"), Some("fast"), None),
        vec![("cpu".to_string(), 1_800_000), ("gpu".to_string(), 0)]
    );
    let zones = vec![
        ("thermal_zone0".to_string(), Some("40000\n".to_string())),
        ("thermal_zone1".to_string(), Some("-5".to_string())),
        ("cooling".to_string(), None),
        ("thermal_zone2".to_string(), Some("7".to_string())),
    ];
    assert_eq!(
        get_thermal_zones(&zones),
        vec![("thermal_zone0".to_string(), 40_000), ("thermal_zone2".to_string(), 7)]
    );
}

#[test]
fn test_ipc_performance() {
    let latency = measure_binder_latency(25_000_000, 1000);
    assert_eq!(latency, 25_000);
    assert!(binder_keeps_up(latency), "Binder too slow");
    assert!(test_mach_ipc(1).is_ok(), "Mach IPC failed");
}

#[test]
fn ios_devices_describe_themselves() {
    assert_eq!(test_mach_ipc(5), Ok(()));
    assert_eq!(test_mach_ipc(0), Err("Failed to allocate mach port".to_string()));
    assert_eq!(get_power_consumption(), Ok(0));
    assert_eq!(test_runloop(), Err("Failed to get runloop".to_string()));
    assert_eq!(
        get_battery_info(870, 2),
        vec![("level".to_string(), 87_000), ("state".to_string(), 2_000)]
    );
}

#[test]
fn power_is_managed() {
    assert!(power::is_power_state_supported(PowerState::Hibernate));
    let mut device = DevicePower::new();
    assert_eq!(device.measure_power_consumption(), 500);
    for state in [PowerState::Active, PowerState::Idle, PowerState::Sleep] {
        let before = device.measure_power_consumption();
        assert_eq!(device.transition_to_power_state(state), 100);
        let after = device.measure_power_consumption();
        let diff = before as i32 - after as i32;
        assert!(state == PowerState::Active || diff > 0);
        assert_eq!(power::check_power_drop(state, before, after), (diff as i64, true));
        device.transition_to_power_state(PowerState::Active);
    }
    assert_eq!(power::check_power_drop(PowerState::Active, 500, 600), (-100, true));
    assert_eq!(power::check_power_drop(PowerState::Idle, 500, 500), (0, false));
    assert_eq!(power::check_power_drop(PowerState::Sleep, 500, 499), (1, true));
    assert_eq!(power::get_available_cpu_frequencies(), vec![300, 600, 1200, 1800]);
    assert_eq!(device.get_current_cpu_frequency(), 1200);
    for freq in power::get_available_cpu_frequencies() {
        device.set_cpu_frequency(freq);
        let current = device.get_current_cpu_frequency();
        assert!((current as i32 - freq as i32).abs() < 100);
        assert!(power::frequency_is_set(current, freq));
    }
    assert!(power::frequency_is_set(1200, 1299));
    assert!(!power::frequency_is_set(1200, 1300));
    assert!(!power::frequency_is_set(0, u32::MAX));
    assert!(power::is_suspend_supported(true));
    assert!(!power::is_suspend_supported(false));
    assert_eq!(power::wake_system(), Ok(()));
    assert_eq!(power::check_suspend(9_999_999_999, 1), Ok(()));
    assert_eq!(power::check_suspend(10_000_000_000, 1), Err(SuspendFault::TooSlow));
    assert_eq!(power::check_suspend(1, 0), Err(SuspendFault::NotResumed));
    let lock = WakeLock::new("test_wakelock").unwrap();
    assert_eq!(lock.acquire(), Ok(()));
    assert!(lock.kept_awake(99_999_999));
    assert!(!lock.kept_awake(100_000_000));
    assert_eq!(lock.release(), Ok(()));
}

#[test]
fn text_is_taken_apart() {
    let text = chars_of(" a\u{a0}bc\t d \n");
    let words: Vec<String> = split_whitespace(&text).iter().map(|w| w.iter().collect()).collect();
    assert_eq!(words, vec!["a", "bc", "d"]);
    assert_eq!(word_strings(" a\u{a0}bc\t d \n"), words);
    let pieces: Vec<String> =
        split_on(&chars_of("/a//b"), '/').iter().map(|w| w.iter().collect()).collect();
    assert_eq!(pieces, vec!["", "a", "", "b"]);
    assert_eq!(lines(&chars_of("x\ny\n")).len(), 3);
    assert_eq!(trim_text("\r\n x y \u{3000}"), "x y");
    assert_eq!(trim_text(" "), "");
    assert_eq!(after_last("a/b/c", '/'), "c");
    assert_eq!(after_last("abc", '/'), "abc");
    assert_eq!(after_last("a/", '/'), "");
    assert!(contains("abcabd", "abd"));
    assert!(contains("abc", ""));
    assert!(!contains("ab", "abc"));
    assert!(is_text(&chars_of("abc"), "abc"));
    assert!(!is_text(&chars_of("abc"), "abd"));
}

#[test]
fn numbers_are_read_and_written() {
    let read = |s: &str| parse_unsigned(&chars_of(s), 255);
    assert_eq!(read("255"), Ok(255));
    assert_eq!(read("+0001"), Ok(1));
    assert_eq!(read("256"), Err(ParseIntError::PosOverflow));
    assert_eq!(read("256x"), Err(ParseIntError::PosOverflow));
    assert_eq!(read("25x6"), Err(ParseIntError::InvalidDigit));
    assert_eq!(read("+"), Err(ParseIntError::InvalidDigit));
    assert_eq!(read("-1"), Err(ParseIntError::InvalidDigit));
    assert_eq!(read(""), Err(ParseIntError::Empty));
    assert_eq!(parse_i32(&chars_of("-12")), Some(-12));
    assert_eq!(parse_i32(&chars_of("--12")), None);
    assert_eq!(parse_i32(&chars_of("2147483647")), Some(i32::MAX));
    assert_eq!(decimal_text(0), "0");
    assert_eq!(decimal_text(u64::MAX), "18446744073709551615");
    assert_eq!(decimal_int_text(i64::MIN), "-9223372036854775808");
    for n in [0u64, 7, 10, 99, 1_000_003] {
        assert_eq!(parse_unsigned(&chars_of(&decimal_text(n)), u64::MAX), Ok(n));
    }
}
