//! The benchmarks that the agent runs by default, and their schedule.

use crate::benchmark::BenchmarkConfig;
use crate::text::string_views;
use vstd::prelude::*;

verus! {

/// Whether a configuration is this one, without environment and in the current directory.
pub open spec fn is_config(
    c: BenchmarkConfig,
    id: Seq<char>,
    command: Seq<char>,
    args: Seq<Seq<char>>,
    iterations: (int, int),
    timeout_secs: int,
    resources: Seq<Seq<char>>,
    min_samples: int,
    max_sample_variance: int,
) -> bool {
    &&& c.id@ == id
    &&& c.command@ == command
    &&& string_views(c.args@) == args
    &&& c.env_vars@.len() == 0
    &&& c.working_dir is None
    &&& c.warmup_iterations == iterations.0
    &&& c.measure_iterations == iterations.1
    &&& c.timeout_secs == timeout_secs
    &&& string_views(c.required_resources@) == resources
    &&& c.min_samples == min_samples
    &&& c.max_sample_variance == max_sample_variance
}

fn no_strings() -> (r: Vec<String>)
    ensures
        string_views(r@) == Seq::<Seq<char>>::empty(),
{
    let r: Vec<String> = Vec::new();
    assert(string_views(r@) =~= Seq::<Seq<char>>::empty());
    r
}

fn push_text(v: &mut Vec<String>, s: &str)
    ensures
        string_views(final(v)@) == string_views(old(v)@).push(s@),
{
    v.push(s.to_owned());
    assert(string_views(v@) =~= string_views(old(v)@).push(s@));
}

/// Asks the kernel for the number of the process, under a profiler.
pub open spec fn is_getpid_config(c: BenchmarkConfig) -> bool {
    is_config(
        c,
        "syscall.getpid"@,
        "perf"@,
        seq!["stat"@, "-e"@, "cycles,instructions,cache-misses"@, "--"@, "getpid"@],
        (10, 100),
        30,
        seq![],
        10,
        100,
    )
}

/// Asks the kernel for the number of the process, under a profiler.
pub fn getpid_config() -> (r: BenchmarkConfig)
    ensures
        is_getpid_config(r),
{
    let mut args = no_strings();
    push_text(&mut args, "stat");
    push_text(&mut args, "-e");
    push_text(&mut args, "cycles,instructions,cache-misses");
    push_text(&mut args, "--");
    push_text(&mut args, "getpid");
    assert(string_views(args@) =~= seq!["stat"@, "-e"@, "cycles,instructions,cache-misses"@, "--"@, "getpid"@]);
    let required_resources = no_strings();
    BenchmarkConfig {
        id: "syscall.getpid".to_owned(),
        command: "perf".to_owned(),
        args,
        env_vars: Vec::new(),
        working_dir: None,
        warmup_iterations: 10,
        measure_iterations: 100,
        timeout_secs: 30,
        required_resources,
        min_samples: 10,
        max_sample_variance: 100,
    }
}

/// Copies zeros to nowhere.
pub open spec fn is_file_read_config(c: BenchmarkConfig) -> bool {
    is_config(
        c,
        "fileio.read"@,
        "dd"@,
        seq!["if=/dev/zero"@, "of=/dev/null"@, "bs=4096"@, "count=100000"@],
        (3, 20),
        60,
        seq!["disk_space"@],
        10,
        150,
    )
}

/// Copies zeros to nowhere.
pub fn file_read_config() -> (r: BenchmarkConfig)
    ensures
        is_file_read_config(r),
{
    let mut args = no_strings();
    push_text(&mut args, "if=/dev/zero");
    push_text(&mut args, "of=/dev/null");
    push_text(&mut args, "bs=4096");
    push_text(&mut args, "count=100000");
    assert(string_views(args@) =~= seq!["if=/dev/zero"@, "of=/dev/null"@, "bs=4096"@, "count=100000"@]);
    let mut required_resources = no_strings();
    push_text(&mut required_resources, "disk_space");
    assert(string_views(required_resources@) =~= seq!["disk_space"@]);
    BenchmarkConfig {
        id: "fileio.read".to_owned(),
        command: "dd".to_owned(),
        args,
        env_vars: Vec::new(),
        working_dir: None,
        warmup_iterations: 3,
        measure_iterations: 20,
        timeout_secs: 60,
        required_resources,
        min_samples: 10,
        max_sample_variance: 150,
    }
}

/// Looks for a large prime number.
pub open spec fn is_prime_config(c: BenchmarkConfig) -> bool {
    is_config(
        c,
        "cpu.prime"@,
        "openssl"@,
        seq!["prime"@, "generate"@, "4096"@],
        (2, 5),
        300,
        seq![],
        5,
        200,
    )
}

/// Looks for a large prime number.
pub fn prime_config() -> (r: BenchmarkConfig)
    ensures
        is_prime_config(r),
{
    let mut args = no_strings();
    push_text(&mut args, "prime");
    push_text(&mut args, "generate");
    push_text(&mut args, "4096");
    assert(string_views(args@) =~= seq!["prime"@, "generate"@, "4096"@]);
    let required_resources = no_strings();
    BenchmarkConfig {
        id: "cpu.prime".to_owned(),
        command: "openssl".to_owned(),
        args,
        env_vars: Vec::new(),
        working_dir: None,
        warmup_iterations: 2,
        measure_iterations: 5,
        timeout_secs: 300,
        required_resources,
        min_samples: 5,
        max_sample_variance: 200,
    }
}

/// Allocates memory in two processes.
pub open spec fn is_allocation_config(c: BenchmarkConfig) -> bool {
    is_config(
        c,
        "memory.alloc"@,
        "stress"@,
        seq!["--vm"@, "2"@, "--vm-bytes"@, "256M"@, "--timeout"@, "10s"@],
        (1, 3),
        30,
        seq![],
        3,
        250,
    )
}

/// Allocates memory in two processes.
pub fn allocation_config() -> (r: BenchmarkConfig)
    ensures
        is_allocation_config(r),
{
    let mut args = no_strings();
    push_text(&mut args, "--vm");
    push_text(&mut args, "2");
    push_text(&mut args, "--vm-bytes");
    push_text(&mut args, "256M");
    push_text(&mut args, "--timeout");
    push_text(&mut args, "10s");
    assert(string_views(args@) =~= seq!["--vm"@, "2"@, "--vm-bytes"@, "256M"@, "--timeout"@, "10s"@]);
    let required_resources = no_strings();
    BenchmarkConfig {
        id: "memory.alloc".to_owned(),
        command: "stress".to_owned(),
        args,
        env_vars: Vec::new(),
        working_dir: None,
        warmup_iterations: 1,
        measure_iterations: 3,
        timeout_secs: 30,
        required_resources,
        min_samples: 3,
        max_sample_variance: 250,
    }
}

/// Sends over four connections to the device itself.
pub open spec fn is_tcp_config(c: BenchmarkConfig) -> bool {
    is_config(
        c,
        "network.tcp"@,
        "iperf3"@,
        seq!["-c"@, "localhost"@, "-t"@, "10"@, "-P"@, "4"@],
        (1, 3),
        60,
        seq!["network"@],
        3,
        300,
    )
}

/// Sends over four connections to the device itself.
pub fn tcp_config() -> (r: BenchmarkConfig)
    ensures
        is_tcp_config(r),
{
    let mut args = no_strings();
    push_text(&mut args, "-c");
    push_text(&mut args, "localhost");
    push_text(&mut args, "-t");
    push_text(&mut args, "10");
    push_text(&mut args, "-P");
    push_text(&mut args, "4");
    assert(string_views(args@) =~= seq!["-c"@, "localhost"@, "-t"@, "10"@, "-P"@, "4"@]);
    let mut required_resources = no_strings();
    push_text(&mut required_resources, "network");
    assert(string_views(required_resources@) =~= seq!["network"@]);
    BenchmarkConfig {
        id: "network.tcp".to_owned(),
        command: "iperf3".to_owned(),
        args,
        env_vars: Vec::new(),
        working_dir: None,
        warmup_iterations: 1,
        measure_iterations: 3,
        timeout_secs: 60,
        required_resources,
        min_samples: 3,
        max_sample_variance: 300,
    }
}

/// The benchmarks that the agent runs by default, in their order.
pub fn standard_benchmarks() -> (r: Vec<BenchmarkConfig>)
    ensures
        r@.len() == 5,
        is_getpid_config(r@[0]),
        is_file_read_config(r@[1]),
        is_prime_config(r@[2]),
        is_allocation_config(r@[3]),
        is_tcp_config(r@[4]),
{
    let mut r: Vec<BenchmarkConfig> = Vec::new();
    r.push(getpid_config());
    r.push(file_read_config());
    r.push(prime_config());
    r.push(allocation_config());
    r.push(tcp_config());
    r
}

/// The benchmarks that run again and again by default, with the seconds between two runs.
pub fn standard_schedule() -> (r: Vec<(String, u64)>)
    ensures
        r@.len() == 3,
        r@[0].0@ == "syscall.getpid"@ && r@[0].1 == 60,
        r@[1].0@ == "fileio.read"@ && r@[1].1 == 300,
        r@[2].0@ == "cpu.prime"@ && r@[2].1 == 3600,
{
    let mut r: Vec<(String, u64)> = Vec::new();
    r.push(("syscall.getpid".to_owned(), 60));
    r.push(("fileio.read".to_owned(), 300));
    r.push(("cpu.prime".to_owned(), 3600));
    r
}

} // verus!
