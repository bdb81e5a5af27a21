//! The checks of the operating system: what each measures, and what counts as a failure.

use crate::decimal::{decimal, decimal_text};
use crate::procfs::{counter, process_stats};
use crate::procfs::{read_context_switches, read_interrupts, read_process_stats};
use crate::profiler::MEGABYTE;
use crate::series::{average, average_of, total};
use crate::text::{chars_of, split, split_on, texts};
use vstd::prelude::*;

verus! {

/// What the kernel tells of itself. Loads are in thousandths.
#[derive(Clone, Copy, Debug)]
pub struct KernelStats {
    /// Milliseconds since boot.
    pub uptime_ms: u64,
    pub context_switches: u64,
    pub interrupts: u64,
    pub processes: u32,
    pub threads: u32,
    /// Over one, five and fifteen minutes.
    pub load_average: (u64, u64, u64),
}

/// What a check gives.
#[derive(Debug)]
pub struct TestReport {
    pub name: String,
    pub duration_ns: u64,
    pub passed: bool,
    /// Names and values in thousandths.
    pub metrics: Vec<(String, u128)>,
    pub errors: Vec<String>,
}

/// The first error among the files of the kernel, in the order in which they are needed.
pub open spec fn kernel_fault(
    uptime: Result<u64, String>,
    stat: Result<String, String>,
    loadavg: Result<String, String>,
    loads: Result<(u64, u64, u64), String>,
) -> Option<Seq<char>> {
    match (uptime, stat) {
        (Err(e), _) => Some(e@),
        (_, Err(e)) => Some(e@),
        (Ok(_), Ok(s)) => match (
            counter(s@, "ctxt "@, "ctxt not found in /proc/stat"@),
            counter(s@, "intr "@, "intr not found in /proc/stat"@),
        ) {
            (Err(e), _) => Some(e),
            (_, Err(e)) => Some(e),
            (Ok(_), Ok(_)) => match loadavg {
                Err(e) => Some(e@),
                Ok(l) => match (process_stats(l@), loads) {
                    (Err(e), _) => Some(e),
                    (_, Err(e)) => Some(e@),
                    (Ok(_), Ok(_)) => None,
                },
            },
        },
    }
}

/// Whether the statistics are those of the files.
pub open spec fn is_kernel_stats(
    k: KernelStats,
    uptime: u64,
    stat: Seq<char>,
    loadavg: Seq<char>,
    loads: (u64, u64, u64),
) -> bool {
    &&& k.uptime_ms == uptime
    &&& counter(stat, "ctxt "@, "ctxt not found in /proc/stat"@) == Ok::<int, Seq<char>>(
        k.context_switches as int,
    )
    &&& counter(stat, "intr "@, "intr not found in /proc/stat"@) == Ok::<int, Seq<char>>(
        k.interrupts as int,
    )
    &&& process_stats(loadavg) == Ok::<(int, int), Seq<char>>(
        (k.processes as int, k.threads as int),
    )
    &&& k.load_average == loads
}

/// Puts together what the files of the kernel tell: the milliseconds since boot, the text
/// of `/proc/stat` and of `/proc/loadavg`, and the loads in the latter. The first error is
/// the result.
pub fn get_kernel_stats(
    uptime: Result<u64, String>,
    stat: Result<String, String>,
    loadavg: Result<String, String>,
    loads: Result<(u64, u64, u64), String>,
) -> (r: Result<KernelStats, String>)
    ensures
        match r {
            Ok(k) => kernel_fault(uptime, stat, loadavg, loads) is None && is_kernel_stats(
                k,
                uptime->Ok_0,
                stat->Ok_0@,
                loadavg->Ok_0@,
                loads->Ok_0,
            ),
            Err(e) => kernel_fault(uptime, stat, loadavg, loads) == Some(e@),
        },
{
    let uptime_ms: u64 = match uptime {
        Ok(v) => v,
        Err(e) => {
            return Err(e);
        },
    };
    let stat_text: String = match stat {
        Ok(s) => s,
        Err(e) => {
            return Err(e);
        },
    };
    let context_switches: u64 = match read_context_switches(stat_text.as_str()) {
        Ok(v) => v,
        Err(e) => {
            return Err(e);
        },
    };
    let interrupts: u64 = match read_interrupts(stat_text.as_str()) {
        Ok(v) => v,
        Err(e) => {
            return Err(e);
        },
    };
    let load_text: String = match loadavg {
        Ok(s) => s,
        Err(e) => {
            return Err(e);
        },
    };
    let (processes, threads) = match read_process_stats(load_text.as_str()) {
        Ok(p) => p,
        Err(e) => {
            return Err(e);
        },
    };
    let load_average: (u64, u64, u64) = match loads {
        Ok(l) => l,
        Err(e) => {
            return Err(e);
        },
    };
    Ok(
        KernelStats {
            uptime_ms,
            context_switches,
            interrupts,
            processes,
            threads,
            load_average,
        },
    )
}

/// The texts that a list of strings holds.
pub open spec fn messages(v: Seq<String>) -> Seq<Seq<char>> {
    v.map_values(|s: String| s@)
}

/// What is wrong with the kernel.
pub open spec fn kernel_errors(k: KernelStats) -> Seq<Seq<char>> {
    (if k.uptime_ms < 1000 {
        seq!["Uptime is zero"@]
    } else {
        seq![]
    }) + (if k.context_switches == 0 {
        seq!["No context switches"@]
    } else {
        seq![]
    }) + (if k.load_average.0 > 100_000 {
        seq!["Load average too high"@]
    } else {
        seq![]
    })
}

/// Judges the kernel: it must have been up for a second, have switched contexts, and have
/// a load of at most a hundred.
pub fn run_kernel_basics(k: &KernelStats, duration_ns: u64) -> (r: TestReport)
    ensures
        r.name@ == "kernel_basics"@,
        r.duration_ns == duration_ns,
        messages(r.errors@) == kernel_errors(*k),
        r.passed == (kernel_errors(*k).len() == 0),
        crate::profiler::named_values(r.metrics@) == seq![
            ("uptime_secs"@, k.uptime_ms as int),
            ("context_switches"@, k.context_switches * 1000),
        ],
{
    let mut errors: Vec<String> = Vec::new();
    let mut metrics: Vec<(String, u128)> = Vec::new();
    if k.uptime_ms < 1000 {
        errors.push("Uptime is zero".to_owned());
    }
    metrics.push(("uptime_secs".to_owned(), k.uptime_ms as u128));
    if k.context_switches == 0 {
        errors.push("No context switches".to_owned());
    }
    metrics.push(("context_switches".to_owned(), k.context_switches as u128 * 1000));
    if k.load_average.0 > 100_000 {
        errors.push("Load average too high".to_owned());
    }
    assert(messages(errors@) =~= kernel_errors(*k));
    assert(crate::profiler::named_values(metrics@) =~= seq![
        ("uptime_secs"@, k.uptime_ms as int),
        ("context_switches"@, k.context_switches * 1000),
    ]);
    let passed: bool = errors.len() == 0;
    assert(messages(errors@).len() == errors@.len());
    TestReport { name: "kernel_basics".to_owned(), duration_ns, passed, metrics, errors }
}

/// Judges the scheduler by the times of its turns: their mean must be below 100
/// microseconds. Where it is not, the mean is the error; without turns there is nothing to
/// judge.
pub fn check_scheduler(turns: &Vec<u64>) -> (r: Result<(), u64>)
    ensures
        match r {
            Ok(_) => turns@.len() == 0 || average(turns@) < 100_000,
            Err(mean) => turns@.len() > 0 && mean == average(turns@) && mean >= 100_000,
        },
        r is Ok && turns@.len() > 0 ==> total(turns@) < 100 * 1000 * turns@.len(),
        r matches Err(mean) ==> mean * turns@.len() <= total(turns@) < (mean + 1) * turns@.len()
            && total(turns@) >= 100 * 1000 * turns@.len(),
{
    if turns.len() == 0 {
        return Ok(());
    }
    proof {
        crate::series::average_is_within_one(turns@);
        let n = turns@.len() as int;
        let a = average(turns@);
        if a < 100_000 {
            assert((a + 1) * n <= 100_000 * n) by (nonlinear_arith)
                requires
                    a + 1 <= 100_000,
                    n >= 0,
            ;
        } else {
            assert(100_000 * n <= a * n) by (nonlinear_arith)
                requires
                    a >= 100_000,
                    n >= 0,
            ;
        }
    }
    let mean: u64 = average_of(turns);
    if mean < 100_000 {
        Ok(())
    } else {
        Err(mean)
    }
}

/// The nanoseconds that filling a buffer may take: ten microseconds for each kilobyte.
pub open spec fn allocation_limit(size: int) -> int {
    size / 1024 * 10_000
}

/// Judges the filling of a buffer; where it took too long, the limit is the error.
pub fn check_allocation(size: u32, elapsed_ns: u64) -> (r: Result<(), u64>)
    ensures
        match r {
            Ok(_) => elapsed_ns < allocation_limit(size as int),
            Err(limit) => elapsed_ns >= allocation_limit(size as int) && limit
                == allocation_limit(size as int),
        },
{
    let limit: u64 = (size / 1024) as u64 * 10_000;
    if elapsed_ns < limit {
        Ok(())
    } else {
        Err(limit)
    }
}

/// Whether filling a mapped megabyte was fast enough: less than 100 milliseconds.
pub fn mapping_keeps_up(elapsed_ns: u64) -> (r: bool)
    ensures
        r == (elapsed_ns < 100_000_000),
{
    elapsed_ns < 100_000_000
}

/// Whether a packet to the device itself was fast enough: less than a millisecond.
pub fn loopback_keeps_up(elapsed_ns: u64) -> (r: bool)
    ensures
        r == (elapsed_ns < 1_000_000),
{
    elapsed_ns < 1_000_000
}

/// Whether looking a name up was fast enough: less than two seconds.
pub fn lookup_keeps_up(elapsed_ns: u64) -> (r: bool)
    ensures
        r == (elapsed_ns < 2_000_000_000),
{
    elapsed_ns < 2_000_000_000
}

/// Whether some bytes in some time are more than a number of megabytes per second.
pub open spec fn faster_than(bytes: int, elapsed_ns: int, mb_per_sec: int) -> bool {
    bytes * 1_000_000_000 > mb_per_sec * elapsed_ns * MEGABYTE
}

/// Whether some bytes in some time are more than a number of megabytes per second.
pub fn is_faster_than(bytes: u64, elapsed_ns: u64, mb_per_sec: u32) -> (r: bool)
    ensures
        r == faster_than(bytes as int, elapsed_ns as int, mb_per_sec as int),
{
    let ghost a = mb_per_sec as int;
    let ghost b = elapsed_ns as int;
    assert(0 <= a * b <= u32::MAX * u64::MAX) by (nonlinear_arith)
        requires
            0 <= a <= u32::MAX,
            0 <= b <= u64::MAX,
    ;
    bytes as u128 * 1_000_000_000 > mb_per_sec as u128 * elapsed_ns as u128 * 1_048_576
}

/// What is wrong with the network.
#[derive(Clone, Copy, Debug, PartialEq, Eq, Structural)]
pub enum NetworkFault {
    /// The throughput is too low.
    TooSlow,
    /// Too little arrived.
    Incomplete,
}

/// Judges a transfer over a connection: more than ten megabytes per second, and all of it.
pub fn check_tcp(sent: u64, received: u64, elapsed_ns: u64) -> (r: Result<(), NetworkFault>)
    ensures
        match r {
            Ok(_) => faster_than(sent as int, elapsed_ns as int, 10) && received == sent,
            Err(NetworkFault::TooSlow) => !faster_than(sent as int, elapsed_ns as int, 10),
            Err(NetworkFault::Incomplete) => faster_than(sent as int, elapsed_ns as int, 10)
                && received != sent,
        },
        r is Ok <==> received == sent && sent * 1_000_000_000 > 10 * elapsed_ns * 1024 * 1024,
{
    if !is_faster_than(sent, elapsed_ns, 10) {
        Err(NetworkFault::TooSlow)
    } else if received != sent {
        Err(NetworkFault::Incomplete)
    } else {
        Ok(())
    }
}

/// Judges a thousand packets: more than five megabytes per second, and more than 950 of
/// them.
pub fn check_udp(bytes: u64, packets: u32, elapsed_ns: u64) -> (r: Result<(), NetworkFault>)
    ensures
        match r {
            Ok(_) => faster_than(bytes as int, elapsed_ns as int, 5) && packets > 950,
            Err(NetworkFault::TooSlow) => !faster_than(bytes as int, elapsed_ns as int, 5),
            Err(NetworkFault::Incomplete) => faster_than(bytes as int, elapsed_ns as int, 5)
                && packets <= 950,
        },
        r is Ok <==> packets >= 951 && bytes * 1_000_000_000 > 5 * elapsed_ns * 1024 * 1024,
{
    if !is_faster_than(bytes, elapsed_ns, 5) {
        Err(NetworkFault::TooSlow)
    } else if packets <= 950 {
        Err(NetworkFault::Incomplete)
    } else {
        Ok(())
    }
}

/// Whether a packet that had to be cut arrived in one piece, or not at all.
pub fn is_reassembled(sent: usize, received: usize) -> (r: bool)
    ensures
        r == (received == sent || received == 0),
{
    received == sent || received == 0
}

/// The megabytes per second that a file system must write, by its type.
pub open spec fn required_speed(fs_type: Seq<char>) -> int {
    if fs_type == "f2fs"@ {
        50
    } else if fs_type == "ext4"@ {
        30
    } else {
        20
    }
}

/// The megabytes per second that a file system must write, by its type.
pub fn minimum_speed(fs_type: &str) -> (r: u32)
    ensures
        r == required_speed(fs_type@),
{
    let text = chars_of(fs_type);
    if crate::text::is_text(&text, "f2fs") {
        50
    } else if crate::text::is_text(&text, "ext4") {
        30
    } else {
        20
    }
}

/// What is wrong with a file system.
#[derive(Clone, Copy, Debug, PartialEq, Eq, Structural)]
pub enum FilesystemFault {
    WriteTooSlow,
    ReadTooSlow,
}

/// Judges a file system by the times in which it wrote and read some bytes: it must read
/// twice as fast as it must write.
pub fn check_filesystem(bytes: u64, write_ns: u64, read_ns: u64, fs_type: &str) -> (r: Result<
    (),
    FilesystemFault,
>)
    ensures
        ({
            let writes = faster_than(bytes as int, write_ns as int, required_speed(fs_type@));
            let reads = faster_than(bytes as int, read_ns as int, required_speed(fs_type@) * 2);
            match r {
                Ok(_) => writes && reads,
                Err(FilesystemFault::WriteTooSlow) => !writes,
                Err(FilesystemFault::ReadTooSlow) => writes && !reads,
            }
        }),
        r is Ok ==> bytes * 1_000_000_000 > 20 * write_ns * 1024 * 1024 && bytes * 1_000_000_000 > 40
            * read_ns * 1024 * 1024,
        r is Ok && fs_type@ == "f2fs"@ ==> bytes * 1_000_000_000 > 50 * write_ns * 1024 * 1024
            && bytes * 1_000_000_000 > 100 * read_ns * 1024 * 1024,
        bytes * 1_000_000_000 > 50 * write_ns * 1024 * 1024 && bytes * 1_000_000_000 > 100 * read_ns
            * 1024 * 1024 ==> r is Ok,
{
    let speed: u32 = minimum_speed(fs_type);
    proof {
        let v = speed as int;
        let w = write_ns as int;
        let r = read_ns as int;
        assert(20 * w <= v * w <= 50 * w) by (nonlinear_arith)
            requires
                20 <= v <= 50,
                w >= 0,
        ;
        assert(40 * r <= (v * 2) * r <= 100 * r) by (nonlinear_arith)
            requires
                20 <= v <= 50,
                r >= 0,
        ;
    }
    if !is_faster_than(bytes, write_ns, speed) {
        Err(FilesystemFault::WriteTooSlow)
    } else if !is_faster_than(bytes, read_ns, speed * 2) {
        Err(FilesystemFault::ReadTooSlow)
    } else {
        Ok(())
    }
}

/// The value of a hexadecimal digit.
pub open spec fn hex_digit(c: char) -> Option<int> {
    if '0' <= c <= '9' {
        Some(c as int - '0' as int)
    } else if 'a' <= c <= 'f' {
        Some(c as int - 'a' as int + 10)
    } else if 'A' <= c <= 'F' {
        Some(c as int - 'A' as int + 10)
    } else {
        None
    }
}

/// The number that a run of hexadecimal digits stands for; none where a character is not
/// one.
pub open spec fn hex_value(s: Seq<char>) -> Option<int>
    decreases s.len(),
{
    if s.len() == 0 {
        Some(0)
    } else {
        match (hex_value(s.drop_last()), hex_digit(s.last())) {
            (Some(v), Some(d)) => Some(v * 16 + d),
            _ => None,
        }
    }
}

/// The address that a text stands for: hexadecimal digits with an optional plus sign.
pub open spec fn address(s: Seq<char>) -> Option<int> {
    let digits = if s.len() > 0 && s[0] == '+' {
        s.drop_first()
    } else {
        s
    };
    match hex_value(digits) {
        Some(v) => if digits.len() > 0 && v <= usize::MAX {
            Some(v)
        } else {
            None
        },
        None => None,
    }
}

proof fn hex_value_grows(s: Seq<char>, k: int)
    requires
        0 <= k <= s.len(),
    ensures
        hex_value(s) matches Some(v) ==> hex_value(s.take(k)) matches Some(u) && 0 <= u <= v,
    decreases s.len(),
{
    if k < s.len() {
        hex_value_grows(s.drop_last(), k);
        assert(s.drop_last().take(k) =~= s.take(k));
    } else {
        assert(s.take(k) =~= s);
        if s.len() > 0 {
            hex_value_grows(s.drop_last(), k - 1);
            assert(s.drop_last().take(k - 1) =~= s.drop_last());
        }
    }
}

fn hex_digit_value(c: char) -> (r: Option<usize>)
    ensures
        match r {
            Some(d) => hex_digit(c) == Some(d as int) && d < 16,
            None => hex_digit(c) is None,
        },
{
    if '0' <= c && c <= '9' {
        Some((c as u32 - '0' as u32) as usize)
    } else if 'a' <= c && c <= 'f' {
        Some((c as u32 - 'a' as u32) as usize + 10)
    } else if 'A' <= c && c <= 'F' {
        Some((c as u32 - 'A' as u32) as usize + 10)
    } else {
        None
    }
}

/// Reads an address.
pub fn read_address(s: &Vec<char>) -> (r: Option<usize>)
    ensures
        match r {
            Some(v) => address(s@) == Some(v as int),
            None => address(s@) is None,
        },
{
    let from: usize = if s.len() > 0 && s[0] == '+' {
        1
    } else {
        0
    };
    let ghost digits = s@.skip(from as int);
    proof {
        assert(s@.skip(0) =~= s@);
        if s.len() > 0 {
            assert(s@.skip(1) =~= s@.drop_first());
        }
    }
    if from == s.len() {
        return None;
    }
    let mut value: usize = 0;
    let mut i: usize = from;
    while i < s.len()
        invariant
            from <= i <= s.len(),
            digits == s@.skip(from as int),
            digits.len() > 0,
            digits == (if s@.len() > 0 && s@[0] == '+' {
                s@.drop_first()
            } else {
                s@
            }),
            hex_value(digits.take(i - from)) == Some(value as int),
        decreases s.len() - i,
    {
        let ghost next = digits.take(i - from + 1);
        proof {
            assert(next.drop_last() =~= digits.take(i - from));
            assert(next.last() == s@[i as int]);
            hex_value_grows(digits, i - from + 1);
        }
        let digit: usize = match hex_digit_value(s[i]) {
            Some(d) => d,
            None => {
                return None;
            },
        };
        match value.checked_mul(16) {
            Some(v) => match v.checked_add(digit) {
                Some(w) => {
                    value = w;
                },
                None => {
                    return None;
                },
            },
            None => {
                return None;
            },
        }
        i = i + 1;
    }
    assert(digits.take(digits.len() as int) =~= digits);
    Some(value)
}

/// The address at the start of a line of `/proc/self/maps`: what stands before the first
/// dash.
pub fn base_address(line: &str) -> (r: Option<usize>)
    ensures
        match r {
            Some(v) => address(split(line@, '-')[0]) == Some(v as int),
            None => address(split(line@, '-')[0]) is None,
        },
{
    let pieces = split_on(&chars_of(line), '-');
    proof {
        crate::text::split_then_join(line@, '-');
        assert(texts(pieces@).len() == pieces@.len());
        assert(texts(pieces@)[0] == pieces@[0]@);
    }
    read_address(&pieces[0])
}

/// How many different numbers there are in a list.
pub fn count_distinct(s: &Vec<usize>) -> (r: usize)
    ensures
        r == s@.to_set().len(),
{
    let mut seen: Vec<usize> = Vec::new();
    let mut i: usize = 0;
    assert(seen@.to_set() =~= s@.take(0).to_set());
    while i < s.len()
        invariant
            i <= s.len(),
            seen@.no_duplicates(),
            seen@.to_set() == s@.take(i as int).to_set(),
        decreases s.len() - i,
    {
        let v: usize = s[i];
        let mut known: bool = false;
        let mut k: usize = 0;
        while k < seen.len()
            invariant
                k <= seen.len(),
                known == exists|j: int| 0 <= j < k && #[trigger] seen@[j] == v,
            decreases seen.len() - k,
        {
            if seen[k] == v {
                known = true;
            }
            k = k + 1;
        }
        let ghost before = seen@;
        let ghost prefix = s@.take(i as int);
        let ghost next = s@.take(i + 1);
        assert(next =~= prefix.push(v));
        if !known {
            seen.push(v);
            assert(seen@.no_duplicates());
        }
        assert(seen@.to_set() =~= next.to_set()) by {
            assert forall|x: usize| seen@.to_set().contains(x) == next.to_set().contains(x) by {
                assert(before.to_set().contains(x) == prefix.to_set().contains(x));
                if x == v {
                    assert(next[i as int] == v);
                    if known {
                        let j = choose|j: int| 0 <= j < before.len() && #[trigger] before[j] == v;
                        assert(seen@[j] == v);
                    } else {
                        assert(seen@[seen@.len() - 1] == v);
                    }
                } else {
                    if before.contains(x) {
                        let j = choose|j: int| 0 <= j < before.len() && before[j] == x;
                        assert(seen@[j] == x);
                    }
                    if prefix.contains(x) {
                        let j = choose|j: int| 0 <= j < prefix.len() && prefix[j] == x;
                        assert(next[j] == x);
                    }
                    if next.contains(x) {
                        let j = choose|j: int| 0 <= j < next.len() && next[j] == x;
                        assert(prefix[j] == x);
                    }
                    if seen@.contains(x) {
                        let j = choose|j: int| 0 <= j < seen@.len() && seen@[j] == x;
                        assert(before[j] == x);
                    }
                }
            }
        }
        i = i + 1;
    }
    proof {
        assert(s@.take(s.len() as int) =~= s@);
        seen@.unique_seq_to_set();
    }
    seen.len()
}

/// Whether addresses are spread: of the ones that were read, at least eight differ. How
/// many do is the error.
pub fn check_aslr(addresses: &Vec<usize>) -> (r: Result<usize, usize>)
    ensures
        match r {
            Ok(n) => n == addresses@.to_set().len() && n >= 8,
            Err(n) => n == addresses@.to_set().len() && n < 8,
        },
{
    let n: usize = count_distinct(addresses);
    if n >= 8 {
        Ok(n)
    } else {
        Err(n)
    }
}

/// What is wrong with the memory during the stability test: nothing where 100 megabytes
/// are available.
pub fn low_memory_message(available: u64) -> (r: Option<String>)
    ensures
        match r {
            Some(m) => available < 104_857_600 && m@ == "Low memory: "@ + decimal(
                (available as int / 1_048_576) as nat,
            ) + " MB available"@,
            None => available >= 104_857_600,
        },
{
    if available < 104_857_600 {
        let digits: String = decimal_text(available / MEGABYTE);
        let mut m: String = "Low memory: ".to_owned();
        m.append(digits.as_str());
        m.append(" MB available");
        Some(m)
    } else {
        None
    }
}

/// How many checks passed.
pub open spec fn passed_count(results: Seq<bool>) -> int
    decreases results.len(),
{
    if results.len() == 0 {
        0
    } else {
        passed_count(results.drop_last()) + if results.last() {
            1int
        } else {
            0
        }
    }
}

/// How many checks passed and how many failed.
pub fn tally(results: &Vec<bool>) -> (r: (usize, usize))
    ensures
        r.0 == passed_count(results@),
        r.0 + r.1 == results@.len(),
        r.1 == 0 <==> forall|i: int| 0 <= i < results@.len() ==> #[trigger] results@[i],
{
    let mut passed: usize = 0;
    let mut i: usize = 0;
    while i < results.len()
        invariant
            i <= results.len(),
            passed <= i,
            passed == passed_count(results@.take(i as int)),
            passed == i <==> forall|j: int| 0 <= j < i ==> #[trigger] results@[j],
        decreases results.len() - i,
    {
        assert(results@.take(i + 1).drop_last() =~= results@.take(i as int));
        if results[i] {
            passed = passed + 1;
        }
        i = i + 1;
    }
    assert(results@.take(results.len() as int) =~= results@);
    (passed, results.len() - passed)
}

} // verus!
