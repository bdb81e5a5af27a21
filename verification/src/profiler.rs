//! Snapshots of the whole system, the rates between two of them, and a bounded
//! history.

use std::collections::VecDeque;
use vstd::prelude::*;

verus! {

/// Bytes in a megabyte.
pub const MEGABYTE: u64 = 1_048_576;

/// Bytes in a kilobyte.
pub const KILOBYTE: u64 = 1_024;

/// The state of the system at one moment. Percentages, temperatures and rates are in
/// thousandths of their unit.
#[derive(Clone, Copy, Debug, PartialEq, Eq, Structural)]
pub struct SystemSnapshot {
    /// Load of all processors, in thousandths of a percent.
    pub cpu_usage_percent: u64,
    /// Processor temperature, in thousandths of a degree Celsius.
    pub cpu_temp_celsius: Option<u32>,
    /// Memory in use.
    pub memory_used_mb: u64,
    /// Memory installed.
    pub memory_total_mb: u64,
    /// Swap space in use.
    pub swap_used_mb: u64,
    /// Number of processes.
    pub processes: usize,
    /// Number of threads of all processes.
    pub threads: usize,
    /// Disk reads, in thousandths of a megabyte per second.
    pub disk_read_mb_s: u128,
    /// Disk writes, in thousandths of a megabyte per second.
    pub disk_write_mb_s: u128,
    /// Network input, in thousandths of a kilobyte per second.
    pub network_rx_kb_s: u128,
    /// Network output, in thousandths of a kilobyte per second.
    pub network_tx_kb_s: u128,
    /// Seconds since the epoch.
    pub timestamp: u64,
    /// Context switches since boot.
    pub context_switches: u64,
    /// Interrupts since boot.
    pub interrupts: u64,
}

/// What one look at the system gives.
pub struct Reading {
    /// Nanoseconds since the previous look.
    pub elapsed_ns: u64,
    /// Bytes received and transmitted, for each network interface.
    pub networks: Vec<(u64, u64)>,
    /// Bytes read and written, for each disk.
    pub disks: Vec<(u64, u64)>,
    /// Load of all processors, in thousandths of a percent.
    pub cpu_usage_percent: u64,
    /// Processor temperature, in thousandths of a degree Celsius.
    pub cpu_temp_celsius: Option<u32>,
    /// Bytes of memory in use.
    pub used_memory: u64,
    /// Bytes of memory installed.
    pub total_memory: u64,
    /// Bytes of swap space in use.
    pub used_swap: u64,
    /// Number of threads, for each process.
    pub process_threads: Vec<usize>,
    /// Seconds since the epoch.
    pub timestamp: u64,
    /// Context switches since boot.
    pub context_switches: u64,
    /// Interrupts since boot.
    pub interrupts: u64,
}

/// The sum of the first components.
pub open spec fn total_first(s: Seq<(u64, u64)>) -> int
    decreases s.len(),
{
    if s.len() == 0 {
        0
    } else {
        total_first(s.drop_last()) + s.last().0
    }
}

/// The sum of the second components.
pub open spec fn total_second(s: Seq<(u64, u64)>) -> int
    decreases s.len(),
{
    if s.len() == 0 {
        0
    } else {
        total_second(s.drop_last()) + s.last().1
    }
}

/// The sum of the numbers.
pub open spec fn total_count(s: Seq<usize>) -> int
    decreases s.len(),
{
    if s.len() == 0 {
        0
    } else {
        total_count(s.drop_last()) + s.last()
    }
}

/// A number of bytes per time, in thousandths of `unit` bytes per second, rounded
/// down; 0 where no time has passed.
pub open spec fn rate(bytes: int, elapsed_ns: int, unit: int) -> int {
    if elapsed_ns == 0 {
        0
    } else {
        bytes * 1_000_000_000_000 / (elapsed_ns * unit)
    }
}

/// A number of bytes per time, in thousandths of `unit` bytes per second.
pub fn rate_of(bytes: u64, elapsed_ns: u64, unit: u64) -> (r: u128)
    requires
        unit > 0,
    ensures
        r == rate(bytes as int, elapsed_ns as int, unit as int),
{
    if elapsed_ns == 0 {
        return 0;
    }
    proof {
        assert(0 < elapsed_ns * unit <= u64::MAX * u64::MAX) by (nonlinear_arith)
            requires
                0 < elapsed_ns <= u64::MAX,
                0 < unit <= u64::MAX,
        ;
    }
    (bytes as u128 * 1_000_000_000_000) / (elapsed_ns as u128 * unit as u128)
}

/// The rate at which a counter grew; 0 where no time has passed.
fn rate_since(now: u64, last: u64, elapsed_ns: u64, unit: u64) -> (r: u128)
    requires
        unit > 0,
        elapsed_ns > 0 ==> last <= now,
    ensures
        r == rate(now - last, elapsed_ns as int, unit as int),
{
    if elapsed_ns == 0 {
        0
    } else {
        rate_of(now - last, elapsed_ns, unit)
    }
}

proof fn lemma_totals_grow(s: Seq<(u64, u64)>, k: int)
    requires
        0 <= k <= s.len(),
    ensures
        0 <= total_first(s.take(k)) <= total_first(s),
        0 <= total_second(s.take(k)) <= total_second(s),
    decreases s.len(),
{
    if k < s.len() {
        lemma_totals_grow(s.drop_last(), k);
        assert(s.drop_last().take(k) =~= s.take(k));
    } else {
        assert(s.take(k) =~= s);
        if s.len() > 0 {
            lemma_totals_grow(s.drop_last(), s.len() - 1);
            assert(s.drop_last().take(s.len() - 1) =~= s.drop_last());
        }
    }
}

proof fn lemma_count_grows(s: Seq<usize>, k: int)
    requires
        0 <= k <= s.len(),
    ensures
        0 <= total_count(s.take(k)) <= total_count(s),
    decreases s.len(),
{
    if k < s.len() {
        lemma_count_grows(s.drop_last(), k);
        assert(s.drop_last().take(k) =~= s.take(k));
    } else {
        assert(s.take(k) =~= s);
        if s.len() > 0 {
            lemma_count_grows(s.drop_last(), s.len() - 1);
            assert(s.drop_last().take(s.len() - 1) =~= s.drop_last());
        }
    }
}

/// Both totals of a list of pairs, unless one does not fit.
pub fn totals(s: &Vec<(u64, u64)>) -> (r: Option<(u64, u64)>)
    ensures
        r is Some <==> total_first(s@) <= u64::MAX && total_second(s@) <= u64::MAX,
        r matches Some(t) ==> t.0 == total_first(s@) && t.1 == total_second(s@),
{
    let mut first: u64 = 0;
    let mut second: u64 = 0;
    let mut i: usize = 0;
    while i < s.len()
        invariant
            i <= s.len(),
            first == total_first(s@.take(i as int)),
            second == total_second(s@.take(i as int)),
        decreases s.len() - i,
    {
        proof {
            assert(s@.take(i + 1).drop_last() =~= s@.take(i as int));
            lemma_totals_grow(s@, i + 1);
        }
        match (first.checked_add(s[i].0), second.checked_add(s[i].1)) {
            (Some(f), Some(g)) => {
                first = f;
                second = g;
            },
            _ => {
                return None;
            },
        }
        i = i + 1;
    }
    assert(s@.take(s.len() as int) =~= s@);
    Some((first, second))
}

/// The total of a list of counts, unless it does not fit.
pub fn count_total(s: &Vec<usize>) -> (r: Option<usize>)
    ensures
        r is Some <==> total_count(s@) <= usize::MAX,
        r matches Some(t) ==> t == total_count(s@),
{
    let mut total: usize = 0;
    let mut i: usize = 0;
    while i < s.len()
        invariant
            i <= s.len(),
            total == total_count(s@.take(i as int)),
        decreases s.len() - i,
    {
        proof {
            assert(s@.take(i + 1).drop_last() =~= s@.take(i as int));
            lemma_count_grows(s@, i + 1);
        }
        match total.checked_add(s[i]) {
            Some(t) => {
                total = t;
            },
            None => {
                return None;
            },
        }
        i = i + 1;
    }
    assert(s@.take(s.len() as int) =~= s@);
    Some(total)
}

/// The byte counters at the previous look.
#[derive(Clone, Copy, Debug, PartialEq, Eq, Structural)]
pub struct Counters {
    /// Bytes received.
    pub net_rx: u64,
    /// Bytes transmitted.
    pub net_tx: u64,
    /// Bytes read from disks.
    pub disk_read: u64,
    /// Bytes written to disks.
    pub disk_write: u64,
}

/// The four byte totals of a reading.
pub open spec fn counters_of(r: Reading) -> Counters {
    Counters {
        net_rx: total_first(r.networks@) as u64,
        net_tx: total_second(r.networks@) as u64,
        disk_read: total_first(r.disks@) as u64,
        disk_write: total_second(r.disks@) as u64,
    }
}

/// Whether the totals of a reading fit, and none is below the previous one. Where no time
/// has passed there are no rates, and a total may be below.
pub open spec fn can_follow(last: Counters, r: Reading) -> bool {
    &&& total_first(r.networks@) <= u64::MAX
    &&& total_second(r.networks@) <= u64::MAX
    &&& total_first(r.disks@) <= u64::MAX
    &&& total_second(r.disks@) <= u64::MAX
    &&& total_count(r.process_threads@) <= usize::MAX
    &&& r.elapsed_ns > 0 ==> {
        &&& last.net_rx <= total_first(r.networks@)
        &&& last.net_tx <= total_second(r.networks@)
        &&& last.disk_read <= total_first(r.disks@)
        &&& last.disk_write <= total_second(r.disks@)
    }
}

/// The snapshot that a reading gives after the previous counters.
pub open spec fn snapshot_of(last: Counters, r: Reading) -> SystemSnapshot {
    let now = counters_of(r);
    let ns = r.elapsed_ns as int;
    SystemSnapshot {
        cpu_usage_percent: r.cpu_usage_percent,
        cpu_temp_celsius: r.cpu_temp_celsius,
        memory_used_mb: r.used_memory / MEGABYTE,
        memory_total_mb: r.total_memory / MEGABYTE,
        swap_used_mb: r.used_swap / MEGABYTE,
        processes: r.process_threads@.len() as usize,
        threads: total_count(r.process_threads@) as usize,
        disk_read_mb_s: rate(now.disk_read - last.disk_read, ns, MEGABYTE as int) as u128,
        disk_write_mb_s: rate(now.disk_write - last.disk_write, ns, MEGABYTE as int) as u128,
        network_rx_kb_s: rate(now.net_rx - last.net_rx, ns, KILOBYTE as int) as u128,
        network_tx_kb_s: rate(now.net_tx - last.net_tx, ns, KILOBYTE as int) as u128,
        timestamp: r.timestamp,
        context_switches: r.context_switches,
        interrupts: r.interrupts,
    }
}

impl Counters {
    /// The counters before the first look.
    pub fn new() -> (r: Counters)
        ensures
            r == (Counters { net_rx: 0, net_tx: 0, disk_read: 0, disk_write: 0 }),
    {
        Counters { net_rx: 0, net_tx: 0, disk_read: 0, disk_write: 0 }
    }

    /// Turns a reading into a snapshot, and keeps its totals for the next one. A
    /// reading whose totals do not fit, or fall below the previous ones in some time,
    /// gives nothing.
    pub fn advance(&mut self, r: &Reading) -> (snapshot: Option<SystemSnapshot>)
        ensures
            snapshot == (if can_follow(*old(self), *r) {
                Some(snapshot_of(*old(self), *r))
            } else {
                None
            }),
            *final(self) == (if can_follow(*old(self), *r) {
                counters_of(*r)
            } else {
                *old(self)
            }),
    {
        let (rx, tx) = match totals(&r.networks) {
            Some(t) => t,
            None => {
                return None;
            },
        };
        let (read, written) = match totals(&r.disks) {
            Some(t) => t,
            None => {
                return None;
            },
        };
        let threads: usize = match count_total(&r.process_threads) {
            Some(t) => t,
            None => {
                return None;
            },
        };
        if r.elapsed_ns > 0 && (rx < self.net_rx || tx < self.net_tx || read < self.disk_read
            || written < self.disk_write) {
            return None;
        }
        let snapshot = SystemSnapshot {
            cpu_usage_percent: r.cpu_usage_percent,
            cpu_temp_celsius: r.cpu_temp_celsius,
            memory_used_mb: r.used_memory / MEGABYTE,
            memory_total_mb: r.total_memory / MEGABYTE,
            swap_used_mb: r.used_swap / MEGABYTE,
            processes: r.process_threads.len(),
            threads,
            disk_read_mb_s: rate_since(read, self.disk_read, r.elapsed_ns, MEGABYTE),
            disk_write_mb_s: rate_since(written, self.disk_write, r.elapsed_ns, MEGABYTE),
            network_rx_kb_s: rate_since(rx, self.net_rx, r.elapsed_ns, KILOBYTE),
            network_tx_kb_s: rate_since(tx, self.net_tx, r.elapsed_ns, KILOBYTE),
            timestamp: r.timestamp,
            context_switches: r.context_switches,
            interrupts: r.interrupts,
        };
        self.net_rx = rx;
        self.net_tx = tx;
        self.disk_read = read;
        self.disk_write = written;
        Some(snapshot)
    }
}

/// A reading that comes again has no rates: nothing was moved since.
pub proof fn repeated_readings_have_no_rates(last: Counters, r: Reading)
    requires
        can_follow(last, r),
    ensures
        can_follow(counters_of(r), r),
        snapshot_of(counters_of(r), r).disk_read_mb_s == 0,
        snapshot_of(counters_of(r), r).disk_write_mb_s == 0,
        snapshot_of(counters_of(r), r).network_rx_kb_s == 0,
        snapshot_of(counters_of(r), r).network_tx_kb_s == 0,
{
    let ns = r.elapsed_ns as int;
    if ns > 0 {
        assert(0int / (ns * MEGABYTE) == 0 && 0int / (ns * KILOBYTE) == 0) by (nonlinear_arith)
            requires
                ns > 0,
        ;
    }
}

/// A reading at the very time of the previous one has no rates, whatever its totals are.
pub proof fn instant_readings_have_no_rates(last: Counters, r: Reading)
    requires
        r.elapsed_ns == 0,
    ensures
        snapshot_of(last, r).disk_read_mb_s == 0,
        snapshot_of(last, r).disk_write_mb_s == 0,
        snapshot_of(last, r).network_rx_kb_s == 0,
        snapshot_of(last, r).network_tx_kb_s == 0,
{
}

/// The last `n` items of a sequence, or all of them where there are no more.
pub open spec fn last_items<T>(s: Seq<T>, n: int) -> Seq<T> {
    if s.len() <= n {
        s
    } else {
        s.skip(s.len() - n)
    }
}

/// Whether a snapshot was taken later than `cutoff_ns` nanoseconds after the epoch.
pub open spec fn is_after(s: SystemSnapshot, cutoff_ns: int) -> bool {
    s.timestamp * 1_000_000_000 > cutoff_ns
}

/// The sum of the processor loads.
pub open spec fn cpu_total(s: Seq<SystemSnapshot>) -> int
    decreases s.len(),
{
    if s.len() == 0 {
        0
    } else {
        cpu_total(s.drop_last()) + s.last().cpu_usage_percent
    }
}

/// The sum of the megabytes in use.
pub open spec fn memory_total(s: Seq<SystemSnapshot>) -> int
    decreases s.len(),
{
    if s.len() == 0 {
        0
    } else {
        memory_total(s.drop_last()) + s.last().memory_used_mb
    }
}

/// The largest processor load, or 0.
pub open spec fn cpu_peak(s: Seq<SystemSnapshot>) -> int
    decreases s.len(),
{
    if s.len() == 0 {
        0
    } else if s.last().cpu_usage_percent > cpu_peak(s.drop_last()) {
        s.last().cpu_usage_percent as int
    } else {
        cpu_peak(s.drop_last())
    }
}

/// A bounded history of snapshots, the latest one last.
#[derive(Debug)]
pub struct SystemProfiler {
    /// Milliseconds between two snapshots.
    pub sample_interval_ms: u64,
    /// The snapshots.
    pub history: VecDeque<SystemSnapshot>,
    /// How many snapshots are kept.
    pub max_history: usize,
}

/// The statistics of some snapshots, in thousandths: a list of names and values.
pub open spec fn stats_of(s: Seq<SystemSnapshot>) -> Seq<(Seq<char>, int)> {
    let n = s.len() as int;
    if n == 0 {
        seq![]
    } else {
        seq![
            ("cpu.avg"@, cpu_total(s) / n),
            ("cpu.max"@, cpu_peak(s)),
            ("memory.avg_mb"@, memory_total(s) * 1000 / n),
        ]
    }
}

/// The names and values that a list of pairs holds.
pub open spec fn named_values(v: Seq<(String, u128)>) -> Seq<(Seq<char>, int)> {
    v.map_values(|p: (String, u128)| (p.0@, p.1 as int))
}

impl SystemProfiler {
    /// An empty history.
    pub fn new(interval_ms: u64, max_history: usize) -> (r: SystemProfiler)
        ensures
            r.sample_interval_ms == interval_ms,
            r.max_history == max_history,
            r.history@.len() == 0,
    {
        SystemProfiler {
            sample_interval_ms: interval_ms,
            history: VecDeque::new(),
            max_history,
        }
    }

    /// Adds a snapshot, and drops the oldest ones beyond the limit.
    pub fn add_to_history(&mut self, snapshot: SystemSnapshot)
        ensures
            final(self).history@ == last_items(
                old(self).history@.push(snapshot),
                old(self).max_history as int,
            ),
            final(self).max_history == old(self).max_history,
            final(self).sample_interval_ms == old(self).sample_interval_ms,
            old(self).max_history > 0 ==> final(self).history@.len() > 0
                && final(self).history@.last() == snapshot,
            final(self).history@.len() <= old(self).max_history,
            old(self).history@.len() < old(self).max_history ==> final(self).history@
                == old(self).history@.push(snapshot),
    {
        let ghost all = self.history@.push(snapshot);
        self.history.push_back(snapshot);
        assert(self.history@ =~= all.skip(0));
        while self.history.len() > self.max_history
            invariant
                self.max_history == old(self).max_history,
                self.sample_interval_ms == old(self).sample_interval_ms,
                self.history@.len() <= all.len(),
                self.history@ == all.skip(all.len() - self.history@.len()),
                all.len() > self.max_history ==> self.history@.len() >= self.max_history,
                all.len() <= self.max_history ==> self.history@.len() == all.len(),
            decreases self.history@.len(),
        {
            let ghost before = self.history@;
            let _ = self.history.pop_front();
            assert(self.history@ =~= all.skip(all.len() - self.history@.len()));
        }
        assert(all.skip(0) =~= all);
    }

    /// The mean and the largest processor load, and the mean memory use, of the
    /// snapshots taken later than `cutoff_ns` nanoseconds after the epoch.
    pub fn get_stats(&self, cutoff_ns: u128) -> (r: Vec<(String, u128)>)
        ensures
            named_values(r@) == stats_of(
                self.history@.filter(|s: SystemSnapshot| is_after(s, cutoff_ns as int)),
            ),
    {
        let ghost later = |s: SystemSnapshot| is_after(s, cutoff_ns as int);
        let mut count: u128 = 0;
        let mut cpu: u128 = 0;
        let mut memory: u128 = 0;
        let mut peak: u64 = 0;
        let mut i: usize = 0;
        proof {
            reveal(Seq::filter);
        }
        while i < self.history.len()
            invariant
                i <= self.history@.len(),
                later == (|s: SystemSnapshot| is_after(s, cutoff_ns as int)),
                count <= i <= usize::MAX,
                cpu <= count * u64::MAX,
                memory <= count * u64::MAX,
                count == self.history@.take(i as int).filter(later).len(),
                cpu == cpu_total(self.history@.take(i as int).filter(later)),
                memory == memory_total(self.history@.take(i as int).filter(later)),
                peak == cpu_peak(self.history@.take(i as int).filter(later)),
            decreases self.history@.len() - i,
        {
            let s: SystemSnapshot = self.history[i];
            let ghost seen = self.history@.take(i as int);
            let ghost next = self.history@.take(i + 1);
            proof {
                reveal(Seq::filter);
                assert(next.drop_last() =~= seen);
                assert(next.last() == s);
            }
            if s.timestamp as u128 * 1_000_000_000 > cutoff_ns {
                assert(next.filter(later).drop_last() =~= seen.filter(later));
                assert(next.filter(later).last() == s);
                assert(count * u64::MAX + u64::MAX == (count + 1) * u64::MAX) by (nonlinear_arith);
                count = count + 1;
                cpu = cpu + s.cpu_usage_percent as u128;
                memory = memory + s.memory_used_mb as u128;
                if s.cpu_usage_percent > peak {
                    peak = s.cpu_usage_percent;
                }
            }
            i = i + 1;
        }
        assert(self.history@.take(self.history@.len() as int) =~= self.history@);
        let mut r: Vec<(String, u128)> = Vec::new();
        if count == 0 {
            assert(named_values(r@) =~= seq![]);
            return r;
        }
        r.push(("cpu.avg".to_owned(), cpu / count));
        r.push(("cpu.max".to_owned(), peak as u128));
        let whole: u128 = memory / count;
        let part: u128 = memory % count;
        proof {
            let c = count as int;
            let m = memory as int;
            vstd::arithmetic::div_mod::lemma_fundamental_div_mod(m, c);
            assert(0 <= whole <= u64::MAX) by (nonlinear_arith)
                requires
                    m <= c * u64::MAX,
                    m >= 0,
                    c > 0,
                    whole == m / c,
            ;
            assert(m * 1000 / c == whole * 1000 + part * 1000 / c) by {
                assert(m * 1000 == part * 1000 + (whole * 1000) * c) by (nonlinear_arith)
                    requires
                        m == c * whole + part,
                ;
                vstd::arithmetic::div_mod::lemma_hoist_over_denominator(
                    part * 1000,
                    whole * 1000,
                    c as nat,
                );
            }
        }
        r.push(("memory.avg_mb".to_owned(), whole * 1000 + part * 1000 / count));
        assert(named_values(r@) =~= stats_of(self.history@.filter(later)));
        r
    }
}

} // verus!
