//! What snapshots and statistics say of the readings that they are made of.

use crate::arith::quotient_is_near;
use crate::profiler::{can_follow, counters_of, cpu_peak, cpu_total, is_after, memory_total};
use crate::profiler::{named_values, rate, snapshot_of, stats_of, total_count, total_first};
use crate::profiler::{total_second, Counters, Reading, SystemSnapshot};
use crate::benchmark::{loads_of, memory_of, temps_of};
use vstd::prelude::*;

verus! {

/// The totals of two lists are those of both together, and that of a single entry is the
/// entry.
pub proof fn counters_add_up(
    a: Seq<(u64, u64)>,
    b: Seq<(u64, u64)>,
    one: (u64, u64),
)
    ensures
        total_first(a + b) == total_first(a) + total_first(b),
        total_second(a + b) == total_second(a) + total_second(b),
        total_first(seq![one]) == one.0,
        total_second(seq![one]) == one.1,
    decreases b.len(),
{
    assert(seq![one].drop_last() =~= seq![]);
    reveal_with_fuel(total_first, 2);
    reveal_with_fuel(total_second, 2);
    if b.len() == 0 {
        assert(a + b =~= a);
    } else {
        assert((a + b).drop_last() =~= a + b.drop_last());
        assert((a + b).last() == b.last());
        counters_add_up(a, b.drop_last(), one);
    }
}

/// The total of two lists of counts is that of both together, and that of a single count
/// is the count.
pub proof fn counts_add_up(a: Seq<usize>, b: Seq<usize>, one: usize)
    ensures
        total_count(a + b) == total_count(a) + total_count(b),
        total_count(seq![one]) == one,
    decreases b.len(),
{
    assert(seq![one].drop_last() =~= seq![]);
    reveal_with_fuel(total_count, 2);
    if b.len() == 0 {
        assert(a + b =~= a);
    } else {
        assert((a + b).drop_last() =~= a + b.drop_last());
        assert((a + b).last() == b.last());
        counts_add_up(a, b.drop_last(), one);
    }
}

/// A reading can follow the previous one where its totals fit, and none of the four fell
/// if any time has passed.
pub proof fn readings_follow_where_nothing_fell(last: Counters, r: Reading)
    ensures
        can_follow(last, r) <==> {
            &&& total_first(r.networks@) <= 0xffff_ffff_ffff_ffff
            &&& total_second(r.networks@) <= 0xffff_ffff_ffff_ffff
            &&& total_first(r.disks@) <= 0xffff_ffff_ffff_ffff
            &&& total_second(r.disks@) <= 0xffff_ffff_ffff_ffff
            &&& total_count(r.process_threads@) <= usize::MAX
            &&& r.elapsed_ns == 0 || (last.net_rx <= total_first(r.networks@) && last.net_tx
                <= total_second(r.networks@) && last.disk_read <= total_first(r.disks@)
                && last.disk_write <= total_second(r.disks@))
        },
{
}

/// Whether a rate is that of some bytes in some time, in thousandths of `unit` bytes per
/// second, rounded down.
pub open spec fn is_rate(v: int, bytes: int, elapsed_ns: int, unit: int) -> bool {
    v * (elapsed_ns * unit) <= bytes * 1_000 * 1_000_000_000 < (v + 1) * (elapsed_ns * unit)
}

/// A rate is at most the exact one, and less than a thousandth below it.
pub proof fn rates_are_exact(bytes: int, elapsed_ns: int, unit: int)
    requires
        0 <= bytes <= u64::MAX,
        elapsed_ns > 0,
        unit > 0,
    ensures
        is_rate(rate(bytes, elapsed_ns, unit), bytes, elapsed_ns, unit),
        0 <= rate(bytes, elapsed_ns, unit) <= u128::MAX,
{
    let d = elapsed_ns * unit;
    let w = bytes * 1_000_000_000_000;
    assert(d > 0) by (nonlinear_arith)
        requires
            d == elapsed_ns * unit,
            elapsed_ns > 0,
            unit > 0,
    ;
    quotient_is_near(w, d);
    assert(0 <= w / d <= w) by (nonlinear_arith)
        requires
            w >= 0,
            d > 0,
    ;
}

/// A snapshot after some time holds the rates at which the four totals grew: what came in
/// and went out over the networks in kilobytes, and what was read and written in megabytes.
pub proof fn snapshots_hold_the_rates(last: Counters, r: Reading)
    requires
        can_follow(last, r),
        r.elapsed_ns > 0,
    ensures
        ({
            let s = snapshot_of(last, r);
            let ns = r.elapsed_ns as int;
            let kb = 1024int;
            let mb = 1024int * 1024;
            &&& is_rate(s.network_rx_kb_s as int, total_first(r.networks@) - last.net_rx, ns, kb)
            &&& is_rate(s.network_tx_kb_s as int, total_second(r.networks@) - last.net_tx, ns, kb)
            &&& is_rate(s.disk_read_mb_s as int, total_first(r.disks@) - last.disk_read, ns, mb)
            &&& is_rate(s.disk_write_mb_s as int, total_second(r.disks@) - last.disk_write, ns, mb)
        }),
{
    let ns = r.elapsed_ns as int;
    rates_are_exact(total_first(r.networks@) - last.net_rx, ns, 1024);
    rates_are_exact(total_second(r.networks@) - last.net_tx, ns, 1024);
    rates_are_exact(total_first(r.disks@) - last.disk_read, ns, 1_048_576);
    rates_are_exact(total_second(r.disks@) - last.disk_write, ns, 1_048_576);
}

/// A snapshot holds what was read: loads, temperatures and counts as they are, memory in
/// whole megabytes, and all threads of all processes. The totals are kept for the next.
pub proof fn snapshots_hold_the_reading(last: Counters, r: Reading)
    requires
        can_follow(last, r),
        total_first(r.networks@) >= 0,
        total_second(r.networks@) >= 0,
        total_first(r.disks@) >= 0,
        total_second(r.disks@) >= 0,
        total_count(r.process_threads@) >= 0,
        r.process_threads@.len() <= usize::MAX,
    ensures
        ({
            let s = snapshot_of(last, r);
            let c = counters_of(r);
            &&& s.cpu_usage_percent == r.cpu_usage_percent
            &&& s.cpu_temp_celsius == r.cpu_temp_celsius
            &&& s.memory_used_mb * 1024 * 1024 <= r.used_memory < (s.memory_used_mb + 1) * 1024 * 1024
            &&& s.memory_total_mb * 1024 * 1024 <= r.total_memory < (s.memory_total_mb + 1) * 1024
                * 1024
            &&& s.swap_used_mb * 1024 * 1024 <= r.used_swap < (s.swap_used_mb + 1) * 1024 * 1024
            &&& s.processes == r.process_threads@.len()
            &&& s.threads == total_count(r.process_threads@)
            &&& s.timestamp == r.timestamp
            &&& s.context_switches == r.context_switches
            &&& s.interrupts == r.interrupts
            &&& c.net_rx == total_first(r.networks@)
            &&& c.net_tx == total_second(r.networks@)
            &&& c.disk_read == total_first(r.disks@)
            &&& c.disk_write == total_second(r.disks@)
        }),
{
}

/// The totals of two runs of snapshots are those of both together, and those of one are
/// its load and its memory.
pub proof fn snapshot_totals_add_up(
    a: Seq<SystemSnapshot>,
    b: Seq<SystemSnapshot>,
    one: SystemSnapshot,
)
    ensures
        cpu_total(a + b) == cpu_total(a) + cpu_total(b),
        memory_total(a + b) == memory_total(a) + memory_total(b),
        cpu_total(seq![one]) == one.cpu_usage_percent,
        memory_total(seq![one]) == one.memory_used_mb,
    decreases b.len(),
{
    assert(seq![one].drop_last() =~= seq![]);
    reveal_with_fuel(cpu_total, 2);
    reveal_with_fuel(memory_total, 2);
    if b.len() == 0 {
        assert(a + b =~= a);
    } else {
        assert((a + b).drop_last() =~= a + b.drop_last());
        assert((a + b).last() == b.last());
        snapshot_totals_add_up(a, b.drop_last(), one);
    }
}

/// The largest load is one of the loads, and none is above it.
pub proof fn load_peak_is_the_largest(s: Seq<SystemSnapshot>)
    ensures
        forall|i: int| 0 <= i < s.len() ==> (#[trigger] s[i]).cpu_usage_percent <= cpu_peak(s),
        s.len() > 0 ==> exists|i: int|
            0 <= i < s.len() && (#[trigger] s[i]).cpu_usage_percent == cpu_peak(s),
        s.len() == 0 ==> cpu_peak(s) == 0,
    decreases s.len(),
{
    if s.len() > 0 {
        let rest = s.drop_last();
        load_peak_is_the_largest(rest);
        assert forall|i: int| 0 <= i < s.len() implies (#[trigger] s[i]).cpu_usage_percent
            <= cpu_peak(s) by {
            if i < rest.len() {
                assert(rest[i] == s[i]);
            }
        }
        if s.last().cpu_usage_percent > cpu_peak(rest) || rest.len() == 0 {
            assert(s[s.len() - 1].cpu_usage_percent == cpu_peak(s));
        } else {
            let i = choose|i: int|
                0 <= i < rest.len() && (#[trigger] rest[i]).cpu_usage_percent == cpu_peak(rest);
            assert(s[i].cpu_usage_percent == cpu_peak(s));
        }
    }
}

/// The statistics of some snapshots: the mean and the largest load, and the mean memory in
/// thousandths of a megabyte, under their names; nothing without snapshots.
pub proof fn statistics_summarise(s: Seq<SystemSnapshot>, v: Seq<(String, u128)>)
    requires
        named_values(v) == stats_of(s),
    ensures
        s.len() == 0 ==> v.len() == 0,
        s.len() > 0 ==> {
            let n = s.len() as int;
            &&& v.len() == 3
            &&& v[0].0@ == "cpu.avg"@
            &&& v[0].1 * n <= cpu_total(s) < (v[0].1 + 1) * n
            &&& v[1].0@ == "cpu.max"@
            &&& forall|i: int| 0 <= i < n ==> (#[trigger] s[i]).cpu_usage_percent <= v[1].1
            &&& exists|i: int| 0 <= i < n && (#[trigger] s[i]).cpu_usage_percent == v[1].1
            &&& v[2].0@ == "memory.avg_mb"@
            &&& v[2].1 * n <= 1000 * memory_total(s) < (v[2].1 + 1) * n
        },
{
    assert(named_values(v).len() == v.len());
    if s.len() > 0 {
        assert(named_values(v)[0] == (v[0].0@, v[0].1 as int));
        assert(named_values(v)[1] == (v[1].0@, v[1].1 as int));
        assert(named_values(v)[2] == (v[2].0@, v[2].1 as int));
        quotient_is_near(cpu_total(s), s.len() as int);
        quotient_is_near(memory_total(s) * 1000, s.len() as int);
        load_peak_is_the_largest(s);
    }
}

/// A snapshot counts as later than a time where its own, in seconds, is later.
pub proof fn later_snapshots_are_later(s: SystemSnapshot, cutoff_ns: int)
    ensures
        is_after(s, cutoff_ns) <==> s.timestamp * 1_000 * 1_000_000 > cutoff_ns,
{
}

/// A run records the load and the memory of every snapshot, and the temperature of those
/// that have one, each in the order of the snapshots.
pub proof fn runs_record_their_snapshots(s: Seq<SystemSnapshot>, i: int)
    requires
        0 <= i < s.len(),
        crate::benchmark::can_record(s[i]),
    ensures
        loads_of(s).len() == s.len(),
        loads_of(s)[i] == s[i].cpu_usage_percent,
        memory_of(s).len() == s.len(),
        memory_of(s)[i] == s[i].memory_used_mb * 1000,
        temps_of(s) == s.filter(|x: SystemSnapshot| x.cpu_temp_celsius is Some).map_values(
            |x: SystemSnapshot| x.cpu_temp_celsius->Some_0 as i64,
        ),
{
    lemma_temps(s);
}

proof fn lemma_temps(s: Seq<SystemSnapshot>)
    ensures
        temps_of(s) == s.filter(|x: SystemSnapshot| x.cpu_temp_celsius is Some).map_values(
            |x: SystemSnapshot| x.cpu_temp_celsius->Some_0 as i64,
        ),
    decreases s.len(),
{
    reveal(Seq::filter);
    let known = |x: SystemSnapshot| x.cpu_temp_celsius is Some;
    let temp = |x: SystemSnapshot| x.cpu_temp_celsius->Some_0 as i64;
    if s.len() > 0 {
        lemma_temps(s.drop_last());
    }
    assert(temps_of(s) =~= s.filter(known).map_values(temp));
}

} // verus!
