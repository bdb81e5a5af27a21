//! The memory pressure test: it allocates while memory is free, and gives memory back
//! when it runs out.

use crate::arith::floor_div;
use crate::detector::abs;
use crate::profiler::{last_items, MEGABYTE};
use crate::random::{gen_range, gen_ratio};
use crate::series::sum_from;
use vstd::prelude::*;

verus! {

/// How scarce memory is.
#[derive(Clone, Copy, Debug, PartialEq, Eq, Structural)]
pub enum MemoryPressure {
    Low,
    Medium,
    High,
    Critical,
}

/// Whether more than `percent` percent of the memory is in use.
pub open spec fn used_above(free: int, total: int, percent: int) -> bool {
    total > 0 && (total - free) * 100 > percent * total
}

/// Whether less than `percent` percent of the memory is in use. Free memory without any
/// memory counts as unused.
pub open spec fn used_below(free: int, total: int, percent: int) -> bool {
    if total > 0 {
        (total - free) * 100 < percent * total
    } else {
        free > 0
    }
}

/// How scarce memory is: critically above 90 percent in use, highly above 75, and
/// medium above 50.
pub open spec fn pressure(free: int, total: int) -> MemoryPressure {
    if used_above(free, total, 90) {
        MemoryPressure::Critical
    } else if used_above(free, total, 75) {
        MemoryPressure::High
    } else if used_above(free, total, 50) {
        MemoryPressure::Medium
    } else {
        MemoryPressure::Low
    }
}

/// How scarce memory is.
pub fn pressure_level(free: u64, total: u64) -> (r: MemoryPressure)
    ensures
        r == pressure(free as int, total as int),
{
    let used: i128 = (total as i128 - free as i128) * 100;
    let all: i128 = total as i128;
    if total > 0 && used > 90 * all {
        MemoryPressure::Critical
    } else if total > 0 && used > 75 * all {
        MemoryPressure::High
    } else if total > 0 && used > 50 * all {
        MemoryPressure::Medium
    } else {
        MemoryPressure::Low
    }
}

/// The share of memory in use in thousandths of a percent, rounded down; there is none
/// where there is no memory.
pub open spec fn used_share(free: int, total: int) -> Option<int> {
    if total == 0 {
        None
    } else {
        Some((total - free) * 100_000 / total)
    }
}

/// The share of memory in use in thousandths of a percent.
pub fn used_percent(free: u64, total: u64) -> (r: Option<i128>)
    ensures
        match r {
            Some(v) => used_share(free as int, total as int) == Some(v as int),
            None => used_share(free as int, total as int) is None,
        },
{
    if total == 0 {
        return None;
    }
    let used: i128 = (total as i128 - free as i128) * 100_000;
    Some(floor_div(used, total as i128))
}

/// The sizes that are allocated, in bytes.
pub open spec fn allocation_sizes() -> Seq<int> {
    seq![1_024, 65_536, 1_048_576, 16_777_216]
}

/// One of the sizes that are allocated.
pub fn allocation_size(pattern: usize) -> (r: usize)
    requires
        pattern < 4,
    ensures
        r == allocation_sizes()[pattern as int],
{
    match pattern {
        0 => 1_024,
        1 => 65_536,
        2 => 1_048_576,
        _ => 16_777_216,
    }
}

/// What a step of the test does: first it releases allocations, the latest first, then
/// it makes one, and then it may report.
#[derive(Clone, Copy, Debug, PartialEq, Eq, Structural)]
pub struct PressureAction {
    /// How many allocations are released.
    pub release: usize,
    /// Whether the release is the protection against running out.
    pub protection: bool,
    /// Whether an allocation is made.
    pub allocate: bool,
    /// Whether the test reports where it stands.
    pub report: bool,
}

/// Where the test stands.
#[derive(Clone, Copy, Debug, PartialEq, Eq, Structural)]
pub struct PressureTest {
    /// How many allocations are held.
    pub allocations: usize,
    /// How many critical steps in a row were let pass.
    pub oom_score: u32,
}

/// Whether the protection gives memory back in this step.
pub open spec fn protects(t: PressureTest, free: int, total: int, protection: bool) -> bool {
    pressure(free, total) == MemoryPressure::Critical && protection && t.oom_score >= 10
}

/// How many allocations a step releases.
pub open spec fn released(t: PressureTest, free: int, total: int, protection: bool, coin: bool) -> int {
    if protects(t, free, total, protection) {
        if t.allocations < 1000 {
            t.allocations as int
        } else {
            1000
        }
    } else if pressure(free, total) == MemoryPressure::High && coin && t.allocations > 0 {
        1
    } else {
        0
    }
}

/// The count of critical steps after a step.
pub open spec fn next_score(t: PressureTest, free: int, total: int, protection: bool) -> int {
    if pressure(free, total) != MemoryPressure::Critical || !protection {
        t.oom_score as int
    } else if t.oom_score >= 10 {
        0
    } else {
        t.oom_score + 1
    }
}

/// How many allocations are held after a step.
pub open spec fn next_allocations(
    t: PressureTest,
    free: int,
    total: int,
    protection: bool,
    coin: bool,
) -> int {
    t.allocations - released(t, free, total, protection, coin) + if used_below(free, total, 85) {
        1int
    } else {
        0
    }
}

impl PressureTest {
    /// The test at its start.
    pub fn new() -> (r: PressureTest)
        ensures
            r.wf(),
            r.allocations == 0,
            r.oom_score == 0,
    {
        PressureTest { allocations: 0, oom_score: 0 }
    }

    /// The score never passes ten: the step after that gives memory back.
    pub open spec fn wf(self) -> bool {
        self.oom_score <= 10
    }

    /// One step of the test, where a coin decides whether an allocation is given back
    /// under high pressure.
    pub fn step(&mut self, free: u64, total: u64, protection: bool, coin: bool) -> (r:
        PressureAction)
        requires
            old(self).wf(),
            old(self).allocations < usize::MAX,
        ensures
            final(self).wf(),
            final(self).oom_score == next_score(*old(self), free as int, total as int, protection),
            final(self).allocations == next_allocations(
                *old(self),
                free as int,
                total as int,
                protection,
                coin,
            ),
            r.release == released(*old(self), free as int, total as int, protection, coin),
            r.protection == protects(*old(self), free as int, total as int, protection),
            r.allocate == used_below(free as int, total as int, 85),
            r.report == (final(self).allocations % 1000 == 0),
    {
        let level = pressure_level(free, total);
        let mut release: usize = 0;
        let mut protected: bool = false;
        match level {
            MemoryPressure::Critical => {
                if protection {
                    self.oom_score = self.oom_score + 1;
                    if self.oom_score > 10 {
                        release = if self.allocations < 1000 {
                            self.allocations
                        } else {
                            1000
                        };
                        protected = true;
                        self.oom_score = 0;
                    }
                }
            },
            MemoryPressure::High => {
                if coin && self.allocations > 0 {
                    release = 1;
                }
            },
            _ => {},
        }
        self.allocations = self.allocations - release;
        let used: i128 = (total as i128 - free as i128) * 100;
        let below: bool = if total > 0 {
            used < 85 * total as i128
        } else {
            free > 0
        };
        let allocate: bool = below && level != MemoryPressure::Critical;
        if allocate {
            self.allocations = self.allocations + 1;
        }
        PressureAction { release, protection: protected, allocate, report: self.allocations % 1000 == 0 }
    }

    /// One step of the test, with a coin that shows true in three of ten cases. The size
    /// of an allocation is drawn.
    pub fn random_step(&mut self, free: u64, total: u64, protection: bool) -> (r: (
        PressureAction,
        usize,
    ))
        requires
            old(self).wf(),
            old(self).allocations < usize::MAX,
        ensures
            final(self).wf(),
            final(self).oom_score == next_score(*old(self), free as int, total as int, protection),
            exists|coin: bool|
                r.0.release == #[trigger] released(
                    *old(self),
                    free as int,
                    total as int,
                    protection,
                    coin,
                ) && final(self).allocations == next_allocations(
                    *old(self),
                    free as int,
                    total as int,
                    protection,
                    coin,
                ),
            r.0.protection == protects(*old(self), free as int, total as int, protection),
            r.0.allocate == used_below(free as int, total as int, 85),
            r.0.report == (final(self).allocations % 1000 == 0),
            allocation_sizes().contains(r.1 as int),
    {
        let coin: bool = gen_ratio(3, 10);
        let pattern: usize = gen_range(0, 4) as usize;
        let size: usize = allocation_size(pattern);
        let action = self.step(free, total, protection, coin);
        assert(allocation_sizes()[pattern as int] == size);
        (action, size)
    }
}

/// A thousandth of the time that the last thousand allocations took together, or all of
/// them where there were fewer.
pub fn recent_average(times: &Vec<u64>) -> (r: u64)
    ensures
        r == crate::series::total(last_items(times@, 1000)) / 1000,
        times@.len() <= 1000 ==> r * 1000 <= crate::series::total(times@) < (r + 1) * 1000,
        times@.len() > 1000 ==> r * 1000 <= crate::series::total(
            times@.subrange(times@.len() - 1000, times@.len() as int),
        ) < (r + 1) * 1000,
{
    let from: usize = if times.len() <= 1000 {
        0
    } else {
        times.len() - 1000
    };
    assert(times@.skip(0) =~= times@);
    assert(times@.skip(from as int) =~= times@.subrange(from as int, times@.len() as int));
    let sum: u128 = sum_from(times, from);
    (sum / 1000) as u64
}

/// Whether the memory that is free after the test differs from that before it by less
/// than ten megabytes.
pub open spec fn gives_memory_back(free_before: int, free_after: int) -> bool {
    abs(free_after - free_before) < 10 * MEGABYTE
}

/// Judges whether a test gave its memory back; the megabytes that are missing are the
/// error.
pub fn check_leak(free_before: u64, free_after: u64) -> (r: Result<(), u64>)
    ensures
        match r {
            Ok(_) => gives_memory_back(free_before as int, free_after as int),
            Err(mb) => !gives_memory_back(free_before as int, free_after as int) && mb == abs(
                free_after - free_before,
            ) / MEGABYTE as int,
        },
        r is Ok <==> free_after < free_before + 10 * 1024 * 1024 && free_before < free_after + 10
            * 1024 * 1024,
        r matches Err(mb) ==> mb >= 10 && (free_before + mb * 1024 * 1024 <= free_after < free_before
            + (mb + 1) * 1024 * 1024 || free_after + mb * 1024 * 1024 <= free_before < free_after + (
        mb + 1) * 1024 * 1024),
{
    let leaked: u64 = if free_after > free_before {
        free_after - free_before
    } else {
        free_before - free_after
    };
    if leaked < 10 * MEGABYTE {
        Ok(())
    } else {
        Err(leaked / MEGABYTE)
    }
}

/// The pressure does not fall when memory is used up.
pub proof fn less_free_is_no_lower_pressure(free: int, less: int, total: int)
    requires
        less <= free,
    ensures
        pressure(free, total) is Critical ==> pressure(less, total) is Critical,
        pressure(free, total) is High ==> pressure(less, total) is High || pressure(
            less,
            total,
        ) is Critical,
        pressure(free, total) is Medium ==> !(pressure(less, total) is Low),
{
}

/// Nothing is allocated under critical pressure.
pub proof fn nothing_is_allocated_when_critical(free: int, total: int)
    requires
        pressure(free, total) is Critical,
    ensures
        !used_below(free, total, 85),
{
    assert(85 * total <= 90 * total);
}

/// Where a test under protection stands after some readings of free and all memory.
pub open spec fn after_readings(t: PressureTest, readings: Seq<(int, int)>) -> PressureTest
    decreases readings.len(),
{
    if readings.len() == 0 {
        t
    } else {
        let before = after_readings(t, readings.drop_last());
        let (free, total) = readings.last();
        PressureTest {
            allocations: next_allocations(before, free, total, true, false) as usize,
            oom_score: next_score(before, free, total, true) as u32,
        }
    }
}

/// Under protection, up to ten critical readings in a row let everything be.
pub proof fn ten_critical_readings_pass(t: PressureTest, readings: Seq<(int, int)>)
    requires
        t.oom_score == 0,
        readings.len() <= 10,
        forall|i: int|
            0 <= i < readings.len() ==> pressure(
                (#[trigger] readings[i]).0,
                readings[i].1,
            ) is Critical,
    ensures
        after_readings(t, readings) == (PressureTest {
            allocations: t.allocations,
            oom_score: readings.len() as u32,
        }),
    decreases readings.len(),
{
    if readings.len() > 0 {
        let rest = readings.drop_last();
        assert forall|i: int| 0 <= i < rest.len() implies pressure(
            (#[trigger] rest[i]).0,
            rest[i].1,
        ) is Critical by {
            assert(rest[i] == readings[i]);
        }
        ten_critical_readings_pass(t, rest);
        let last = readings[readings.len() - 1];
        nothing_is_allocated_when_critical(last.0, last.1);
    }
}

/// Under protection, the eleventh critical reading in a row gives back up to a thousand
/// allocations.
pub proof fn eleventh_critical_reading_releases(t: PressureTest, readings: Seq<(int, int)>)
    requires
        t.oom_score == 0,
        readings.len() == 11,
        forall|i: int|
            0 <= i < readings.len() ==> pressure(
                (#[trigger] readings[i]).0,
                readings[i].1,
            ) is Critical,
    ensures
        after_readings(t, readings) == (PressureTest {
            allocations: if t.allocations < 1000 {
                0
            } else {
                (t.allocations - 1000) as usize
            },
            oom_score: 0,
        }),
{
    let rest = readings.drop_last();
    assert forall|i: int| 0 <= i < rest.len() implies pressure(
        (#[trigger] rest[i]).0,
        rest[i].1,
    ) is Critical by {
        assert(rest[i] == readings[i]);
    }
    ten_critical_readings_pass(t, rest);
    let last = readings[10];
    nothing_is_allocated_when_critical(last.0, last.1);
}

} // verus!
