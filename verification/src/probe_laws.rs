//! What probes, file workloads and checks count, and where they draw the line.

use crate::arith::quotient_is_near;
use crate::benchmark::{missing_resource, DeviceResources, MAX_NANOS};
use crate::checks::{address, allocation_limit, faster_than, hex_value, kernel_errors};
use crate::checks::{kernel_fault, passed_count, required_speed, KernelStats};
use crate::device::nice_increment;
use crate::files::{access, are_created, bytes_read, bytes_written, hex_digit_char, hexadecimal};
use crate::files::{is_within, is_written_file, numbered, stability_operation, FileAccess};
use crate::files::{FilledFile, StabilityOperation};
use crate::detector::WINDOW;
use crate::media::{is_audio_rate, is_camera_rate, samples_needed, FRAME_NANOS};
use crate::monitor::KEPT_METRICS;
use crate::network::{bits_per_second, distance, has_loss, packet_loss, pauses, permille};
use crate::network::{Attempts, NetworkCondition, NetworkKind, ProbeResult};
use crate::power::{frequencies, is_near, saves_power, suspend_fault, PowerState, SuspendFault};
use crate::text_laws::decimals_differ;
use crate::procfs::{counter, process_stats};
use crate::profiler::{KILOBYTE, MEGABYTE};
use crate::workload::{branch_step, branch_walk, byte_total, fibonacci, half, int_quotient};
use crate::workload::{thrashed, tripled};
use vstd::prelude::*;

verus! {

/// A share in thousandths is at most the exact one, and less than one below it; there is
/// none of nothing.
pub proof fn shares_are_exact(part: int, whole: int)
    requires
        0 <= part,
        0 <= whole,
    ensures
        match permille(part, whole) {
            Some(v) => whole > 0 && v * whole <= 1000 * part < (v + 1) * whole,
            None => whole == 0,
        },
{
    if whole > 0 {
        quotient_is_near(part * 1000, whole);
    }
}

/// A probe counts the same for each success, and as its loss the share of failures in all
/// attempts.
pub proof fn probes_count_their_attempts(a: Attempts, unit: int, r: ProbeResult)
    requires
        a.counts(unit, r),
    ensures
        r.throughput == unit * a.successes,
        match r.loss_permille {
            Some(v) => v * (a.successes + a.failures) <= 1000 * a.failures < (v + 1) * (a.successes
                + a.failures),
            None => a.successes == 0 && a.failures == 0,
        },
        r.loss_permille == Some(0u64) || a.failures > 0 || a.successes == 0,
{
    shares_are_exact(a.failures as int, a.successes + a.failures);
    if a.failures == 0 && a.successes > 0 {
        let n = a.successes as int;
        assert(0int / n == 0) by (nonlinear_arith)
            requires
                n > 0,
        ;
    }
    assert(unit * a.successes == a.successes * unit) by (nonlinear_arith);
}

/// The bits per second are eight for each byte over the time in seconds, rounded down, as
/// far as 64 bits can hold them.
pub proof fn throughput_is_bits_over_time(bytes: int, duration_ns: int)
    requires
        0 <= bytes,
        0 < duration_ns,
    ensures
        ({
            let v = bits_per_second(bytes, duration_ns);
            &&& 0 <= v <= u64::MAX
            &&& v * duration_ns <= 8 * bytes * 1_000_000_000
            &&& v < u64::MAX ==> 8 * bytes * 1_000_000_000 < (v + 1) * duration_ns
        }),
        bytes > 0 ==> bits_per_second(bytes, 0) == u64::MAX,
        bits_per_second(0, duration_ns) == 0,
{
    let w = bytes * 8 * 1_000_000_000;
    quotient_is_near(w, duration_ns);
    let q = w / duration_ns;
    assert(0 <= q) by (nonlinear_arith)
        requires
            w >= 0,
            duration_ns > 0,
            q == w / duration_ns,
    ;
    if q > u64::MAX {
        assert(u64::MAX * duration_ns <= q * duration_ns) by (nonlinear_arith)
            requires
                u64::MAX <= q,
                duration_ns > 0,
        ;
    }
    assert(0int * duration_ns == 0) by (nonlinear_arith);
    if bytes == 0 {
        assert((0int + 1) * duration_ns == duration_ns) by (nonlinear_arith);
    }
}

/// The distance of two numbers is the same both ways, and leads from the one to the other.
pub proof fn distances_are_symmetric(a: int, b: int)
    ensures
        distance(a, b) == distance(b, a),
        distance(a, b) >= 0,
        a + distance(a, b) == b || b + distance(a, b) == a,
{
}

/// The loss of packets is the share of those sent that did not arrive: nothing where all
/// did, everything where none did.
pub proof fn losses_are_what_did_not_arrive(sent: int, received: int)
    requires
        0 <= sent,
        0 <= received,
    ensures
        sent > 0 && received <= sent ==> (packet_loss(sent, received) matches Some(v) && v * sent
            <= 1000 * (sent - received) < (v + 1) * sent),
        sent > 0 ==> packet_loss(sent, sent) == Some(0int),
        sent > 0 ==> packet_loss(sent, 0) == Some(1000int),
        sent == 0 ==> packet_loss(sent, received) == Some(0int),
        sent > 0 && received > sent ==> packet_loss(sent, received) is None,
{
    if sent > 0 {
        quotient_is_near((sent - received) * 1000, sent);
        assert(0int / sent == 0) by (nonlinear_arith)
            requires
                sent > 0,
        ;
        assert((sent * 1000) / sent == 1000) by (nonlinear_arith)
            requires
                sent > 0,
        ;
        assert((sent - sent) * 1000 == 0);
    }
}

/// A loss in a probe is the share of what was lost in all.
pub proof fn probe_losses_are_shares(r: ProbeResult, lost: int, all: int)
    requires
        has_loss(r, lost, all),
        0 <= lost,
        0 <= all,
    ensures
        match r.loss_permille {
            Some(v) => all > 0 && v * all <= 1000 * lost < (v + 1) * all,
            None => all == 0,
        },
{
    shares_are_exact(lost, all);
}

/// The networks lose more from one to the next, from nothing to three tenths.
pub proof fn networks_get_worse()
    ensures
        NetworkKind::Ideal.described().loss_permille == 0,
        NetworkKind::Ideal.described().latency_ms == 0,
        NetworkKind::Ideal.described().loss_permille < NetworkKind::Wifi.described().loss_permille,
        NetworkKind::Wifi.described().loss_permille < NetworkKind::FourG.described().loss_permille,
        NetworkKind::FourG.described().loss_permille < NetworkKind::ThreeG.described().loss_permille,
        NetworkKind::ThreeG.described().loss_permille < NetworkKind::TwoG.described().loss_permille,
        NetworkKind::TwoG.described().loss_permille < NetworkKind::Lossy.described().loss_permille,
        NetworkKind::Lossy.described().loss_permille == 300,
        NetworkKind::Wifi.described().latency_ms < NetworkKind::FourG.described().latency_ms,
        NetworkKind::FourG.described().latency_ms < NetworkKind::ThreeG.described().latency_ms,
        NetworkKind::ThreeG.described().latency_ms < NetworkKind::TwoG.described().latency_ms,
        NetworkKind::Wifi.described().jitter_us < NetworkKind::FourG.described().jitter_us,
        NetworkKind::FourG.described().jitter_us < NetworkKind::ThreeG.described().jitter_us,
        NetworkKind::ThreeG.described().jitter_us < NetworkKind::TwoG.described().jitter_us,
{
}

/// The pauses of a network: its latency, a second for a loss, and the jitter in whole
/// milliseconds.
pub proof fn pauses_follow_the_network(c: NetworkCondition, lost: bool, jitter_us: int)
    requires
        0 <= jitter_us <= u64::MAX,
    ensures
        ({
            let p = pauses(c, lost, jitter_us);
            &&& p.latency_ms == c.latency_ms
            &&& lost ==> p.loss_ms == 1000
            &&& !lost ==> p.loss_ms == 0
            &&& p.jitter_ms * 1000 <= jitter_us < (p.jitter_ms + 1) * 1000
        }),
{
}

/// A camera keeps up with just twenty frames in each second, and not with one less. More
/// frames, or less time, are no worse.
pub proof fn cameras_need_twenty_frames(frames: int, nanos: int, more: int, secs: int)
    requires
        0 <= frames <= more,
        0 <= nanos,
        0 < secs,
    ensures
        is_camera_rate(frames, nanos) ==> is_camera_rate(more, nanos),
        is_camera_rate(20 * secs, secs * 1_000_000_000),
        !is_camera_rate(20 * secs - 1, secs * 1_000_000_000),
        is_camera_rate(more, nanos) && nanos > 0 ==> more > 0,
{
}

/// A recording has a sample for each channel, as often in each second as the rate says.
pub proof fn recordings_have_all_samples(rate: int, channels: int, secs: int)
    requires
        0 <= rate,
        0 <= channels,
        0 <= secs,
    ensures
        samples_needed(rate, channels, 0) == 0,
        samples_needed(rate, channels, secs + 1) == samples_needed(rate, channels, secs) + rate
            * channels,
{
    assert(rate * (secs + 1) * channels == rate * secs * channels + rate * channels)
        by (nonlinear_arith);
    assert(rate * 0 * channels == 0) by (nonlinear_arith);
}

/// A recording keeps up with just nine tenths of the rate in each second, and not with one
/// sample less.
pub proof fn recordings_need_nine_tenths(tenth: int, secs: int)
    requires
        0 < tenth,
        0 < secs,
    ensures
        is_audio_rate(9 * tenth * secs, secs * 1_000_000_000, 10 * tenth),
        !is_audio_rate(9 * tenth * secs - 1, secs * 1_000_000_000, 10 * tenth),
{
    let n = 9 * tenth * secs;
    let ns = secs * 1_000_000_000;
    assert(9 * (10 * tenth) * ns == n * 10_000_000_000) by (nonlinear_arith)
        requires
            n == 9 * tenth * secs,
            ns == secs * 1_000_000_000,
    ;
    assert(n > 0) by (nonlinear_arith)
        requires
            n == 9 * tenth * secs,
            tenth > 0,
            secs > 0,
    ;
}

/// Names with different numbers in them are different.
pub proof fn numbered_names_differ(before: Seq<char>, after: Seq<char>, a: nat, b: nat)
    requires
        a != b,
    ensures
        numbered(before, a as int, after) != numbered(before, b as int, after),
{
    decimals_differ(a, b);
    let x = numbered(before, a as int, after);
    let y = numbered(before, b as int, after);
    let p = crate::decimal::decimal(a);
    let q = crate::decimal::decimal(b);
    if x == y {
        assert(x.len() == before.len() + p.len() + after.len());
        assert(y.len() == before.len() + q.len() + after.len());
        assert(x.subrange(before.len() as int, (before.len() + p.len()) as int) =~= p);
        assert(y.subrange(before.len() as int, (before.len() + q.len()) as int) =~= q);
    }
}

/// The bytes of two runs of accesses are those of both together. An access that reads adds
/// what it moved to the bytes read, and any other one to the bytes written; one that failed
/// adds nothing.
pub proof fn accesses_add_up(
    plan: Seq<FileAccess>,
    moved: Seq<Option<u32>>,
    one: FileAccess,
    n: Option<u32>,
)
    requires
        plan.len() == moved.len(),
    ensures
        ({
            let bytes = match n {
                Some(b) => b as int,
                None => 0,
            };
            let reads = one is Read;
            &&& bytes_read(plan.push(one), moved.push(n)) == bytes_read(plan, moved) + (if reads {
                bytes
            } else {
                0
            })
            &&& bytes_written(plan.push(one), moved.push(n)) == bytes_written(plan, moved) + (
            if reads {
                0
            } else {
                bytes
            })
            &&& bytes_read(seq![], seq![]) == 0
            &&& bytes_written(seq![], seq![]) == 0
        }),
{
    assert(plan.push(one).drop_last() =~= plan);
    assert(moved.push(n).drop_last() =~= moved);
}

/// An access reads or writes at the position that was drawn, as the coin says; it is within
/// the file where the position is.
pub proof fn accesses_follow_the_draws(pos: u64, reads: bool, byte: u8, file_size: int)
    ensures
        reads ==> access(pos, reads, byte) == (FileAccess::Read { pos }),
        !reads ==> access(pos, reads, byte) == (FileAccess::Write { pos, byte }),
        is_within(access(pos, reads, byte), file_size) <==> pos < file_size,
        !is_within(FileAccess::Fill { byte }, file_size),
{
}

/// The files of the creating workload have different names, and each is a kilobyte of its
/// number.
pub proof fn created_files_differ(files: Seq<FilledFile>, id: int, count: int, i: int, j: int)
    requires
        are_created(files, id, count),
        0 <= i < j < count,
    ensures
        files.len() == count,
        files[i].name@ != files[j].name@,
        files[i].byte == i,
        files[i].len == 1024,
{
    let front = "create_"@ + crate::decimal::decimal(id as nat);
    numbered_names_differ("_"@, ".tmp"@, i as nat, j as nat);
    let x = numbered("_"@, i, ".tmp"@);
    let y = numbered("_"@, j, ".tmp"@);
    if files[i].name@ == files[j].name@ {
        assert(files[i].name@ =~= front + x);
        assert(files[j].name@ =~= front + y);
        assert((front + x).skip(front.len() as int) =~= x);
        assert((front + y).skip(front.len() as int) =~= y);
    }
}

/// What the writing workload appends is as long as was drawn, and filled with the low byte
/// of its number.
pub proof fn written_files_hold_the_low_byte(f: FilledFile, id: int, size: int)
    requires
        is_written_file(f, id, size),
        0 <= id,
    ensures
        f.len == size,
        exists|k: int| id == #[trigger] (256 * k) + f.byte,
{
    assert(id == (256 * (id / 256)) + f.byte);
}

/// Hexadecimal notation reads back as the number that was written.
pub proof fn hexadecimal_reads_back(n: nat)
    ensures
        hexadecimal(n).len() > 0,
        hex_value(hexadecimal(n)) == Some(n as int),
        n <= usize::MAX ==> address(hexadecimal(n)) == Some(n as int),
    decreases n,
{
    let s = hexadecimal(n);
    if n < 16 {
        assert(s.drop_last() =~= Seq::<char>::empty());
        assert(hex_value(s.drop_last()) == Some(0int));
    } else {
        hexadecimal_reads_back(n / 16);
        assert(s.drop_last() =~= hexadecimal(n / 16));
    }
    assert(s.last() == hex_digit_char(n % 16));
    lemma_no_plus(n);
}

proof fn lemma_no_plus(n: nat)
    ensures
        hexadecimal(n).len() > 0,
        hexadecimal(n)[0] != '+',
    decreases n,
{
    if n >= 16 {
        lemma_no_plus(n / 16);
    }
}

/// Which step of the stability test follows from the rest of the draw by five; a buffer is
/// smaller than a megabyte.
pub proof fn operations_follow_the_draw(draw: u8, size: u64)
    ensures
        draw % 5 == 0 <==> stability_operation(draw, size) is Allocate,
        draw % 5 == 1 <==> stability_operation(draw, size) is WriteFile,
        draw % 5 == 2 <==> stability_operation(draw, size) is Connect,
        draw % 5 == 3 <==> stability_operation(draw, size) is SpawnThread,
        draw % 5 == 4 <==> stability_operation(draw, size) is Rest,
        stability_operation(draw, size) matches StabilityOperation::Allocate { size: s } ==> s
            < 1024 * 1024 && exists|k: int| size == #[trigger] (1_048_576 * k) + s,
{
    if draw % 5 == 0 {
        let k = size as int / 1_048_576;
        assert(size == (1_048_576 * k) + size as int % 1_048_576);
    }
}

/// What is wrong with the kernel: that it was up for less than a second, that it never
/// switched contexts, that its load over a minute is above a hundred.
pub proof fn kernel_errors_are_those_found(k: KernelStats)
    ensures
        kernel_errors(k).contains("Uptime is zero"@) <==> k.uptime_ms < 1000,
        kernel_errors(k).contains("No context switches"@) <==> k.context_switches == 0,
        kernel_errors(k).contains("Load average too high"@) <==> k.load_average.0 > 100 * 1000,
        kernel_errors(k).len() == 0 <==> k.uptime_ms >= 1000 && k.context_switches > 0
            && k.load_average.0 <= 100 * 1000,
{
    reveal_strlit("Uptime is zero");
    reveal_strlit("No context switches");
    reveal_strlit("Load average too high");
    assert("Uptime is zero"@.len() == 14 && "No context switches"@.len() == 19);
    assert("Load average too high"@.len() == 21);
    let e = kernel_errors(k);
    let a: int = if k.uptime_ms < 1000 { 1 } else { 0 };
    let b: int = a + if k.context_switches == 0 { 1int } else { 0 };
    if k.uptime_ms < 1000 {
        assert(e[0] == "Uptime is zero"@);
    }
    if k.context_switches == 0 {
        assert(e[a] == "No context switches"@);
    }
    if k.load_average.0 > 100_000 {
        assert(e[b] == "Load average too high"@);
    }
}

/// As many checks count as passed as have passed.
pub proof fn passed_checks_are_counted(results: Seq<bool>)
    ensures
        passed_count(results) == results.filter(|r: bool| r).len(),
    decreases results.len(),
{
    reveal(Seq::filter);
    if results.len() > 0 {
        passed_checks_are_counted(results.drop_last());
    }
}

/// A transfer is faster than a speed where it moves more than that many megabytes in each
/// second; just as many are not enough.
pub proof fn speeds_are_megabytes_per_second(mb_per_sec: int, secs: int)
    requires
        0 <= mb_per_sec,
        0 < secs,
    ensures
        !faster_than(mb_per_sec * secs * (1024 * 1024), secs * 1_000_000_000, mb_per_sec),
        faster_than(mb_per_sec * secs * (1024 * 1024) + 1, secs * 1_000_000_000, mb_per_sec),
{
    let n = mb_per_sec * secs * (1024 * 1024);
    let ns = secs * 1_000_000_000;
    assert(mb_per_sec * ns * 1_048_576 == n * 1_000_000_000) by (nonlinear_arith)
        requires
            n == mb_per_sec * secs * (1024 * 1024),
            ns == secs * 1_000_000_000,
    ;
}

/// Every file system must write twenty megabytes a second, and the two named ones thirty
/// and fifty.
pub proof fn named_file_systems_are_faster(fs_type: Seq<char>)
    ensures
        fs_type == "f2fs"@ ==> required_speed(fs_type) == 50,
        fs_type == "ext4"@ ==> required_speed(fs_type) == 30,
        fs_type != "f2fs"@ && fs_type != "ext4"@ ==> required_speed(fs_type) == 20,
{
    reveal_strlit("f2fs");
    reveal_strlit("ext4");
    assert("f2fs"@[0] == 'f' && "ext4"@[0] == 'e');
}

/// Filling a buffer may take ten microseconds for each whole kilobyte.
pub proof fn limits_grow_with_the_size(kilobytes: int, rest: int)
    requires
        0 <= kilobytes,
        0 <= rest < 1024,
    ensures
        allocation_limit(kilobytes * 1024 + rest) == kilobytes * 10 * 1000,
{
    assert((kilobytes * 1024 + rest) / 1024 == kilobytes);
}

/// A resource is missing where it is asked for and not there: the privileges, any network
/// interface, or a hundred megabytes of disk space. Any other one is never missing.
pub proof fn resources_are_missing_where_not_there(resource: Seq<char>, device: DeviceResources)
    ensures
        resource == "root"@ ==> (missing_resource(resource, device) is Some <==> !device.is_root),
        resource == "network"@ ==> (missing_resource(resource, device) is Some
            <==> device.network_interfaces == 0),
        resource == "disk_space"@ ==> (missing_resource(resource, device) is None <==> (
        device.free_disk_bytes matches Some(b) && b >= 100 * 1024 * 1024)),
        resource != "root"@ && resource != "network"@ && resource != "disk_space"@
            ==> missing_resource(resource, device) is None,
{
    reveal_strlit("root");
    reveal_strlit("network");
    reveal_strlit("disk_space");
    assert("root"@.len() == 4 && "network"@.len() == 7 && "disk_space"@.len() == 10);
}

/// The lower the priority, the nicer the thread: by ten from each of the three to the next.
pub proof fn lower_priorities_are_nicer(priority: u8)
    ensures
        priority <= 2 ==> nice_increment(priority) == Some(10 * (1 - priority)),
        priority > 2 ==> nice_increment(priority) is None,
{
}

/// A state saves power where it is not the active one and less is drawn; nothing is asked
/// of the active one.
pub proof fn states_save_power_by_drawing_less(state: PowerState, before: int, after: int)
    ensures
        saves_power(state, before, after) <==> state is Active || after < before,
{
}

/// A frequency is near another where the two differ by less than 100 megahertz. No two of
/// the available ones are near each other.
pub proof fn available_frequencies_are_apart(a: int, b: int, i: int, j: int)
    requires
        0 <= i < j < frequencies().len(),
    ensures
        is_near(a, b) <==> is_near(b, a),
        is_near(a, b) <==> a - 100 < b < a + 100,
        frequencies()[i] < frequencies()[j],
        !is_near(frequencies()[i] as int, frequencies()[j] as int),
{
}

/// A suspension fails where it took ten seconds, and otherwise where the device has not
/// been up since.
pub proof fn suspensions_are_judged(cycle_ns: int, uptime_ns: int)
    ensures
        suspend_fault(cycle_ns, uptime_ns) == Some(SuspendFault::TooSlow) <==> cycle_ns >= 10
            * 1_000_000_000,
        suspend_fault(cycle_ns, uptime_ns) == Some(SuspendFault::NotResumed) <==> cycle_ns < 10
            * 1_000_000_000 && uptime_ns <= 0,
{
}

/// Each of Fibonacci's numbers is the sum of the two before it; the first are zero and one.
pub proof fn fibonacci_adds_the_last_two(n: nat)
    ensures
        fibonacci(0) == 0,
        fibonacci(1) == 1,
        fibonacci(n + 2) == fibonacci(n + 1) + fibonacci(n),
{
}

/// A number that is tripled in one more round is three times what it was, as far as 64 bits
/// can hold it.
pub proof fn rounds_triple(x: u64, rounds: nat)
    ensures
        tripled(x, 0) == x,
        tripled(x, rounds) as int * 3 <= u64::MAX ==> tripled(x, rounds + 1) == tripled(x, rounds)
            * 3,
{
}

/// The quotient of the integer workload is that of the product and the first number, where
/// nothing wraps around: the first number, and how often the second goes into it.
pub proof fn quotients_without_wrapping(a: u64, b: u64)
    requires
        b > 0,
        a * b + a <= u64::MAX,
    ensures
        int_quotient(a, b) == a + a as int / b as int,
{
    let x = a as int;
    let y = b as int;
    assert(0 <= x * y) by (nonlinear_arith)
        requires
            x >= 0,
            y > 0,
    ;
    assert((x * y + x) / y == x + x / y) by (nonlinear_arith)
        requires
            y > 0,
    ;
}

/// The sum of two buffers is that of both together, and that of one byte is the byte.
pub proof fn byte_totals_add_up(a: Seq<u8>, b: Seq<u8>, one: u8)
    ensures
        byte_total(a + b) == byte_total(a) + byte_total(b),
        byte_total(seq![one]) == one,
    decreases b.len(),
{
    assert(seq![one].drop_last() =~= seq![]);
    reveal_with_fuel(byte_total, 2);
    if b.len() == 0 {
        assert(a + b =~= a);
    } else {
        assert((a + b).drop_last() =~= a + b.drop_last());
        assert((a + b).last() == b.last());
        byte_totals_add_up(a, b.drop_last(), one);
    }
}

/// Half of a number is rounded towards zero, and has the sign of the number.
pub proof fn halves_are_rounded_to_zero(x: i32)
    ensures
        half(x) * 2 == x || half(x) * 2 + 1 == x || half(x) * 2 - 1 == x,
        x >= 0 ==> half(x) >= 0 && half(x) * 2 <= x,
        x < 0 ==> half(x) <= 0 && half(x) * 2 >= x,
{
}

/// A step of the branching workload where nothing wraps around: the coin adds or subtracts,
/// an even result is tripled, an odd one that three divides is halved, and any other one
/// grows by one.
pub proof fn branches_follow_the_divisors(x: i32, i: i32, up: bool, y: int)
    requires
        y == (if up { x + i } else { x - i }),
        -500_000_000 < y < 500_000_000,
    ensures
        y % 2 == 0 ==> branch_step(x, i, up) == 3 * y,
        y % 2 != 0 && y % 3 == 0 ==> branch_step(x, i, up) == half(y as i32),
        y % 2 != 0 && y % 3 != 0 ==> branch_step(x, i, up) == y + 1,
{
}

/// One more coin takes the branching workload one more step.
pub proof fn coins_take_steps(coins: Seq<bool>, coin: bool)
    ensures
        branch_walk(seq![]) == 0,
        branch_walk(coins.push(coin)) == branch_step(
            branch_walk(coins),
            coins.len() as i32,
            coin,
        ),
{
    assert(coins.push(coin).drop_last() =~= coins);
}

/// Every 64th number of the thrashed ones is its place, tripled once in each round; all
/// others are their places.
pub proof fn every_line_is_tripled(len: nat, rounds: nat, i: int)
    requires
        0 <= i < len,
    ensures
        thrashed(len, rounds).len() == len,
        thrashed(len, 0)[i] == i as u64,
        i % 64 == 0 && thrashed(len, rounds)[i] as int * 3 <= u64::MAX ==> thrashed(
            len,
            rounds + 1,
        )[i] == thrashed(len, rounds)[i] * 3,
        i % 64 != 0 ==> thrashed(len, rounds + 1)[i] == thrashed(len, rounds)[i],
{
    rounds_triple(i as u64, rounds);
}

/// The statistics of the kernel need all files and all numbers in them; what fails first is
/// the error.
pub proof fn kernel_faults_come_first(
    uptime: Result<u64, String>,
    stat: Result<String, String>,
    loadavg: Result<String, String>,
    loads: Result<(u64, u64, u64), String>,
)
    ensures
        kernel_fault(uptime, stat, loadavg, loads) is None <==> {
            &&& uptime is Ok
            &&& loads is Ok
            &&& (stat matches Ok(s) && counter(
                s@,
                "ctxt "@,
                "ctxt not found in /proc/stat"@,
            ) is Ok && counter(s@, "intr "@, "intr not found in /proc/stat"@) is Ok)
            &&& (loadavg matches Ok(l) && process_stats(l@) is Ok)
        },
        uptime matches Err(e) ==> kernel_fault(uptime, stat, loadavg, loads) == Some(e@),
        uptime is Ok ==> (stat matches Err(e) ==> kernel_fault(uptime, stat, loadavg, loads) == Some(
            e@,
        )),
{
}

/// Times are recorded as long as 64 bits can hold their thousandths, frames come thirty to
/// a second, and a thousand metrics are kept, as are a thousand values.
pub proof fn constants_are_what_they_stand_for()
    ensures
        MAX_NANOS * 1000 <= i64::MAX < (MAX_NANOS + 1) * 1000,
        FRAME_NANOS * 30 <= 1_000_000_000 < (FRAME_NANOS + 1) * 30,
        KEPT_METRICS == 1000,
        WINDOW == 1000,
        KILOBYTE == 1024,
        MEGABYTE == 1024 * KILOBYTE,
{
}

} // verus!
