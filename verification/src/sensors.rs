//! What the stress tests read of the device. A file that could not be read, or that the
//! platform does not have, is `None`; a value is then drawn at random from a plausible
//! range. Temperatures are in thousandths of a degree and shares in thousandths of a
//! percent.

use crate::decimal::{parse_i32, parse_or, parse_unsigned, parsed, parsed_i32, parsed_or};
use crate::device::{file_number, read_file_number};
use crate::procfs::{counter_or, read_counter_or, text_of};
use crate::profiler::MEGABYTE;
use crate::random::gen_range;
use crate::text::{chars_of, lines, split, split_whitespace, starts_with, texts, trim, trimmed};
use crate::text::words;
use vstd::prelude::*;

verus! {

/// The platforms that the tests run on.
#[derive(Clone, Copy, Debug, PartialEq, Eq, Structural)]
pub enum Platform {
    Android,
    Ios,
}

/// The share of time that a processor was busy, as a line of `/proc/stat` counts it:
/// there is none where the line is not that of all processors, is too short, or counts
/// no time.
pub open spec fn busy_share(line: Seq<char>) -> Option<int> {
    let w = words(line);
    let user = parsed_or(w[1], u64::MAX as int, 0);
    let nice = parsed_or(w[2], u64::MAX as int, 0);
    let system = parsed_or(w[3], u64::MAX as int, 0);
    let idle = parsed_or(w[4], u64::MAX as int, 0);
    let busy = user + nice + system;
    if "cpu "@.is_prefix_of(line) && w.len() >= 5 && busy + idle > 0 {
        Some(busy * 100_000 / (busy + idle))
    } else {
        None
    }
}

/// The share of time of the first line that counts it.
pub open spec fn first_busy_share(lines: Seq<Seq<char>>) -> Option<int>
    decreases lines.len(),
{
    if lines.len() == 0 {
        None
    } else {
        match first_busy_share(lines.drop_last()) {
            Some(v) => Some(v),
            None => busy_share(lines.last()),
        }
    }
}

/// The share of time that `/proc/stat` counts as busy, where it could be read.
pub open spec fn cpu_share(stat: Option<Seq<char>>) -> Option<int> {
    match stat {
        Some(content) => first_busy_share(split(content, '\n')),
        None => None,
    }
}

proof fn first_busy_share_stays(lines: Seq<Seq<char>>, k: int)
    requires
        0 <= k <= lines.len(),
        first_busy_share(lines.take(k)) is Some,
    ensures
        first_busy_share(lines) == first_busy_share(lines.take(k)),
    decreases lines.len(),
{
    if k < lines.len() {
        assert(lines.drop_last().take(k) =~= lines.take(k));
        first_busy_share_stays(lines.drop_last(), k);
    } else {
        assert(lines.take(k) =~= lines);
    }
}

fn read_busy_share(line: &Vec<char>) -> (r: Option<u64>)
    ensures
        match r {
            Some(v) => busy_share(line@) == Some(v as int),
            None => busy_share(line@) is None,
        },
{
    if !starts_with(line, "cpu ") {
        return None;
    }
    let parts = split_whitespace(line);
    assert(texts(parts@).len() == parts.len());
    if parts.len() < 5 {
        return None;
    }
    assert(texts(parts@)[1] == parts@[1]@);
    assert(texts(parts@)[2] == parts@[2]@);
    assert(texts(parts@)[3] == parts@[3]@);
    assert(texts(parts@)[4] == parts@[4]@);
    let user: u64 = parse_or(&parts[1], u64::MAX, 0);
    let nice: u64 = parse_or(&parts[2], u64::MAX, 0);
    let system: u64 = parse_or(&parts[3], u64::MAX, 0);
    let idle: u64 = parse_or(&parts[4], u64::MAX, 0);
    let busy: u128 = user as u128 + nice as u128 + system as u128;
    let total: u128 = busy + idle as u128;
    if total == 0 {
        return None;
    }
    let share: u128 = busy * 100_000 / total;
    assert(share <= 100_000) by (nonlinear_arith)
        requires
            share == busy * 100_000 / (total as int),
            0 <= busy <= total,
            total > 0,
    ;
    Some(share as u64)
}

/// Reads the share of time that `/proc/stat` counts as busy.
pub fn read_cpu_usage(stat: Option<&str>) -> (r: Option<u64>)
    ensures
        match r {
            Some(v) => cpu_share(text_of(stat)) == Some(v as int),
            None => cpu_share(text_of(stat)) is None,
        },
{
    let content: &str = match stat {
        Some(s) => s,
        None => {
            return None;
        },
    };
    let all = lines(&chars_of(content));
    let ghost seqs = split(content@, '\n');
    let mut i: usize = 0;
    while i < all.len()
        invariant
            i <= all.len(),
            texts(all@) == seqs,
            stat == Some(content),
            seqs == split(content@, '\n'),
            first_busy_share(seqs.take(i as int)) is None,
        decreases all.len() - i,
    {
        assert(seqs.take(i + 1).drop_last() =~= seqs.take(i as int));
        assert(seqs[i as int] == all@[i as int]@);
        match read_busy_share(&all[i]) {
            Some(v) => {
                proof {
                    first_busy_share_stays(seqs, i + 1);
                }
                return Some(v);
            },
            None => {},
        }
        i = i + 1;
    }
    assert(seqs.take(all.len() as int) =~= seqs);
    None
}

/// The load of all processors; drawn from 20 % to 60 % where it is not known.
pub fn get_cpu_usage(stat: Option<&str>) -> (r: u64)
    ensures
        match cpu_share(text_of(stat)) {
            Some(v) => r == v,
            None => 20_000 <= r < 60_000,
        },
{
    match read_cpu_usage(stat) {
        Some(v) => v,
        None => gen_range(20_000, 60_000),
    }
}

/// The processor temperature, out of the file of the first thermal zone; drawn from 35
/// to 65 degrees where it is not known.
pub fn measure_cpu_temperature(zone: Option<&str>) -> (r: u64)
    ensures
        match file_number(text_of(zone), u32::MAX as int) {
            Some(v) => r == v,
            None => 35_000 <= r < 65_000,
        },
{
    match read_file_number(zone, u32::MAX as u64) {
        Some(v) => v,
        None => gen_range(35_000, 65_000),
    }
}

/// What a file says that may hold any decimal fraction: nothing where it could not be
/// read, and otherwise its number, where it is one.
pub open spec fn fraction_or(reading: Option<Option<u64>>, no_number: int) -> Option<int> {
    match reading {
        None => None,
        Some(None) => Some(no_number),
        Some(Some(v)) => Some(v as int),
    }
}

/// The load of the graphics processor: 0 where the file holds no number, and drawn from
/// 30 % to 80 % where it could not be read.
pub fn get_gpu_usage(reading: Option<Option<u64>>) -> (r: u64)
    ensures
        match fraction_or(reading, 0) {
            Some(v) => r == v,
            None => 30_000 <= r < 80_000,
        },
{
    match reading {
        None => gen_range(30_000, 80_000),
        Some(None) => 0,
        Some(Some(v)) => v,
    }
}

/// The charge of the battery: 50 % where the file holds no number, and drawn from 30 % to
/// 70 % where it could not be read.
pub fn get_battery_level(reading: Option<Option<u64>>) -> (r: u64)
    ensures
        match fraction_or(reading, 50_000) {
            Some(v) => r == v,
            None => 30_000 <= r < 70_000,
        },
{
    match reading {
        None => gen_range(30_000, 70_000),
        Some(None) => 50_000,
        Some(Some(v)) => v,
    }
}

/// The current of the battery in milliamperes: 0 where the file holds no number, and
/// drawn from -500 to 500 where it could not be read.
pub fn get_battery_current(current: Option<&str>) -> (r: i32)
    ensures
        match text_of(current) {
            Some(s) => r == (match parsed_i32(trimmed(s)) {
                Some(v) => v,
                None => 0,
            }),
            None => -500 <= r < 500,
        },
{
    match current {
        Some(s) => match parse_i32(&trim(&chars_of(s))) {
            Some(v) => v,
            None => 0,
        },
        None => gen_range(0, 1000) as i32 - 500,
    }
}

/// The temperature of the battery. The file counts tenths of a degree: 30 degrees where
/// it holds no number, and drawn from 25 to 40 degrees where it could not be read.
pub fn get_battery_temperature(temp: Option<&str>) -> (r: u64)
    ensures
        match text_of(temp) {
            Some(s) => r == parsed_or(trimmed(s), u32::MAX as int, 300) * 100,
            None => 25_000 <= r < 40_000,
        },
{
    match temp {
        Some(s) => match parse_unsigned(&trim(&chars_of(s)), u32::MAX as u64) {
            Ok(v) => v * 100,
            Err(_) => 30_000,
        },
        None => gen_range(25_000, 40_000),
    }
}

/// The voltage of the battery in millivolts. The file counts microvolts.
pub open spec fn millivolts(voltage: Option<Seq<char>>) -> int {
    match voltage {
        Some(s) => parsed_or(trimmed(s), u32::MAX as int, 3_700_000) / 1000,
        None => 3700,
    }
}

/// The voltage of the battery in millivolts; 3700 where it is not known.
pub fn get_battery_voltage(voltage: Option<&str>) -> (r: u32)
    ensures
        r == millivolts(text_of(voltage)),
{
    match voltage {
        Some(s) => match parse_unsigned(&trim(&chars_of(s)), u32::MAX as u64) {
            Ok(v) => (v / 1000) as u32,
            Err(_) => 3700,
        },
        None => 3700,
    }
}

/// The throttling stage that a processor temperature stands for.
pub open spec fn temperature_stage(temp: int) -> int {
    if temp > 80_000 {
        2
    } else if temp > 70_000 {
        1
    } else {
        0
    }
}

/// The throttling stage that a processor temperature stands for.
pub fn stage_of_temperature(temp: u64) -> (r: u32)
    ensures
        r == temperature_stage(temp as int),
{
    if temp > 80_000 {
        2
    } else if temp > 70_000 {
        1
    } else {
        0
    }
}

/// The stage that the files of the thermal message and of the first cooling device
/// give: the first one that could be read decides, and holds 0 where it holds no number.
pub open spec fn file_stage(message: Option<Seq<char>>, cooling: Option<Seq<char>>) -> Option<int> {
    match (message, cooling) {
        (Some(s), _) => Some(parsed_or(trimmed(s), u32::MAX as int, 0)),
        (None, Some(s)) => Some(parsed_or(trimmed(s), u32::MAX as int, 0)),
        (None, None) => None,
    }
}

/// The throttling stage of the processor: where no file gives it, the processor
/// temperature does.
pub fn get_throttling_stage(
    message: Option<&str>,
    cooling: Option<&str>,
    zone: Option<&str>,
) -> (r: u32)
    ensures
        match file_stage(text_of(message), text_of(cooling)) {
            Some(v) => r == v,
            None => match file_number(text_of(zone), u32::MAX as int) {
                Some(t) => r == temperature_stage(t),
                None => r == 0,
            },
        },
{
    match message {
        Some(s) => match parse_unsigned(&trim(&chars_of(s)), u32::MAX as u64) {
            Ok(v) => v as u32,
            Err(_) => 0,
        },
        None => match cooling {
            Some(s) => match parse_unsigned(&trim(&chars_of(s)), u32::MAX as u64) {
                Ok(v) => v as u32,
                Err(_) => 0,
            },
            None => stage_of_temperature(measure_cpu_temperature(zone)),
        },
    }
}

/// Whether the processor is throttled: its stage is not zero.
pub fn is_thermal_throttling(
    message: Option<&str>,
    cooling: Option<&str>,
    zone: Option<&str>,
) -> (r: bool)
    ensures
        r == (match file_stage(text_of(message), text_of(cooling)) {
            Some(v) => v > 0,
            None => match file_number(text_of(zone), u32::MAX as int) {
                Some(t) => t > 70_000,
                None => false,
            },
        }),
{
    get_throttling_stage(message, cooling, zone) > 0
}

/// The number of context switches since boot; a million where it is not known.
pub fn get_context_switches(stat: Option<&str>) -> (r: u64)
    ensures
        r == counter_or(text_of(stat), "ctxt "@, 1_000_000),
{
    read_counter_or(stat, "ctxt ", 1_000_000)
}

/// The number of interrupts since boot; half a million where it is not known.
pub fn get_interrupts(stat: Option<&str>) -> (r: u64)
    ensures
        r == counter_or(text_of(stat), "intr "@, 500_000),
{
    read_counter_or(stat, "intr ", 500_000)
}

/// Whether a directory name of `/proc` is that of a process.
pub open spec fn is_process(name: Seq<char>) -> bool {
    parsed(name, u32::MAX as int) is Ok
}

/// How many of the names are those of processes.
pub open spec fn process_names(names: Seq<String>) -> int
    decreases names.len(),
{
    if names.len() == 0 {
        0
    } else {
        process_names(names.drop_last()) + if is_process(names.last()@) {
            1int
        } else {
            0
        }
    }
}

/// The number of processes, out of the names in `/proc`; 200 where they are not known.
pub fn get_process_count(names: Option<&Vec<String>>) -> (r: u32)
    requires
        names matches Some(v) ==> v@.len() <= u32::MAX,
    ensures
        r == (match names {
            Some(v) => process_names(v@),
            None => 200,
        }),
{
    let v: &Vec<String> = match names {
        Some(v) => v,
        None => {
            return 200;
        },
    };
    let mut count: u32 = 0;
    let mut i: usize = 0;
    while i < v.len()
        invariant
            i <= v.len() <= u32::MAX,
            count <= i,
            count == process_names(v@.take(i as int)),
        decreases v.len() - i,
    {
        assert(v@.take(i + 1).drop_last() =~= v@.take(i as int));
        match parse_unsigned(&chars_of(v[i].as_str()), u32::MAX as u64) {
            Ok(_) => {
                count = count + 1;
            },
            Err(_) => {},
        }
        i = i + 1;
    }
    assert(v@.take(v.len() as int) =~= v@);
    count
}

/// How many threads the directories of `/proc` hold: those of the processes whose
/// threads could be listed.
pub open spec fn thread_total(entries: Seq<(String, Option<usize>)>) -> int
    decreases entries.len(),
{
    if entries.len() == 0 {
        0
    } else {
        thread_total(entries.drop_last()) + match entries.last().1 {
            Some(n) => if is_process(entries.last().0@) {
                n as int
            } else {
                0
            },
            None => 0,
        }
    }
}

proof fn thread_total_grows(entries: Seq<(String, Option<usize>)>, k: int)
    requires
        0 <= k <= entries.len(),
    ensures
        0 <= thread_total(entries.take(k)) <= thread_total(entries),
    decreases entries.len(),
{
    if k < entries.len() {
        thread_total_grows(entries.drop_last(), k);
        assert(entries.drop_last().take(k) =~= entries.take(k));
    } else {
        assert(entries.take(k) =~= entries);
        if entries.len() > 0 {
            thread_total_grows(entries.drop_last(), k - 1);
            assert(entries.drop_last().take(k - 1) =~= entries.drop_last());
        }
    }
}

/// The number of threads of all processes; 1000 on a platform that does not list them,
/// and nothing where the number does not fit.
pub fn get_thread_count(platform: Platform, entries: &Vec<(String, Option<usize>)>) -> (r: Option<
    u32,
>)
    ensures
        match platform {
            Platform::Android => match r {
                Some(n) => n == thread_total(entries@),
                None => thread_total(entries@) > u32::MAX,
            },
            Platform::Ios => r == Some(1000u32),
        },
{
    if platform == Platform::Ios {
        return Some(1000);
    }
    let mut total: u32 = 0;
    let mut i: usize = 0;
    while i < entries.len()
        invariant
            i <= entries.len(),
            platform == Platform::Android,
            total == thread_total(entries@.take(i as int)),
        decreases entries.len() - i,
    {
        proof {
            assert(entries@.take(i + 1).drop_last() =~= entries@.take(i as int));
            thread_total_grows(entries@, i + 1);
        }
        match entries[i].1 {
            Some(n) => {
                match parse_unsigned(&chars_of(entries[i].0.as_str()), u32::MAX as u64) {
                    Ok(_) => {
                        let sum: u128 = total as u128 + n as u128;
                        if sum > u32::MAX as u128 {
                            return None;
                        }
                        total = sum as u32;
                    },
                    Err(_) => {},
                }
            },
            None => {},
        }
        i = i + 1;
    }
    assert(entries@.take(entries.len() as int) =~= entries@);
    Some(total)
}

/// The number of files that the process has open; 100 where they could not be listed.
pub fn count_open_files(listed: Option<usize>) -> (r: usize)
    ensures
        r == (match listed {
            Some(n) => n,
            None => 100,
        }),
{
    match listed {
        Some(n) => n,
        None => 100,
    }
}

/// The free disk space in megabytes; 1000 where it is not known.
pub fn free_disk_space_mb(free_bytes: Option<u64>) -> (r: u64)
    ensures
        r == (match free_bytes {
            Some(b) => b as int / 1_048_576,
            None => 1000,
        }),
{
    match free_bytes {
        Some(b) => b / MEGABYTE,
        None => 1000,
    }
}

/// The directory in which the tests make their files.
pub open spec fn test_dir(platform: Platform, home: Option<Seq<char>>) -> Seq<char> {
    let h = match home {
        Some(h) => h,
        None => "/"@,
    };
    match platform {
        Platform::Android => "/data/local/tmp"@,
        Platform::Ios => if h.len() == 0 || h.last() == '/' {
            h + "tmp"@
        } else {
            h + "/tmp"@
        },
    }
}

/// The directory in which the tests make their files: below the home directory on iOS.
pub fn get_mobile_test_dir(platform: Platform, home: Option<&str>) -> (r: String)
    ensures
        r@ == test_dir(platform, text_of(home)),
{
    if platform == Platform::Android {
        return "/data/local/tmp".to_owned();
    }
    let h: &str = match home {
        Some(h) => h,
        None => "/",
    };
    let text = chars_of(h);
    let mut r: String = h.to_owned();
    if text.len() == 0 || text[text.len() - 1] == '/' {
        r.append("tmp");
    } else {
        r.append("/tmp");
    }
    r
}

/// A known share of busy time is at most 100 %.
pub proof fn busy_share_is_at_most_all(lines: Seq<Seq<char>>)
    ensures
        first_busy_share(lines) matches Some(v) ==> 0 <= v <= 100_000,
    decreases lines.len(),
{
    if lines.len() > 0 {
        busy_share_is_at_most_all(lines.drop_last());
        let w = words(lines.last());
        if w.len() >= 5 {
            crate::decimal::parsed_or_is_bounded(w[1], u64::MAX as int, 0);
            crate::decimal::parsed_or_is_bounded(w[2], u64::MAX as int, 0);
            crate::decimal::parsed_or_is_bounded(w[3], u64::MAX as int, 0);
            crate::decimal::parsed_or_is_bounded(w[4], u64::MAX as int, 0);
            let busy = parsed_or(w[1], u64::MAX as int, 0) + parsed_or(w[2], u64::MAX as int, 0)
                + parsed_or(w[3], u64::MAX as int, 0);
            let total = busy + parsed_or(w[4], u64::MAX as int, 0);
            if total > 0 {
                assert(0 <= busy * 100_000 / total <= 100_000) by (nonlinear_arith)
                    requires
                        0 <= busy <= total,
                        total > 0,
                ;
            }
        }
    }
}

/// A hotter processor is throttled at least as much.
pub proof fn hotter_is_no_lower_stage(cooler: int, hotter: int)
    requires
        cooler <= hotter,
    ensures
        temperature_stage(cooler) <= temperature_stage(hotter),
{
}

} // verus!
