//! What Android devices tell of themselves. A file that could not be read is `None`.

use crate::decimal::{decimal_int, decimal_int_text, parse_trimmed_or, parsed_or};
use crate::device::{file_number, read_file_number};
use crate::procfs::{borrowed, owned_text, text_of};
use crate::text::{after_last, contains, has_substring, split, trim_text, trimmed};
use vstd::prelude::*;

verus! {

/// Where the number of free pages is at which processes are killed.
pub const MINFREE_PATH: &'static str = "/sys/module/lowmemorykiller/parameters/minfree";

/// Where the scores are from which processes are killed.
pub const ADJ_PATH: &'static str = "/sys/module/lowmemorykiller/parameters/adj";

/// Where the effort of the search for a process is.
pub const COST_PATH: &'static str = "/sys/module/lowmemorykiller/parameters/cost";

/// The result of a look at the binder driver, in words where it fails.
pub open spec fn binder_fault(fd: int, result: int, version: int) -> Option<Seq<char>> {
    if fd < 0 {
        Some("Failed to open binder driver"@)
    } else if result == 0 && version >= 0 {
        None
    } else {
        Some("Binder version check failed: "@ + decimal_int(version))
    }
}

/// Judges the binder driver by the descriptor that opening it gave, and by what asking
/// for its version gave.
pub fn test_binder_communication(fd: i32, result: i32, version: i32) -> (r: Result<(), String>)
    ensures
        match r {
            Ok(_) => binder_fault(fd as int, result as int, version as int) is None,
            Err(e) => binder_fault(fd as int, result as int, version as int) == Some(e@),
        },
{
    if fd < 0 {
        return Err("Failed to open binder driver".to_owned());
    }
    if result == 0 && version >= 0 {
        Ok(())
    } else {
        let mut e: String = "Binder version check failed: ".to_owned();
        let digits: String = decimal_int_text(version as i64);
        e.append(digits.as_str());
        Err(e)
    }
}

/// The time of one call, where `iterations` of them took `elapsed_ns` nanoseconds.
pub fn measure_binder_latency(elapsed_ns: u64, iterations: u32) -> (r: u64)
    requires
        iterations > 0,
    ensures
        r == elapsed_ns as int / iterations as int,
{
    elapsed_ns / iterations as u64
}

/// Whether calls between processes are fast enough: less than 100 microseconds.
pub fn binder_keeps_up(latency_ns: u64) -> (r: bool)
    ensures
        r == (latency_ns < 100_000),
{
    latency_ns < 100_000
}

/// Whether the security policy is enforced.
pub fn check_selinux_enforcement(enforce: Option<&str>) -> (r: bool)
    ensures
        r == (text_of(enforce) matches Some(s) && trimmed(s) == "1"@),
{
    match enforce {
        Some(s) => trim_text(s) == "1".to_owned(),
        None => false,
    }
}

/// A file's name and trimmed text, where it could be read.
pub open spec fn named_text(name: Seq<char>, content: Option<Seq<char>>) -> Seq<
    (Seq<char>, Seq<char>),
> {
    match content {
        Some(s) => seq![(name, trimmed(s))],
        None => seq![],
    }
}

/// The names and texts that a list of pairs holds.
pub open spec fn pairs(v: Seq<(String, String)>) -> Seq<(Seq<char>, Seq<char>)> {
    v.map_values(|p: (String, String)| (p.0@, p.1@))
}

fn push_text(v: &mut Vec<(String, String)>, name: String, content: Option<&str>)
    ensures
        pairs(final(v)@) == pairs(old(v)@) + named_text(name@, text_of(content)),
{
    match content {
        Some(s) => {
            v.push((name, trim_text(s)));
        },
        None => {},
    }
    assert(pairs(v@) =~= pairs(old(v)@) + named_text(name@, text_of(content)));
}

/// The model and the frequencies of the graphics processor, as far as they are known.
pub fn get_gpu_info(model: Option<&str>, frequencies: Option<&str>) -> (r: Vec<(String, String)>)
    ensures
        pairs(r@) == named_text("model"@, text_of(model)) + named_text(
            "frequencies"@,
            text_of(frequencies),
        ),
{
    let mut info: Vec<(String, String)> = Vec::new();
    assert(pairs(info@) =~= seq![]);
    push_text(&mut info, "model".to_owned(), model);
    push_text(&mut info, "frequencies".to_owned(), frequencies);
    assert(pairs(info@) =~= named_text("model"@, text_of(model)) + named_text(
        "frequencies"@,
        text_of(frequencies),
    ));
    info
}

/// Whether the processor has vector instructions.
pub fn test_neon_support(cpuinfo: Option<&str>) -> (r: bool)
    ensures
        r == (text_of(cpuinfo) matches Some(s) && (has_substring(s, "neon"@) || has_substring(
            s,
            "asimd"@,
        ))),
{
    match cpuinfo {
        Some(s) => contains(s, "neon") || contains(s, "asimd"),
        None => false,
    }
}

/// What follows the last slash of a path.
pub open spec fn file_name(path: Seq<char>) -> Seq<char> {
    split(path, '/').last()
}

/// The parameters by which processes are killed when memory is short, as far as they are
/// known, under the names of their files.
pub fn get_lmk_parameters(minfree: Option<&str>, adj: Option<&str>, cost: Option<&str>) -> (r: Vec<
    (String, String),
>)
    ensures
        pairs(r@) == named_text(file_name(MINFREE_PATH@), text_of(minfree)) + named_text(
            file_name(ADJ_PATH@),
            text_of(adj),
        ) + named_text(file_name(COST_PATH@), text_of(cost)),
{
    let mut params: Vec<(String, String)> = Vec::new();
    assert(pairs(params@) =~= seq![]);
    push_text(&mut params, after_last(MINFREE_PATH, '/'), minfree);
    push_text(&mut params, after_last(ADJ_PATH, '/'), adj);
    push_text(&mut params, after_last(COST_PATH, '/'), cost);
    assert(pairs(params@) =~= named_text(file_name(MINFREE_PATH@), text_of(minfree)) + named_text(
        file_name(ADJ_PATH@),
        text_of(adj),
    ) + named_text(file_name(COST_PATH@), text_of(cost)));
    params
}

/// A file's name and number, where it could be read; 0 where it holds no number.
pub open spec fn named_number(name: Seq<char>, content: Option<Seq<char>>) -> Seq<
    (Seq<char>, int),
> {
    match content {
        Some(s) => seq![(name, parsed_or(trimmed(s), u32::MAX as int, 0))],
        None => seq![],
    }
}

/// The names and numbers that a list of pairs holds.
pub open spec fn numbers(v: Seq<(String, u32)>) -> Seq<(Seq<char>, int)> {
    v.map_values(|p: (String, u32)| (p.0@, p.1 as int))
}

fn push_number(v: &mut Vec<(String, u32)>, name: &str, content: Option<&str>)
    ensures
        numbers(final(v)@) == numbers(old(v)@) + named_number(name@, text_of(content)),
{
    match content {
        Some(s) => {
            proof {
                crate::decimal::parsed_or_is_bounded(trimmed(s@), u32::MAX as int, 0);
            }
            v.push((name.to_owned(), parse_trimmed_or(s, u32::MAX as u64, 0) as u32));
        },
        None => {},
    }
    assert(numbers(v@) =~= numbers(old(v)@) + named_number(name@, text_of(content)));
}

/// The highest clocks of the processor, the graphics processor and the memory, as far as
/// they are known.
pub fn get_power_profile(cpu: Option<&str>, gpu: Option<&str>, ddr: Option<&str>) -> (r: Vec<
    (String, u32),
>)
    ensures
        numbers(r@) == named_number("cpu"@, text_of(cpu)) + named_number("gpu"@, text_of(gpu))
            + named_number("ddr"@, text_of(ddr)),
{
    let mut profile: Vec<(String, u32)> = Vec::new();
    assert(numbers(profile@) =~= seq![]);
    push_number(&mut profile, "cpu", cpu);
    push_number(&mut profile, "gpu", gpu);
    push_number(&mut profile, "ddr", ddr);
    assert(numbers(profile@) =~= named_number("cpu"@, text_of(cpu)) + named_number(
        "gpu"@,
        text_of(gpu),
    ) + named_number("ddr"@, text_of(ddr)));
    profile
}

/// The thermal zones whose file holds a number, with the temperature that it is.
pub open spec fn zones(entries: Seq<(String, Option<String>)>) -> Seq<(Seq<char>, int)>
    decreases entries.len(),
{
    if entries.len() == 0 {
        seq![]
    } else {
        let before = zones(entries.drop_last());
        match file_number(owned_text(entries.last().1), u32::MAX as int) {
            Some(t) => before.push((entries.last().0@, t)),
            None => before,
        }
    }
}

/// The thermal zones and their temperatures in thousandths of a degree, out of the names
/// of their directories and the files in them. A zone whose file holds no number is left
/// out.
pub fn get_thermal_zones(entries: &Vec<(String, Option<String>)>) -> (r: Vec<(String, u32)>)
    ensures
        numbers(r@) == zones(entries@),
{
    let mut r: Vec<(String, u32)> = Vec::new();
    let mut i: usize = 0;
    assert(numbers(r@) =~= seq![]);
    while i < entries.len()
        invariant
            i <= entries.len(),
            numbers(r@) == zones(entries@.take(i as int)),
        decreases entries.len() - i,
    {
        let ghost before = numbers(r@);
        assert(entries@.take(i + 1).drop_last() =~= entries@.take(i as int));
        match read_file_number(borrowed(&entries[i].1), u32::MAX as u64) {
            Some(t) => {
                r.push((entries[i].0.clone(), t as u32));
                assert(numbers(r@) =~= before.push((entries@[i as int].0@, t as int)));
            },
            None => {},
        }
        i = i + 1;
    }
    assert(entries@.take(entries.len() as int) =~= entries@);
    r
}

} // verus!
