//! What the benchmark agent reads of the device. A file that could not be read, or that
//! the platform does not have, is `None`.

use crate::decimal::{parse_unsigned, parsed};
use crate::procfs::{counter_or, read_counter_or, text_of};
use crate::text::{chars_of, trim, trim_text, trimmed};
use vstd::prelude::*;

verus! {

/// A number of at most `max` that a small file holds, with white space around it.
pub open spec fn file_number(content: Option<Seq<char>>, max: int) -> Option<int> {
    match content {
        Some(s) => match parsed(trimmed(s), max) {
            Ok(v) => Some(v),
            Err(_) => None,
        },
        None => None,
    }
}

/// Reads a number of at most `max` that a small file holds.
pub fn read_file_number(content: Option<&str>, max: u64) -> (r: Option<u64>)
    ensures
        match r {
            Some(v) => file_number(text_of(content), max as int) == Some(v as int) && v <= max,
            None => file_number(text_of(content), max as int) is None,
        },
{
    match content {
        Some(s) => match parse_unsigned(&trim(&chars_of(s)), max) {
            Ok(v) => Some(v),
            Err(_) => None,
        },
        None => None,
    }
}

/// The processor temperature in thousandths of a degree, out of the file of the first
/// thermal zone.
pub fn get_cpu_temperature(zone: Option<&str>) -> (r: Option<u32>)
    ensures
        match r {
            Some(t) => file_number(text_of(zone), u32::MAX as int) == Some(t as int),
            None => file_number(text_of(zone), u32::MAX as int) is None,
        },
{
    match read_file_number(zone, u32::MAX as u64) {
        Some(t) => Some(t as u32),
        None => None,
    }
}

/// The charge of the battery in percent; 100 where it is not known.
pub fn get_battery_level(capacity: Option<&str>) -> (r: u8)
    ensures
        r == (match file_number(text_of(capacity), u8::MAX as int) {
            Some(v) => v,
            None => 100,
        }),
{
    match read_file_number(capacity, u8::MAX as u64) {
        Some(v) => v as u8,
        None => 100,
    }
}

/// Whether the processor is throttled: the thermal state is known and not zero.
pub fn is_thermal_throttling(cur_state: Option<&str>) -> (r: bool)
    ensures
        r == (file_number(text_of(cur_state), u32::MAX as int) matches Some(v) && v > 0),
{
    match read_file_number(cur_state, u32::MAX as u64) {
        Some(v) => v > 0,
        None => false,
    }
}

/// The kernel release, out of the output of `uname -r`.
pub fn get_kernel_version(output: Option<&str>) -> (r: String)
    ensures
        r@ == (match output {
            Some(s) => trimmed(s@),
            None => "unknown"@,
        }),
{
    match output {
        Some(s) => trim_text(s),
        None => "unknown".to_owned(),
    }
}

/// The number of context switches since boot; 0 where it is not known.
pub fn get_context_switches(stat: Option<&str>) -> (r: u64)
    ensures
        r == counter_or(text_of(stat), "ctxt "@, 0),
{
    read_counter_or(stat, "ctxt ", 0)
}

/// The number of interrupts since boot; 0 where it is not known.
pub fn get_interrupts(stat: Option<&str>) -> (r: u64)
    ensures
        r == counter_or(text_of(stat), "intr "@, 0),
{
    read_counter_or(stat, "intr ", 0)
}

/// Whether the file system of a directory has hard links, out of the output of `df -T`:
/// it is neither FAT nor in user space.
pub fn supports_hard_links(df_output: &str) -> (r: bool)
    ensures
        r == (!crate::text::has_substring(df_output@, "vfat"@) && !crate::text::has_substring(
            df_output@,
            "fuse"@,
        )),
{
    !crate::text::contains(df_output, "vfat") && !crate::text::contains(df_output, "fuse")
}

/// How much nicer a thread of this priority is made, or nothing where the priority is
/// none.
pub open spec fn nice_increment(priority: u8) -> Option<int> {
    if priority == 0 {
        Some(10)
    } else if priority == 1 {
        Some(0)
    } else if priority == 2 {
        Some(-10)
    } else {
        None
    }
}

/// How much nicer a thread of this priority is made, or nothing where the priority is
/// none.
pub fn set_thread_priority(priority: u8) -> (r: Option<i32>)
    ensures
        match r {
            Some(n) => nice_increment(priority) == Some(n as int),
            None => nice_increment(priority) is None,
        },
{
    match priority {
        0 => Some(10),
        1 => Some(0),
        2 => Some(-10),
        _ => None,
    }
}

} // verus!
