//! The text files in which the kernel reports counters, loads and memory sizes.

use crate::decimal::{parse_or, parse_unsigned, parsed, parsed_or};
use crate::text::{chars_of, is_text, lines, split_on, split_whitespace, starts_with};
use crate::text::{split, string_views, texts, word_strings, words};
use vstd::prelude::*;

verus! {

/// The second word of a line that starts with the prefix.
pub open spec fn field_of(line: Seq<char>, prefix: Seq<char>) -> Option<Seq<char>> {
    if prefix.is_prefix_of(line) && words(line).len() >= 2 {
        Some(words(line)[1])
    } else {
        None
    }
}

/// The field of the first line that has one.
pub open spec fn first_field(lines: Seq<Seq<char>>, prefix: Seq<char>) -> Option<Seq<char>>
    decreases lines.len(),
{
    if lines.len() == 0 {
        None
    } else {
        match first_field(lines.drop_last(), prefix) {
            Some(w) => Some(w),
            None => field_of(lines.last(), prefix),
        }
    }
}

/// The field of the first line of a text that has one.
pub open spec fn field(content: Seq<char>, prefix: Seq<char>) -> Option<Seq<char>> {
    first_field(split(content, '\n'), prefix)
}

/// Once a line has the field, the lines after it do not matter.
pub proof fn first_field_stays(lines: Seq<Seq<char>>, k: int, prefix: Seq<char>)
    requires
        0 <= k <= lines.len(),
        first_field(lines.take(k), prefix) is Some,
    ensures
        first_field(lines, prefix) == first_field(lines.take(k), prefix),
    decreases lines.len(),
{
    if k < lines.len() {
        assert(lines.drop_last().take(k) =~= lines.take(k));
        first_field_stays(lines.drop_last(), k, prefix);
    } else {
        assert(lines.take(k) =~= lines);
    }
}

/// Finds the field of the first line of a text that has one.
pub fn find_field(content: &str, prefix: &str) -> (r: Option<Vec<char>>)
    ensures
        match r {
            Some(w) => field(content@, prefix@) == Some(w@),
            None => field(content@, prefix@) is None,
        },
{
    let text = chars_of(content);
    let all = lines(&text);
    let ghost seqs = split(content@, '\n');
    let mut i: usize = 0;
    while i < all.len()
        invariant
            i <= all.len(),
            texts(all@) == seqs,
            seqs == split(content@, '\n'),
            first_field(seqs.take(i as int), prefix@) is None,
        decreases all.len() - i,
    {
        assert(seqs.take(i + 1).drop_last() =~= seqs.take(i as int));
        assert(seqs[i as int] == all@[i as int]@);
        if starts_with(&all[i], prefix) {
            let parts = split_whitespace(&all[i]);
            assert(texts(parts@).len() == parts.len());
            if parts.len() >= 2 {
                let w = crate::text::slice_of(&parts[1], 0, parts[1].len());
                proof {
                    assert(w@ =~= parts@[1]@);
                    assert(texts(parts@)[1] == parts@[1]@);
                    first_field_stays(seqs, i + 1, prefix@);
                }
                return Some(w);
            }
        }
        i = i + 1;
    }
    assert(seqs.take(all.len() as int) =~= seqs);
    None
}

/// What reading a counter gives: a number, or an error in words.
pub open spec fn counter(content: Seq<char>, prefix: Seq<char>, absent: Seq<char>) -> Result<
    int,
    Seq<char>,
> {
    match field(content, prefix) {
        None => Err(absent),
        Some(w) => match parsed(w, u64::MAX as int) {
            Ok(v) => Ok(v),
            Err(e) => Err(e.words()),
        },
    }
}

/// Whether the result is the expected one.
pub open spec fn is_result(r: Result<u64, String>, expected: Result<int, Seq<char>>) -> bool {
    match r {
        Ok(v) => expected == Ok::<int, Seq<char>>(v as int),
        Err(e) => expected == Err::<int, Seq<char>>(e@),
    }
}

fn read_counter(content: &str, prefix: &str, absent: &str) -> (r: Result<u64, String>)
    ensures
        is_result(r, counter(content@, prefix@, absent@)),
{
    match find_field(content, prefix) {
        None => Err(absent.to_owned()),
        Some(w) => match parse_unsigned(&w, u64::MAX) {
            Ok(v) => Ok(v),
            Err(e) => Err(e.message()),
        },
    }
}

/// Reads the number of context switches since boot out of `/proc/stat`.
pub fn read_context_switches(stat: &str) -> (r: Result<u64, String>)
    ensures
        is_result(r, counter(stat@, "ctxt "@, "ctxt not found in /proc/stat"@)),
{
    read_counter(stat, "ctxt ", "ctxt not found in /proc/stat")
}

/// Reads the number of interrupts since boot out of `/proc/stat`.
pub fn read_interrupts(stat: &str) -> (r: Result<u64, String>)
    ensures
        is_result(r, counter(stat@, "intr "@, "intr not found in /proc/stat"@)),
{
    read_counter(stat, "intr ", "intr not found in /proc/stat")
}

/// A counter of `/proc/stat`: 0 where it is there and no number, and the fallback where
/// it is not there, or the file is not.
pub open spec fn counter_or(stat: Option<Seq<char>>, prefix: Seq<char>, fallback: int) -> int {
    match stat {
        None => fallback,
        Some(content) => match field(content, prefix) {
            None => fallback,
            Some(w) => parsed_or(w, u64::MAX as int, 0),
        },
    }
}

/// The text of a file, where it could be read.
pub open spec fn text_of(content: Option<&str>) -> Option<Seq<char>> {
    match content {
        Some(s) => Some(s@),
        None => None,
    }
}

/// The text of a file that is held as a string.
pub open spec fn owned_text(content: Option<String>) -> Option<Seq<char>> {
    match content {
        Some(s) => Some(s@),
        None => None,
    }
}

/// Borrows the text of a file.
pub fn borrowed(content: &Option<String>) -> (r: Option<&str>)
    ensures
        text_of(r) == owned_text(*content),
{
    match content {
        Some(s) => Some(s.as_str()),
        None => None,
    }
}

/// Reads a counter of `/proc/stat`.
pub fn read_counter_or(stat: Option<&str>, prefix: &str, fallback: u64) -> (r: u64)
    ensures
        r == counter_or(text_of(stat), prefix@, fallback as int),
{
    match stat {
        None => fallback,
        Some(content) => match find_field(content, prefix) {
            None => fallback,
            Some(w) => parse_or(&w, u64::MAX, 0),
        },
    }
}

/// The running and all processes that `/proc/loadavg` counts, or an error in words.
pub open spec fn process_stats(loadavg: Seq<char>) -> Result<(int, int), Seq<char>> {
    let w = words(loadavg);
    if w.len() < 4 || split(w[3], '/').len() < 2 {
        Err("Invalid loadavg format"@)
    } else {
        let counts = split(w[3], '/');
        match (parsed(counts[0], u32::MAX as int), parsed(counts[1], u32::MAX as int)) {
            (Ok(running), Ok(total)) => Ok((running, total)),
            (Err(e), _) => Err(e.words()),
            (_, Err(e)) => Err(e.words()),
        }
    }
}

/// Reads the number of running and of all processes out of `/proc/loadavg`.
pub fn read_process_stats(loadavg: &str) -> (r: Result<(u32, u32), String>)
    ensures
        match r {
            Ok(p) => process_stats(loadavg@) == Ok::<(int, int), Seq<char>>(
                (p.0 as int, p.1 as int),
            ),
            Err(e) => process_stats(loadavg@) == Err::<(int, int), Seq<char>>(e@),
        },
{
    let parts = split_whitespace(&chars_of(loadavg));
    assert(texts(parts@).len() == parts.len());
    if parts.len() >= 4 {
        let counts = split_on(&parts[3], '/');
        assert(texts(parts@)[3] == parts@[3]@);
        assert(texts(counts@).len() == counts.len());
        if counts.len() >= 2 {
            assert(texts(counts@)[0] == counts@[0]@);
            assert(texts(counts@)[1] == counts@[1]@);
            let running: u64 = match parse_unsigned(&counts[0], u32::MAX as u64) {
                Ok(v) => v,
                Err(e) => {
                    return Err(e.message());
                },
            };
            let total: u64 = match parse_unsigned(&counts[1], u32::MAX as u64) {
                Ok(v) => v,
                Err(e) => {
                    return Err(e.message());
                },
            };
            return Ok((running as u32, total as u32));
        }
    }
    Err("Invalid loadavg format".to_owned())
}

fn nth_word(content: &str, n: usize) -> (r: Option<String>)
    ensures
        match r {
            Some(s) => n < words(content@).len() && s@ == words(content@)[n as int],
            None => n >= words(content@).len(),
        },
{
    let parts = word_strings(content);
    assert(string_views(parts@).len() == parts.len());
    if n < parts.len() {
        assert(string_views(parts@)[n as int] == parts@[n as int]@);
        Some(parts[n].clone())
    } else {
        None
    }
}

/// The words of `/proc/loadavg` that hold the load averages over one, five and fifteen
/// minutes.
pub fn read_load_average(loadavg: &str) -> (r: Result<(String, String, String), String>)
    ensures
        match r {
            Ok(t) => words(loadavg@).len() >= 3 && t.0@ == words(loadavg@)[0] && t.1@ == words(
                loadavg@,
            )[1] && t.2@ == words(loadavg@)[2],
            Err(e) => words(loadavg@).len() < 3 && e@ == "Invalid loadavg format"@,
        },
{
    match (nth_word(loadavg, 0), nth_word(loadavg, 1), nth_word(loadavg, 2)) {
        (Some(one), Some(five), Some(fifteen)) => Ok((one, five, fifteen)),
        _ => Err("Invalid loadavg format".to_owned()),
    }
}

/// The word of `/proc/uptime` that holds the seconds since boot.
pub fn read_uptime(uptime: &str) -> (r: Result<String, String>)
    ensures
        match r {
            Ok(s) => words(uptime@).len() > 0 && s@ == words(uptime@)[0],
            Err(e) => words(uptime@).len() == 0 && e@ == "Invalid uptime format"@,
        },
{
    match nth_word(uptime, 0) {
        Some(s) => Ok(s),
        None => Err("Invalid uptime format".to_owned()),
    }
}

/// Memory sizes, in bytes.
#[derive(Clone, Copy, Debug, PartialEq, Eq, Structural)]
pub struct MemoryStats {
    pub total: u64,
    pub free: u64,
    pub available: u64,
    pub cached: u64,
    pub swap_total: u64,
    pub swap_used: u64,
}

/// The sizes before the first line is read.
pub open spec fn no_memory() -> MemoryStats {
    MemoryStats { total: 0, free: 0, available: 0, cached: 0, swap_total: 0, swap_used: 0 }
}

/// The sizes after one more line of `/proc/meminfo`. There are none where a size does
/// not fit, or where there is more free swap space than there is swap space.
pub open spec fn with_line(s: MemoryStats, line: Seq<char>) -> Option<MemoryStats> {
    let w = words(line);
    let bytes = parsed_or(w[1], u64::MAX as int, 0) * 1024;
    let fits = bytes <= u64::MAX;
    let b = bytes as u64;
    if w.len() < 2 {
        Some(s)
    } else if w[0] == "MemTotal:"@ {
        if fits { Some(MemoryStats { total: b, ..s }) } else { None }
    } else if w[0] == "MemFree:"@ {
        if fits { Some(MemoryStats { free: b, ..s }) } else { None }
    } else if w[0] == "MemAvailable:"@ {
        if fits { Some(MemoryStats { available: b, ..s }) } else { None }
    } else if w[0] == "Cached:"@ {
        if fits { Some(MemoryStats { cached: b, ..s }) } else { None }
    } else if w[0] == "SwapTotal:"@ {
        if fits { Some(MemoryStats { swap_total: b, ..s }) } else { None }
    } else if w[0] == "SwapFree:"@ {
        if fits && b <= s.swap_total {
            Some(MemoryStats { swap_used: (s.swap_total - b) as u64, ..s })
        } else {
            None
        }
    } else {
        Some(s)
    }
}

/// The sizes after some lines of `/proc/meminfo`.
pub open spec fn after_lines(lines: Seq<Seq<char>>) -> Option<MemoryStats>
    decreases lines.len(),
{
    if lines.len() == 0 {
        Some(no_memory())
    } else {
        match after_lines(lines.drop_last()) {
            Some(s) => with_line(s, lines.last()),
            None => None,
        }
    }
}

proof fn after_lines_stays_none(lines: Seq<Seq<char>>, k: int)
    requires
        0 <= k <= lines.len(),
        after_lines(lines.take(k)) is None,
    ensures
        after_lines(lines) is None,
    decreases lines.len(),
{
    if k < lines.len() {
        assert(lines.drop_last().take(k) =~= lines.take(k));
        after_lines_stays_none(lines.drop_last(), k);
    } else {
        assert(lines.take(k) =~= lines);
    }
}

fn add_line(s: MemoryStats, line: &Vec<char>) -> (r: Option<MemoryStats>)
    ensures
        r == with_line(s, line@),
{
    let parts = split_whitespace(line);
    assert(texts(parts@).len() == parts.len());
    if parts.len() < 2 {
        return Some(s);
    }
    assert(texts(parts@)[0] == parts@[0]@);
    assert(texts(parts@)[1] == parts@[1]@);
    let name = &parts[0];
    let bytes: Option<u64> = parse_or(&parts[1], u64::MAX, 0).checked_mul(1024);
    if is_text(name, "MemTotal:") {
        match bytes {
            Some(b) => Some(MemoryStats { total: b, ..s }),
            None => None,
        }
    } else if is_text(name, "MemFree:") {
        match bytes {
            Some(b) => Some(MemoryStats { free: b, ..s }),
            None => None,
        }
    } else if is_text(name, "MemAvailable:") {
        match bytes {
            Some(b) => Some(MemoryStats { available: b, ..s }),
            None => None,
        }
    } else if is_text(name, "Cached:") {
        match bytes {
            Some(b) => Some(MemoryStats { cached: b, ..s }),
            None => None,
        }
    } else if is_text(name, "SwapTotal:") {
        match bytes {
            Some(b) => Some(MemoryStats { swap_total: b, ..s }),
            None => None,
        }
    } else if is_text(name, "SwapFree:") {
        match bytes {
            Some(b) => if b <= s.swap_total {
                Some(MemoryStats { swap_used: s.swap_total - b, ..s })
            } else {
                None
            },
            None => None,
        }
    } else {
        Some(s)
    }
}

/// Reads the memory sizes out of `/proc/meminfo`.
pub fn get_memory_stats(meminfo: &str) -> (r: Option<MemoryStats>)
    ensures
        r == after_lines(split(meminfo@, '\n')),
{
    let all = lines(&chars_of(meminfo));
    let ghost seqs = split(meminfo@, '\n');
    let mut s = MemoryStats {
        total: 0,
        free: 0,
        available: 0,
        cached: 0,
        swap_total: 0,
        swap_used: 0,
    };
    let mut i: usize = 0;
    while i < all.len()
        invariant
            i <= all.len(),
            texts(all@) == seqs,
            seqs == split(meminfo@, '\n'),
            after_lines(seqs.take(i as int)) == Some(s),
        decreases all.len() - i,
    {
        assert(seqs.take(i + 1).drop_last() =~= seqs.take(i as int));
        assert(seqs[i as int] == all@[i as int]@);
        match add_line(s, &all[i]) {
            Some(next) => {
                s = next;
            },
            None => {
                proof {
                    after_lines_stays_none(seqs, i + 1);
                }
                return None;
            },
        }
        i = i + 1;
    }
    assert(seqs.take(all.len() as int) =~= seqs);
    Some(s)
}

/// Right after a line with the free swap space, no more swap space is in use than there
/// is.
pub proof fn swap_used_fits(lines: Seq<Seq<char>>, k: int)
    requires
        0 < k <= lines.len(),
        after_lines(lines) is Some,
        words(lines[k - 1]).len() >= 2,
        words(lines[k - 1])[0] == "SwapFree:"@,
    ensures
        after_lines(lines.take(k)) matches Some(s) && s.swap_used <= s.swap_total,
{
    if after_lines(lines.take(k)) is None {
        after_lines_stays_none(lines, k);
    }
    if after_lines(lines.take(k - 1)) is None {
        after_lines_stays_none(lines, k - 1);
    }
    assert(lines.take(k).drop_last() =~= lines.take(k - 1));
    assert(lines.take(k).last() == lines[k - 1]);
    reveal_strlit("SwapFree:");
    reveal_strlit("MemTotal:");
    reveal_strlit("MemFree:");
    reveal_strlit("MemAvailable:");
    reveal_strlit("Cached:");
    reveal_strlit("SwapTotal:");
    assert("SwapFree:"@[0] == 'S' && "MemTotal:"@[0] == 'M');
    assert("SwapFree:"@.len() == 9 && "MemFree:"@.len() == 8 && "MemAvailable:"@.len() == 13);
    assert("Cached:"@.len() == 7 && "SwapTotal:"@.len() == 10);
}

/// A size of `/proc/meminfo` in bytes: the fallback where there is none, or the file is
/// not there. It may not fit in 64 bits.
pub open spec fn size_or(meminfo: Option<Seq<char>>, name: Seq<char>, fallback: int) -> int {
    match meminfo {
        None => fallback,
        Some(content) => match field(content, name) {
            None => fallback,
            Some(w) => parsed_or(w, u64::MAX as int, 0) * 1024,
        },
    }
}

/// Whether the result is this number, or nothing where the number does not fit in 64
/// bits.
pub open spec fn is_size(r: Option<u64>, size: int) -> bool {
    match r {
        Some(v) => v == size,
        None => size > u64::MAX,
    }
}

fn read_size(meminfo: Option<&str>, name: &str, fallback: u64) -> (r: Option<u64>)
    ensures
        is_size(r, size_or(text_of(meminfo), name@, fallback as int)),
{
    match meminfo {
        None => Some(fallback),
        Some(content) => match find_field(content, name) {
            None => Some(fallback),
            Some(w) => parse_or(&w, u64::MAX, 0).checked_mul(1024),
        },
    }
}

/// Bytes of memory installed; 4 GB where they are not known.
pub fn get_memory_total(meminfo: Option<&str>) -> (r: Option<u64>)
    ensures
        is_size(r, size_or(text_of(meminfo), "MemTotal:"@, 4_294_967_296)),
{
    read_size(meminfo, "MemTotal:", 4_294_967_296)
}

/// Bytes of memory available; 2 GB where they are not known.
pub fn get_memory_available(meminfo: Option<&str>) -> (r: Option<u64>)
    ensures
        is_size(r, size_or(text_of(meminfo), "MemAvailable:"@, 2_147_483_648)),
{
    read_size(meminfo, "MemAvailable:", 2_147_483_648)
}

/// Bytes of memory that cache files; 500 MB where they are not known.
pub fn get_memory_cached(meminfo: Option<&str>) -> (r: Option<u64>)
    ensures
        is_size(r, size_or(text_of(meminfo), "Cached:"@, 524_288_000)),
{
    read_size(meminfo, "Cached:", 524_288_000)
}

/// Bytes of swap space; 1 GB where they are not known.
pub fn get_swap_total(meminfo: Option<&str>) -> (r: Option<u64>)
    ensures
        is_size(r, size_or(text_of(meminfo), "SwapTotal:"@, 1_073_741_824)),
{
    read_size(meminfo, "SwapTotal:", 1_073_741_824)
}

/// Bytes of free swap space; 800 MB where they are not known.
pub fn get_swap_free(meminfo: Option<&str>) -> (r: Option<u64>)
    ensures
        is_size(r, size_or(text_of(meminfo), "SwapFree:"@, 838_860_800)),
{
    read_size(meminfo, "SwapFree:", 838_860_800)
}

fn difference(total: Option<u64>, rest: Option<u64>) -> (r: Option<u64>)
    ensures
        r == (match (total, rest) {
            (Some(t), Some(a)) => if a <= t {
                Some((t - a) as u64)
            } else {
                None
            },
            _ => None,
        }),
{
    match (total, rest) {
        (Some(t), Some(a)) => t.checked_sub(a),
        _ => None,
    }
}

/// Whether the result is `total - rest`, or nothing where one of the three does not
/// fit.
pub open spec fn is_difference(r: Option<u64>, total: int, rest: int) -> bool {
    match r {
        Some(v) => v == total - rest && total <= u64::MAX && rest <= u64::MAX,
        None => total > u64::MAX || rest > u64::MAX || rest > total,
    }
}

/// Bytes of memory in use: those installed that are not available.
pub fn get_memory_used(meminfo: Option<&str>) -> (r: Option<u64>)
    ensures
        is_difference(
            r,
            size_or(text_of(meminfo), "MemTotal:"@, 4_294_967_296),
            size_or(text_of(meminfo), "MemAvailable:"@, 2_147_483_648),
        ),
{
    difference(
        read_size(meminfo, "MemTotal:", 4_294_967_296),
        read_size(meminfo, "MemAvailable:", 2_147_483_648),
    )
}

/// Bytes of swap space in use: those that are not free.
pub fn get_swap_used(meminfo: Option<&str>) -> (r: Option<u64>)
    ensures
        is_difference(
            r,
            size_or(text_of(meminfo), "SwapTotal:"@, 1_073_741_824),
            size_or(text_of(meminfo), "SwapFree:"@, 838_860_800),
        ),
{
    difference(
        read_size(meminfo, "SwapTotal:", 1_073_741_824),
        read_size(meminfo, "SwapFree:", 838_860_800),
    )
}

} // verus!
