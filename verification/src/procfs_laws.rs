//! What the text files of the kernel and of the device give, line by line and word by
//! word.

use crate::android::{binder_fault, named_number, named_text, zones};
use crate::decimal::{parsed, parsed_or, parsed_or_is_bounded};
use crate::device::file_number;
use crate::procfs::{after_lines, counter, counter_or, field, first_field, owned_text};
use crate::procfs::{process_stats, size_or, with_line, MemoryStats};
use crate::sensors::{busy_share, first_busy_share, fraction_or, millivolts};
use crate::sensors::{process_names, temperature_stage, test_dir, thread_total, Platform};
use crate::text::{split, trimmed, words};
use vstd::prelude::*;

verus! {

/// A size is not negative.
pub proof fn sizes_are_not_negative(meminfo: Option<Seq<char>>, name: Seq<char>, fallback: int)
    requires
        fallback >= 0,
    ensures
        size_or(meminfo, name, fallback) >= 0,
{
    match meminfo {
        Some(content) => match field(content, name) {
            Some(w) => {
                parsed_or_is_bounded(w, u64::MAX as int, 0);
            },
            None => {},
        },
        None => {},
    }
}

/// The field of a text is the second word of the first line that starts with the prefix and
/// has two words; there is none where no line does.
pub proof fn fields_come_from_the_first_line(lines: Seq<Seq<char>>, prefix: Seq<char>)
    ensures
        match first_field(lines, prefix) {
            Some(w) => exists|i: int|
                {
                    &&& 0 <= i < lines.len()
                    &&& prefix.is_prefix_of(#[trigger] lines[i])
                    &&& words(lines[i]).len() >= 2
                    &&& w == words(lines[i])[1]
                    &&& forall|j: int|
                        0 <= j < i ==> !prefix.is_prefix_of(#[trigger] lines[j]) || words(
                            lines[j],
                        ).len() < 2
                },
            None => forall|j: int|
                0 <= j < lines.len() ==> !prefix.is_prefix_of(#[trigger] lines[j]) || words(
                    lines[j],
                ).len() < 2,
        },
    decreases lines.len(),
{
    if lines.len() > 0 {
        let rest = lines.drop_last();
        fields_come_from_the_first_line(rest, prefix);
        match first_field(rest, prefix) {
            Some(w) => {
                let i = choose|i: int|
                    {
                        &&& 0 <= i < rest.len()
                        &&& prefix.is_prefix_of(#[trigger] rest[i])
                        &&& words(rest[i]).len() >= 2
                        &&& w == words(rest[i])[1]
                        &&& forall|j: int|
                            0 <= j < i ==> !prefix.is_prefix_of(#[trigger] rest[j]) || words(
                                rest[j],
                            ).len() < 2
                    };
                assert(lines[i] == rest[i]);
                assert forall|j: int| 0 <= j < i implies !prefix.is_prefix_of(#[trigger] lines[j])
                    || words(lines[j]).len() < 2 by {
                    assert(rest[j] == lines[j]);
                }
            },
            None => {
                assert forall|j: int| 0 <= j < rest.len() implies !prefix.is_prefix_of(
                    #[trigger] lines[j],
                ) || words(lines[j]).len() < 2 by {
                    assert(rest[j] == lines[j]);
                }
                assert(lines[lines.len() - 1] == lines.last());
            },
        }
    }
}

/// A counter is the number in the field of its line. Without the line there is the given
/// error, or the fallback; without a number there is the error in words, or zero.
pub proof fn counters_are_read_from_their_line(
    content: Seq<char>,
    prefix: Seq<char>,
    absent: Seq<char>,
    fallback: int,
)
    ensures
        match first_field(split(content, '\n'), prefix) {
            Some(w) => match parsed(w, 0xffff_ffff_ffff_ffff) {
                Ok(v) => counter(content, prefix, absent) == Ok::<int, Seq<char>>(v) && counter_or(
                    Some(content),
                    prefix,
                    fallback,
                ) == v && size_or(Some(content), prefix, fallback) == 1024 * v,
                Err(e) => counter(content, prefix, absent) == Err::<int, Seq<char>>(e.words())
                    && counter_or(Some(content), prefix, fallback) == 0 && size_or(
                    Some(content),
                    prefix,
                    fallback,
                ) == 0,
            },
            None => counter(content, prefix, absent) == Err::<int, Seq<char>>(absent) && counter_or(
                Some(content),
                prefix,
                fallback,
            ) == fallback && size_or(Some(content), prefix, fallback) == fallback,
        },
        counter_or(None, prefix, fallback) == fallback,
        size_or(None, prefix, fallback) == fallback,
{
}

/// A line of the memory sizes changes only the size that it names, to 1024 times its
/// number; the line of the free swap space changes the swap space in use to what is left.
pub proof fn lines_change_what_they_name(s: MemoryStats, line: Seq<char>, number: int)
    requires
        words(line).len() >= 2,
        number == parsed_or(words(line)[1], 0xffff_ffff_ffff_ffff, 0),
        0 <= number,
        number * 1024 <= u64::MAX,
    ensures
        ({
            let name = words(line)[0];
            let bytes = (number * 1024) as u64;
            &&& name == "MemTotal:"@ ==> with_line(s, line) == Some(MemoryStats { total: bytes, ..s })
            &&& name == "MemFree:"@ ==> with_line(s, line) == Some(MemoryStats { free: bytes, ..s })
            &&& name == "MemAvailable:"@ ==> with_line(s, line) == Some(
                MemoryStats { available: bytes, ..s },
            )
            &&& name == "Cached:"@ ==> with_line(s, line) == Some(MemoryStats { cached: bytes, ..s })
            &&& name == "SwapTotal:"@ ==> with_line(s, line) == Some(
                MemoryStats { swap_total: bytes, ..s },
            )
            &&& name == "SwapFree:"@ && bytes <= s.swap_total ==> with_line(s, line) == Some(
                MemoryStats { swap_used: (s.swap_total - bytes) as u64, ..s },
            )
            &&& name == "SwapFree:"@ && bytes > s.swap_total ==> with_line(s, line) is None
        }),
{
    reveal_strlit("SwapFree:");
    reveal_strlit("MemTotal:");
    reveal_strlit("MemFree:");
    reveal_strlit("MemAvailable:");
    reveal_strlit("Cached:");
    reveal_strlit("SwapTotal:");
    assert("SwapFree:"@[0] == 'S' && "MemTotal:"@[0] == 'M');
    assert("SwapFree:"@.len() == 9 && "MemTotal:"@.len() == 9 && "MemFree:"@.len() == 8);
    assert("MemAvailable:"@.len() == 13 && "Cached:"@.len() == 7 && "SwapTotal:"@.len() == 10);
}

/// The sizes after more lines are those that each further line makes of the sizes before
/// it.
pub proof fn lines_are_read_in_order(lines: Seq<Seq<char>>, line: Seq<char>)
    ensures
        after_lines(seq![]) == Some(
            MemoryStats {
                total: 0,
                free: 0,
                available: 0,
                cached: 0,
                swap_total: 0,
                swap_used: 0,
            },
        ),
        after_lines(lines) matches Some(s) ==> after_lines(lines.push(line)) == with_line(s, line),
        after_lines(lines) is None ==> after_lines(lines.push(line)) is None,
{
    assert(lines.push(line).drop_last() =~= lines);
}

/// The fourth word of the loads holds the running and all processes, on both sides of the
/// first slash.
pub proof fn processes_stand_beside_the_slash(loadavg: Seq<char>, running: int, all: int)
    requires
        words(loadavg).len() >= 4,
        split(words(loadavg)[3], '/').len() >= 2,
        parsed(split(words(loadavg)[3], '/')[0], 0xffff_ffff) == Ok::<int, crate::decimal::ParseIntError>(running),
        parsed(split(words(loadavg)[3], '/')[1], 0xffff_ffff) == Ok::<int, crate::decimal::ParseIntError>(all),
    ensures
        process_stats(loadavg) == Ok::<(int, int), Seq<char>>((running, all)),
{
}

/// The busy share of a line is that of the first three numbers in the first four, in
/// thousandths of a percent, rounded down.
pub proof fn busy_shares_are_shares(line: Seq<char>, user: int, nice: int, system: int, idle: int)
    requires
        "cpu "@.is_prefix_of(line),
        words(line).len() >= 5,
        user == parsed_or(words(line)[1], 0xffff_ffff_ffff_ffff, 0),
        nice == parsed_or(words(line)[2], 0xffff_ffff_ffff_ffff, 0),
        system == parsed_or(words(line)[3], 0xffff_ffff_ffff_ffff, 0),
        idle == parsed_or(words(line)[4], 0xffff_ffff_ffff_ffff, 0),
    ensures
        match busy_share(line) {
            Some(v) => user + nice + system + idle > 0 && v * (user + nice + system + idle)
                <= 100_000 * (user + nice + system) < (v + 1) * (user + nice + system + idle),
            None => user + nice + system + idle <= 0,
        },
{
    let all = user + nice + system + idle;
    if all > 0 {
        crate::arith::quotient_is_near((user + nice + system) * 100_000, all);
    }
}

/// The busy share of a text is that of the first line that has one.
pub proof fn first_share_counts(lines: Seq<Seq<char>>)
    ensures
        match first_busy_share(lines) {
            Some(v) => exists|i: int|
                0 <= i < lines.len() && busy_share(#[trigger] lines[i]) == Some(v) && forall|j: int|
                    0 <= j < i ==> busy_share(#[trigger] lines[j]) is None,
            None => forall|j: int| 0 <= j < lines.len() ==> busy_share(#[trigger] lines[j]) is None,
        },
    decreases lines.len(),
{
    if lines.len() > 0 {
        let rest = lines.drop_last();
        first_share_counts(rest);
        match first_busy_share(rest) {
            Some(v) => {
                let i = choose|i: int|
                    0 <= i < rest.len() && busy_share(#[trigger] rest[i]) == Some(v) && forall|
                        j: int,
                    |
                        0 <= j < i ==> busy_share(#[trigger] rest[j]) is None;
                assert(lines[i] == rest[i]);
                assert forall|j: int| 0 <= j < i implies busy_share(#[trigger] lines[j]) is None by {
                    assert(rest[j] == lines[j]);
                }
            },
            None => {
                assert forall|j: int| 0 <= j < rest.len() implies busy_share(
                    #[trigger] lines[j],
                ) is None by {
                    assert(rest[j] == lines[j]);
                }
                assert(lines[lines.len() - 1] == lines.last());
            },
        }
    }
}

/// As many names count as processes as are numbers.
pub proof fn processes_are_counted(names: Seq<String>)
    ensures
        process_names(names) == names.filter(
            |n: String| parsed(n@, 0xffff_ffff) is Ok,
        ).len(),
        0 <= process_names(names) <= names.len(),
    decreases names.len(),
{
    reveal(Seq::filter);
    if names.len() > 0 {
        processes_are_counted(names.drop_last());
    }
}

/// The threads of two lists of processes are those of both together; those of one process
/// count where they could be listed and its name is a number.
pub proof fn threads_add_up(
    a: Seq<(String, Option<usize>)>,
    b: Seq<(String, Option<usize>)>,
    one: (String, Option<usize>),
)
    ensures
        thread_total(a + b) == thread_total(a) + thread_total(b),
        thread_total(seq![one]) == (match one.1 {
            Some(n) => if parsed(one.0@, 0xffff_ffff) is Ok {
                n as int
            } else {
                0
            },
            None => 0,
        }),
    decreases b.len(),
{
    assert(seq![one].drop_last() =~= seq![]);
    reveal_with_fuel(thread_total, 2);
    if b.len() == 0 {
        assert(a + b =~= a);
    } else {
        assert((a + b).drop_last() =~= a + b.drop_last());
        assert((a + b).last() == b.last());
        threads_add_up(a, b.drop_last(), one);
    }
}

/// The stage of a temperature: the second above 80 degrees, the first above 70, and none
/// otherwise.
pub proof fn stages_follow_the_temperature(temp: int)
    ensures
        temperature_stage(temp) == 2 <==> temp > 80 * 1000,
        temperature_stage(temp) == 1 <==> 70 * 1000 < temp <= 80 * 1000,
        temperature_stage(temp) == 0 <==> temp <= 70 * 1000,
{
}

/// The voltage is in thousandths of what the file counts, rounded down; 3.7 volts where
/// there is no number.
pub proof fn voltages_are_thousandths(voltage: Option<Seq<char>>)
    ensures
        match voltage {
            Some(s) => match parsed(trimmed(s), 0xffff_ffff) {
                Ok(v) => millivolts(voltage) * 1000 <= v < (millivolts(voltage) + 1) * 1000,
                Err(_) => millivolts(voltage) == 3700,
            },
            None => millivolts(voltage) == 3700,
        },
{
}

/// A reading counts as it is; no number counts as the given one; without a reading there is
/// nothing.
pub proof fn readings_count_as_they_are(v: u64, no_number: int)
    ensures
        fraction_or(Some(Some(v)), no_number) == Some(v as int),
        fraction_or(Some(None), no_number) == Some(no_number),
        fraction_or(None, no_number) is None,
{
}

/// The directory of the tests ends in `tmp`, right after a slash or an empty home
/// directory, and starts with the home directory on iOS.
pub proof fn test_directories_end_in_tmp(home: Seq<char>)
    ensures
        ({
            let d = test_dir(Platform::Ios, Some(home));
            &&& home.is_prefix_of(d)
            &&& d.len() >= 3
            &&& d.skip(d.len() - 3) == "tmp"@
            &&& home.len() > 0 ==> d[d.len() - 4] == '/'
            &&& d.len() <= home.len() + 4
        }),
        test_dir(Platform::Ios, None) == "/"@ + "tmp"@,
{
    reveal_strlit("tmp");
    reveal_strlit("/tmp");
    reveal_strlit("/");
    let d = test_dir(Platform::Ios, Some(home));
    assert("/tmp"@.skip(1) =~= "tmp"@);
    assert(d.skip(d.len() - 3) =~= "tmp"@);
    assert(test_dir(Platform::Ios, None) =~= "/"@ + "tmp"@);
}

/// The thermal zones are the entries whose file holds a number, in their order, each with
/// that number.
pub proof fn zones_are_those_with_a_number(entries: Seq<(String, Option<String>)>)
    ensures
        zones(entries) == entries.filter(
            |e: (String, Option<String>)| file_number(owned_text(e.1), 0xffff_ffff) is Some,
        ).map_values(
            |e: (String, Option<String>)|
                (e.0@, file_number(owned_text(e.1), 0xffff_ffff)->Some_0),
        ),
    decreases entries.len(),
{
    reveal(Seq::filter);
    let known = |e: (String, Option<String>)| file_number(owned_text(e.1), 0xffff_ffff) is Some;
    let zone = |e: (String, Option<String>)|
        (e.0@, file_number(owned_text(e.1), 0xffff_ffff)->Some_0);
    if entries.len() > 0 {
        zones_are_those_with_a_number(entries.drop_last());
    }
    assert(zones(entries) =~= entries.filter(known).map_values(zone));
}

/// A file that could be read gives one entry with its name and what it holds; another one
/// gives none.
pub proof fn files_give_one_entry(name: Seq<char>, content: Seq<char>)
    ensures
        named_text(name, None).len() == 0,
        named_text(name, Some(content)).len() == 1,
        named_text(name, Some(content))[0] == (name, trimmed(content)),
        named_number(name, None).len() == 0,
        named_number(name, Some(content)).len() == 1,
        named_number(name, Some(content))[0].0 == name,
        match parsed(trimmed(content), 0xffff_ffff) {
            Ok(v) => named_number(name, Some(content))[0].1 == v,
            Err(_) => named_number(name, Some(content))[0].1 == 0,
        },
{
}

/// The binder works where it could be opened, answered, and has a version that is not
/// negative.
pub proof fn binders_work_where_they_answer(fd: int, result: int, version: int)
    ensures
        binder_fault(fd, result, version) is None <==> fd >= 0 && result == 0 && version >= 0,
{
}

} // verus!
