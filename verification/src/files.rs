//! The file workloads: what they name their files, what they write, and what they count.

use crate::decimal::{decimal, decimal_text};
use crate::random::{gen_range, gen_ratio};
use vstd::prelude::*;

verus! {

/// A name with a number in it.
pub open spec fn numbered(before: Seq<char>, n: int, after: Seq<char>) -> Seq<char> {
    before + decimal(n as nat) + after
}

fn numbered_name(before: &str, n: u64, after: &str) -> (r: String)
    ensures
        r@ == numbered(before@, n as int, after@),
{
    let digits: String = decimal_text(n);
    let mut r: String = before.to_owned();
    r.append(digits.as_str());
    r.append(after);
    r
}

/// The file workloads.
#[derive(Clone, Copy, Debug, PartialEq, Eq, Structural)]
pub enum FileWorkload {
    Create,
    Write,
    Read,
    Append,
    Random,
    Rename,
    Link,
    Permissions,
    Directories,
    Mmap,
}

impl FileWorkload {
    /// The name of the workload.
    pub fn name(&self) -> (r: &'static str)
        ensures
            r@ == (match *self {
                FileWorkload::Create => "create"@,
                FileWorkload::Write => "write"@,
                FileWorkload::Read => "read"@,
                FileWorkload::Append => "append"@,
                FileWorkload::Random => "random"@,
                FileWorkload::Rename => "rename"@,
                FileWorkload::Link => "link"@,
                FileWorkload::Permissions => "perms"@,
                FileWorkload::Directories => "dirs"@,
                FileWorkload::Mmap => "mmap"@,
            }),
    {
        match self {
            FileWorkload::Create => "create",
            FileWorkload::Write => "write",
            FileWorkload::Read => "read",
            FileWorkload::Append => "append",
            FileWorkload::Random => "random",
            FileWorkload::Rename => "rename",
            FileWorkload::Link => "link",
            FileWorkload::Permissions => "perms",
            FileWorkload::Directories => "dirs",
            FileWorkload::Mmap => "mmap",
        }
    }

    /// The bytes that count as read and written for the workloads that always touch the
    /// same number of them, whatever the file system says.
    pub fn fixed_bytes(&self) -> (r: Option<(u64, u64)>)
        ensures
            r == (match *self {
                FileWorkload::Rename | FileWorkload::Link | FileWorkload::Permissions => Some(
                    (0u64, 1_024u64),
                ),
                FileWorkload::Directories => Some((0u64, 10_240u64)),
                FileWorkload::Mmap => Some((1_048_576u64, 1_048_576u64)),
                _ => None,
            }),
    {
        match self {
            FileWorkload::Rename => Some((0, 1_024)),
            FileWorkload::Link => Some((0, 1_024)),
            FileWorkload::Permissions => Some((0, 1_024)),
            FileWorkload::Directories => Some((0, 10_240)),
            FileWorkload::Mmap => Some((1_048_576, 1_048_576)),
            _ => None,
        }
    }
}

/// A file to be written: its name, and the byte that fills it.
#[derive(Debug)]
pub struct FilledFile {
    pub name: String,
    pub byte: u8,
    pub len: u64,
}

/// Whether the files are the ones that the creating workload makes: each is a kilobyte
/// of its number.
pub open spec fn are_created(files: Seq<FilledFile>, id: int, count: int) -> bool {
    &&& files.len() == count
    &&& forall|i: int|
        0 <= i < count ==> (#[trigger] files[i]).name@ == "create_"@ + decimal(id as nat)
            + numbered("_"@, i, ".tmp"@) && files[i].byte == i && files[i].len == 1_024
}

/// The files that the creating workload makes, and the bytes that it counts as written.
pub fn created_files(id: u64, count: u8) -> (r: (Vec<FilledFile>, u64))
    ensures
        are_created(r.0@, id as int, count as int),
        r.1 == count * 1_024,
{
    let mut files: Vec<FilledFile> = Vec::new();
    let mut written: u64 = 0;
    let mut i: u8 = 0;
    while i < count
        invariant
            i <= count,
            are_created(files@, id as int, i as int),
            written == i * 1_024,
        decreases count - i,
    {
        let digits: String = decimal_text(id);
        let tail: String = numbered_name("_", i as u64, ".tmp");
        let mut name: String = "create_".to_owned();
        name.append(digits.as_str());
        name.append(tail.as_str());
        files.push(FilledFile { name, byte: i, len: 1_024 });
        written = written + 1_024;
        i = i + 1;
    }
    (files, written)
}

/// The files that the creating workload makes: ten to forty-nine of them, and the bytes
/// that it counts as written.
pub fn create_files_workload(id: u64) -> (r: (Vec<FilledFile>, u64))
    ensures
        10 <= r.0@.len() < 50,
        are_created(r.0@, id as int, r.0@.len() as int),
        r.1 == r.0@.len() * 1_024,
{
    let count: u8 = gen_range(10, 50) as u8;
    created_files(id, count)
}

/// What the writing workload appends to its file.
pub open spec fn is_written_file(f: FilledFile, id: int, size: int) -> bool {
    f.name@ == numbered("write_"@, id, ".dat"@) && f.byte == (id % 256) as u8 && f.len == size
}

/// What the writing workload appends to its file: `size` times the low byte of its
/// number.
pub fn written_file(id: u64, size: u64) -> (r: FilledFile)
    ensures
        is_written_file(r, id as int, size as int),
{
    FilledFile { name: numbered_name("write_", id, ".dat"), byte: (id % 256) as u8, len: size }
}

/// What the writing workload appends to its file: between a kilobyte and a megabyte.
pub fn write_files_workload(id: u64) -> (r: FilledFile)
    ensures
        1_024 <= r.len <= 1_048_576,
        is_written_file(r, id as int, r.len as int),
{
    let size: u64 = gen_range(1_024, 1_048_577);
    written_file(id, size)
}

/// The file of the appending workload, and what it appends.
pub fn append_files_workload(id: u64, now_secs: u64) -> (r: (String, String))
    ensures
        r.0@ == numbered("append_"@, id as int, ".log"@),
        r.1@ == numbered("["@, now_secs as int, "] log entry "@) + numbered(
            ""@,
            id as int,
            "\n"@,
        ),
{
    let name: String = numbered_name("append_", id, ".log");
    let mut entry: String = numbered_name("[", now_secs, "] log entry ");
    let tail: String = numbered_name("", id, "\n");
    entry.append(tail.as_str());
    (name, entry)
}

/// One access of the random workload.
#[derive(Clone, Copy, Debug, PartialEq, Eq, Structural)]
pub enum FileAccess {
    /// Reads up to 512 bytes from a position.
    Read { pos: u64 },
    /// Writes 512 times the same byte at a position.
    Write { pos: u64, byte: u8 },
    /// Writes a kilobyte of the same byte at the start.
    Fill { byte: u8 },
}

/// The access that three draws stand for.
pub open spec fn access(pos: u64, reads: bool, byte: u8) -> FileAccess {
    if reads {
        FileAccess::Read { pos }
    } else {
        FileAccess::Write { pos, byte }
    }
}

/// The access that three draws stand for.
pub fn drawn_access(pos: u64, reads: bool, byte: u8) -> (r: FileAccess)
    ensures
        r == access(pos, reads, byte),
{
    if reads {
        FileAccess::Read { pos }
    } else {
        FileAccess::Write { pos, byte }
    }
}

/// Whether an access stays within a file of this size.
pub open spec fn is_within(a: FileAccess, file_size: int) -> bool {
    match a {
        FileAccess::Read { pos } => pos < file_size,
        FileAccess::Write { pos, .. } => pos < file_size,
        FileAccess::Fill { .. } => false,
    }
}

/// The accesses of the random workload. An empty file is filled; any other one is read or
/// written, with even chances, at ten random positions.
pub fn random_access_workload(file_size: u64, id: u64) -> (r: Vec<FileAccess>)
    ensures
        file_size == 0 ==> r@ == seq![FileAccess::Fill { byte: (id % 256) as u8 }],
        file_size > 0 ==> r@.len() == 10 && forall|i: int|
            0 <= i < 10 ==> is_within(#[trigger] r@[i], file_size as int),
{
    let mut r: Vec<FileAccess> = Vec::new();
    if file_size == 0 {
        r.push(FileAccess::Fill { byte: (id % 256) as u8 });
        return r;
    }
    while r.len() < 10
        invariant
            file_size > 0,
            r.len() <= 10,
            forall|i: int| 0 <= i < r.len() ==> is_within(#[trigger] r@[i], file_size as int),
        decreases 10 - r.len(),
    {
        let pos: u64 = gen_range(0, file_size);
        let reads: bool = gen_ratio(1, 2);
        let byte: u8 = gen_range(0, 256) as u8;
        r.push(drawn_access(pos, reads, byte));
    }
    r
}

/// The bytes that a list of accesses has read, where some of them came back without an
/// error.
pub open spec fn bytes_read(plan: Seq<FileAccess>, moved: Seq<Option<u32>>) -> int
    decreases plan.len(),
{
    if plan.len() == 0 {
        0
    } else {
        let before = bytes_read(plan.drop_last(), moved.drop_last());
        match (plan.last(), moved.last()) {
            (FileAccess::Read { .. }, Some(n)) => before + n,
            _ => before,
        }
    }
}

/// The bytes that a list of accesses has written, where some of them came back without
/// an error.
pub open spec fn bytes_written(plan: Seq<FileAccess>, moved: Seq<Option<u32>>) -> int
    decreases plan.len(),
{
    if plan.len() == 0 {
        0
    } else {
        let before = bytes_written(plan.drop_last(), moved.drop_last());
        match (plan.last(), moved.last()) {
            (FileAccess::Write { .. }, Some(n)) => before + n,
            (FileAccess::Fill { .. }, Some(n)) => before + n,
            _ => before,
        }
    }
}

/// The bytes that a list of accesses has read and written. An access that failed moved
/// none.
pub fn count_accesses(plan: &Vec<FileAccess>, moved: &Vec<Option<u32>>) -> (r: (u64, u64))
    requires
        plan@.len() == moved@.len(),
        plan@.len() <= u32::MAX,
    ensures
        r.0 == bytes_read(plan@, moved@),
        r.1 == bytes_written(plan@, moved@),
{
    let mut read: u64 = 0;
    let mut written: u64 = 0;
    let mut i: usize = 0;
    while i < plan.len()
        invariant
            i <= plan.len() == moved.len(),
            plan.len() <= u32::MAX,
            read == bytes_read(plan@.take(i as int), moved@.take(i as int)),
            written == bytes_written(plan@.take(i as int), moved@.take(i as int)),
            read <= i * u32::MAX,
            written <= i * u32::MAX,
        decreases plan.len() - i,
    {
        assert(plan@.take(i + 1).drop_last() =~= plan@.take(i as int));
        assert(moved@.take(i + 1).drop_last() =~= moved@.take(i as int));
        assert(i * u32::MAX + u32::MAX <= u32::MAX * u32::MAX) by (nonlinear_arith)
            requires
                i < u32::MAX,
        ;
        match moved[i] {
            Some(n) => {
                match plan[i] {
                    FileAccess::Read { .. } => {
                        read = read + n as u64;
                    },
                    _ => {
                        written = written + n as u64;
                    },
                }
            },
            None => {},
        }
        i = i + 1;
    }
    assert(plan@.take(plan.len() as int) =~= plan@);
    assert(moved@.take(moved.len() as int) =~= moved@);
    (read, written)
}

/// Every byte that an access moved was either read or written.
pub proof fn moved_bytes_are_read_or_written(plan: Seq<FileAccess>, moved: Seq<Option<u32>>)
    requires
        plan.len() == moved.len(),
    ensures
        bytes_read(plan, moved) + bytes_written(plan, moved) == moved_total(moved),
    decreases plan.len(),
{
    if plan.len() > 0 {
        moved_bytes_are_read_or_written(plan.drop_last(), moved.drop_last());
    }
}

/// The bytes that were moved.
pub open spec fn moved_total(moved: Seq<Option<u32>>) -> int
    decreases moved.len(),
{
    if moved.len() == 0 {
        0
    } else {
        moved_total(moved.drop_last()) + match moved.last() {
            Some(n) => n as int,
            None => 0,
        }
    }
}

/// The file of the random workload.
pub fn random_access_file(id: u64) -> (r: String)
    ensures
        r@ == numbered("random_"@, id as int, ".db"@),
{
    numbered_name("random_", id, ".db")
}

/// The file of the renaming workload, before and after.
pub fn rename_files_workload(id: u64) -> (r: (String, String))
    ensures
        r.0@ == numbered("rename_"@, id as int, ".tmp"@),
        r.1@ == numbered("renamed_"@, id as int, ".tmp"@),
{
    (numbered_name("rename_", id, ".tmp"), numbered_name("renamed_", id, ".tmp"))
}

/// The file of the linking workload, and the link to it.
pub fn link_files_workload(id: u64) -> (r: (String, String))
    ensures
        r.0@ == numbered("link_orig_"@, id as int, ".tmp"@),
        r.1@ == numbered("link_"@, id as int, ".tmp"@),
{
    (numbered_name("link_orig_", id, ".tmp"), numbered_name("link_", id, ".tmp"))
}

/// Whether a file has as many names as the linking workload gave it.
pub fn link_is_counted(names: u64) -> (r: bool)
    ensures
        r == (names == 2),
{
    names == 2
}

/// The file of the permission workload.
pub fn permission_workload(id: u64) -> (r: String)
    ensures
        r@ == numbered("perms_"@, id as int, ".tmp"@),
{
    numbered_name("perms_", id, ".tmp")
}

/// Whether the files are the ones that the directory workload makes: each is a kilobyte
/// of its number.
pub open spec fn are_listed(files: Seq<FilledFile>, count: int) -> bool {
    &&& files.len() == count
    &&& forall|i: int|
        0 <= i < count ==> (#[trigger] files[i]).name@ == numbered("file_"@, i, ".tmp"@)
            && files[i].byte == i && files[i].len == 1_024
}

/// The directory of the directory workload, and the ten files in it.
pub fn directory_workload(id: u64) -> (r: (String, Vec<FilledFile>))
    ensures
        r.0@ == numbered("subdir_"@, id as int, ""@),
        are_listed(r.1@, 10),
{
    let mut files: Vec<FilledFile> = Vec::new();
    let mut i: u8 = 0;
    while i < 10
        invariant
            i <= 10,
            are_listed(files@, i as int),
        decreases 10 - i,
    {
        files.push(
            FilledFile { name: numbered_name("file_", i as u64, ".tmp"), byte: i, len: 1_024 },
        );
        i = i + 1;
    }
    (numbered_name("subdir_", id, ""), files)
}

/// The file of the mapping workload.
pub fn mmap_workload(id: u64) -> (r: String)
    ensures
        r@ == numbered("mmap_"@, id as int, ".dat"@),
{
    numbered_name("mmap_", id, ".dat")
}

/// Whether the files are the ones of the input and output workload: each is a kilobyte
/// of its number.
pub open spec fn are_io_files(files: Seq<FilledFile>, count: int) -> bool {
    &&& files.len() == count
    &&& forall|i: int|
        0 <= i < count ==> (#[trigger] files[i]).name@ == numbered("io_"@, i, ".tmp"@)
            && files[i].byte == i && files[i].len == 1_024
}

/// The ten files of the input and output workload.
pub fn io_intensive_workload() -> (r: Vec<FilledFile>)
    ensures
        are_io_files(r@, 10),
{
    let mut files: Vec<FilledFile> = Vec::new();
    let mut i: u8 = 0;
    while i < 10
        invariant
            i <= 10,
            are_io_files(files@, i as int),
        decreases 10 - i,
    {
        files.push(
            FilledFile { name: numbered_name("io_", i as u64, ".tmp"), byte: i, len: 1_024 },
        );
        i = i + 1;
    }
    files
}

/// The hexadecimal digit of a number below sixteen.
pub open spec fn hex_digit_char(d: nat) -> char {
    if d < 10 {
        ('0' as nat + d) as char
    } else {
        ('a' as nat + d - 10) as char
    }
}

/// A number in hexadecimal notation.
pub open spec fn hexadecimal(n: nat) -> Seq<char>
    decreases n,
{
    if n < 16 {
        seq![hex_digit_char(n)]
    } else {
        hexadecimal(n / 16).push(hex_digit_char(n % 16))
    }
}

fn hex_digit_text(d: u32) -> (r: &'static str)
    requires
        d < 16,
    ensures
        r@ == seq![hex_digit_char(d as nat)],
{
    let digits: &'static str = "0123456789abcdef";
    proof {
        reveal_strlit("0123456789abcdef");
        assert(digits@.len() == 16);
    }
    let r: &'static str = digits.substring_char(d as usize, d as usize + 1);
    assert(r@ =~= seq![digits@[d as int]]);
    r
}

/// Writes a number in hexadecimal notation.
pub fn hex_text(n: u32) -> (r: String)
    ensures
        r@ == hexadecimal(n as nat),
    decreases n,
{
    if n < 16 {
        hex_digit_text(n).to_owned()
    } else {
        let mut r = hex_text(n / 16);
        r.append(hex_digit_text(n % 16));
        r
    }
}

/// The directory of a file system stress test, with this number.
pub fn stress_dir(n: u32) -> (r: String)
    ensures
        r@ == "stress_"@ + hexadecimal(n as nat),
{
    let digits: String = hex_text(n);
    let mut r: String = "stress_".to_owned();
    r.append(digits.as_str());
    r
}

/// A directory for a file system stress test, with a random number.
pub fn random_stress_dir() -> (r: String)
    ensures
        exists|n: u32| r@ == "stress_"@ + #[trigger] hexadecimal(n as nat),
{
    let n: u32 = gen_range(0, 0x1_0000_0000) as u32;
    stress_dir(n)
}

/// A file for the comprehensive stress test, with a random number.
pub fn random_stress_file() -> (r: String)
    ensures
        exists|n: u32| r@ == #[trigger] numbered(""@, n as int, ".tmp"@),
{
    let n: u32 = gen_range(0, 0x1_0000_0000) as u32;
    numbered_name("", n as u64, ".tmp")
}

/// What a step of the stability test does.
#[derive(Clone, Copy, Debug, PartialEq, Eq, Structural)]
pub enum StabilityOperation {
    /// Allocates a buffer.
    Allocate { size: u64 },
    /// Writes a temporary file.
    WriteFile,
    /// Connects to a server.
    Connect,
    /// Starts a thread and waits for it.
    SpawnThread,
    /// Does nothing.
    Rest,
}

/// What a step of the stability test does, where two numbers were drawn.
pub open spec fn stability_operation(draw: u8, size: u64) -> StabilityOperation {
    if draw % 5 == 0 {
        StabilityOperation::Allocate { size: size % 1_048_576 }
    } else if draw % 5 == 1 {
        StabilityOperation::WriteFile
    } else if draw % 5 == 2 {
        StabilityOperation::Connect
    } else if draw % 5 == 3 {
        StabilityOperation::SpawnThread
    } else {
        StabilityOperation::Rest
    }
}

/// What a step of the stability test does, where two numbers were drawn.
pub fn choose_operation(draw: u8, size: u64) -> (r: StabilityOperation)
    ensures
        r == stability_operation(draw, size),
{
    match draw % 5 {
        0 => StabilityOperation::Allocate { size: size % 1_048_576 },
        1 => StabilityOperation::WriteFile,
        2 => StabilityOperation::Connect,
        3 => StabilityOperation::SpawnThread,
        _ => StabilityOperation::Rest,
    }
}

/// What a step of the stability test does, at random.
pub fn perform_stability_operation() -> (r: StabilityOperation)
    ensures
        exists|draw: u8, size: u64| r == #[trigger] stability_operation(draw, size),
        r matches StabilityOperation::Allocate { size } ==> size < 1_048_576,
{
    let draw: u8 = gen_range(0, 256) as u8;
    let size: u64 = crate::random::random();
    choose_operation(draw, size)
}

} // verus!
