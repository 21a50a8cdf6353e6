//! Available memory and free swap, as the kernel reports them.
use crate::number::{self, WholeError};
use crate::{files, path, text};
use vstd::prelude::*;
use vstd::string::*;

verus! {

/// Bytes of memory and swap that can still be used.
#[derive(Clone, Copy, Debug, PartialEq, Eq, Structural)]
pub struct MemInfo {
    pub mem_available_bytes: u64,
    pub swap_free_bytes: u64,
}

/// Why a report cannot be used.
#[derive(Debug, PartialEq, Eq)]
pub enum MeminfoError {
    Value { line: String, cause: WholeError },
    NoMemAvailable,
    NoSwapFree,
}

/// What a [`MeminfoError`] says.
pub enum MeminfoFault {
    Value { line: Seq<char>, cause: WholeError },
    NoMemAvailable,
    NoSwapFree,
}

impl View for MeminfoError {
    type V = MeminfoFault;

    open spec fn view(&self) -> MeminfoFault {
        match *self {
            MeminfoError::Value { line, cause } => MeminfoFault::Value { line: line@, cause },
            MeminfoError::NoMemAvailable => MeminfoFault::NoMemAvailable,
            MeminfoError::NoSwapFree => MeminfoFault::NoSwapFree,
        }
    }
}

/// What one line of a report says.
pub enum Line {
    /// Nothing of interest.
    Other,
    /// Kilobytes of available memory.
    Mem(nat),
    /// Kilobytes of free swap.
    Swap(nat),
    /// A value that is no number.
    Fault(WholeError),
}

/// What a line says: a name that colons may follow, then a number. A line of fewer words says
/// nothing.
pub open spec fn read_line(line: Seq<char>) -> Line {
    let words = text::words(line);
    if words.len() < 2 {
        Line::Other
    } else {
        match number::whole_from_text(words[1], u64::MAX as nat) {
            Ok(kb) => {
                let key = text::trim_end_of(words[0], ':');
                if key == "MemAvailable"@ {
                    Line::Mem(kb)
                } else if key == "SwapFree"@ {
                    Line::Swap(kb)
                } else {
                    Line::Other
                }
            },
            Err(cause) => Line::Fault(cause),
        }
    }
}

/// How far a report could be read.
pub enum Scan {
    /// To its end: the last values of either kind, in bytes.
    Found { mem: Option<nat>, swap: Option<nat> },
    /// To a line whose value is no number.
    Fault { line: Seq<char>, cause: WholeError },
    /// To a value of interest that is too large in bytes.
    Overflow,
}

/// Reads lines from the first on.
pub open spec fn scan(lines: Seq<Seq<char>>) -> Scan
    decreases lines.len(),
{
    if lines.len() == 0 {
        Scan::Found { mem: None, swap: None }
    } else {
        match scan(lines.drop_last()) {
            Scan::Found { mem, swap } => match read_line(lines.last()) {
                Line::Other => Scan::Found { mem, swap },
                Line::Mem(kb) => if kb * 1024 > u64::MAX {
                    Scan::Overflow
                } else {
                    Scan::Found { mem: Some(kb * 1024), swap }
                },
                Line::Swap(kb) => if kb * 1024 > u64::MAX {
                    Scan::Overflow
                } else {
                    Scan::Found { mem, swap: Some(kb * 1024) }
                },
                Line::Fault(cause) => Scan::Fault { line: lines.last(), cause },
            },
            other => other,
        }
    }
}

/// Whether a report gives, before any fault, a value of interest too large to count in bytes.
pub open spec fn overflows(content: Seq<char>) -> bool {
    scan(text::lines(content)) is Overflow
}

/// What a report says of memory and swap.
pub open spec fn meminfo_from_text(content: Seq<char>) -> Result<(nat, nat), MeminfoFault> {
    match scan(text::lines(content)) {
        Scan::Found { mem, swap } => match (mem, swap) {
            (Some(mem), Some(swap)) => Ok((mem, swap)),
            (None, _) => Err(MeminfoFault::NoMemAvailable),
            (_, None) => Err(MeminfoFault::NoSwapFree),
        },
        Scan::Fault { line, cause } => Err(MeminfoFault::Value { line, cause }),
        Scan::Overflow => arbitrary(),
    }
}

/// What one line of a report says.
enum LineRead {
    Other,
    Mem(u64),
    Swap(u64),
    Fault(WholeError),
}

impl View for LineRead {
    type V = Line;

    closed spec fn view(&self) -> Line {
        match *self {
            LineRead::Other => Line::Other,
            LineRead::Mem(kb) => Line::Mem(kb as nat),
            LineRead::Swap(kb) => Line::Swap(kb as nat),
            LineRead::Fault(cause) => Line::Fault(cause),
        }
    }
}

/// How far a report could be read.
enum ScanRead {
    Found { mem: Option<u64>, swap: Option<u64> },
    Fault { line: String, cause: WholeError },
    Overflow,
}

spec fn as_nat(x: Option<u64>) -> Option<nat> {
    match x {
        Some(x) => Some(x as nat),
        None => None,
    }
}

impl View for ScanRead {
    type V = Scan;

    closed spec fn view(&self) -> Scan {
        match *self {
            ScanRead::Found { mem, swap } => Scan::Found { mem: as_nat(mem), swap: as_nat(swap) },
            ScanRead::Fault { line, cause } => Scan::Fault { line: line@, cause },
            ScanRead::Overflow => Scan::Overflow,
        }
    }
}

fn line_read(line: &[char]) -> (r: LineRead)
    ensures
        r@ == read_line(line@),
{
    let words = text::split_words(line);
    assert(text::pieces(words@).len() == words.len());
    if words.len() < 2 {
        return LineRead::Other;
    }
    assert(text::pieces(words@)[0] == words[0]@);
    assert(text::pieces(words@)[1] == words[1]@);
    match number::parse_whole(words[1].as_slice(), u64::MAX) {
        Ok(kb) => {
            let key = text::trimmed_end_of(words[0].as_slice(), ':');
            if text::spells(key, "MemAvailable") {
                LineRead::Mem(kb)
            } else if text::spells(key, "SwapFree") {
                LineRead::Swap(kb)
            } else {
                LineRead::Other
            }
        },
        Err(cause) => LineRead::Fault(cause),
    }
}

/// What stopped the reading of a beginning stops the reading of the whole.
pub proof fn lemma_scan_prefix(lines: Seq<Seq<char>>, i: int)
    requires
        0 <= i <= lines.len(),
        !(scan(lines.take(i)) is Found),
    ensures
        scan(lines) == scan(lines.take(i)),
    decreases lines.len(),
{
    if i < lines.len() {
        assert(lines.drop_last().take(i) =~= lines.take(i));
        lemma_scan_prefix(lines.drop_last(), i);
    } else {
        assert(lines.take(i) =~= lines);
    }
}

fn scan_read(content: &str) -> (r: ScanRead)
    ensures
        r@ == scan(text::lines(content@)),
{
    let chars = text::to_chars(content);
    let lines = text::split_lines(chars.as_slice());
    let ghost all = text::pieces(lines@);
    let mut mem: Option<u64> = None;
    let mut swap: Option<u64> = None;
    for i in 0..lines.len()
        invariant
            all == text::pieces(lines@),
            all == text::lines(content@),
            scan(all.take(i as int)) == (Scan::Found { mem: as_nat(mem), swap: as_nat(swap) }),
    {
        assert(all.take(i + 1).drop_last() =~= all.take(i as int));
        assert(all[i as int] == lines[i as int]@);
        let read = line_read(lines[i].as_slice());
        match read {
            LineRead::Other => {},
            LineRead::Mem(kb) => {
                if kb > u64::MAX / 1024 {
                    proof {
                        lemma_scan_prefix(all, i + 1);
                    }
                    return ScanRead::Overflow;
                }
                mem = Some(kb * 1024);
            },
            LineRead::Swap(kb) => {
                if kb > u64::MAX / 1024 {
                    proof {
                        lemma_scan_prefix(all, i + 1);
                    }
                    return ScanRead::Overflow;
                }
                swap = Some(kb * 1024);
            },
            LineRead::Fault(cause) => {
                proof {
                    lemma_scan_prefix(all, i + 1);
                }
                return ScanRead::Fault { line: text::from_chars(lines[i].as_slice()), cause };
            },
        }
    }
    assert(all.take(lines.len() as int) =~= all);
    ScanRead::Found { mem, swap }
}

/// Whether a report gives, before any fault, a value of interest too large to count in bytes.
pub fn meminfo_overflows(content: &str) -> (r: bool)
    ensures
        r == overflows(content@),
{
    match scan_read(content) {
        ScanRead::Overflow => true,
        _ => false,
    }
}

/// What a report says of memory and swap.
pub fn parse_meminfo(content: &str) -> (r: Result<MemInfo, MeminfoError>)
    requires
        !overflows(content@),
    ensures
        match r {
            Ok(m) => meminfo_from_text(content@) == Ok::<(nat, nat), MeminfoFault>(
                (m.mem_available_bytes as nat, m.swap_free_bytes as nat),
            ),
            Err(e) => meminfo_from_text(content@) == Err::<(nat, nat), MeminfoFault>(e@),
        },
{
    match scan_read(content) {
        ScanRead::Found { mem, swap } => match mem {
            Some(mem_available_bytes) => match swap {
                Some(swap_free_bytes) => Ok(MemInfo { mem_available_bytes, swap_free_bytes }),
                None => Err(MeminfoError::NoSwapFree),
            },
            None => Err(MeminfoError::NoMemAvailable),
        },
        ScanRead::Fault { line, cause } => Err(MeminfoError::Value { line, cause }),
        ScanRead::Overflow => vstd::pervasive::unreached(),
    }
}

/// The words for a fault of a report.
pub open spec fn meminfo_error_text(e: MeminfoFault) -> Seq<char> {
    match e {
        MeminfoFault::Value { line, cause } => "invalid meminfo value in "@ + text::debug_text(line)
            + ": "@ + number::whole_error_text(cause),
        MeminfoFault::NoMemAvailable => "MemAvailable missing from meminfo"@,
        MeminfoFault::NoSwapFree => "SwapFree missing from meminfo"@,
    }
}

impl MeminfoError {
    /// The words for the fault.
    pub fn message(&self) -> (r: String)
        ensures
            r@ == meminfo_error_text(self@),
    {
        match self {
            MeminfoError::Value { line, cause } => {
                text::quoted_fault(
                    "invalid meminfo value in ",
                    text::quoted(line.as_str()).as_str(),
                    cause.message().as_str(),
                )
            },
            MeminfoError::NoMemAvailable => "MemAvailable missing from meminfo".to_string(),
            MeminfoError::NoSwapFree => "SwapFree missing from meminfo".to_string(),
        }
    }
}

/// Where the report is read: at the path that is set, or at the one that the kernel gives it.
pub open spec fn report_path(setting: Option<Vec<u8>>) -> Seq<u8> {
    match path::path_bytes(setting) {
        Some(p) => p,
        None => vstd::utf8::encode_utf8("/proc/meminfo"@),
    }
}

/// Where the report is read.
pub fn meminfo_path(setting: Option<Vec<u8>>) -> (r: Vec<u8>)
    ensures
        r@ == report_path(setting),
{
    match setting {
        Some(p) => p,
        None => path::copy_bytes("/proc/meminfo".as_bytes()),
    }
}

/// What a report says that was to be read at a path, or the words for the fault.
pub open spec fn read_report(path: Seq<u8>, content: Result<Seq<char>, Seq<char>>) -> Result<
    (nat, nat),
    Seq<char>,
> {
    match content {
        Ok(content) => match meminfo_from_text(content) {
            Ok(mem) => Ok(mem),
            Err(e) => Err(meminfo_error_text(e)),
        },
        Err(e) => Err(files::about_fault("failed to read "@, path, e)),
    }
}

/// What a report says that was to be read at a path. `content` is what came of that.
pub fn read_meminfo(path: &[u8], content: Result<String, String>) -> (r: Result<MemInfo, String>)
    requires
        content matches Ok(c) ==> !overflows(c@),
    ensures
        ({
            let expected = read_report(
                path@,
                match content {
                    Ok(c) => Ok(c@),
                    Err(e) => Err(e@),
                },
            );
            match r {
                Ok(mem) => expected == Ok::<(nat, nat), Seq<char>>(
                    (mem.mem_available_bytes as nat, mem.swap_free_bytes as nat),
                ),
                Err(e) => expected == Err::<(nat, nat), Seq<char>>(e@),
            }
        }),
{
    match content {
        Ok(content) => match parse_meminfo(content.as_str()) {
            Ok(mem) => Ok(mem),
            Err(e) => Err(e.message()),
        },
        Err(e) => Err(files::line_about_fault("failed to read ", path, e.as_str())),
    }
}

} // verus!
