//! Processes as the kernel lists them: command lines, memory, process groups.
use crate::number::{self, WholeError};
use crate::{path, text};
use vstd::prelude::*;
use vstd::slice::slice_subrange;
use vstd::string::*;

verus! {

/// A running process.
#[derive(Debug)]
pub struct ProcessInfo {
    pub pid: u32,
    pub command: String,
    pub rss_bytes: Option<u64>,
}

/// What is known of a process.
pub struct ProcessView {
    pub pid: u32,
    pub command: Seq<char>,
    pub rss_bytes: Option<u64>,
}

impl View for ProcessInfo {
    type V = ProcessView;

    open spec fn view(&self) -> ProcessView {
        ProcessView { pid: self.pid, command: self.command@, rss_bytes: self.rss_bytes }
    }
}

/// What is known of processes.
pub open spec fn process_views(v: Seq<ProcessInfo>) -> Seq<ProcessView> {
    Seq::new(v.len(), |i: int| v[i]@)
}

/// Why the process group cannot be read from a `stat` line.
#[derive(Clone, Copy, Debug, PartialEq, Eq, Structural)]
pub enum StatError {
    NoCommand,
    NoState,
    NoParent,
    NoGroup,
    Group(WholeError),
}

/// The process group of a `stat` line: the third word behind the last closing parenthesis.
pub open spec fn group_from_stat(stat: Seq<char>) -> Result<int, StatError> {
    let end = text::last_index(stat, ')');
    let fields = text::words(stat.skip(end + 1));
    if end < 0 {
        Err(StatError::NoCommand)
    } else if fields.len() < 1 {
        Err(StatError::NoState)
    } else if fields.len() < 2 {
        Err(StatError::NoParent)
    } else if fields.len() < 3 {
        Err(StatError::NoGroup)
    } else {
        match number::signed_from_text(fields[2]) {
            Ok(g) => Ok(g),
            Err(cause) => Err(StatError::Group(cause)),
        }
    }
}

/// The process group of a `stat` line.
pub fn parse_process_group_id(stat: &str) -> (r: Result<i32, StatError>)
    ensures
        match r {
            Ok(g) => group_from_stat(stat@) == Ok::<int, StatError>(g as int),
            Err(e) => group_from_stat(stat@) == Err::<int, StatError>(e),
        },
{
    let chars = text::to_chars(stat);
    let end: usize = match text::find_last(chars.as_slice(), ')') {
        Some(end) => end,
        None => {
            return Err(StatError::NoCommand);
        },
    };
    let rest = slice_subrange(chars.as_slice(), end + 1, chars.len());
    assert(rest@ =~= stat@.skip(end + 1));
    let fields = text::split_words(rest);
    assert(text::pieces(fields@).len() == fields.len());
    if fields.len() < 1 {
        return Err(StatError::NoState);
    }
    if fields.len() < 2 {
        return Err(StatError::NoParent);
    }
    if fields.len() < 3 {
        return Err(StatError::NoGroup);
    }
    assert(text::pieces(fields@)[2] == fields[2]@);
    match number::parse_signed(fields[2].as_slice()) {
        Ok(g) => Ok(g),
        Err(cause) => Err(StatError::Group(cause)),
    }
}

/// The words for a fault of a `stat` line.
pub open spec fn stat_error_text(e: StatError) -> Seq<char> {
    match e {
        StatError::NoCommand => "missing process command in stat"@,
        StatError::NoState => "missing process state in stat"@,
        StatError::NoParent => "missing parent pid in stat"@,
        StatError::NoGroup => "missing process group id in stat"@,
        StatError::Group(cause) => "invalid process group id in stat: "@ + number::whole_error_text(
            cause,
        ),
    }
}

impl StatError {
    /// The words for the fault.
    pub fn message(&self) -> (r: String)
        ensures
            r@ == stat_error_text(*self),
    {
        match self {
            StatError::NoCommand => "missing process command in stat".to_string(),
            StatError::NoState => "missing process state in stat".to_string(),
            StatError::NoParent => "missing parent pid in stat".to_string(),
            StatError::NoGroup => "missing process group id in stat".to_string(),
            StatError::Group(cause) => {
                let mut r = "invalid process group id in stat: ".to_string();
                r.append(cause.message().as_str());
                r
            },
        }
    }
}

/// An entry of the process directory: its name where that is text, and its `stat` line where that
/// can be read.
pub struct StatEntry {
    pub name: Option<String>,
    pub stat: Option<String>,
}

/// The process that an entry shows to be in a group: one named by a number, whose `stat` line
/// gives the group.
pub open spec fn member_of(name: Option<Seq<char>>, stat: Option<Seq<char>>, pgid: int) -> Option<
    int,
> {
    match (name, stat) {
        (Some(name), Some(stat)) => match (number::signed_from_text(name), group_from_stat(stat)) {
            (Ok(pid), Ok(group)) => if group == pgid {
                Some(pid)
            } else {
                None
            },
            _ => None,
        },
        _ => None,
    }
}

/// The processes that entries show to be in a group, in their order.
pub open spec fn members(entries: Seq<StatEntry>, pgid: int) -> Seq<int>
    decreases entries.len(),
{
    if entries.len() == 0 {
        Seq::empty()
    } else {
        let before = members(entries.drop_last(), pgid);
        let e = entries.last();
        match member_of(text::content_of(e.name), text::content_of(e.stat), pgid) {
            Some(pid) => before.push(pid),
            None => before,
        }
    }
}

/// Numbers as mathematical integers.
pub open spec fn as_ints(v: Seq<i32>) -> Seq<int> {
    Seq::new(v.len(), |i: int| v[i] as int)
}

fn member(entry: &StatEntry, pgid: i32) -> (r: Option<i32>)
    ensures
        match r {
            Some(pid) => member_of(
                text::content_of(entry.name),
                text::content_of(entry.stat),
                pgid as int,
            ) == Some(pid as int),
            None => member_of(
                text::content_of(entry.name),
                text::content_of(entry.stat),
                pgid as int,
            ) is None,
        },
{
    match &entry.name {
        Some(name) => match number::parse_signed(text::to_chars(name.as_str()).as_slice()) {
            Ok(pid) => match &entry.stat {
                Some(stat) => match parse_process_group_id(stat.as_str()) {
                    Ok(group) => if group == pgid {
                        Some(pid)
                    } else {
                        None
                    },
                    Err(_) => None,
                },
                None => None,
            },
            Err(_) => None,
        },
        None => None,
    }
}

/// The processes that entries show to be in a group.
pub fn process_group_member_pids(entries: &[StatEntry], pgid: i32) -> (r: Vec<i32>)
    ensures
        as_ints(r@) == members(entries@, pgid as int),
{
    let mut pids: Vec<i32> = Vec::new();
    assert(as_ints(pids@) =~= members(entries@.take(0), pgid as int));
    for i in 0..entries.len()
        invariant
            as_ints(pids@) == members(entries@.take(i as int), pgid as int),
    {
        assert(entries@.take(i + 1).drop_last() =~= entries@.take(i as int));
        let ghost before = pids@;
        if let Some(pid) = member(&entries[i], pgid) {
            pids.push(pid);
            assert(as_ints(pids@) =~= as_ints(before).push(pid as int));
        }
    }
    assert(entries@.take(entries.len() as int) =~= entries@);
    pids
}

/// How the kernel answers a probe of a whole process group.
#[derive(Clone, Copy, Debug, PartialEq, Eq, Structural)]
pub enum GroupProbe {
    /// The probe went through.
    Reached,
    /// There is no such process.
    NoSuchProcess,
    /// Some other error.
    OtherError,
}

/// Whether a process group still has members, for the answer to a probe and the number of members that
/// were listed, if they could be.
pub open spec fn has_members(probe: GroupProbe, listed: Option<nat>) -> bool {
    match probe {
        GroupProbe::NoSuchProcess => match listed {
            Some(n) => n > 0,
            None => false,
        },
        _ => true,
    }
}

/// Whether a process group still has members. Only where the probe finds no process does it matter
/// what the process directory shows, and a directory that cannot be read shows none.
pub fn process_group_exists(probe: GroupProbe, listed: &Option<Vec<i32>>) -> (r: bool)
    ensures
        r == match probe {
            GroupProbe::NoSuchProcess => match *listed {
                Some(pids) => pids@.len() > 0,
                None => false,
            },
            _ => true,
        },
        r == has_members(
            probe,
            match *listed {
                Some(pids) => Some(pids@.len()),
                None => None,
            },
        ),
{
    match probe {
        GroupProbe::Reached => true,
        GroupProbe::OtherError => true,
        GroupProbe::NoSuchProcess => match listed {
            Some(pids) => pids.len() > 0,
            None => false,
        },
    }
}

/// The exit code that stands for the end of a child: its own, or 128 and the signal that ended it.
pub open spec fn exit_code(code: Option<i32>, signal: Option<i32>) -> int {
    match (code, signal) {
        (Some(code), _) => code as int,
        (None, Some(signal)) => 128 + signal,
        (None, None) => 1,
    }
}

/// The exit code that stands for the end of a child.
pub fn status_to_code(code: Option<i32>, signal: Option<i32>) -> (r: i32)
    requires
        exit_code(code, signal) <= i32::MAX,
    ensures
        r == exit_code(code, signal),
{
    if let Some(code) = code {
        return code;
    }
    if let Some(signal) = signal {
        return 128 + signal;
    }
    1
}

/// What a byte sequence reads as, with a replacement character for whatever is not UTF-8.
pub uninterp spec fn utf8_lossy(bytes: Seq<u8>) -> Seq<char>;

/// Calls `String::from_utf8_lossy`. Bytes that are UTF-8 are read as what they encode. Of others it
/// is only said that the same bytes always read the same, and that an ASCII character is read only
/// where its byte is: what stands in for the rest is the replacement character.
#[verifier::external_body]
pub(crate) fn from_utf8_lossy(bytes: &[u8]) -> (r: String)
    ensures
        r@ == utf8_lossy(bytes@),
        vstd::utf8::valid_utf8(bytes@) ==> vstd::utf8::encode_utf8(r@) == bytes@,
        forall|i: int|
            0 <= i < r@.len() && (#[trigger] r@[i]) as u32 <= 0x7f ==> bytes@.contains(r@[i] as u8),
{
    String::from_utf8_lossy(bytes).into_owned()
}

/// The texts of arguments given as bytes.
pub open spec fn lossy_all(args: Seq<Vec<u8>>) -> Seq<Seq<char>> {
    Seq::new(args.len(), |i: int| utf8_lossy(args[i]@))
}

/// A command line as text.
pub fn command_strings(command: &[Vec<u8>]) -> (r: Vec<String>)
    ensures
        text::contents(r@) == lossy_all(command@),
{
    let mut out: Vec<String> = Vec::new();
    for i in 0..command.len()
        invariant
            out.len() == i,
            forall|j: int| 0 <= j < i ==> out[j]@ == utf8_lossy(command[j]@),
    {
        out.push(from_utf8_lossy(command[i].as_slice()));
    }
    assert(text::contents(out@) =~= lossy_all(command@));
    out
}

/// How many bytes stand before the first zero byte.
pub open spec fn run_len(s: Seq<u8>) -> nat
    decreases s.len(),
{
    if s.len() > 0 && s.first() != 0 {
        1 + run_len(s.drop_first())
    } else {
        0
    }
}

/// The longest runs without a zero byte, in order.
pub open spec fn runs(s: Seq<u8>) -> Seq<Seq<u8>>
    decreases s.len(),
{
    if s.len() == 0 {
        Seq::empty()
    } else if s.first() == 0 {
        runs(s.drop_first())
    } else {
        proof {
            lemma_run_len(s);
        }
        seq![s.take(run_len(s) as int)] + runs(s.skip(run_len(s) as int))
    }
}

/// A run is no longer than its bytes, and not empty where they start with it.
pub proof fn lemma_run_len(s: Seq<u8>)
    ensures
        run_len(s) <= s.len(),
        s.len() > 0 && s.first() != 0 ==> run_len(s) > 0,
    decreases s.len(),
{
    if s.len() > 0 && s.first() != 0 {
        lemma_run_len(s.drop_first());
    }
}

/// Runs of bytes as text.
pub open spec fn lossy_runs(parts: Seq<Seq<u8>>) -> Seq<Seq<char>> {
    Seq::new(parts.len(), |i: int| utf8_lossy(parts[i]))
}

/// A command line of the kernel, its arguments ended by zero bytes, as text with spaces between
/// the arguments. Empty arguments are left out.
pub open spec fn cmdline_text(raw: Seq<u8>) -> Seq<char> {
    text::join(lossy_runs(runs(raw)), " "@)
}

fn count_run(s: &[u8]) -> (n: usize)
    ensures
        n == run_len(s@),
        n <= s.len(),
{
    let mut i: usize = 0;
    assert(s@.skip(0) =~= s@);
    while i < s.len() && s[i] != 0
        invariant
            i <= s.len(),
            run_len(s@) == i + run_len(s@.skip(i as int)),
        decreases s.len() - i,
    {
        assert(s@.skip(i as int).drop_first() =~= s@.skip(i + 1));
        i = i + 1;
    }
    i
}

/// A command line of the kernel as text.
pub fn read_cmdline(raw: &[u8]) -> (r: String)
    ensures
        r@ == cmdline_text(raw@),
{
    let mut parts: Vec<String> = Vec::new();
    let mut rest: &[u8] = raw;
    assert(text::contents(parts@) + lossy_runs(runs(rest@)) =~= lossy_runs(runs(raw@)));
    while rest.len() > 0
        invariant
            lossy_runs(runs(raw@)) == text::contents(parts@) + lossy_runs(runs(rest@)),
        decreases rest.len(),
    {
        if rest[0] == 0 {
            let next = slice_subrange(rest, 1, rest.len());
            assert(next@ =~= rest@.drop_first());
            rest = next;
        } else {
            let n = count_run(rest);
            proof {
                lemma_run_len(rest@);
            }
            let run = slice_subrange(rest, 0, n);
            let next = slice_subrange(rest, n, rest.len());
            let ghost before = parts@;
            let part = from_utf8_lossy(run);
            parts.push(part);
            proof {
                assert(run@ =~= rest@.take(n as int));
                assert(next@ =~= rest@.skip(n as int));
                assert(text::contents(parts@) =~= text::contents(before).push(part@));
                assert(lossy_runs(runs(rest@)) =~= seq![part@] + lossy_runs(runs(next@)));
                assert(text::contents(before) + lossy_runs(runs(rest@)) =~= text::contents(parts@)
                    + lossy_runs(runs(next@)));
            }
            rest = next;
        }
    }
    assert(text::contents(parts@) + lossy_runs(runs(rest@)) =~= text::contents(parts@));
    text::join_strings(parts.as_slice(), " ")
}

/// Why the memory of a process cannot be read from its status.
#[derive(Clone, Copy, Debug, PartialEq, Eq, Structural)]
pub enum RssError {
    NoValue,
    Value(WholeError),
}

/// What a status says of the memory of a process.
pub enum RssScan {
    /// Nothing.
    Absent,
    /// So many bytes.
    Bytes(nat),
    /// Something unusable.
    Fault(RssError),
    /// A value that is too large in bytes.
    Overflow,
}

/// What a status line says behind `VmRSS:`.
pub open spec fn rss_value(rest: Seq<char>) -> RssScan {
    let words = text::words(rest);
    if words.len() == 0 {
        RssScan::Fault(RssError::NoValue)
    } else {
        match number::whole_from_text(words[0], u64::MAX as nat) {
            Ok(kb) => if kb * 1024 > u64::MAX {
                RssScan::Overflow
            } else {
                RssScan::Bytes(kb * 1024)
            },
            Err(cause) => RssScan::Fault(RssError::Value(cause)),
        }
    }
}

/// What the first line that starts with `VmRSS:` says.
pub open spec fn rss_scan(lines: Seq<Seq<char>>) -> RssScan
    decreases lines.len(),
{
    if lines.len() == 0 {
        RssScan::Absent
    } else if text::starts_with(lines.first(), "VmRSS:"@) {
        rss_value(lines.first().skip("VmRSS:"@.len() as int))
    } else {
        rss_scan(lines.drop_first())
    }
}

/// What a status says of the memory of a process.
pub open spec fn rss_from_status(status: Seq<char>) -> RssScan {
    rss_scan(text::lines(status))
}

enum RssRead {
    Absent,
    Bytes(u64),
    Fault(RssError),
    Overflow,
}

impl View for RssRead {
    type V = RssScan;

    closed spec fn view(&self) -> RssScan {
        match *self {
            RssRead::Absent => RssScan::Absent,
            RssRead::Bytes(b) => RssScan::Bytes(b as nat),
            RssRead::Fault(e) => RssScan::Fault(e),
            RssRead::Overflow => RssScan::Overflow,
        }
    }
}

fn rss_read(status: &str) -> (r: RssRead)
    ensures
        r@ == rss_from_status(status@),
{
    let chars = text::to_chars(status);
    let lines = text::split_lines(chars.as_slice());
    let key = text::to_chars("VmRSS:");
    let ghost all = text::pieces(lines@);
    assert(all.skip(0) =~= all);
    for i in 0..lines.len()
        invariant
            all == text::pieces(lines@),
            all == text::lines(status@),
            key@ == "VmRSS:"@,
            rss_scan(all) == rss_scan(all.skip(i as int)),
    {
        assert(all.skip(i as int).drop_first() =~= all.skip(i + 1));
        assert(all.skip(i as int).first() == lines[i as int]@);
        let line = lines[i].as_slice();
        if text::has_prefix(line, key.as_slice()) {
            let rest = slice_subrange(line, key.len(), line.len());
            assert(rest@ =~= line@.skip(key.len() as int));
            let words = text::split_words(rest);
            assert(text::pieces(words@).len() == words.len());
            if words.len() == 0 {
                return RssRead::Fault(RssError::NoValue);
            }
            assert(text::pieces(words@)[0] == words[0]@);
            return match number::parse_whole(words[0].as_slice(), u64::MAX) {
                Ok(kb) => if kb > u64::MAX / 1024 {
                    RssRead::Overflow
                } else {
                    RssRead::Bytes(kb * 1024)
                },
                Err(cause) => RssRead::Fault(RssError::Value(cause)),
            };
        }
    }
    assert(all.skip(lines.len() as int) =~= Seq::<Seq<char>>::empty());
    RssRead::Absent
}

/// Whether a status gives a memory size too large to count in bytes.
pub fn rss_overflows(status: &str) -> (r: bool)
    ensures
        r == rss_from_status(status@) is Overflow,
{
    match rss_read(status) {
        RssRead::Overflow => true,
        _ => false,
    }
}

/// The memory of a process in bytes, where its status gives it.
pub fn read_rss_bytes(status: &str) -> (r: Result<Option<u64>, RssError>)
    requires
        !(rss_from_status(status@) is Overflow),
    ensures
        rss_from_status(status@) == match r {
            Ok(Some(bytes)) => RssScan::Bytes(bytes as nat),
            Ok(None) => RssScan::Absent,
            Err(e) => RssScan::Fault(e),
        },
{
    match rss_read(status) {
        RssRead::Absent => Ok(None),
        RssRead::Bytes(bytes) => Ok(Some(bytes)),
        RssRead::Fault(e) => Err(e),
        RssRead::Overflow => vstd::pervasive::unreached(),
    }
}

impl RssError {
    /// The words for the fault.
    pub fn message(&self) -> (r: String)
        ensures
            r@ == match *self {
                RssError::NoValue => "missing VmRSS value"@,
                RssError::Value(cause) => number::whole_error_text(cause),
            },
    {
        match self {
            RssError::NoValue => "missing VmRSS value".to_string(),
            RssError::Value(cause) => cause.message(),
        }
    }
}

/// An entry of the process directory: its name where that is text, and its command line and
/// status where they can be read.
pub struct ProcEntry {
    pub name: Option<String>,
    pub cmdline: Option<Vec<u8>>,
    pub status: Option<String>,
}

/// The command line of an entry, empty where it cannot be read.
pub open spec fn entry_command(e: ProcEntry) -> Seq<char> {
    match e.cmdline {
        Some(raw) => cmdline_text(raw@),
        None => Seq::empty(),
    }
}

/// The number that names an entry.
pub open spec fn entry_pid(e: ProcEntry) -> Option<nat> {
    match e.name {
        Some(name) => match number::whole_from_text(name@, u32::MAX as nat) {
            Ok(pid) => Some(pid),
            Err(_) => None,
        },
        None => None,
    }
}

/// Whether an entry is that of a process with a command line.
pub open spec fn is_listed(e: ProcEntry) -> bool {
    entry_pid(e) is Some && entry_command(e).len() > 0
}

/// The memory of the process of an entry, where it is known.
pub open spec fn entry_rss(e: ProcEntry) -> Option<u64> {
    match e.status {
        Some(status) => match rss_from_status(status@) {
            RssScan::Bytes(b) => Some(b as u64),
            _ => None,
        },
        None => None,
    }
}

/// Whether the entry of a listed process gives a memory size too large to count in bytes.
pub open spec fn entry_overflows(e: ProcEntry) -> bool {
    &&& is_listed(e)
    &&& e.status matches Some(status)
    &&& rss_from_status(status@) is Overflow
}

/// The processes of entries, in their order.
pub open spec fn listed(entries: Seq<ProcEntry>) -> Seq<ProcessView>
    decreases entries.len(),
{
    if entries.len() == 0 {
        Seq::empty()
    } else {
        let before = listed(entries.drop_last());
        let e = entries.last();
        if is_listed(e) {
            before.push(
                ProcessView {
                    pid: entry_pid(e)->0 as u32,
                    command: entry_command(e),
                    rss_bytes: entry_rss(e),
                },
            )
        } else {
            before
        }
    }
}

fn pid_and_command(e: &ProcEntry) -> (r: Option<(u32, String)>)
    ensures
        match r {
            Some((pid, command)) => is_listed(*e) && entry_pid(*e) == Some(pid as nat) && command@
                == entry_command(*e),
            None => !is_listed(*e),
        },
{
    let pid: u32 = match &e.name {
        Some(name) => match number::parse_whole(
            text::to_chars(name.as_str()).as_slice(),
            u32::MAX as u64,
        ) {
            Ok(pid) => pid as u32,
            Err(_) => {
                return None;
            },
        },
        None => {
            return None;
        },
    };
    let command = match &e.cmdline {
        Some(raw) => read_cmdline(raw.as_slice()),
        None => String::new(),
    };
    if command.as_str().is_empty() {
        return None;
    }
    Some((pid, command))
}

/// Whether the entry of a listed process gives a memory size too large to count in bytes.
pub fn process_list_overflows(entries: &[ProcEntry]) -> (r: bool)
    ensures
        r == exists|i: int| 0 <= i < entries.len() && #[trigger] entry_overflows(entries[i]),
{
    for i in 0..entries.len()
        invariant
            forall|j: int| 0 <= j < i ==> !entry_overflows(#[trigger] entries[j]),
    {
        if pid_and_command(&entries[i]).is_some() {
            if let Some(status) = &entries[i].status {
                if rss_overflows(status.as_str()) {
                    assert(entry_overflows(entries[i as int]));
                    return true;
                }
            }
        }
    }
    false
}

/// The processes of entries.
pub fn process_list(entries: &[ProcEntry]) -> (r: Vec<ProcessInfo>)
    requires
        forall|i: int| 0 <= i < entries.len() ==> !entry_overflows(#[trigger] entries[i]),
    ensures
        process_views(r@) == listed(entries@),
{
    let mut out: Vec<ProcessInfo> = Vec::new();
    assert(process_views(out@) =~= listed(entries@.take(0)));
    for i in 0..entries.len()
        invariant
            forall|i: int| 0 <= i < entries.len() ==> !entry_overflows(#[trigger] entries[i]),
            process_views(out@) == listed(entries@.take(i as int)),
    {
        assert(entries@.take(i + 1).drop_last() =~= entries@.take(i as int));
        let ghost before = out@;
        assert(!entry_overflows(entries[i as int]));
        if let Some((pid, command)) = pid_and_command(&entries[i]) {
            let rss_bytes: Option<u64> = match &entries[i].status {
                Some(status) => match read_rss_bytes(status.as_str()) {
                    Ok(rss) => rss,
                    Err(_) => None,
                },
                None => None,
            };
            let info = ProcessInfo { pid, command, rss_bytes };
            assert(info@.rss_bytes == entry_rss(entries[i as int]));
            out.push(info);
            assert(process_views(out@) =~= process_views(before).push(info@));
        }
    }
    assert(entries@.take(entries.len() as int) =~= entries@);
    out
}

/// The processes of entries, or nothing where one gives a memory size too large to count in bytes.
pub fn checked_process_list(entries: &[ProcEntry]) -> (r: Option<Vec<ProcessInfo>>)
    ensures
        match r {
            Some(list) => process_views(list@) == listed(entries@) && forall|i: int|
                0 <= i < entries.len() ==> !entry_overflows(#[trigger] entries[i]),
            None => exists|i: int| 0 <= i < entries.len() && #[trigger] entry_overflows(entries[i]),
        },
{
    if process_list_overflows(entries) {
        None
    } else {
        Some(process_list(entries))
    }
}

/// Whether a command line starts a program of the given name.
pub open spec fn invokes(command: Seq<char>, executable: Seq<char>) -> bool {
    let words = text::words(command);
    words.len() > 0 && path::file_name(words[0]) == Some(executable)
}

/// Whether a command line starts a program of the given name.
pub fn command_invokes_executable(command: &str, executable: &str) -> (r: bool)
    ensures
        r == invokes(command@, executable@),
{
    let words = text::split_words(text::to_chars(command).as_slice());
    assert(text::pieces(words@).len() == words.len());
    if words.len() == 0 {
        return false;
    }
    assert(text::pieces(words@)[0] == words[0]@);
    match path::name_of(words[0].as_slice()) {
        Some(name) => text::spells(name.as_slice(), executable),
        None => false,
    }
}

/// Whether a process other than `current` is earlyoom.
pub open spec fn is_other_earlyoom(p: ProcessView, current: u32) -> bool {
    p.pid != current && invokes(p.command, "earlyoom"@)
}

/// Whether earlyoom counts as active: as a setting says, or else as the processes show.
pub open spec fn earlyoom_is_active(
    setting: Option<Seq<char>>,
    processes: Seq<ProcessView>,
    current: u32,
) -> bool {
    match setting {
        Some(value) => value == "1"@ || value == "true"@ || value == "yes"@ || value == "on"@,
        None => exists|i: int|
            0 <= i < processes.len() && #[trigger] is_other_earlyoom(processes[i], current),
    }
}

/// Whether earlyoom counts as active.
pub fn earlyoom_active(setting: &Option<String>, processes: &[ProcessInfo], current: u32) -> (r:
    bool)
    ensures
        r == earlyoom_is_active(text::content_of(*setting), process_views(processes@), current),
{
    if let Some(value) = setting {
        let chars = text::to_chars(value.as_str());
        let v = chars.as_slice();
        return text::spells(v, "1") || text::spells(v, "true") || text::spells(v, "yes")
            || text::spells(v, "on");
    }
    let ghost views = process_views(processes@);
    for i in 0..processes.len()
        invariant
            *setting is None,
            views == process_views(processes@),
            forall|j: int| 0 <= j < i ==> !is_other_earlyoom(#[trigger] views[j], current),
    {
        assert(views[i as int] == processes[i as int]@);
        if processes[i].pid != current && command_invokes_executable(
            processes[i].command.as_str(),
            "earlyoom",
        ) {
            assert(is_other_earlyoom(views[i as int], current));
            return true;
        }
    }
    false
}

/// Whether a command line, with its capital letters made small, names a program that is known to
/// use much memory.
pub open spec fn names_large_program(command: Seq<char>) -> bool {
    let lower = text::ascii_lower(command);
    ||| text::contains(lower, "vllm"@)
    ||| text::contains(lower, "llama-server"@)
    ||| text::contains(lower, "llama-cli"@)
    ||| text::contains(lower, "sglang"@)
    ||| text::contains(lower, "trtllm"@)
    ||| text::contains(lower, "text-generation-launcher"@)
    ||| text::contains(lower, "ollama"@)
    ||| text::contains(lower, "lmstudio"@)
    ||| text::contains(lower, "gpu_worker"@)
    ||| text::contains(lower, "api_server"@)
    ||| text::contains(lower, "torchrun"@)
}

/// Whether a process other than `current` is known to use much memory.
pub open spec fn is_other_large(p: ProcessView, current: u32) -> bool {
    p.pid != current && names_large_program(p.command)
}

fn mentions(lower: &[char], pattern: &str) -> (r: bool)
    ensures
        r == text::contains(lower@, pattern@),
{
    text::find(lower, text::to_chars(pattern).as_slice())
}

fn large_program(command: &str) -> (r: bool)
    ensures
        r == names_large_program(command@),
{
    let chars = text::to_ascii_lower(text::to_chars(command).as_slice());
    let lower = chars.as_slice();
    mentions(lower, "vllm") || mentions(lower, "llama-server") || mentions(lower, "llama-cli")
        || mentions(lower, "sglang") || mentions(lower, "trtllm") || mentions(
        lower,
        "text-generation-launcher",
    ) || mentions(lower, "ollama") || mentions(lower, "lmstudio") || mentions(lower, "gpu_worker")
        || mentions(lower, "api_server") || mentions(lower, "torchrun")
}

/// The processes other than `current` that are known to use much memory.
pub fn known_high_memory_processes(processes: Vec<ProcessInfo>, current: u32) -> (r: Vec<
    ProcessInfo,
>)
    ensures
        process_views(r@) == process_views(processes@).filter(
            |p: ProcessView| is_other_large(p, current),
        ),
{
    let mut out: Vec<ProcessInfo> = Vec::new();
    let ghost views = process_views(processes@);
    let ghost large = |p: ProcessView| is_other_large(p, current);
    assert(process_views(out@) =~= views.take(0).filter(large)) by {
        reveal(Seq::filter);
    }
    for i in 0..processes.len()
        invariant
            views == process_views(processes@),
            large == (|p: ProcessView| is_other_large(p, current)),
            process_views(out@) == views.take(i as int).filter(large),
    {
        let ghost before = out@;
        proof {
            reveal(Seq::filter);
            assert(views.take(i + 1).drop_last() =~= views.take(i as int));
            assert(views[i as int] == processes[i as int]@);
        }
        let p = &processes[i];
        if p.pid != current && large_program(p.command.as_str()) {
            let copy = ProcessInfo {
                pid: p.pid,
                command: p.command.clone(),
                rss_bytes: p.rss_bytes,
            };
            out.push(copy);
            assert(process_views(out@) =~= process_views(before).push(copy@));
        }
    }
    assert(views.take(processes.len() as int) =~= views);
    out
}

/// Free space on a disk in bytes.
pub fn disk_available(blocks: u64, block_size: u64) -> (r: u64)
    requires
        blocks * block_size <= u64::MAX,
    ensures
        r == blocks * block_size,
{
    blocks * block_size
}

/// The signal that is pending, if any.
pub fn pending_shutdown_signal(signal: usize) -> (r: Option<i32>)
    ensures
        r == if signal == 0 {
            None
        } else {
            Some(signal as i32)
        },
{
    match signal {
        0 => None,
        number => Some(number as i32),
    }
}

} // verus!
