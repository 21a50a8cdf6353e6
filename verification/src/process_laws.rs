//! What is read of processes: their groups, their memory, their command lines.
use crate::meminfo_laws::{self, is_gap, is_one_line, is_word};
use crate::number::{self, WholeError};
use crate::process::{self, GroupProbe, ProcEntry, ProcessView, RssScan, StatEntry, StatError};
use crate::profile_laws;
use crate::text;
use vstd::prelude::*;

verus! {

/// A whole number of 32 bits, with its sign, is read back from its text.
pub proof fn law_signed_numbers_are_read_back(n: int)
    requires
        i32::MIN <= n <= i32::MAX,
    ensures
        number::signed_from_text(text::signed_decimal(n)) == Ok::<int, WholeError>(n),
{
    if n < 0 {
        let digits = text::decimal((-n) as nat);
        let s = seq!['-'] + digits;
        text::lemma_decimal_value((-n) as nat);
        assert(s.drop_first() =~= digits);
        meminfo_laws::lemma_bounded(digits, 0x8000_0000, WholeError::TooSmall);
    } else {
        let digits = text::decimal(n as nat);
        text::lemma_decimal_value(n as nat);
        assert(text::is_digit(digits[0]));
        meminfo_laws::law_numbers_are_read_back(n as nat, 0x7fff_ffff);
    }
}

proof fn lemma_last_index(head: Seq<char>, c: char, rest: Seq<char>)
    requires
        !rest.contains(c),
    ensures
        text::last_index(head + seq![c] + rest, c) == head.len(),
    decreases rest.len(),
{
    let s = head + seq![c] + rest;
    if rest.len() > 0 {
        let front = rest.drop_last();
        assert(rest.contains(rest[rest.len() - 1]));
        assert forall|i: int| 0 <= i < front.len() implies front[i] != c by {
            assert(rest.contains(rest[i]));
        }
        lemma_last_index(head, c, front);
        assert(s.drop_last() =~= head + seq![c] + front);
    } else {
        assert(s.last() == c);
    }
}

/// The process group of a process is the third field behind its name, which stands in parentheses
/// and may itself hold spaces and parentheses.
pub proof fn law_group_is_the_third_field(
    head: Seq<char>,
    state: Seq<char>,
    parent: Seq<char>,
    group: int,
    tail: Seq<char>,
)
    requires
        is_word(state),
        is_word(parent),
        i32::MIN <= group <= i32::MAX,
        tail.len() > 0 ==> tail[0] == ' ',
        !state.contains(')'),
        !parent.contains(')'),
        !tail.contains(')'),
    ensures
        process::group_from_stat(
            head + seq![')'] + (seq![' '] + state + seq![' '] + parent + seq![' ']
                + text::signed_decimal(group) + tail),
        ) == Ok::<int, StatError>(group),
{
    let digits = text::signed_decimal(group);
    let blank = seq![' '];
    let third = digits + tail;
    let second = parent + (blank + third);
    let rest = blank + state + blank + parent + blank + digits + tail;
    let stat = head + seq![')'] + rest;
    lemma_signed_is_word(group);
    assert(!rest.contains(')')) by {
        assert forall|i: int| 0 <= i < rest.len() implies rest[i] != ')' by {
            let a = state.len() as int;
            let b = parent.len() as int;
            let d = digits.len() as int;
            if 1 <= i < 1 + a {
                assert(rest[i] == state[i - 1] && state.contains(state[i - 1]));
            } else if 2 + a <= i < 2 + a + b {
                let j = i - 2 - a;
                assert(rest[i] == parent[j] && parent.contains(parent[j]));
            } else if 3 + a + b <= i < 3 + a + b + d {
                let j = i - 3 - a - b;
                assert(rest[i] == digits[j]);
            } else if i >= 3 + a + b + d {
                let j = i - 3 - a - b - d;
                assert(rest[i] == tail[j] && tail.contains(tail[j]));
            }
        }
    }
    lemma_last_index(head, ')', rest);
    assert(stat.skip(head.len() as int + 1) =~= rest);
    assert(rest =~= blank + (state + (blank + second)));
    meminfo_laws::law_gaps_are_skipped(blank, state + (blank + second));
    meminfo_laws::law_words_are_read_back(state, blank + second);
    meminfo_laws::law_gaps_are_skipped(blank, second);
    meminfo_laws::law_words_are_read_back(parent, blank + third);
    meminfo_laws::law_gaps_are_skipped(blank, third);
    meminfo_laws::law_words_are_read_back(digits, tail);
    let words = text::words(rest);
    assert(words[2] == digits);
    law_signed_numbers_are_read_back(group);
}

proof fn lemma_signed_is_word(n: int)
    ensures
        is_word(text::signed_decimal(n)),
        forall|i: int|
            0 <= i < text::signed_decimal(n).len() ==> #[trigger] text::signed_decimal(n)[i] != ')',
{
    let s = text::signed_decimal(n);
    if n < 0 {
        let digits = text::decimal((-n) as nat);
        text::lemma_decimal_value((-n) as nat);
        assert forall|i: int| 0 <= i < s.len() implies '!' <= #[trigger] s[i] && s[i] <= '~' && s[i]
            != ')' by {
            if i > 0 {
                assert(s[i] == digits[i - 1]);
                assert(text::is_digit(digits[i - 1]));
            }
        }
    } else {
        text::lemma_decimal_value(n as nat);
        assert forall|i: int| 0 <= i < s.len() implies '!' <= #[trigger] s[i] && s[i] <= '~' && s[i]
            != ')' by {
            assert(text::is_digit(text::decimal(n as nat)[i]));
        }
    }
}

/// The members of a group are found entry by entry, in order.
pub proof fn law_members_come_in_order(a: Seq<StatEntry>, b: Seq<StatEntry>, group: int)
    ensures
        process::members(a + b, group) == process::members(a, group) + process::members(b, group),
    decreases b.len(),
{
    if b.len() == 0 {
        assert(a + b =~= a);
        assert(process::members(a, group) + process::members(b, group) =~= process::members(
            a,
            group,
        ));
    } else {
        law_members_come_in_order(a, b.drop_last(), group);
        assert((a + b).drop_last() =~= a + b.drop_last());
        assert(process::members(a + b, group) =~= process::members(a, group) + process::members(
            b,
            group,
        ));
    }
}

/// An entry that is named by a number is that of a member exactly where its group is the one that is
/// looked for; an entry that cannot be read is that of none.
pub proof fn law_member_has_the_group(e: StatEntry, pid: int, group: int, other: int)
    requires
        i32::MIN <= pid <= i32::MAX,
        e.name matches Some(name) ==> name@ == text::signed_decimal(pid),
        e.stat matches Some(stat) ==> process::group_from_stat(stat@) == Ok::<int, StatError>(
            group,
        ),
    ensures
        process::members(seq![e], other) == if e.name is Some && e.stat is Some && group == other {
            seq![pid]
        } else {
            Seq::empty()
        },
{
    law_signed_numbers_are_read_back(pid);
    let one = seq![e];
    assert(one.drop_last() =~= Seq::empty());
    assert(process::members(one.drop_last(), other) =~= Seq::empty());
    assert(process::members(one, other) =~= if e.name is Some && e.stat is Some && group == other {
        seq![pid]
    } else {
        Seq::empty()
    });
}

/// Arguments, each of them ended by a zero byte.
pub open spec fn ended_arguments(args: Seq<Seq<u8>>) -> Seq<u8>
    decreases args.len(),
{
    if args.len() == 0 {
        Seq::empty()
    } else {
        args[0] + seq![0u8] + ended_arguments(args.drop_first())
    }
}

proof fn lemma_run(arg: Seq<u8>, rest: Seq<u8>)
    requires
        !arg.contains(0),
    ensures
        process::run_len(arg + seq![0u8] + rest) == arg.len(),
    decreases arg.len(),
{
    if arg.len() > 0 {
        let tail = arg.drop_first();
        assert(arg.contains(arg[0]));
        assert forall|i: int| 0 <= i < tail.len() implies tail[i] != 0 by {
            assert(arg.contains(arg[i + 1]));
        }
        lemma_run(tail, rest);
        assert((arg + seq![0u8] + rest).drop_first() =~= tail + seq![0u8] + rest);
    }
}

/// The arguments of a process are read back from its command line, all of them and in order.
pub proof fn law_arguments_are_read_back(args: Seq<Seq<u8>>)
    requires
        forall|i: int|
            0 <= i < args.len() ==> (#[trigger] args[i]).len() > 0 && !args[i].contains(0),
    ensures
        process::runs(ended_arguments(args)) == args,
        process::cmdline_text(ended_arguments(args)) == text::join(
            Seq::new(args.len(), |i: int| process::utf8_lossy(args[i])),
            seq![' '],
        ),
    decreases args.len(),
{
    reveal_strlit(" ");
    assert(" "@ =~= seq![' ']);
    if args.len() > 0 {
        let rest = args.drop_first();
        let s = ended_arguments(args);
        let after = ended_arguments(rest);
        assert(args[0].len() > 0 && !args[0].contains(0));
        assert(args[0].contains(args[0][0]));
        assert forall|i: int| 0 <= i < rest.len() implies (#[trigger] rest[i]).len() > 0
            && !rest[i].contains(0) by {
            assert(rest[i] == args[i + 1]);
        }
        law_arguments_are_read_back(rest);
        lemma_run(args[0], after);
        let n = args[0].len() as int;
        assert(s.take(n) =~= args[0]);
        let behind = s.skip(n);
        assert(behind[0] == 0);
        assert(behind.drop_first() =~= after);
        assert(process::runs(behind) == process::runs(after));
        assert(process::runs(s) =~= seq![args[0]] + rest);
        assert(seq![args[0]] + rest =~= args);
    } else {
        assert(process::runs(ended_arguments(args)) =~= args);
    }
    assert(process::lossy_runs(args) =~= Seq::new(
        args.len(),
        |i: int| process::utf8_lossy(args[i]),
    ));
}

/// The memory of a process is 1024 times the number on the first line that begins with `VmRSS:`;
/// lines before it that begin otherwise, and all lines behind it, make no difference.
pub proof fn law_memory_of_a_process(
    before: Seq<Seq<char>>,
    gap: Seq<char>,
    kilobytes: nat,
    tail: Seq<char>,
    behind: Seq<Seq<char>>,
)
    requires
        forall|i: int|
            0 <= i < before.len() ==> is_one_line(#[trigger] before[i]) && !text::starts_with(
                before[i],
                "VmRSS:"@,
            ),
        forall|i: int| 0 <= i < behind.len() ==> is_one_line(#[trigger] behind[i]),
        is_gap(gap),
        is_one_line(tail),
        tail.len() > 0 ==> tail[0] == ' ' || tail[0] == '\t',
        kilobytes * 1024 <= u64::MAX,
    ensures
        process::rss_from_status(
            meminfo_laws::ended_lines(
                before + seq!["VmRSS:"@ + gap + text::decimal(kilobytes) + tail] + behind,
            ),
        ) == RssScan::Bytes(kilobytes * 1024),
{
    let digits = text::decimal(kilobytes);
    let line = "VmRSS:"@ + gap + digits + tail;
    let lines = before + seq![line] + behind;
    reveal_strlit("VmRSS:");
    text::lemma_decimal_value(kilobytes);
    assert forall|i: int| 0 <= i < line.len() implies line[i] != '\n' by {
        if i < 6 {
        } else if i < 6 + gap.len() {
            assert(line[i] == gap[i - 6]);
        } else if i < 6 + gap.len() + digits.len() {
            assert(text::is_digit(digits[i - 6 - gap.len()]));
        } else {
            let j = i - 6 - gap.len() - digits.len();
            assert(line[i] == tail[j] && tail.contains(tail[j]));
        }
    }
    assert(line.last() != '\r') by {
        if tail.len() > 0 {
            assert(line.last() == tail.last());
        } else {
            assert(line.last() == digits[digits.len() - 1]);
            assert(text::is_digit(digits[digits.len() - 1]));
        }
    }
    assert(is_one_line(line));
    assert forall|i: int| 0 <= i < lines.len() implies is_one_line(#[trigger] lines[i]) by {
        if i < before.len() {
            assert(lines[i] == before[i]);
        } else if i > before.len() {
            assert(lines[i] == behind[i - before.len() - 1]);
        }
    }
    meminfo_laws::law_lines_are_read_back(lines);
    lemma_skip_lines(before, seq![line] + behind);
    assert(before + (seq![line] + behind) =~= lines);
    assert((seq![line] + behind)[0] == line);
    assert(line.take(6) =~= "VmRSS:"@);
    assert(line.skip(6) =~= gap + (digits + tail));
    meminfo_laws::law_gaps_are_skipped(gap, digits + tail);
    assert(is_word(digits)) by {
        assert forall|i: int| 0 <= i < digits.len() implies '!' <= #[trigger] digits[i] && digits[i]
            <= '~' by {
            assert(text::is_digit(digits[i]));
        }
    }
    meminfo_laws::law_words_are_read_back(digits, tail);
    meminfo_laws::law_numbers_are_read_back(kilobytes, u64::MAX as nat);
}

proof fn lemma_skip_lines(before: Seq<Seq<char>>, lines: Seq<Seq<char>>)
    requires
        forall|i: int|
            0 <= i < before.len() ==> !text::starts_with(#[trigger] before[i], "VmRSS:"@),
    ensures
        process::rss_scan(before + lines) == process::rss_scan(lines),
    decreases before.len(),
{
    if before.len() > 0 {
        let rest = before.drop_first();
        assert forall|i: int| 0 <= i < rest.len() implies !text::starts_with(
            #[trigger] rest[i],
            "VmRSS:"@,
        ) by {
            assert(rest[i] == before[i + 1]);
        }
        lemma_skip_lines(rest, lines);
        assert(!text::starts_with(before[0], "VmRSS:"@));
        assert((before + lines).drop_first() =~= rest + lines);
    } else {
        assert(before + lines =~= lines);
    }
}

/// A command line starts the program whose name its first word ends with, behind the last slash of
/// that word, whatever its arguments are; and no other program.
pub proof fn law_command_starts_its_first_word(
    gap: Seq<char>,
    dir: Seq<char>,
    name: Seq<char>,
    rest: Seq<char>,
    executable: Seq<char>,
)
    requires
        is_gap(gap),
        profile_laws::is_lead(dir),
        is_word(dir + name),
        name.len() > 0,
        !name.contains('/'),
        name != seq!['.'],
        name != seq!['.', '.'],
        rest.len() > 0 ==> rest[0] == ' ' || rest[0] == '\t',
    ensures
        process::invokes(gap + (dir + name + rest), executable) == (executable == name),
{
    meminfo_laws::law_gaps_are_skipped(gap, dir + name + rest);
    meminfo_laws::law_words_are_read_back(dir + name, rest);
    profile_laws::law_path_ends_in_its_name(dir, name);
}

/// Without a setting, `earlyoom` is active where one of the processes, other than this one, was
/// started from an executable of that name, wherever it is.
pub proof fn law_running_earlyoom_is_seen(
    processes: Seq<ProcessView>,
    i: int,
    dir: Seq<char>,
    rest: Seq<char>,
    current: u32,
)
    requires
        0 <= i < processes.len(),
        processes[i].pid != current,
        profile_laws::is_lead(dir),
        is_word(dir + "earlyoom"@),
        rest.len() > 0 ==> rest[0] == ' ' || rest[0] == '\t',
        processes[i].command == dir + "earlyoom"@ + rest,
    ensures
        process::earlyoom_is_active(None, processes, current),
{
    let name = "earlyoom"@;
    reveal_strlit("earlyoom");
    assert(name[0] == 'e');
    law_command_starts_its_first_word(Seq::empty(), dir, name, rest, name);
    assert(Seq::<char>::empty() + (dir + name + rest) =~= dir + name + rest);
    assert(process::is_other_earlyoom(processes[i], current));
}

/// Without a setting, `earlyoom` is not active where no other process was started from an executable
/// of that name.
pub proof fn law_missing_earlyoom_is_seen(processes: Seq<ProcessView>, current: u32)
    requires
        forall|i: int|
            0 <= i < processes.len() ==> (#[trigger] processes[i]).pid == current
                || !process::invokes(processes[i].command, "earlyoom"@),
    ensures
        !process::earlyoom_is_active(None, processes, current),
{
}

/// A setting decides alone whether `earlyoom` is taken to be active: it is for `1`, `true`, `yes` and
/// `on`, and for nothing else, whatever the processes are.
pub proof fn law_setting_decides_on_earlyoom(
    value: Seq<char>,
    processes: Seq<ProcessView>,
    current: u32,
)
    ensures
        process::earlyoom_is_active(Some(value), processes, current) == (value == seq!['1'] || value
            == seq!['t', 'r', 'u', 'e'] || value == seq!['y', 'e', 's'] || value == seq!['o', 'n']),
{
    reveal_strlit("1");
    reveal_strlit("true");
    reveal_strlit("yes");
    reveal_strlit("on");
    assert("1"@ =~= seq!['1']);
    assert("true"@ =~= seq!['t', 'r', 'u', 'e']);
    assert("yes"@ =~= seq!['y', 'e', 's']);
    assert("on"@ =~= seq!['o', 'n']);
}

/// The programs that are known to use much memory.
pub open spec fn large_programs() -> Seq<Seq<char>> {
    seq![
        "vllm"@,
        "llama-server"@,
        "llama-cli"@,
        "sglang"@,
        "trtllm"@,
        "text-generation-launcher"@,
        "ollama"@,
        "lmstudio"@,
        "gpu_worker"@,
        "api_server"@,
        "torchrun"@,
    ]
}

/// A command line that mentions one of the programs that are known to use much memory, anywhere and
/// in letters of either case, is that of one; and no other is.
pub proof fn law_large_programs_are_known(command: Seq<char>)
    ensures
        process::names_large_program(command) <==> exists|k: int|
            0 <= k < large_programs().len() && text::contains(
                text::ascii_lower(command),
                #[trigger] large_programs()[k],
            ),
{
    let lower = text::ascii_lower(command);
    let all = large_programs();
    assert(all[0] == "vllm"@ && all[1] == "llama-server"@ && all[2] == "llama-cli"@ && all[3]
        == "sglang"@ && all[4] == "trtllm"@ && all[5] == "text-generation-launcher"@ && all[6]
        == "ollama"@ && all[7] == "lmstudio"@ && all[8] == "gpu_worker"@ && all[9] == "api_server"@
        && all[10] == "torchrun"@);
}

/// Processes are listed entry by entry, in order.
pub proof fn law_processes_come_in_order(a: Seq<ProcEntry>, b: Seq<ProcEntry>)
    ensures
        process::listed(a + b) == process::listed(a) + process::listed(b),
    decreases b.len(),
{
    if b.len() == 0 {
        assert(a + b =~= a);
        assert(process::listed(a) + process::listed(b) =~= process::listed(a));
    } else {
        law_processes_come_in_order(a, b.drop_last());
        assert((a + b).drop_last() =~= a + b.drop_last());
        assert(process::listed(a + b) =~= process::listed(a) + process::listed(b));
    }
}

/// An entry that is named by a number and has a command line is that of a process, with that number,
/// that command line, and the memory that its status gives, if any.
pub proof fn law_process_is_listed(e: ProcEntry, pid: u32)
    requires
        e.name matches Some(name) && name@ == text::decimal(pid as nat),
        e.cmdline matches Some(raw) && process::cmdline_text(raw@).len() > 0,
    ensures
        process::listed(seq![e]).len() == 1,
        ({
            let p = process::listed(seq![e])[0];
            &&& p.pid == pid
            &&& p.command == process::cmdline_text(e.cmdline->0@)
            &&& e.status is None ==> p.rss_bytes is None
            &&& e.status matches Some(status) ==> {
                &&& (process::rss_from_status(status@) matches RssScan::Bytes(n) ==> (n <= u64::MAX
                    ==> p.rss_bytes is Some && p.rss_bytes->0 == n))
                &&& !(process::rss_from_status(status@) is Bytes) ==> p.rss_bytes is None
            }
        }),
{
    meminfo_laws::law_numbers_are_read_back(pid as nat, u32::MAX as nat);
    let one = seq![e];
    assert(one.drop_last() =~= Seq::empty());
    assert(process::listed(one.drop_last()) =~= Seq::empty());
    assert(process::is_listed(e));
}

/// An entry without a name, or without a command line, is that of no process.
pub proof fn law_others_are_not_listed(e: ProcEntry)
    requires
        e.name is None || e.cmdline is None || (e.cmdline matches Some(raw)
            && process::cmdline_text(raw@).len() == 0),
    ensures
        process::listed(seq![e]) == Seq::<ProcessView>::empty(),
{
    let one = seq![e];
    assert(one.drop_last() =~= Seq::empty());
    assert(process::listed(one.drop_last()) =~= Seq::empty());
}

/// The process itself is never counted among the large ones, and any other is exactly where its
/// command line says so.
pub proof fn law_own_process_is_not_large(p: ProcessView, current: u32)
    ensures
        process::is_other_large(p, current) == (p.pid != current && process::names_large_program(
            p.command,
        )),
{
}

/// A process group is gone only where the kernel knows no such process and none was listed: a probe
/// that went through, one that failed otherwise, and any member that was listed show that it is there.
pub proof fn law_group_is_gone_only_without_a_trace(probe: GroupProbe, listed: Option<nat>)
    ensures
        process::has_members(probe, listed) <==> probe != GroupProbe::NoSuchProcess || (
        listed matches Some(n) && n > 0),
{
}

} // verus!
