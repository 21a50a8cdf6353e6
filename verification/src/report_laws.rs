//! What the reports show.
use crate::process::ProcessView;
use crate::report::{self, DoctorView, InspectView};
use crate::{size, text};
use vstd::prelude::*;

verus! {

/// There is a warning for each of the two things that are to be warned of, and for nothing else.
pub proof fn law_warnings_tell_what_is_wrong(earlyoom: bool, crowded: bool)
    ensures
        ({
            let first = "earlyoom is not active; high-risk profiles will refuse to launch by default"@;
            let second = "known high-memory processes are already running"@;
            let warnings = report::warnings_for(earlyoom, crowded);
            &&& !earlyoom && crowded ==> warnings == seq![first, second]
            &&& !earlyoom && !crowded ==> warnings == seq![first]
            &&& earlyoom && crowded ==> warnings == seq![second]
            &&& earlyoom && !crowded ==> warnings == Seq::<Seq<char>>::empty()
        }),
{
    let first = "earlyoom is not active; high-risk profiles will refuse to launch by default"@;
    let second = "known high-memory processes are already running"@;
    assert(seq![first] + seq![second] =~= seq![first, second]);
    assert(seq![first] + Seq::<Seq<char>>::empty() =~= seq![first]);
    assert(Seq::<Seq<char>>::empty() + seq![second] =~= seq![second]);
    assert(Seq::<Seq<char>>::empty() + Seq::<Seq<char>>::empty() =~= Seq::<Seq<char>>::empty());
}

proof fn lemma_middle(a: Seq<char>, p: Seq<char>, b: Seq<char>)
    ensures
        text::contains(a + p + b, p),
{
    let s = a + p + b;
    assert(s.subrange(a.len() as int, (a.len() + p.len()) as int) =~= p);
    assert(text::occurs_at(s, p, a.len() as int));
}

proof fn lemma_within(s: Seq<char>, p: Seq<char>, a: Seq<char>, b: Seq<char>)
    requires
        text::contains(s, p),
    ensures
        text::contains(a + s + b, p),
{
    let i = choose|i: int| text::occurs_at(s, p, i);
    let t = a + s + b;
    assert(t.subrange(a.len() + i, a.len() + i + p.len()) =~= s.subrange(i, i + p.len()));
    assert(text::occurs_at(t, p, a.len() + i));
}

/// What stands before the processes of a report on the machine.
spec fn head(d: DoctorView) -> Seq<char> {
    "oomwrap doctor\n"@ + "  os: "@ + d.os + "\n"@ + "  arch: "@ + d.arch + "\n"@
        + "  memory: available="@ + size::bytes_text(d.mem.mem_available_bytes as nat)
        + " swap_free="@ + size::bytes_text(d.mem.swap_free_bytes as nat) + "\n"@ + "  earlyoom: "@
        + (if d.earlyoom_active {
        "active"@
    } else {
        "not active"@
    }) + "\n"@ + (match d.home_disk_available_bytes {
        Some(n) => "  home disk available: "@ + size::bytes_text(n as nat) + "\n"@,
        None => Seq::empty(),
    }) + "  known high-memory processes: "@ + text::decimal(d.known_high_memory_processes.len())
        + "\n"@
}

/// A report on the machine shows the memory and the swap that are left, whether `earlyoom` is active,
/// the free space on the disk where that is known, and how many large processes there are.
pub proof fn law_doctor_shows_the_machine(d: DoctorView)
    ensures
        text::contains(
            d.text(),
            "  memory: available="@ + size::bytes_text(d.mem.mem_available_bytes as nat)
                + " swap_free="@ + size::bytes_text(d.mem.swap_free_bytes as nat) + "\n"@,
        ),
        d.earlyoom_active ==> text::contains(d.text(), "  earlyoom: "@ + "active"@ + "\n"@),
        !d.earlyoom_active ==> text::contains(d.text(), "  earlyoom: "@ + "not active"@ + "\n"@),
        d.home_disk_available_bytes matches Some(n) ==> text::contains(
            d.text(),
            "  home disk available: "@ + size::bytes_text(n as nat) + "\n"@,
        ),
        text::contains(
            d.text(),
            "  known high-memory processes: "@ + text::decimal(d.known_high_memory_processes.len())
                + "\n"@,
        ),
{
    lemma_machine(d);
    lemma_pieces(intro(d), memory_line(d), earlyoom_line(d), disk_line(d), count_line(d), rest(d));
}

spec fn intro(d: DoctorView) -> Seq<char> {
    "oomwrap doctor\n"@ + "  os: "@ + d.os + "\n"@ + "  arch: "@ + d.arch + "\n"@
}

spec fn memory_line(d: DoctorView) -> Seq<char> {
    "  memory: available="@ + size::bytes_text(d.mem.mem_available_bytes as nat) + " swap_free="@
        + size::bytes_text(d.mem.swap_free_bytes as nat) + "\n"@
}

spec fn earlyoom_line(d: DoctorView) -> Seq<char> {
    "  earlyoom: "@ + (if d.earlyoom_active {
        "active"@
    } else {
        "not active"@
    }) + "\n"@
}

spec fn disk_line(d: DoctorView) -> Seq<char> {
    match d.home_disk_available_bytes {
        Some(n) => "  home disk available: "@ + size::bytes_text(n as nat) + "\n"@,
        None => Seq::empty(),
    }
}

spec fn count_line(d: DoctorView) -> Seq<char> {
    "  known high-memory processes: "@ + text::decimal(d.known_high_memory_processes.len())
        + "\n"@
}

spec fn rest(d: DoctorView) -> Seq<char> {
    report::process_lines(report::first(d.known_high_memory_processes, 10))
        + report::warning_lines(d.warnings)
}

proof fn lemma_machine(d: DoctorView)
    ensures
        d.text() == intro(d) + memory_line(d) + earlyoom_line(d) + disk_line(d) + count_line(d)
            + rest(d),
{
    let t1 = intro(d);
    let mem = size::bytes_text(d.mem.mem_available_bytes as nat);
    let swap = size::bytes_text(d.mem.swap_free_bytes as nat);
    lemma_grouped(t1, "  memory: available="@, mem, " swap_free="@, swap, "\n"@);
    let t2 = t1 + memory_line(d);
    let active = if d.earlyoom_active {
        "active"@
    } else {
        "not active"@
    };
    lemma_three_grouped(t2, "  earlyoom: "@, active, "\n"@);
    let t3 = t2 + earlyoom_line(d);
    let t4 = t3 + disk_line(d);
    let count = text::decimal(d.known_high_memory_processes.len());
    lemma_three_grouped(t4, "  known high-memory processes: "@, count, "\n"@);
    let t5 = t4 + count_line(d);
    let lines = report::process_lines(report::first(d.known_high_memory_processes, 10));
    let warnings = report::warning_lines(d.warnings);
    assert(t5 + lines + warnings =~= t5 + (lines + warnings));
}

proof fn lemma_grouped(
    t: Seq<char>,
    a: Seq<char>,
    b: Seq<char>,
    c: Seq<char>,
    d: Seq<char>,
    e: Seq<char>,
)
    ensures
        t + a + b + c + d + e == t + (a + b + c + d + e),
{
    assert(t + a + b + c + d + e =~= t + (a + b + c + d + e));
}

proof fn lemma_three_grouped(t: Seq<char>, a: Seq<char>, b: Seq<char>, c: Seq<char>)
    ensures
        t + a + b + c == t + (a + b + c),
{
    assert(t + a + b + c =~= t + (a + b + c));
}

proof fn lemma_pieces(
    a: Seq<char>,
    b: Seq<char>,
    c: Seq<char>,
    d: Seq<char>,
    e: Seq<char>,
    f: Seq<char>,
)
    ensures
        text::contains(a + b + c + d + e + f, b),
        text::contains(a + b + c + d + e + f, c),
        text::contains(a + b + c + d + e + f, d),
        text::contains(a + b + c + d + e + f, e),
{
    let s = a + b + c + d + e + f;
    lemma_middle(a, b, c + d + e + f);
    assert(a + b + (c + d + e + f) =~= s);
    lemma_middle(a + b, c, d + e + f);
    assert(a + b + c + (d + e + f) =~= s);
    lemma_middle(a + b + c, d, e + f);
    assert(a + b + c + d + (e + f) =~= s);
    lemma_middle(a + b + c + d, e, f);
}

proof fn lemma_process_is_shown(ps: Seq<ProcessView>, i: int)
    requires
        0 <= i < ps.len(),
    ensures
        text::contains(report::process_lines(ps), report::process_line(ps[i])),
    decreases ps.len(),
{
    let front = ps.drop_last();
    let lines = report::process_lines(front);
    let line = report::process_line(ps.last());
    if i == ps.len() - 1 {
        lemma_middle(lines, line, Seq::empty());
        assert(lines + line + Seq::<char>::empty() =~= lines + line);
    } else {
        lemma_process_is_shown(front, i);
        lemma_within(lines, report::process_line(ps[i]), Seq::empty(), line);
        assert(Seq::<char>::empty() + lines + line =~= lines + line);
    }
}

/// The first ten of the large processes are shown, each with its number, its memory and its command
/// line on a line of its own.
pub proof fn law_doctor_shows_ten_processes(d: DoctorView, i: int)
    requires
        0 <= i < d.known_high_memory_processes.len(),
        i < 10,
    ensures
        ({
            let p = d.known_high_memory_processes[i];
            text::contains(
                d.text(),
                "    pid="@ + text::decimal(p.pid as nat) + " rss="@ + size::bytes_text(
                    if p.rss_bytes is Some {
                        p.rss_bytes->0 as nat
                    } else {
                        0
                    },
                ) + " cmd="@ + p.command + "\n"@,
            )
        }),
{
    let shown = report::first(d.known_high_memory_processes, 10);
    assert(shown[i] == d.known_high_memory_processes[i]);
    lemma_process_is_shown(shown, i);
    let lines = report::process_lines(shown);
    let warnings = report::warning_lines(d.warnings);
    lemma_within(lines, report::process_line(shown[i]), head(d), warnings);
    assert(d.text() =~= head(d) + lines + warnings);
}

/// Processes behind the tenth are counted but not shown: they make no difference to the text but for
/// their number.
pub proof fn law_doctor_shows_no_more(a: DoctorView, b: DoctorView)
    requires
        a == (DoctorView {
            known_high_memory_processes: a.known_high_memory_processes,
            ..b
        }),
        a.known_high_memory_processes.len() == b.known_high_memory_processes.len(),
        a.known_high_memory_processes.len() >= 10,
        a.known_high_memory_processes.take(10) == b.known_high_memory_processes.take(10),
    ensures
        a.text() == b.text(),
{
    let x = report::first(a.known_high_memory_processes, 10);
    let y = report::first(b.known_high_memory_processes, 10);
    assert(x =~= a.known_high_memory_processes.take(10));
    assert(y =~= b.known_high_memory_processes.take(10));
}

/// Every warning is shown on a line of its own.
pub proof fn law_doctor_shows_every_warning(d: DoctorView, i: int)
    requires
        0 <= i < d.warnings.len(),
    ensures
        text::contains(d.text(), "  warning: "@ + d.warnings[i] + "\n"@),
{
    lemma_warning_is_shown(d.warnings, i);
    let lines = report::process_lines(report::first(d.known_high_memory_processes, 10));
    let warnings = report::warning_lines(d.warnings);
    let line = "  warning: "@ + d.warnings[i] + "\n"@;
    lemma_within(warnings, line, head(d) + lines, Seq::empty());
    assert(d.text() =~= head(d) + lines + warnings + Seq::<char>::empty());
}

proof fn lemma_warning_is_shown(warnings: Seq<Seq<char>>, i: int)
    requires
        0 <= i < warnings.len(),
    ensures
        text::contains(report::warning_lines(warnings), "  warning: "@ + warnings[i] + "\n"@),
    decreases warnings.len(),
{
    let front = report::warning_lines(warnings.drop_last());
    let line = "  warning: "@ + warnings.last() + "\n"@;
    assert(report::warning_lines(warnings) =~= front + line);
    if i == warnings.len() - 1 {
        lemma_middle(front, line, Seq::empty());
        assert(front + line + Seq::<char>::empty() =~= front + line);
    } else {
        lemma_warning_is_shown(warnings.drop_last(), i);
        lemma_within(front, "  warning: "@ + warnings[i] + "\n"@, Seq::empty(), line);
        assert(Seq::<char>::empty() + front + line =~= front + line);
    }
}

/// The defaults: floors of 24 and 4 gibibytes, a look every second, and ten seconds to follow a
/// request to end.
pub proof fn law_defaults()
    ensures
        report::DEFAULT_MIN_MEM@ == "24G"@,
        report::DEFAULT_MIN_SWAP@ == "4G"@,
        report::DEFAULT_POLL@ == "1s"@,
        report::DEFAULT_TERM_GRACE@ == "10s"@,
{
}

/// A report on the guard shows the program, the directory for shims, each of the tools and the four
/// defaults.
pub proof fn law_inspect_shows_the_guard(v: InspectView)
    ensures
        text::contains(v.text(), "  binary: "@ + v.oomwrap_bin + "\n"@),
        text::contains(v.text(), "  default bin dir: "@ + v.home_bin_dir + "\n"@),
        text::contains(
            v.text(),
            "  defaults: min_mem="@ + v.default_min_mem + " min_swap="@ + v.default_min_swap
                + " poll="@ + v.default_poll + " term_grace="@ + v.default_term_grace + "\n"@,
        ),
        forall|i: int|
            0 <= i < v.default_tools.len() ==> text::contains(
                v.text(),
                #[trigger] v.default_tools[i],
            ),
{
    let a = "oomwrap inspect\n"@;
    let b = "  binary: "@ + v.oomwrap_bin + "\n"@;
    let c = "  default bin dir: "@ + v.home_bin_dir + "\n"@;
    let tools = text::join(v.default_tools, ", "@);
    let d = "  default tools: "@;
    let e = "  defaults: min_mem="@ + v.default_min_mem + " min_swap="@ + v.default_min_swap
        + " poll="@ + v.default_poll + " term_grace="@ + v.default_term_grace + "\n"@;
    assert(v.text() =~= a + b + c + d + tools + "\n"@ + e);
    lemma_middle(a, b, c + d + tools + "\n"@ + e);
    assert(a + b + (c + d + tools + "\n"@ + e) =~= v.text());
    lemma_middle(a + b, c, d + tools + "\n"@ + e);
    assert(a + b + c + (d + tools + "\n"@ + e) =~= v.text());
    lemma_middle(a + b + c + d + tools + "\n"@, e, Seq::empty());
    assert(a + b + c + d + tools + "\n"@ + e + Seq::<char>::empty() =~= v.text());
    assert forall|i: int| 0 <= i < v.default_tools.len() implies text::contains(
        v.text(),
        #[trigger] v.default_tools[i],
    ) by {
        law_joined_parts_are_there(v.default_tools, ", "@, i);
        lemma_within(tools, v.default_tools[i], a + b + c + d, "\n"@ + e);
        assert(a + b + c + d + tools + ("\n"@ + e) =~= v.text());
    }
}

/// Every part stands in what was joined from the parts.
pub proof fn law_joined_parts_are_there(parts: Seq<Seq<char>>, sep: Seq<char>, i: int)
    requires
        0 <= i < parts.len(),
    ensures
        text::contains(text::join(parts, sep), parts[i]),
    decreases parts.len(),
{
    if parts.len() == 1 {
        lemma_middle(Seq::empty(), parts[0], Seq::empty());
        assert(Seq::<char>::empty() + parts[0] + Seq::<char>::empty() =~= parts[0]);
    } else {
        let front = text::join(parts.drop_last(), sep);
        let last = parts.last();
        if i == parts.len() - 1 {
            lemma_middle(front + sep, last, Seq::empty());
            assert(front + sep + last + Seq::<char>::empty() =~= front + sep + last);
        } else {
            law_joined_parts_are_there(parts.drop_last(), sep, i);
            lemma_within(front, parts[i], Seq::empty(), sep + last);
            assert(Seq::<char>::empty() + front + (sep + last) =~= front + sep + last);
        }
    }
}

} // verus!
