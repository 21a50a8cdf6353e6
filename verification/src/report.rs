//! Reports: how the machine stands, and how the guard is set up.
use crate::meminfo::MemInfo;
use crate::process::{self, ProcessInfo, ProcessView};
use crate::{shim, size, text};
use vstd::prelude::*;
use vstd::string::*;

verus! {

/// The memory floor where none is given.
pub const DEFAULT_MIN_MEM: &'static str = "24G";

/// The swap floor where none is given.
pub const DEFAULT_MIN_SWAP: &'static str = "4G";

/// The time between two looks at the memory where none is given.
pub const DEFAULT_POLL: &'static str = "1s";

/// The time to follow a request to end where none is given.
pub const DEFAULT_TERM_GRACE: &'static str = "10s";

/// How many processes are shown.
pub const SHOWN_PROCESSES: usize = 10;

/// How the machine stands.
#[derive(Debug)]
pub struct DoctorReport {
    pub os: String,
    pub arch: String,
    pub mem: MemInfo,
    pub earlyoom_active: bool,
    pub home_disk_available_bytes: Option<u64>,
    pub known_high_memory_processes: Vec<ProcessInfo>,
    pub warnings: Vec<String>,
}

/// What a [`DoctorReport`] says.
#[verifier::ext_equal]
pub struct DoctorView {
    pub os: Seq<char>,
    pub arch: Seq<char>,
    pub mem: MemInfo,
    pub earlyoom_active: bool,
    pub home_disk_available_bytes: Option<u64>,
    pub known_high_memory_processes: Seq<ProcessView>,
    pub warnings: Seq<Seq<char>>,
}

impl View for DoctorReport {
    type V = DoctorView;

    open spec fn view(&self) -> DoctorView {
        DoctorView {
            os: self.os@,
            arch: self.arch@,
            mem: self.mem,
            earlyoom_active: self.earlyoom_active,
            home_disk_available_bytes: self.home_disk_available_bytes,
            known_high_memory_processes: process::process_views(
                self.known_high_memory_processes@,
            ),
            warnings: text::contents(self.warnings@),
        }
    }
}

/// What is to be warned of.
pub open spec fn warnings_for(earlyoom: bool, crowded: bool) -> Seq<Seq<char>> {
    (if earlyoom {
        Seq::empty()
    } else {
        seq!["earlyoom is not active; high-risk profiles will refuse to launch by default"@]
    }) + (if crowded {
        seq!["known high-memory processes are already running"@]
    } else {
        Seq::empty()
    })
}

/// One process on a line.
pub open spec fn process_line(p: ProcessView) -> Seq<char> {
    "    pid="@ + text::decimal(p.pid as nat) + " rss="@ + size::bytes_text(
        match p.rss_bytes {
            Some(n) => n as nat,
            None => 0,
        },
    ) + " cmd="@ + p.command + "\n"@
}

/// Processes, a line for each.
pub open spec fn process_lines(ps: Seq<ProcessView>) -> Seq<char>
    decreases ps.len(),
{
    if ps.len() == 0 {
        Seq::empty()
    } else {
        process_lines(ps.drop_last()) + process_line(ps.last())
    }
}

/// Warnings, a line for each.
pub open spec fn warning_lines(warnings: Seq<Seq<char>>) -> Seq<char>
    decreases warnings.len(),
{
    if warnings.len() == 0 {
        Seq::empty()
    } else {
        warning_lines(warnings.drop_last()) + "  warning: "@ + warnings.last() + "\n"@
    }
}

/// The first so many of a sequence, or all where there are fewer.
pub open spec fn first<T>(s: Seq<T>, n: nat) -> Seq<T> {
    if s.len() <= n {
        s
    } else {
        s.take(n as int)
    }
}

impl DoctorView {
    /// The report as text: at most ten processes are shown.
    pub open spec fn text(self) -> Seq<char> {
        "oomwrap doctor\n"@ + "  os: "@ + self.os + "\n"@ + "  arch: "@ + self.arch + "\n"@
            + "  memory: available="@ + size::bytes_text(self.mem.mem_available_bytes as nat)
            + " swap_free="@ + size::bytes_text(self.mem.swap_free_bytes as nat) + "\n"@
            + "  earlyoom: "@ + (if self.earlyoom_active {
            "active"@
        } else {
            "not active"@
        }) + "\n"@ + (match self.home_disk_available_bytes {
            Some(n) => "  home disk available: "@ + size::bytes_text(n as nat) + "\n"@,
            None => Seq::empty(),
        }) + "  known high-memory processes: "@ + text::decimal(
            self.known_high_memory_processes.len(),
        ) + "\n"@ + process_lines(
            first(self.known_high_memory_processes, SHOWN_PROCESSES as nat),
        ) + warning_lines(self.warnings)
    }
}

fn line_of(p: &ProcessInfo) -> (r: String)
    ensures
        r@ == process_line(p@),
{
    let mut r = "    pid=".to_string();
    r.append(text::decimal_string(p.pid as u128).as_str());
    r.append(" rss=");
    let rss: u64 = match p.rss_bytes {
        Some(n) => n,
        None => 0,
    };
    r.append(size::format_bytes(rss).as_str());
    r.append(" cmd=");
    r.append(p.command.as_str());
    r.append("\n");
    r
}

impl DoctorReport {
    /// The report for what was found on the machine.
    pub fn collect(
        os: String,
        arch: String,
        mem: MemInfo,
        earlyoom: bool,
        home_disk: Option<u64>,
        known: Vec<ProcessInfo>,
    ) -> (r: DoctorReport)
        ensures
            r@ == (DoctorView {
                os: os@,
                arch: arch@,
                mem,
                earlyoom_active: earlyoom,
                home_disk_available_bytes: home_disk,
                known_high_memory_processes: process::process_views(known@),
                warnings: warnings_for(earlyoom, known@.len() > 0),
            }),
    {
        let mut warnings: Vec<String> = Vec::new();
        if !earlyoom {
            warnings.push(
                "earlyoom is not active; high-risk profiles will refuse to launch by default".to_string(),
            );
        }
        if known.len() > 0 {
            warnings.push("known high-memory processes are already running".to_string());
        }
        assert(text::contents(warnings@) =~= warnings_for(earlyoom, known@.len() > 0));
        DoctorReport {
            os,
            arch,
            mem,
            earlyoom_active: earlyoom,
            home_disk_available_bytes: home_disk,
            known_high_memory_processes: known,
            warnings,
        }
    }

    /// The report as text.
    pub fn text(&self) -> (r: String)
        ensures
            r@ == self@.text(),
    {
        let mut r = "oomwrap doctor\n".to_string();
        r.append("  os: ");
        r.append(self.os.as_str());
        r.append("\n");
        r.append("  arch: ");
        r.append(self.arch.as_str());
        r.append("\n");
        r.append("  memory: available=");
        r.append(size::format_bytes(self.mem.mem_available_bytes).as_str());
        r.append(" swap_free=");
        r.append(size::format_bytes(self.mem.swap_free_bytes).as_str());
        r.append("\n");
        r.append("  earlyoom: ");
        if self.earlyoom_active {
            r.append("active");
        } else {
            r.append("not active");
        }
        r.append("\n");
        let ghost before = r@;
        if let Some(n) = self.home_disk_available_bytes {
            r.append("  home disk available: ");
            r.append(size::format_bytes(n).as_str());
            r.append("\n");
        }
        let ghost disk: Seq<char> = match self.home_disk_available_bytes {
            Some(n) => "  home disk available: "@ + size::bytes_text(n as nat) + "\n"@,
            None => Seq::empty(),
        };
        assert(r@ =~= before + disk);
        let processes = &self.known_high_memory_processes;
        r.append("  known high-memory processes: ");
        r.append(text::decimal_string(processes.len() as u128).as_str());
        r.append("\n");
        let shown: usize = if processes.len() <= SHOWN_PROCESSES {
            processes.len()
        } else {
            SHOWN_PROCESSES
        };
        let ghost head = r@;
        let ghost views = process::process_views(processes@);
        assert(views.take(0) =~= Seq::<ProcessView>::empty());
        assert(head + process_lines(views.take(0)) =~= head);
        for i in 0..shown
            invariant
                shown <= processes.len(),
                views == process::process_views(processes@),
                r@ == head + process_lines(views.take(i as int)),
        {
            let ghost so_far = process_lines(views.take(i as int));
            assert(views.take(i + 1).drop_last() =~= views.take(i as int));
            assert(views.take(i + 1).last() == processes[i as int]@);
            r.append(line_of(&processes[i]).as_str());
            assert(r@ =~= head + (so_far + process_line(processes[i as int]@)));
        }
        assert(views.take(shown as int) =~= first(views, SHOWN_PROCESSES as nat));
        let ghost head = r@;
        let ghost warnings = text::contents(self.warnings@);
        assert(warnings.take(0) =~= Seq::<Seq<char>>::empty());
        assert(head + warning_lines(warnings.take(0)) =~= head);
        for i in 0..self.warnings.len()
            invariant
                warnings == text::contents(self.warnings@),
                r@ == head + warning_lines(warnings.take(i as int)),
        {
            let ghost so_far = warning_lines(warnings.take(i as int));
            assert(warnings.take(i + 1).drop_last() =~= warnings.take(i as int));
            r.append("  warning: ");
            r.append(self.warnings[i].as_str());
            r.append("\n");
            assert(r@ =~= head + (so_far + "  warning: "@ + self.warnings[i as int]@ + "\n"@));
        }
        assert(warnings.take(self.warnings.len() as int) =~= warnings);
        r
    }
}

/// How the guard is set up.
#[derive(Debug)]
pub struct InspectReport {
    pub default_min_mem: String,
    pub default_min_swap: String,
    pub default_poll: String,
    pub default_term_grace: String,
    pub default_tools: Vec<String>,
    pub oomwrap_bin: String,
    pub home_bin_dir: String,
    pub doctor: DoctorReport,
}

/// What an [`InspectReport`] says.
#[verifier::ext_equal]
pub struct InspectView {
    pub default_min_mem: Seq<char>,
    pub default_min_swap: Seq<char>,
    pub default_poll: Seq<char>,
    pub default_term_grace: Seq<char>,
    pub default_tools: Seq<Seq<char>>,
    pub oomwrap_bin: Seq<char>,
    pub home_bin_dir: Seq<char>,
    pub doctor: DoctorView,
}

impl View for InspectReport {
    type V = InspectView;

    open spec fn view(&self) -> InspectView {
        InspectView {
            default_min_mem: self.default_min_mem@,
            default_min_swap: self.default_min_swap@,
            default_poll: self.default_poll@,
            default_term_grace: self.default_term_grace@,
            default_tools: text::contents(self.default_tools@),
            oomwrap_bin: self.oomwrap_bin@,
            home_bin_dir: self.home_bin_dir@,
            doctor: self.doctor@,
        }
    }
}

impl InspectView {
    /// The report as text.
    pub open spec fn text(self) -> Seq<char> {
        "oomwrap inspect\n"@ + "  binary: "@ + self.oomwrap_bin + "\n"@ + "  default bin dir: "@
            + self.home_bin_dir + "\n"@ + "  default tools: "@ + text::join(
            self.default_tools,
            ", "@,
        ) + "\n"@ + "  defaults: min_mem="@ + self.default_min_mem + " min_swap="@
            + self.default_min_swap + " poll="@ + self.default_poll + " term_grace="@
            + self.default_term_grace + "\n"@
    }
}

impl InspectReport {
    /// The report, for a program at one path and shims below another.
    pub fn collect(oomwrap_bin: &[u8], home_bin_dir: &[u8], doctor: DoctorReport) -> (r:
        InspectReport)
        ensures
            r@ == (InspectView {
                default_min_mem: DEFAULT_MIN_MEM@,
                default_min_swap: DEFAULT_MIN_SWAP@,
                default_poll: DEFAULT_POLL@,
                default_term_grace: DEFAULT_TERM_GRACE@,
                default_tools: shim::default_tool_names(),
                oomwrap_bin: process::utf8_lossy(oomwrap_bin@),
                home_bin_dir: process::utf8_lossy(home_bin_dir@),
                doctor: doctor@,
            }),
    {
        InspectReport {
            default_min_mem: DEFAULT_MIN_MEM.to_string(),
            default_min_swap: DEFAULT_MIN_SWAP.to_string(),
            default_poll: DEFAULT_POLL.to_string(),
            default_term_grace: DEFAULT_TERM_GRACE.to_string(),
            default_tools: shim::default_tools(),
            oomwrap_bin: process::from_utf8_lossy(oomwrap_bin),
            home_bin_dir: process::from_utf8_lossy(home_bin_dir),
            doctor,
        }
    }

    /// The report as text.
    pub fn text(&self) -> (r: String)
        ensures
            r@ == self@.text(),
    {
        let mut r = "oomwrap inspect\n".to_string();
        r.append("  binary: ");
        r.append(self.oomwrap_bin.as_str());
        r.append("\n");
        r.append("  default bin dir: ");
        r.append(self.home_bin_dir.as_str());
        r.append("\n");
        r.append("  default tools: ");
        r.append(text::join_strings(self.default_tools.as_slice(), ", ").as_str());
        r.append("\n");
        r.append("  defaults: min_mem=");
        r.append(self.default_min_mem.as_str());
        r.append(" min_swap=");
        r.append(self.default_min_swap.as_str());
        r.append(" poll=");
        r.append(self.default_poll.as_str());
        r.append(" term_grace=");
        r.append(self.default_term_grace.as_str());
        r.append("\n");
        r
    }
}

} // verus!
