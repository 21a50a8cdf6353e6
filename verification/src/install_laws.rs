//! What installing shims, and removing them, does to a disk.
use crate::disk::{self, Disk, Node, Places};
use crate::files::{self, FileActionView, FileReplyView};
use crate::install::{self, InstallStageView, InstallView, UninstallStageView, UninstallView};
use crate::job::JobView;
use crate::{path, placement, shim};
use vstd::prelude::*;

verus! {

/// Whether a shim is seen at a place, through links.
pub open spec fn shows_shim(disk: Disk, place: Seq<u8>) -> bool {
    disk::shows(disk, place, shim::PATH_SHIM_MARKER@)
}

/// Whether a place is that of the shim of one of the tools.
pub open spec fn is_place(
    places: Places,
    bin_dir: Seq<u8>,
    tools: Seq<Seq<char>>,
    p: Seq<u8>,
) -> bool {
    exists|k: int|
        0 <= k < tools.len() && p == places(install::shim_path(bin_dir, #[trigger] tools[k]))
}

/// The path of a shim ends in a name.
proof fn lemma_shim_path_ends_in_name(bin_dir: Seq<u8>, tool: Seq<char>)
    requires
        shim::is_tool_name(tool),
    ensures
        disk::ends_in_name(install::shim_path(bin_dir, tool)),
{
    let name = vstd::utf8::encode_utf8(tool);
    shim::law_tool_names(tool);
    path::lemma_encoded_without_slash(tool);
    path::lemma_joined_tail(bin_dir, name);
    reveal_strlit("");
    reveal_strlit(".");
    reveal_strlit("..");
    vstd::utf8::is_ascii_chars_encode_utf8("."@);
    vstd::utf8::is_ascii_chars_encode_utf8(".."@);
    assert(vstd::utf8::encode_utf8("."@) =~= seq![0x2eu8]);
    assert(vstd::utf8::encode_utf8(".."@) =~= seq![0x2eu8, 0x2eu8]);
    if name == seq![0x2eu8] {
        path::lemma_encoded_apart(tool, "."@);
    }
    if name == seq![0x2eu8, 0x2eu8] {
        path::lemma_encoded_apart(tool, ".."@);
    }
    if tool.len() == 0 {
        assert(tool =~= ""@);
    }
}

/// Whether nothing was added or changed, and nothing removed but what is seen to be a shim, at the
/// place of one.
pub open spec fn only_shims_removed(
    places: Places,
    job: UninstallView,
    disk: Disk,
    now: Disk,
) -> bool {
    &&& forall|p: Seq<u8>| #[trigger]
        now.contains_key(p) ==> disk.contains_key(p) && now[p] == disk[p]
    &&& forall|p: Seq<u8>|
        disk.contains_key(p) && !(shows_shim(disk, p) && is_place(
            places,
            job.bin_dir,
            job.tools,
            p,
        )) ==> #[trigger] now.contains_key(p)
}

/// Whether no shim is left of the first `n` tools.
pub open spec fn none_left(places: Places, job: UninstallView, now: Disk, n: int) -> bool {
    forall|j: int|
        0 <= j < n && j < job.tools.len() ==> !shows_shim(now, places(#[trigger] job.place(j)))
}

/// What is seen on a part of a disk is seen on the whole.
proof fn lemma_seen_on_part(part: Disk, disk: Disk, p: Seq<u8>, n: nat)
    requires
        forall|q: Seq<u8>| #[trigger]
            part.contains_key(q) ==> disk.contains_key(q) && part[q] == disk[q],
        disk::seen_within(part, p, n) is Some,
    ensures
        disk::seen_within(disk, p, n) == disk::seen_within(part, p, n),
    decreases n,
{
    if part.contains_key(p) && part[p] is Link && n > 0 {
        lemma_seen_on_part(part, disk, part[p]->to, (n - 1) as nat);
    }
}

/// How the disk stands at a stage of the removal, before which it was `disk`.
pub open spec fn uninstalled_so_far(
    places: Places,
    job: UninstallView,
    disk: Disk,
    now: Disk,
) -> bool {
    &&& only_shims_removed(places, job, disk, now)
    &&& match job.stage {
        UninstallStageView::Look { k } => none_left(places, job, now, k),
        UninstallStageView::Remove { k } => none_left(places, job, now, k) && shows_shim(
            now,
            places(job.place(k)),
        ),
        UninstallStageView::Say { k } => none_left(places, job, now, k + 1),
        UninstallStageView::End(Ok(code)) => none_left(places, job, now, job.tools.len() as int)
            && code == 0,
        UninstallStageView::End(Err(_)) => true,
    }
}

proof fn lemma_uninstall_step(
    places: Places,
    job: UninstallView,
    disk: Disk,
    before: Disk,
    reply: FileReplyView,
    now: Disk,
)
    requires
        job.well_formed(),
        uninstalled_so_far(places, job, disk, before),
        files::answers(job.action(), reply),
        disk::file_effect(places, before, job.action(), reply, now),
    ensures
        job.next(reply).well_formed(),
        uninstalled_so_far(places, job.next(reply), disk, now),
{
    let next = job.next(reply);
    let n = disk::MOST_LINKS as nat;
    assert forall|j: int|
        0 <= j < job.tools.len() && !shows_shim(before, places(job.place(j))) implies !shows_shim(
        now,
        places(#[trigger] next.place(j)),
    ) by {
        assert(next.place(j) == job.place(j));
        if shows_shim(now, places(job.place(j))) {
            lemma_seen_on_part(now, before, places(job.place(j)), n);
        }
    }
    match job.stage {
        UninstallStageView::Look { k } => {
            assert(next.place(k) == job.place(k));
            lemma_shim_path_ends_in_name(job.bin_dir, job.tools[k]);
            shim::lemma_empty_is_unmarked();
            assert forall|j: int| 0 <= j < k implies !shows_shim(
                now,
                places(#[trigger] next.place(j)),
            ) by {
                assert(!shows_shim(before, places(job.place(j))));
            }
        },
        UninstallStageView::Remove { k } => {
            let p = places(job.place(k));
            assert(next.place(k) == job.place(k));
            assert(is_place(
                places,
                job.bin_dir,
                job.tools,
                places(install::shim_path(job.bin_dir, job.tools[k])),
            ));
            lemma_seen_on_part(before, disk, p, n);
            assert(disk::seen(before.remove(p), p) is None);
            assert forall|j: int| 0 <= j < k implies !shows_shim(
                now,
                places(#[trigger] next.place(j)),
            ) by {
                assert(!shows_shim(before, places(job.place(j))));
            }
        },
        UninstallStageView::Say { k } => {
            assert forall|j: int| 0 <= j < k + 1 && j < job.tools.len() implies !shows_shim(
                now,
                places(#[trigger] next.place(j)),
            ) by {
                assert(!shows_shim(before, places(job.place(j))));
            }
        },
        _ => {},
    }
}

proof fn lemma_uninstall(
    places: Places,
    start: UninstallView,
    disk: Disk,
    steps: Seq<(FileReplyView, Disk)>,
)
    requires
        start.stage == install::uninstall_turn(start.tools, 0),
        disk::can_do(places, JobView::Uninstall(start), disk, steps),
    ensures
        disk::job_after(JobView::Uninstall(start), steps) matches JobView::Uninstall(job)
            && job.well_formed() && uninstalled_so_far(
            places,
            job,
            disk,
            disk::disk_after(disk, steps),
        ) && job == (UninstallView { stage: job.stage, ..start }),
    decreases steps.len(),
{
    if steps.len() > 0 {
        let front = steps.drop_last();
        lemma_uninstall(places, start, disk, front);
        let job = disk::job_after(JobView::Uninstall(start), front)->Uninstall_0;
        lemma_uninstall_step(
            places,
            job,
            disk,
            disk::disk_after(disk, front),
            steps.last().0,
            steps.last().1,
        );
    }
}

/// The removal of shims adds and changes nothing, and removes nothing that is not seen to be a shim
/// of one of the tools, whatever fails.
pub proof fn law_uninstall_removes_only_shims(
    places: Places,
    start: UninstallView,
    disk: Disk,
    steps: Seq<(FileReplyView, Disk)>,
)
    requires
        start.stage == install::uninstall_turn(start.tools, 0),
        disk::can_do(places, JobView::Uninstall(start), disk, steps),
    ensures
        only_shims_removed(places, start, disk, disk::disk_after(disk, steps)),
{
    lemma_uninstall(places, start, disk, steps);
}

/// Where the removal of shims ends well, no shim of the tools is left.
pub proof fn law_uninstall_removes_every_shim(
    places: Places,
    start: UninstallView,
    disk: Disk,
    steps: Seq<(FileReplyView, Disk)>,
    k: int,
)
    requires
        start.stage == install::uninstall_turn(start.tools, 0),
        disk::can_do(places, JobView::Uninstall(start), disk, steps),
        disk::job_after(JobView::Uninstall(start), steps).action() matches FileActionView::Finish(
            Ok(_),
        ),
        0 <= k < start.tools.len(),
    ensures
        !shows_shim(disk::disk_after(disk, steps), places(start.place(k))),
{
    lemma_uninstall(places, start, disk, steps);
    let job = disk::job_after(JobView::Uninstall(start), steps)->Uninstall_0;
    assert(job.place(k) == start.place(k));
}

/// Where the tools have proper names, the removal of their shims does not end in an error unless
/// something fails.
pub proof fn law_uninstall_succeeds(
    places: Places,
    start: UninstallView,
    disk: Disk,
    steps: Seq<(FileReplyView, Disk)>,
)
    requires
        start.stage == install::uninstall_turn(start.tools, 0),
        forall|k: int| 0 <= k < start.tools.len() ==> shim::is_tool_name(#[trigger] start.tools[k]),
        disk::can_do(places, JobView::Uninstall(start), disk, steps),
        disk::all_well(steps),
    ensures
        !(disk::job_after(JobView::Uninstall(start), steps).action() matches FileActionView::Finish(
            Err(_),
        )),
    decreases steps.len(),
{
    if steps.len() > 0 {
        disk::lemma_all_well(steps);
        law_uninstall_succeeds(places, start, disk, steps.drop_last());
        lemma_uninstall(places, start, disk, steps.drop_last());
    }
}

/// Whether what is at a place can be taken for a shim by an installation, within `n` links: a file
/// with the marker, or a link that leads to one, or to where the installation may put one.
pub open spec fn taken_within(
    places: Places,
    bin_dir: Seq<u8>,
    tools: Seq<Seq<char>>,
    disk: Disk,
    p: Seq<u8>,
    n: nat,
) -> bool
    decreases n,
{
    if !disk.contains_key(p) {
        is_place(places, bin_dir, tools, p)
    } else {
        match disk[p] {
            Node::Link { to } => n > 0 && taken_within(
                places,
                bin_dir,
                tools,
                disk,
                to,
                (n - 1) as nat,
            ),
            node => node.holds(shim::PATH_SHIM_MARKER@),
        }
    }
}

/// Whether what is at a place can be taken for a shim by an installation.
pub open spec fn may_be_taken(
    places: Places,
    bin_dir: Seq<u8>,
    tools: Seq<Seq<char>>,
    disk: Disk,
    p: Seq<u8>,
) -> bool {
    exists|n: nat| taken_within(places, bin_dir, tools, disk, p, n)
}

/// Whether everything is as it was at the places that are not those of the shims and, without
/// force, at those where there was something that cannot be taken for a shim.
pub open spec fn only_shims_replaced(
    places: Places,
    job: InstallView,
    disk: Disk,
    now: Disk,
) -> bool {
    forall|p: Seq<u8>|
        disk.contains_key(p) && (!is_place(places, job.bin_dir, job.tools, p) || (!job.force
            && !may_be_taken(places, job.bin_dir, job.tools, disk, p))) ==> disk::has(
            now,
            p,
            #[trigger] disk[p],
        )
}

/// Whether nothing is there that was not there before, but shims, and directories on the way to
/// them where the one for them was not there.
pub open spec fn only_shims_added(
    places: Places,
    job: InstallView,
    disk: Disk,
    now: Disk,
) -> bool {
    forall|p: Seq<u8>| #[trigger]
        now.contains_key(p) && !is_place(places, job.bin_dir, job.tools, p) ==> disk.contains_key(p)
            || (disk::may_be_made(places, disk, job.bin_dir, p) && now[p] is Other)
}

/// Whether a place is that of a temporary file, where there is one.
pub open spec fn is_temporary_of(places: Places, path: Option<Seq<u8>>, p: Seq<u8>) -> bool {
    path matches Some(q) && p == places(q)
}

/// Whether a place is one for a temporary file of a shim.
pub open spec fn is_temporary(
    places: Places,
    bin_dir: Seq<u8>,
    tools: Seq<Seq<char>>,
    p: Seq<u8>,
) -> bool {
    exists|k: int, pid: u32, attempt: u32|
        0 <= k < tools.len() && is_temporary_of(
            places,
            #[trigger] placement::temporary_for(
                install::shim_path(bin_dir, tools[k]),
                pid,
                attempt,
            ),
            p,
        )
}

/// Whether nothing is there that was not there before, but shims, directories, and a temporary file.
pub open spec fn only_shims_added_or_left(
    places: Places,
    job: InstallView,
    disk: Disk,
    now: Disk,
) -> bool {
    forall|p: Seq<u8>| #[trigger]
        now.contains_key(p) && !is_place(places, job.bin_dir, job.tools, p) && !is_temporary(
            places,
            job.bin_dir,
            job.tools,
            p,
        ) ==> disk.contains_key(p) || (disk::may_be_made(places, disk, job.bin_dir, p) && now[p]
            is Other)
}

/// Whether the shim of a tool is there, for the program at the given path.
pub open spec fn is_there(
    places: Places,
    job: InstallView,
    bin: Seq<u8>,
    now: Disk,
    k: int,
) -> bool {
    &&& shim::is_tool_name(job.tools[k])
    &&& disk::has(now, places(job.place(k)), disk::executable(job.script(bin, k)))
}

/// Whether the shims of the first `n` tools are there, for the program at the given path.
pub open spec fn all_there(
    places: Places,
    job: InstallView,
    bin: Seq<u8>,
    now: Disk,
    n: int,
) -> bool {
    forall|j: int|
        0 <= j < n && j < job.tools.len() ==> #[trigger] is_there(places, job, bin, now, j)
}

/// The stage has nothing to do with which shims are there.
proof fn lemma_all_there_alike(
    places: Places,
    a: InstallView,
    b: InstallView,
    bin: Seq<u8>,
    now: Disk,
    n: int,
)
    requires
        all_there(places, a, bin, now, n),
        b == (InstallView { stage: b.stage, ..a }),
    ensures
        all_there(places, b, bin, now, n),
{
    assert forall|j: int| 0 <= j < n && j < b.tools.len() implies #[trigger] is_there(
        places,
        b,
        bin,
        now,
        j,
    ) by {
        assert(is_there(places, a, bin, now, j));
    }
}

/// Whether the places of the tools behind the first `k` are as they were: those that are not also
/// places of the first ones, nor of a temporary file, nor of a directory on the way to the shims.
pub open spec fn rest_untouched(
    places: Places,
    bin_dir: Seq<u8>,
    tools: Seq<Seq<char>>,
    disk: Disk,
    now: Disk,
    k: int,
) -> bool {
    forall|j: int|
        k <= j < tools.len() ==> is_untouched(
            places,
            bin_dir,
            tools,
            disk,
            now,
            k,
            places(install::shim_path(bin_dir, #[trigger] tools[j])),
        )
}

/// Whether a place is as it was, unless it is one of the first `k` tools, or of a temporary file, or
/// of a directory on the way to the shims.
pub open spec fn is_untouched(
    places: Places,
    bin_dir: Seq<u8>,
    tools: Seq<Seq<char>>,
    disk: Disk,
    now: Disk,
    k: int,
    p: Seq<u8>,
) -> bool {
    ||| is_place(places, bin_dir, tools.take(k), p)
    ||| is_temporary(places, bin_dir, tools, p)
    ||| disk::may_be_made(places, disk, bin_dir, p)
    ||| disk::agree_at(disk, now, p)
}

/// Whether the installation has come as far as the first `k` tools: their shims are there, for the
/// program at the given path, and the places of the others are as they were.
pub open spec fn has_come_to(
    places: Places,
    job: InstallView,
    disk: Disk,
    bin: Seq<u8>,
    now: Disk,
    k: int,
) -> bool {
    &&& 0 <= k <= job.tools.len()
    &&& all_there(places, job, bin, now, k)
    &&& rest_untouched(places, job.bin_dir, job.tools, disk, now, k)
}

/// The stage has nothing to do with how far the installation has come.
proof fn lemma_come_alike(
    places: Places,
    a: InstallView,
    b: InstallView,
    disk: Disk,
    bin: Seq<u8>,
    now: Disk,
    k: int,
)
    requires
        has_come_to(places, a, disk, bin, now, k),
        b == (InstallView { stage: b.stage, ..a }),
    ensures
        has_come_to(places, b, disk, bin, now, k),
{
    lemma_all_there_alike(places, a, b, bin, now, k);
}

/// How the disk stands at a stage of the installation, before which it was `disk`.
pub open spec fn installed_so_far(
    places: Places,
    job: InstallView,
    disk: Disk,
    now: Disk,
) -> bool {
    &&& only_shims_replaced(places, job, disk, now)
    &&& match job.stage {
        InstallStageView::End(Err(_)) => only_shims_added_or_left(places, job, disk, now),
        _ => only_shims_added(places, job, disk, now),
    }
    &&& match job.stage {
        InstallStageView::Directory => now == disk,
        InstallStageView::Binary => rest_untouched(
            places,
            job.bin_dir,
            job.tools,
            disk,
            now,
            0,
        ),
        InstallStageView::Entry { bin, k } => has_come_to(places, job, disk, bin, now, k),
        InstallStageView::Look { bin, k } => has_come_to(places, job, disk, bin, now, k)
            && now.contains_key(places(job.place(k))),
        InstallStageView::Write { bin, k } => has_come_to(places, job, disk, bin, now, k) && (
        !job.force ==> !now.contains_key(places(job.place(k))) || may_be_taken(
            places,
            job.bin_dir,
            job.tools,
            disk,
            places(job.place(k)),
        )),
        InstallStageView::Say { bin, k } => has_come_to(places, job, disk, bin, now, k + 1),
        InstallStageView::End(Ok(code)) => code == 0 && exists|bin: Seq<u8>| #[trigger]
            all_there(places, job, bin, now, job.tools.len() as int),
        InstallStageView::End(Err(_)) => exists|bin: Seq<u8>, k: int| #[trigger]
            has_come_to(places, job, disk, bin, now, k),
    }
}

/// What cannot be taken for a shim is not seen to be one in the course of an installation.
proof fn lemma_not_taken(
    places: Places,
    job: InstallView,
    disk: Disk,
    now: Disk,
    p: Seq<u8>,
    n: nat,
)
    requires
        !job.force,
        only_shims_replaced(places, job, disk, now),
        only_shims_added(places, job, disk, now),
        !may_be_taken(places, job.bin_dir, job.tools, disk, p),
    ensures
        !(disk::seen_within(now, p, n) matches Some(node) && node.holds(shim::PATH_SHIM_MARKER@)),
    decreases n,
{
    assert(!taken_within(places, job.bin_dir, job.tools, disk, p, 0));
    if disk.contains_key(p) {
        assert(disk::has(now, p, disk[p]));
        if disk[p] is Link {
            let to = disk[p]->to;
            if may_be_taken(places, job.bin_dir, job.tools, disk, to) {
                let m = choose|m: nat| taken_within(places, job.bin_dir, job.tools, disk, to, m);
                assert(taken_within(places, job.bin_dir, job.tools, disk, p, m + 1));
            }
            if n > 0 {
                lemma_not_taken(places, job, disk, now, to, (n - 1) as nat);
            }
        }
    }
}

proof fn lemma_install_write(
    places: Places,
    job: InstallView,
    disk: Disk,
    before: Disk,
    reply: FileReplyView,
    now: Disk,
)
    requires
        disk::keeps_names(places),
        job.stage is Write,
        job.well_formed(),
        installed_so_far(places, job, disk, before),
        reply is Done,
        disk::file_effect(places, before, job.action(), reply, now),
    ensures
        installed_so_far(places, job.next(reply), disk, now),
{
    let next = job.next(reply);
    let bin = job.stage->Write_bin;
    let k = job.stage->Write_k;
    let place = places(job.place(k));
    assert(is_place(
        places,
        job.bin_dir,
        job.tools,
        places(install::shim_path(job.bin_dir, job.tools[k])),
    ));
    if reply matches FileReplyView::Done(Ok(_)) {
        assert forall|j: int| 0 <= j < k + 1 && j < job.tools.len() implies #[trigger] is_there(
            places,
            job,
            bin,
            now,
            j,
        ) by {
            if j < k {
                assert(is_there(places, job, bin, before, j));
                if places(job.place(j)) == place {
                    disk::lemma_names_apart(places, job.bin_dir, job.tools[j], job.tools[k]);
                }
            }
        }
        assert(rest_untouched(places, job.bin_dir, job.tools, disk, now, k + 1)) by {
            assert forall|j: int| k + 1 <= j < job.tools.len() implies is_untouched(
                places,
                job.bin_dir,
                job.tools,
                disk,
                now,
                k + 1,
                places(install::shim_path(job.bin_dir, #[trigger] job.tools[j])),
            ) by {
                let p = places(install::shim_path(job.bin_dir, job.tools[j]));
                let first = job.tools.take(k + 1);
                assert(is_untouched(places, job.bin_dir, job.tools, disk, before, k, p));
                if p == place {
                    assert(first[k] == job.tools[k]);
                }
                if is_place(places, job.bin_dir, job.tools.take(k), p) {
                    let i = choose|i: int|
                        0 <= i < k && p == places(
                            install::shim_path(job.bin_dir, #[trigger] job.tools.take(k)[i]),
                        );
                    assert(first[i] == job.tools.take(k)[i]);
                }
            }
        }
        assert(has_come_to(places, job, disk, bin, now, k + 1));
        lemma_come_alike(places, job, next, disk, bin, now, k + 1);
        assert forall|p: Seq<u8>|
            disk.contains_key(p) && (!is_place(places, next.bin_dir, next.tools, p) || (!next.force
                && !may_be_taken(places, next.bin_dir, next.tools, disk, p))) implies disk::has(
            now,
            p,
            #[trigger] disk[p],
        ) by {
            assert(disk::has(before, p, disk[p]));
        }
    } else if now != before {
        let (pid, attempt) = choose|pid: u32, attempt: u32|
            (#[trigger] placement::temporary_for(job.place(k), pid, attempt)) matches Some(q)
                && disk::adds_file(before, places(q), now);
        let q = places(placement::temporary_for(job.place(k), pid, attempt)->0);
        assert(is_temporary(places, job.bin_dir, job.tools, q));
        assert(has_come_to(places, job, disk, bin, now, k)) by {
            assert forall|j: int| 0 <= j < k implies #[trigger] is_there(
                places,
                job,
                bin,
                now,
                j,
            ) by {
                assert(is_there(places, job, bin, before, j));
            }
            assert forall|j: int| k <= j < job.tools.len() implies is_untouched(
                places,
                job.bin_dir,
                job.tools,
                disk,
                now,
                k,
                places(install::shim_path(job.bin_dir, #[trigger] job.tools[j])),
            ) by {
                let p = places(install::shim_path(job.bin_dir, job.tools[j]));
                assert(is_untouched(places, job.bin_dir, job.tools, disk, before, k, p));
            }
        }
        lemma_come_alike(places, job, next, disk, bin, now, k);
        assert forall|p: Seq<u8>|
            disk.contains_key(p) && (!is_place(places, next.bin_dir, next.tools, p) || (!next.force
                && !may_be_taken(places, next.bin_dir, next.tools, disk, p))) implies disk::has(
            now,
            p,
            #[trigger] disk[p],
        ) by {
            assert(disk::has(before, p, disk[p]));
            assert(p != q);
        }
        assert forall|p: Seq<u8>| #[trigger]
            now.contains_key(p) && !is_place(places, next.bin_dir, next.tools, p) && !is_temporary(
                places,
                next.bin_dir,
                next.tools,
                p,
            ) implies disk.contains_key(p) || (disk::may_be_made(places, disk, next.bin_dir, p)
            && now[p] is Other) by {
            assert(before.contains_key(p));
        }
    } else {
        lemma_come_alike(places, job, next, disk, bin, now, k);
    }
}

proof fn lemma_install_step(
    places: Places,
    job: InstallView,
    disk: Disk,
    before: Disk,
    reply: FileReplyView,
    now: Disk,
)
    requires
        disk::keeps_names(places),
        job.well_formed(),
        installed_so_far(places, job, disk, before),
        files::answers(job.action(), reply),
        disk::file_effect(places, before, job.action(), reply, now),
    ensures
        job.next(reply).well_formed(),
        installed_so_far(places, job.next(reply), disk, now),
{
    let next = job.next(reply);
    match job.stage {
        InstallStageView::Write { bin, k } => {
            lemma_install_write(places, job, disk, before, reply, now);
        },
        InstallStageView::Directory => {
            assert forall|p: Seq<u8>| disk.contains_key(p) implies disk::has(
                now,
                p,
                #[trigger] disk[p],
            ) by {
                assert(now.contains_key(p));
            }
            assert forall|j: int| 0 <= j < job.tools.len() implies is_untouched(
                places,
                job.bin_dir,
                job.tools,
                disk,
                now,
                0,
                places(install::shim_path(job.bin_dir, #[trigger] job.tools[j])),
            ) by {}
            assert(rest_untouched(places, job.bin_dir, job.tools, disk, now, 0));
            assert(has_come_to(places, next, disk, Seq::empty(), now, 0));
        },
        InstallStageView::Binary => {
            let bin = match reply {
                FileReplyView::Path(Ok(bin)) => bin,
                _ => Seq::empty(),
            };
            assert(has_come_to(places, next, disk, bin, now, 0));
            if job.tools.len() == 0 {
                assert(all_there(places, next, bin, now, next.tools.len() as int));
            }
        },
        InstallStageView::Entry { bin, k } => {
            lemma_come_alike(places, job, next, disk, bin, now, k);
        },
        InstallStageView::Look { bin, k } => {
            lemma_come_alike(places, job, next, disk, bin, now, k);
            shim::lemma_empty_is_unmarked();
            if !job.force && !may_be_taken(
                places,
                job.bin_dir,
                job.tools,
                disk,
                places(job.place(k)),
            ) {
                lemma_not_taken(
                    places,
                    job,
                    disk,
                    before,
                    places(job.place(k)),
                    disk::MOST_LINKS as nat,
                );
            }
        },
        InstallStageView::Say { bin, k } => {
            lemma_come_alike(places, job, next, disk, bin, now, k + 1);
            if k + 1 == job.tools.len() {
                assert(all_there(places, next, bin, now, next.tools.len() as int));
            }
        },
        InstallStageView::End(_) => {},
    }
}

proof fn lemma_install(
    places: Places,
    start: InstallView,
    disk: Disk,
    steps: Seq<(FileReplyView, Disk)>,
)
    requires
        disk::keeps_names(places),
        start.stage is Directory,
        disk::can_do(places, JobView::Install(start), disk, steps),
    ensures
        disk::job_after(JobView::Install(start), steps) matches JobView::Install(job)
            && job.well_formed() && installed_so_far(
            places,
            job,
            disk,
            disk::disk_after(disk, steps),
        ) && job == (InstallView { stage: job.stage, ..start }),
    decreases steps.len(),
{
    if steps.len() > 0 {
        let front = steps.drop_last();
        lemma_install(places, start, disk, front);
        let job = disk::job_after(JobView::Install(start), front)->Install_0;
        lemma_install_step(
            places,
            job,
            disk,
            disk::disk_after(disk, front),
            steps.last().0,
            steps.last().1,
        );
    }
}

/// The installation of shims leaves everything alone but the places of the shims and, without
/// force, everything there that cannot be taken for a shim, whatever fails.
pub proof fn law_install_replaces_only_shims(
    places: Places,
    start: InstallView,
    disk: Disk,
    steps: Seq<(FileReplyView, Disk)>,
    p: Seq<u8>,
)
    requires
        disk::keeps_names(places),
        start.stage is Directory,
        disk::can_do(places, JobView::Install(start), disk, steps),
        disk.contains_key(p),
        !is_place(places, start.bin_dir, start.tools, p) || (!start.force && !may_be_taken(
            places,
            start.bin_dir,
            start.tools,
            disk,
            p,
        )),
    ensures
        disk::has(disk::disk_after(disk, steps), p, disk[p]),
{
    lemma_install(places, start, disk, steps);
}

/// A file that is no shim cannot be taken for one, whatever it holds, nor can a directory.
pub proof fn law_only_shims_are_taken(
    places: Places,
    bin_dir: Seq<u8>,
    tools: Seq<Seq<char>>,
    disk: Disk,
    p: Seq<u8>,
)
    requires
        disk.contains_key(p),
        disk[p] !is Link,
        !disk[p].holds(shim::PATH_SHIM_MARKER@),
    ensures
        !may_be_taken(places, bin_dir, tools, disk, p),
{
}

/// The installation of shims adds nothing but shims, the directories that lead to them, and, where
/// it fails, a temporary file.
pub proof fn law_install_adds_only_shims(
    places: Places,
    start: InstallView,
    disk: Disk,
    steps: Seq<(FileReplyView, Disk)>,
)
    requires
        disk::keeps_names(places),
        start.stage is Directory,
        disk::can_do(places, JobView::Install(start), disk, steps),
    ensures
        only_shims_added_or_left(places, start, disk, disk::disk_after(disk, steps)),
        !(disk::job_after(JobView::Install(start), steps).action() matches FileActionView::Finish(
            Err(_),
        )) ==> only_shims_added(places, start, disk, disk::disk_after(disk, steps)),
{
    lemma_install(places, start, disk, steps);
}

/// Where the installation fails, the shims of the tools before the one that it failed at are in
/// their places, all of them for the same path of the running program, and nothing has been done to
/// the places of the others, in the sense of [`rest_untouched`].
pub proof fn law_failed_install_stops_where_it_is(
    places: Places,
    start: InstallView,
    disk: Disk,
    steps: Seq<(FileReplyView, Disk)>,
)
    requires
        disk::keeps_names(places),
        start.stage is Directory,
        disk::can_do(places, JobView::Install(start), disk, steps),
        disk::job_after(JobView::Install(start), steps).action() matches FileActionView::Finish(
            Err(_),
        ),
    ensures
        exists|bin: Seq<u8>, k: int| #[trigger]
            has_come_to(places, start, disk, bin, disk::disk_after(disk, steps), k),
{
    lemma_install(places, start, disk, steps);
    let job = disk::job_after(JobView::Install(start), steps)->Install_0;
    let now = disk::disk_after(disk, steps);
    let (bin, k) = choose|bin: Seq<u8>, k: int| #[trigger]
        has_come_to(places, job, disk, bin, now, k);
    lemma_come_alike(places, job, start, disk, bin, now, k);
}

/// Whether the words are those with which a tool is refused: its name is none, or, without force,
/// what is in its place is not seen to be a shim.
pub open spec fn refuses(
    places: Places,
    job: InstallView,
    now: Disk,
    words: Seq<char>,
    k: int,
) -> bool {
    ||| !shim::is_tool_name(job.tools[k]) && words == shim::tool_name_text(job.tools[k])
    ||| !job.force && now.contains_key(places(job.place(k))) && !shows_shim(
        now,
        places(job.place(k)),
    ) && words == files::about("refusing to replace non-managed file: "@, job.place(k))
}

/// Where nothing fails and the installation ends in an error nevertheless, it has refused a tool:
/// the shims of the tools before that one are in their places, and nothing has been done to its
/// place and those of the tools behind it, in the sense of [`rest_untouched`].
pub proof fn law_refused_install_stops_there(
    places: Places,
    start: InstallView,
    disk: Disk,
    steps: Seq<(FileReplyView, Disk)>,
    words: Seq<char>,
)
    requires
        disk::keeps_names(places),
        start.stage is Directory,
        disk::can_do(places, JobView::Install(start), disk, steps),
        disk::all_well(steps),
        disk::job_after(JobView::Install(start), steps).action() == FileActionView::Finish(
            Err(words),
        ),
    ensures
        exists|bin: Seq<u8>, k: int|
            0 <= k < start.tools.len() && #[trigger] has_come_to(
                places,
                start,
                disk,
                bin,
                disk::disk_after(disk, steps),
                k,
            ) && refuses(places, start, disk::disk_after(disk, steps), words, k),
{
    let front = steps.drop_last();
    let before = disk::disk_after(disk, front);
    let now = disk::disk_after(disk, steps);
    let reply = steps.last().0;
    disk::lemma_all_well(steps);
    lemma_install(places, start, disk, front);
    let job = disk::job_after(JobView::Install(start), front)->Install_0;
    match job.stage {
        InstallStageView::Binary => {
            let bin = reply->Path_0->Ok_0;
            assert(has_come_to(places, start, disk, bin, now, 0));
            assert(refuses(places, start, now, words, 0));
        },
        InstallStageView::Look { bin, k } => {
            lemma_come_alike(places, job, start, disk, bin, now, k);
            lemma_shim_path_ends_in_name(job.bin_dir, job.tools[k]);
            assert(job.place(k) == start.place(k));
            assert(refuses(places, start, now, words, k));
        },
        InstallStageView::Say { bin, k } => {
            lemma_come_alike(places, job, start, disk, bin, now, k + 1);
            assert(refuses(places, start, now, words, k + 1));
        },
        _ => {},
    }
}

/// Where the installation ends well, the shim of every tool is in its place, with the text and the
/// permissions that it is to have; all of them for the same path of the running program.
pub proof fn law_install_puts_every_shim(
    places: Places,
    start: InstallView,
    disk: Disk,
    steps: Seq<(FileReplyView, Disk)>,
)
    requires
        disk::keeps_names(places),
        start.stage is Directory,
        disk::can_do(places, JobView::Install(start), disk, steps),
        disk::job_after(JobView::Install(start), steps).action() matches FileActionView::Finish(
            Ok(_),
        ),
    ensures
        exists|bin: Seq<u8>| #[trigger]
            all_there(
                places,
                start,
                bin,
                disk::disk_after(disk, steps),
                start.tools.len() as int,
            ),
        disk::job_after(JobView::Install(start), steps).action() == FileActionView::Finish(Ok(0)),
{
    lemma_install(places, start, disk, steps);
    let job = disk::job_after(JobView::Install(start), steps)->Install_0;
    let now = disk::disk_after(disk, steps);
    let n = start.tools.len() as int;
    let bin = choose|bin: Seq<u8>| #[trigger] all_there(places, job, bin, now, n);
    lemma_all_there_alike(places, job, start, bin, now, n);
}

/// Whether there is a shim at a place, whole and executable.
pub open spec fn has_whole_shim(job: InstallView, now: Disk, p: Seq<u8>) -> bool {
    exists|bin: Seq<u8>, k: int|
        0 <= k < job.tools.len() && disk::has(
            now,
            p,
            disk::executable(#[trigger] job.script(bin, k)),
        )
}

/// Shims are written whole or not at all, whatever fails: every place that is not one for a
/// temporary file is as it was, or has a whole shim, or a new directory on the way to the shims.
pub proof fn law_install_writes_whole_shims(
    places: Places,
    start: InstallView,
    disk: Disk,
    steps: Seq<(FileReplyView, Disk)>,
    p: Seq<u8>,
)
    requires
        disk::keeps_names(places),
        start.stage is Directory,
        disk::can_do(places, JobView::Install(start), disk, steps),
        !is_temporary(places, start.bin_dir, start.tools, p),
    ensures
        ({
            let now = disk::disk_after(disk, steps);
            ||| disk::agree_at(disk, now, p)
            ||| has_whole_shim(start, now, p)
            ||| !disk.contains_key(p) && disk::may_be_made(places, disk, start.bin_dir, p)
                && now.contains_key(p) && now[p] is Other
        }),
    decreases steps.len(),
{
    if steps.len() > 0 {
        let front = steps.drop_last();
        law_install_writes_whole_shims(places, start, disk, front, p);
        lemma_install(places, start, disk, front);
        let job = disk::job_after(JobView::Install(start), front)->Install_0;
        let before = disk::disk_after(disk, front);
        let now = disk::disk_after(disk, steps);
        if job.stage is Write {
            let bin = job.stage->Write_bin;
            let k = job.stage->Write_k;
            assert(job.script(bin, k) == start.script(bin, k));
            assert(job.place(k) == start.place(k));
            if steps.last().0 matches FileReplyView::Done(Ok(_)) {
                if p == places(job.place(k)) {
                    assert(disk::has(now, p, disk::executable(start.script(bin, k))));
                }
            } else if now != before {
                let (pid, attempt) = choose|pid: u32, attempt: u32|
                    (#[trigger] placement::temporary_for(job.place(k), pid, attempt)) matches Some(
                        q,
                    ) && disk::adds_file(before, places(q), now) && places(q) != places(
                        job.place(k),
                    );
                let q = places(placement::temporary_for(job.place(k), pid, attempt)->0);
                assert(is_temporary(places, start.bin_dir, start.tools, q));
            }
        }
        if disk::agree_at(before, now, p) && has_whole_shim(start, before, p) {
            let (bin, k) = choose|bin: Seq<u8>, k: int|
                0 <= k < start.tools.len() && disk::has(
                    before,
                    p,
                    disk::executable(#[trigger] start.script(bin, k)),
                );
            assert(disk::has(now, p, disk::executable(start.script(bin, k))));
        }
    }
}

/// Whether there is nothing at a place, or what is there is seen to be a shim, through links.
pub open spec fn is_free(disk: Disk, p: Seq<u8>) -> bool {
    disk.contains_key(p) ==> shows_shim(disk, p)
}

/// What is seen to be a shim is still seen to be one where another shim has been written.
proof fn lemma_shim_still_shows(disk: Disk, q: Seq<u8>, node: Node, p: Seq<u8>, n: nat)
    requires
        node.holds(shim::PATH_SHIM_MARKER@),
        disk::seen_within(disk, p, n) matches Some(x) && x.holds(shim::PATH_SHIM_MARKER@),
    ensures
        disk::seen_within(disk.insert(q, node), p, n) matches Some(x) && x.holds(
            shim::PATH_SHIM_MARKER@,
        ),
    decreases n,
{
    if p != q && disk.contains_key(p) && disk[p] is Link && n > 0 {
        lemma_shim_still_shows(disk, q, node, disk[p]->to, (n - 1) as nat);
    }
}

/// Where the tools have proper names, and by force or where there is nothing but shims in their
/// places, the installation does not end in an error unless something fails, be the directory for
/// shims there or not. Without force there is never anything but shims in those places. The place
/// of a shim has to be none of the directories that are made on the way to it, as that of a tool `t`
/// would be in a directory `t/..`.
pub proof fn law_install_succeeds(
    places: Places,
    start: InstallView,
    disk: Disk,
    steps: Seq<(FileReplyView, Disk)>,
)
    requires
        disk::keeps_names(places),
        start.stage is Directory,
        forall|k: int| 0 <= k < start.tools.len() ==> shim::is_tool_name(#[trigger] start.tools[k]),
        start.force || forall|k: int|
            0 <= k < start.tools.len() ==> is_free(disk, places(#[trigger] start.place(k)))
                && !disk::may_be_made(places, disk, start.bin_dir, places(start.place(k))),
        disk::can_do(places, JobView::Install(start), disk, steps),
        disk::all_well(steps),
    ensures
        !(disk::job_after(JobView::Install(start), steps).action() matches FileActionView::Finish(
            Err(_),
        )),
        !start.force ==> forall|k: int|
            0 <= k < start.tools.len() ==> is_free(
                disk::disk_after(disk, steps),
                places(#[trigger] start.place(k)),
            ),
    decreases steps.len(),
{
    if steps.len() > 0 {
        let front = steps.drop_last();
        disk::lemma_all_well(steps);
        law_install_succeeds(places, start, disk, front);
        lemma_install(places, start, disk, front);
        let job = disk::job_after(JobView::Install(start), front)->Install_0;
        let before = disk::disk_after(disk, front);
        let now = disk::disk_after(disk, steps);
        let n = disk::MOST_LINKS as nat;
        match job.stage {
            InstallStageView::Directory => {
                assert forall|k: int| !start.force && 0 <= k < start.tools.len() implies is_free(
                    now,
                    places(#[trigger] start.place(k)),
                ) by {
                    let p = places(start.place(k));
                    if now.contains_key(p) {
                        assert(before.contains_key(p));
                        lemma_seen_on_part(before, now, p, n);
                    }
                }
            },
            InstallStageView::Look { k, .. } => {
                assert(job.place(k) == start.place(k));
                lemma_shim_path_ends_in_name(job.bin_dir, job.tools[k]);
                assert(!start.force ==> is_free(before, places(start.place(k))));
            },
            InstallStageView::Write { bin, k } => {
                let q = places(job.place(k));
                let node = disk::executable(job.script(bin, k));
                shim::law_shim_is_marked(
                    job.tools[k],
                    files::shown(bin),
                    job.min_mem,
                    job.min_swap,
                );
                assert(now == before.insert(q, node));
                assert forall|j: int| !start.force && 0 <= j < start.tools.len() implies is_free(
                    now,
                    places(#[trigger] start.place(j)),
                ) by {
                    let p = places(start.place(j));
                    if p != q && now.contains_key(p) {
                        assert(is_free(before, p));
                        lemma_shim_still_shows(before, q, node, p, n);
                    }
                }
            },
            _ => {},
        }
    }
}

/// Where every shim was there and none is left, there is nothing in their places.
proof fn lemma_removed(
    places: Places,
    start: InstallView,
    bin: Seq<u8>,
    middle: Disk,
    undo: UninstallView,
    end: Disk,
    p: Seq<u8>,
)
    requires
        all_there(places, start, bin, middle, start.tools.len() as int),
        undo.bin_dir == start.bin_dir,
        undo.tools == start.tools,
        only_shims_removed(places, undo, middle, end),
        none_left(places, undo, end, undo.tools.len() as int),
        is_place(places, start.bin_dir, start.tools, p),
    ensures
        !end.contains_key(p),
{
    let k = choose|k: int|
        0 <= k < start.tools.len() && p == places(
            install::shim_path(start.bin_dir, #[trigger] start.tools[k]),
        );
    assert(places(start.place(k)) == p && places(undo.place(k)) == p);
    assert(is_there(places, start, bin, middle, k));
    shim::law_shim_is_marked(start.tools[k], files::shown(bin), start.min_mem, start.min_swap);
    if end.contains_key(p) {
        assert(disk::seen(end, p) == Some(middle[p]));
    }
}

proof fn lemma_there_and_back(
    places: Places,
    start: InstallView,
    disk: Disk,
    bin: Seq<u8>,
    middle: Disk,
    undo: UninstallView,
    end: Disk,
)
    requires
        forall|k: int|
            0 <= k < start.tools.len() ==> !disk.contains_key(places(#[trigger] start.place(k))),
        forall|p: Seq<u8>|
            disk.contains_key(p) && !is_place(places, start.bin_dir, start.tools, p) ==> disk::has(
                middle,
                p,
                #[trigger] disk[p],
            ),
        only_shims_added(places, start, disk, middle),
        all_there(places, start, bin, middle, start.tools.len() as int),
        undo.bin_dir == start.bin_dir,
        undo.tools == start.tools,
        only_shims_removed(places, undo, middle, end),
        none_left(places, undo, end, undo.tools.len() as int),
    ensures
        disk::adds_directories(places, disk, start.bin_dir, end),
        disk.contains_key(places(start.bin_dir)) ==> end == disk,
{
    assert forall|p: Seq<u8>| #[trigger] is_place(places, start.bin_dir, start.tools, p) implies
        !disk.contains_key(p) && !end.contains_key(p) by {
        lemma_removed(places, start, bin, middle, undo, end, p);
        let k = choose|k: int|
            0 <= k < start.tools.len() && p == places(
                install::shim_path(start.bin_dir, #[trigger] start.tools[k]),
            );
        assert(places(start.place(k)) == p);
    }
    assert forall|p: Seq<u8>| disk.contains_key(p) implies #[trigger] end.contains_key(p) && end[p]
        == disk[p] by {
        assert(!is_place(places, start.bin_dir, start.tools, p));
        assert(disk::has(middle, p, disk[p]));
    }
    assert forall|p: Seq<u8>| #[trigger] end.contains_key(p) implies disk.contains_key(p) || (
    disk::may_be_made(places, disk, start.bin_dir, p) && end[p] is Other) by {
        assert(middle.contains_key(p));
    }
    if disk.contains_key(places(start.bin_dir)) {
        assert(end =~= disk);
    }
}

/// Where there was nothing in the places of the shims, to install them and then remove them leaves
/// the disk as it was, but for directories that were made on the way to them.
pub proof fn law_uninstall_undoes_install(
    places: Places,
    start: InstallView,
    disk: Disk,
    steps: Seq<(FileReplyView, Disk)>,
    undo: UninstallView,
    undo_steps: Seq<(FileReplyView, Disk)>,
)
    requires
        disk::keeps_names(places),
        start.stage is Directory,
        forall|k: int|
            0 <= k < start.tools.len() ==> !disk.contains_key(places(#[trigger] start.place(k))),
        disk::can_do(places, JobView::Install(start), disk, steps),
        disk::job_after(JobView::Install(start), steps).action() matches FileActionView::Finish(
            Ok(_),
        ),
        undo.bin_dir == start.bin_dir,
        undo.tools == start.tools,
        undo.stage == install::uninstall_turn(undo.tools, 0),
        disk::can_do(places, JobView::Uninstall(undo), disk::disk_after(disk, steps), undo_steps),
        disk::job_after(JobView::Uninstall(undo), undo_steps).action() matches
            FileActionView::Finish(Ok(_)),
    ensures
        disk::adds_directories(
            places,
            disk,
            start.bin_dir,
            disk::disk_after(disk::disk_after(disk, steps), undo_steps),
        ),
        disk.contains_key(places(start.bin_dir)) ==> disk::disk_after(
            disk::disk_after(disk, steps),
            undo_steps,
        ) == disk,
{
    let middle = disk::disk_after(disk, steps);
    let end = disk::disk_after(middle, undo_steps);
    let n = start.tools.len() as int;
    law_install_adds_only_shims(places, start, disk, steps);
    law_install_puts_every_shim(places, start, disk, steps);
    law_uninstall_removes_only_shims(places, undo, middle, undo_steps);
    let bin = choose|bin: Seq<u8>| #[trigger] all_there(places, start, bin, middle, n);
    assert forall|k: int| 0 <= k < n implies !shows_shim(end, places(#[trigger] undo.place(k))) by {
        law_uninstall_removes_every_shim(places, undo, middle, undo_steps, k);
    }
    assert forall|p: Seq<u8>|
        disk.contains_key(p) && !is_place(places, start.bin_dir, start.tools, p) implies disk::has(
        middle,
        p,
        #[trigger] disk[p],
    ) by {
        law_install_replaces_only_shims(places, start, disk, steps, p);
    }
    lemma_there_and_back(places, start, disk, bin, middle, undo, end);
}

/// The tools that an installation or a removal works on are exactly those that were named, in their
/// order; where none was named, they are the seven that are known. What else was asked for is kept.
pub proof fn law_named_tools_are_used(
    args: install::InstallShimsArgs,
    gone: install::UninstallShimsArgs,
    dir: Seq<u8>,
)
    ensures
        ({
            let start = InstallView::start(args, dir);
            &&& start.bin_dir == dir
            &&& start.min_mem == args.min_mem@
            &&& start.min_swap == args.min_swap@
            &&& start.force == args.force
            &&& start.stage is Directory
            &&& args.tools@.len() > 0 ==> start.tools == Seq::new(
                args.tools@.len(),
                |i: int| args.tools@[i]@,
            )
            &&& args.tools@.len() == 0 ==> start.tools == seq![
                "vllm"@,
                "llama-server"@,
                "llama-cli"@,
                "llama-bench"@,
                "sglang"@,
                "trtllm-serve"@,
                "text-generation-launcher"@,
            ]
        }),
        ({
            let start = UninstallView::start(gone, dir);
            &&& start.bin_dir == dir
            &&& gone.tools@.len() > 0 ==> start.tools == Seq::new(
                gone.tools@.len(),
                |i: int| gone.tools@[i]@,
            )
            &&& gone.tools@.len() == 0 ==> start.tools == seq![
                "vllm"@,
                "llama-server"@,
                "llama-cli"@,
                "llama-bench"@,
                "sglang"@,
                "trtllm-serve"@,
                "text-generation-launcher"@,
            ]
        }),
{
    let start = InstallView::start(args, dir);
    if args.tools@.len() > 0 {
        assert(start.tools =~= Seq::new(args.tools@.len(), |i: int| args.tools@[i]@));
    } else {
        assert(start.tools =~= seq![
            "vllm"@,
            "llama-server"@,
            "llama-cli"@,
            "llama-bench"@,
            "sglang"@,
            "trtllm-serve"@,
            "text-generation-launcher"@,
        ]);
    }
    let start = UninstallView::start(gone, dir);
    if gone.tools@.len() > 0 {
        assert(start.tools =~= Seq::new(gone.tools@.len(), |i: int| gone.tools@[i]@));
    } else {
        assert(start.tools =~= seq![
            "vllm"@,
            "llama-server"@,
            "llama-cli"@,
            "llama-bench"@,
            "sglang"@,
            "trtllm-serve"@,
            "text-generation-launcher"@,
        ]);
    }
}

/// An installation that ends well has put an executable file with the marker of a shim in the place
/// of every tool that was named.
pub proof fn law_install_serves_every_named_tool(
    places: Places,
    args: install::InstallShimsArgs,
    dir: Seq<u8>,
    disk: Disk,
    steps: Seq<(FileReplyView, Disk)>,
    i: int,
)
    requires
        disk::keeps_names(places),
        disk::can_do(places, JobView::Install(InstallView::start(args, dir)), disk, steps),
        disk::job_after(JobView::Install(InstallView::start(args, dir)), steps).action() matches
            FileActionView::Finish(Ok(_)),
        0 <= i < args.tools@.len(),
    ensures
        ({
            let now = disk::disk_after(disk, steps);
            let place = places(path::joined(dir, vstd::utf8::encode_utf8(args.tools@[i]@)));
            &&& now.contains_key(place)
            &&& now[place] matches Node::Text { text, mode } && mode == 0o755
                && crate::text::contains(text, "oomwrap managed path shim"@)
        }),
{
    let start = InstallView::start(args, dir);
    let now = disk::disk_after(disk, steps);
    let uninstall = install::UninstallShimsArgs { bin_dir: args.bin_dir, tools: args.tools };
    law_named_tools_are_used(args, uninstall, dir);
    law_install_puts_every_shim(places, start, disk, steps);
    let bin = choose|bin: Seq<u8>| #[trigger]
        all_there(places, start, bin, now, start.tools.len() as int);
    assert(is_there(places, start, bin, now, i));
    assert(start.tools[i] == args.tools@[i]@);
    shim::law_shim_is_marked(start.tools[i], files::shown(bin), start.min_mem, start.min_swap);
}

/// A removal that ends well has left no file with the marker of a shim in the place of any tool that
/// was named.
pub proof fn law_uninstall_serves_every_named_tool(
    places: Places,
    args: install::UninstallShimsArgs,
    dir: Seq<u8>,
    disk: Disk,
    steps: Seq<(FileReplyView, Disk)>,
    i: int,
    at: int,
)
    requires
        disk::can_do(places, JobView::Uninstall(UninstallView::start(args, dir)), disk, steps),
        disk::job_after(JobView::Uninstall(UninstallView::start(args, dir)), steps).action() matches
            FileActionView::Finish(Ok(_)),
        0 <= i < args.tools@.len(),
    ensures
        ({
            let now = disk::disk_after(disk, steps);
            let place = places(path::joined(dir, vstd::utf8::encode_utf8(args.tools@[i]@)));
            !(now.contains_key(place) && (now[place] matches Node::Text { text, .. } && 0 <= at
                && at + 25 <= text.len() && text.subrange(at, at + 25)
                == "oomwrap managed path shim"@))
        }),
{
    let start = UninstallView::start(args, dir);
    let now = disk::disk_after(disk, steps);
    assert(start.tools =~= Seq::new(args.tools@.len(), |i: int| args.tools@[i]@));
    law_uninstall_removes_every_shim(places, start, disk, steps, i);
    reveal_strlit("oomwrap managed path shim");
    let place = places(start.place(i));
    if now.contains_key(place) && now[place] is Text {
        assert(disk::seen(now, place) == Some(now[place]));
        let text = now[place]->Text_text;
        if 0 <= at && at + 25 <= text.len() && text.subrange(at, at + 25)
            == "oomwrap managed path shim"@ {
            assert(crate::text::occurs_at(text, shim::PATH_SHIM_MARKER@, at));
        }
    }
}

/// A shim is made from its tool, the program that is running and the floors that were asked for, and
/// the shell gets exactly these.
pub proof fn law_shim_has_its_tool_and_floors(job: InstallView, bin: Seq<u8>, k: int)
    ensures
        shim::sets(job.script(bin, k), "tool"@, job.tools[k]),
        shim::sets(
            job.script(bin, k),
            "real_env"@,
            "OOMWRAP_REAL_"@ + shim::env_name(job.tools[k]),
        ),
        shim::sets(job.script(bin, k), "default_oomwrap"@, files::shown(bin)),
        shim::sets(job.script(bin, k), "default_min_mem"@, job.min_mem),
        shim::sets(job.script(bin, k), "default_min_swap"@, job.min_swap),
{
    shim::law_shim_sets_what_it_was_made_from(
        job.tools[k],
        files::shown(bin),
        job.min_mem,
        job.min_swap,
    );
}

} // verus!
