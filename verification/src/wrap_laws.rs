//! What wrapping an executable, and undoing it, does to a disk.
use crate::disk::{self, Disk, Places};
use crate::files::{self, FileActionView, FileReplyView};
use crate::job::JobView;
use crate::placement;
use crate::shim;
use crate::wrap::{self, UnwrapStageView, UnwrapView, WrapStageView, WrapView};
use vstd::prelude::*;

verus! {

/// The disk on which the executable at a place has been wrapped.
pub open spec fn wrapped(disk: Disk, place: Seq<u8>, script: Seq<char>) -> Disk {
    disk.insert(wrap::sidecar(place), disk[place]).insert(place, disk::executable(script))
}

/// The disk on which the wrapping at a place has been undone.
pub open spec fn unwrapped(disk: Disk, place: Seq<u8>) -> Disk {
    disk.remove(wrap::sidecar(place)).insert(place, disk[wrap::sidecar(place)])
}

/// The disk on which the executable at a place has been moved, and nothing is in its place yet.
pub open spec fn moved(disk: Disk, place: Seq<u8>) -> Disk {
    disk.remove(place).insert(wrap::sidecar(place), disk[place])
}

/// Whether a disk is as another one, but for a temporary file that a failed writing may have left.
pub open spec fn as_after_writing(places: Places, path: Seq<u8>, disk: Disk, now: Disk) -> bool {
    now == disk || disk::leaves_temporary(places, path, disk, now)
}

/// Whether a wrapper is seen at a place, through links.
pub open spec fn shows_wrapper(disk: Disk, place: Seq<u8>) -> bool {
    disk::shows(disk, place, shim::ABSOLUTE_WRAPPER_MARKER@)
}

/// The place for the executable behind a wrapper is another one than that of the wrapper.
proof fn lemma_sidecar_differs(place: Seq<u8>)
    ensures
        wrap::sidecar(place) != place,
{
    reveal_strlit(".real");
    assert(wrap::sidecar(place).len() == place.len() + 5);
}

/// How the disk stands at a stage of the wrapping, before which it was `disk`.
pub open spec fn wrapped_so_far(places: Places, job: WrapView, disk: Disk, now: Disk) -> bool {
    let place = places(job.target);
    let kept = wrap::sidecar(place);
    match job.stage {
        WrapStageView::Look => now == disk,
        WrapStageView::Mode | WrapStageView::Sidecar | WrapStageView::Move => now == disk
            && disk::ends_in_name(job.target),
        WrapStageView::Binary | WrapStageView::Write { .. } => now == moved(disk, place)
            && disk::ends_in_name(job.target),
        WrapStageView::PutBack { .. } => as_after_writing(
            places,
            job.target,
            moved(disk, place),
            now,
        ) && disk::ends_in_name(job.target),
        WrapStageView::Say { .. } | WrapStageView::End(Ok(_)) => {
            ||| now == disk && shows_wrapper(disk, place)
            ||| exists|bin: Seq<u8>| now == wrapped(disk, place, #[trigger] job.script(bin))
        },
        WrapStageView::End(Err(_)) => {
            ||| now == disk
            ||| as_after_writing(places, job.target, moved(disk, place), now)
            ||| as_after_writing(places, job.target, disk.remove(kept), now)
        },
    }
}

proof fn lemma_put_back(places: Places, job: WrapView, disk: Disk, before: Disk, now: Disk)
    requires
        disk.contains_key(places(job.target)),
        as_after_writing(places, job.target, moved(disk, places(job.target)), before),
        ({
            let place = places(job.target);
            let kept = wrap::sidecar(place);
            now == before.remove(kept).insert(place, before[kept])
        }),
    ensures
        as_after_writing(
            places,
            job.target,
            disk.remove(wrap::sidecar(places(job.target))),
            now,
        ),
{
    let place = places(job.target);
    let kept = wrap::sidecar(place);
    let gone = moved(disk, place);
    let back = disk.remove(kept);
    lemma_sidecar_differs(place);
    if before == gone {
        assert(now =~= back);
    } else {
        let (pid, attempt) = choose|pid: u32, attempt: u32|
            (#[trigger] placement::temporary_for(job.target, pid, attempt)) matches Some(q)
                && disk::adds_file(gone, places(q), before) && places(q) != place;
        let q = places(placement::temporary_for(job.target, pid, attempt)->0);
        assert(before[kept] == disk[place]);
        assert(now =~= back.insert(q, now[q]));
        assert(disk::adds_file(back, q, now));
    }
}

proof fn lemma_wrap_step(
    places: Places,
    job: WrapView,
    disk: Disk,
    before: Disk,
    reply: FileReplyView,
    now: Disk,
)
    requires
        disk::keeps_neighbours(places),
        disk.contains_key(places(job.target)),
        wrapped_so_far(places, job, disk, before),
        files::answers(job.action(), reply),
        disk::file_effect(places, before, job.action(), reply, now),
    ensures
        wrapped_so_far(places, job.next(reply), disk, now),
{
    let place = places(job.target);
    let kept = wrap::sidecar(place);
    lemma_sidecar_differs(place);
    if disk::ends_in_name(job.target) {
        assert(places(wrap::sidecar(job.target)) == kept);
    }
    match job.stage {
        WrapStageView::Look => {
            shim::lemma_empty_is_unmarked();
        },
        WrapStageView::Write { bin } => {
            let next = job.next(reply);
            if reply matches FileReplyView::Done(Ok(_)) {
                assert(now =~= wrapped(disk, place, job.script(bin)));
                assert(next.stage is Say);
                assert(now == wrapped(disk, place, next.script(bin)));
            } else {
                assert(next.stage is PutBack);
            }
        },
        WrapStageView::PutBack { .. } => {
            if reply matches FileReplyView::Done(Ok(_)) {
                lemma_put_back(places, job, disk, before, now);
            }
        },
        WrapStageView::Say { .. } => {
            if before != disk || !shows_wrapper(disk, place) {
                let bin = choose|bin: Seq<u8>|
                    before == wrapped(disk, place, #[trigger] job.script(bin));
                assert(job.next(reply).script(bin) == job.script(bin));
            }
        },
        _ => {},
    }
}

proof fn lemma_wrap(
    places: Places,
    start: WrapView,
    disk: Disk,
    steps: Seq<(FileReplyView, Disk)>,
)
    requires
        disk::keeps_neighbours(places),
        start.stage is Look,
        disk.contains_key(places(start.target)),
        disk::can_do(places, JobView::Wrap(start), disk, steps),
    ensures
        disk::job_after(JobView::Wrap(start), steps) matches JobView::Wrap(job) && wrapped_so_far(
            places,
            job,
            disk,
            disk::disk_after(disk, steps),
        ) && job == (WrapView { stage: job.stage, ..start }) && (job.stage matches
            WrapStageView::End(Ok(code)) ==> code == 0),
    decreases steps.len(),
{
    if steps.len() > 0 {
        let front = steps.drop_last();
        lemma_wrap(places, start, disk, front);
        let job = disk::job_after(JobView::Wrap(start), front)->Wrap_0;
        lemma_wrap_step(
            places,
            job,
            disk,
            disk::disk_after(disk, front),
            steps.last().0,
            steps.last().1,
        );
    }
}

/// Where a wrapping fails, the disk is as it was, or the executable has been moved and nothing is in
/// its place, or it has been moved back: nothing else is ever in its place. In the last two cases a temporary file may be left, and
/// what was next to the executable before, which force allows, is gone.
pub proof fn law_failed_wrap_is_taken_back(
    places: Places,
    job: WrapView,
    disk: Disk,
    steps: Seq<(FileReplyView, Disk)>,
)
    requires
        disk::keeps_neighbours(places),
        job.stage is Look,
        disk.contains_key(places(job.target)),
        disk::can_do(places, JobView::Wrap(job), disk, steps),
        disk::job_after(JobView::Wrap(job), steps).action() matches FileActionView::Finish(Err(_)),
    ensures
        ({
            let place = places(job.target);
            let now = disk::disk_after(disk, steps);
            ||| now == disk
            ||| as_after_writing(places, job.target, moved(disk, place), now)
            ||| as_after_writing(places, job.target, disk.remove(wrap::sidecar(place)), now)
        }),
        disk::disk_after(disk, steps).contains_key(places(job.target)) ==> disk::disk_after(
            disk,
            steps,
        )[places(job.target)] == disk[places(job.target)],
{
    lemma_wrap(places, job, disk, steps);
    lemma_sidecar_differs(places(job.target));
}

/// Whatever fails while an executable is wrapped, it is not lost: it is at its place, or at the
/// place for the executable behind a wrapper.
pub proof fn law_wrap_never_loses_the_executable(
    places: Places,
    job: WrapView,
    disk: Disk,
    steps: Seq<(FileReplyView, Disk)>,
)
    requires
        disk::keeps_neighbours(places),
        job.stage is Look,
        disk.contains_key(places(job.target)),
        disk::can_do(places, JobView::Wrap(job), disk, steps),
    ensures
        ({
            let place = places(job.target);
            let now = disk::disk_after(disk, steps);
            disk::has(now, place, disk[place]) || disk::has(now, wrap::sidecar(place), disk[place])
        }),
{
    lemma_wrap(places, job, disk, steps);
    lemma_sidecar_differs(places(job.target));
}

/// Where the wrapping of what is no wrapper ends well, the executable has been moved, as the file
/// or the link that it is, and the wrapper is in its place; nothing else has changed.
pub proof fn law_wrap_moves_and_replaces(
    places: Places,
    job: WrapView,
    disk: Disk,
    steps: Seq<(FileReplyView, Disk)>,
)
    requires
        disk::keeps_neighbours(places),
        job.stage is Look,
        disk.contains_key(places(job.target)),
        !shows_wrapper(disk, places(job.target)),
        disk::can_do(places, JobView::Wrap(job), disk, steps),
        disk::job_after(JobView::Wrap(job), steps).action() matches FileActionView::Finish(Ok(_)),
    ensures
        exists|bin: Seq<u8>|
            disk::disk_after(disk, steps) == wrapped(
                disk,
                places(job.target),
                #[trigger] job.script(bin),
            ),
        disk::job_after(JobView::Wrap(job), steps).action() == FileActionView::Finish(Ok(0)),
{
    lemma_wrap(places, job, disk, steps);
    let last = disk::job_after(JobView::Wrap(job), steps)->Wrap_0;
    let bin = choose|bin: Seq<u8>|
        disk::disk_after(disk, steps) == wrapped(
            disk,
            places(last.target),
            #[trigger] last.script(bin),
        );
    assert(last.script(bin) == job.script(bin));
}

/// How many replies it takes to come to a stage of a wrapping in which nothing fails.
pub open spec fn replies_to_wrap(stage: WrapStageView) -> nat {
    match stage {
        WrapStageView::Look => 0,
        WrapStageView::Mode => 1,
        WrapStageView::Sidecar => 2,
        WrapStageView::Move => 3,
        WrapStageView::Binary => 4,
        WrapStageView::Write { .. } => 5,
        WrapStageView::Say { .. } => 6,
        WrapStageView::End(_) | WrapStageView::PutBack { .. } => 7,
    }
}

/// Whether a wrapping has not gone wrong, after a number of replies.
pub open spec fn wraps_well(job: JobView, replies: nat) -> bool {
    job matches JobView::Wrap(now) && now.stage !is PutBack && replies == replies_to_wrap(
        now.stage,
    ) && (now.stage matches WrapStageView::End(r) ==> r == Ok::<i32, Seq<char>>(0))
}

/// An executable that is no shim and no wrapper, be it text or not, and be it a link to one, can be
/// wrapped where there is nothing next to it yet, and by force where there is: unless something
/// fails, the job comes to a good end, with the seventh reply.
pub proof fn law_wrap_succeeds(
    places: Places,
    job: WrapView,
    disk: Disk,
    steps: Seq<(FileReplyView, Disk)>,
)
    requires
        disk::keeps_neighbours(places),
        job.stage is Look,
        disk::ends_in_name(job.target),
        disk::seen(disk, places(job.target)) matches Some(node) && node.is_file() && node.mode()
            & 0o111 != 0 && !node.holds(shim::ABSOLUTE_WRAPPER_MARKER@) && !node.holds(
            shim::PATH_SHIM_MARKER@,
        ),
        !disk.contains_key(wrap::sidecar(places(job.target))) || job.force,
        disk::can_do(places, JobView::Wrap(job), disk, steps),
        disk::all_well(steps),
    ensures
        wraps_well(disk::job_after(JobView::Wrap(job), steps), steps.len()),
    decreases steps.len(),
{
    if steps.len() > 0 {
        let front = steps.drop_last();
        disk::lemma_all_well(steps);
        law_wrap_succeeds(places, job, disk, front);
        lemma_wrap(places, job, disk, front);
        shim::lemma_empty_is_unmarked();
        assert(places(wrap::sidecar(job.target)) == wrap::sidecar(places(job.target)));
        let now = disk::job_after(JobView::Wrap(job), front)->Wrap_0;
        assert(now.target == job.target && now.force == job.force);
    }
}

/// A wrapper is recognised: to wrap it again changes nothing, and ends well.
pub proof fn law_wrap_again_changes_nothing(
    places: Places,
    job: WrapView,
    disk: Disk,
    steps: Seq<(FileReplyView, Disk)>,
)
    requires
        job.stage is Look,
        disk::ends_in_name(job.target),
        shows_wrapper(disk, places(job.target)),
        disk::can_do(places, JobView::Wrap(job), disk, steps),
    ensures
        disk::disk_after(disk, steps) == disk,
        steps.len() <= 2,
        disk::job_after(JobView::Wrap(job), steps) matches JobView::Wrap(now) && now == (WrapView {
            stage: now.stage,
            ..job
        }) && if steps.len() == 0 {
            now.stage is Look
        } else if steps.len() == 1 {
            now.stage is Say
        } else {
            now.stage == WrapStageView::End(Ok(0))
        },
    decreases steps.len(),
{
    if steps.len() > 0 {
        law_wrap_again_changes_nothing(places, job, disk, steps.drop_last());
    }
}

/// How the disk stands at a stage of the undoing at a place, before which it was `disk`.
pub open spec fn unwrapped_so_far(
    places: Places,
    job: UnwrapView,
    place: Seq<u8>,
    disk: Disk,
    now: Disk,
) -> bool {
    let kept = wrap::sidecar(place);
    match job.stage {
        UnwrapStageView::Resolve => now == disk,
        UnwrapStageView::Look { target } | UnwrapStageView::Sidecar { target } => places(target)
            == place && disk::ends_in_name(target) && now == disk,
        UnwrapStageView::Remove { target } => places(target) == place && disk::ends_in_name(target)
            && now == disk && disk.contains_key(kept),
        UnwrapStageView::Restore { target } => places(target) == place && disk::ends_in_name(target)
            && now == disk.remove(place) && disk.contains_key(kept),
        UnwrapStageView::Say { .. } | UnwrapStageView::End(Ok(_)) => now == unwrapped(disk, place)
            && disk.contains_key(kept),
        UnwrapStageView::End(Err(_)) => now == disk || (now == disk.remove(place)
            && disk.contains_key(kept)),
    }
}

/// Whether a path leads to a file at a place, through links.
pub open spec fn leads_to(places: Places, disk: Disk, p: Seq<u8>, place: Seq<u8>) -> bool {
    &&& disk::end_of_links(disk, places(p), disk::MOST_LINKS as nat) == Some(place)
    &&& disk.contains_key(place)
    &&& disk[place].is_file()
}

proof fn lemma_unwrap(
    places: Places,
    start: UnwrapView,
    place: Seq<u8>,
    disk: Disk,
    steps: Seq<(FileReplyView, Disk)>,
)
    requires
        disk::keeps_neighbours(places),
        start.stage is Resolve,
        leads_to(places, disk, start.path, place),
        disk::can_do(places, JobView::Unwrap(start), disk, steps),
    ensures
        disk::job_after(JobView::Unwrap(start), steps) matches JobView::Unwrap(job)
            && unwrapped_so_far(places, job, place, disk, disk::disk_after(disk, steps)) && job == (
        UnwrapView { stage: job.stage, ..start }) && (job.stage matches UnwrapStageView::End(
            Ok(code),
        ) ==> code == 0),
    decreases steps.len(),
{
    lemma_sidecar_differs(place);
    if steps.len() > 0 {
        let front = steps.drop_last();
        lemma_unwrap(places, start, place, disk, front);
        let job = disk::job_after(JobView::Unwrap(start), front)->Unwrap_0;
        match job.stage {
            UnwrapStageView::Sidecar { target } => {
                assert(places(wrap::sidecar(target)) == wrap::sidecar(place));
            },
            UnwrapStageView::Restore { target } => {
                assert(places(wrap::sidecar(target)) == wrap::sidecar(place));
                if steps.last().0 matches FileReplyView::Done(Ok(_)) {
                    assert(steps.last().1 =~= unwrapped(disk, place));
                }
            },
            _ => {},
        }
    }
}

/// Whatever fails while a wrapping is undone, the executable behind the wrapper is not lost: it is
/// where it was kept, or at its own place.
pub proof fn law_unwrap_never_loses_the_executable(
    places: Places,
    undo: UnwrapView,
    place: Seq<u8>,
    disk: Disk,
    steps: Seq<(FileReplyView, Disk)>,
)
    requires
        disk::keeps_neighbours(places),
        undo.stage is Resolve,
        leads_to(places, disk, undo.path, place),
        disk.contains_key(wrap::sidecar(place)),
        disk::can_do(places, JobView::Unwrap(undo), disk, steps),
    ensures
        ({
            let kept = wrap::sidecar(place);
            let now = disk::disk_after(disk, steps);
            disk::has(now, kept, disk[kept]) || disk::has(now, place, disk[kept])
        }),
{
    lemma_sidecar_differs(place);
    lemma_unwrap(places, undo, place, disk, steps);
}

/// Where the undoing of a wrapping ends well, what was kept next to the wrapper has been moved into
/// its place, whatever it is by then; nothing else has changed.
pub proof fn law_unwrap_moves_back(
    places: Places,
    undo: UnwrapView,
    place: Seq<u8>,
    disk: Disk,
    steps: Seq<(FileReplyView, Disk)>,
)
    requires
        disk::keeps_neighbours(places),
        undo.stage is Resolve,
        leads_to(places, disk, undo.path, place),
        disk::can_do(places, JobView::Unwrap(undo), disk, steps),
        disk::job_after(JobView::Unwrap(undo), steps).action() matches FileActionView::Finish(
            Ok(_),
        ),
    ensures
        disk.contains_key(wrap::sidecar(place)),
        disk::disk_after(disk, steps) == unwrapped(disk, place),
        disk::job_after(JobView::Unwrap(undo), steps).action() == FileActionView::Finish(Ok(0)),
{
    lemma_unwrap(places, undo, place, disk, steps);
}

/// How many replies it takes to come to a stage of an undoing in which nothing fails.
pub open spec fn replies_to_unwrap(stage: UnwrapStageView) -> nat {
    match stage {
        UnwrapStageView::Resolve => 0,
        UnwrapStageView::Look { .. } => 1,
        UnwrapStageView::Sidecar { .. } => 2,
        UnwrapStageView::Remove { .. } => 3,
        UnwrapStageView::Restore { .. } => 4,
        UnwrapStageView::Say { .. } => 5,
        UnwrapStageView::End(_) => 6,
    }
}

/// Whether an undoing has not gone wrong, after a number of replies.
pub open spec fn unwraps_well(job: JobView, replies: nat) -> bool {
    job matches JobView::Unwrap(now) && replies == replies_to_unwrap(now.stage) && (
    now.stage matches UnwrapStageView::End(r) ==> r == Ok::<i32, Seq<char>>(0))
}

/// A wrapper with its executable next to it can be undone through any path that leads to it: unless
/// something fails, the job comes to a good end, with the sixth reply.
pub proof fn law_unwrap_succeeds(
    places: Places,
    undo: UnwrapView,
    place: Seq<u8>,
    disk: Disk,
    steps: Seq<(FileReplyView, Disk)>,
)
    requires
        disk::keeps_neighbours(places),
        undo.stage is Resolve,
        leads_to(places, disk, undo.path, place),
        disk[place].holds(shim::ABSOLUTE_WRAPPER_MARKER@),
        disk.contains_key(wrap::sidecar(place)),
        disk::can_do(places, JobView::Unwrap(undo), disk, steps),
        disk::all_well(steps),
    ensures
        unwraps_well(disk::job_after(JobView::Unwrap(undo), steps), steps.len()),
    decreases steps.len(),
{
    if steps.len() > 0 {
        let front = steps.drop_last();
        disk::lemma_all_well(steps);
        law_unwrap_succeeds(places, undo, place, disk, front);
        lemma_unwrap(places, undo, place, disk, front);
        let now = disk::job_after(JobView::Unwrap(undo), front)->Unwrap_0;
        if now.stage is Sidecar {
            assert(places(wrap::sidecar(now.stage->Sidecar_target)) == wrap::sidecar(place));
        }
    }
}

/// What a wrapping puts in the place of an executable is a wrapper, with the executable next to it.
pub proof fn law_wrapped_is_a_wrapper(job: WrapView, disk: Disk, place: Seq<u8>, bin: Seq<u8>)
    ensures
        wrapped(disk, place, job.script(bin)).contains_key(place),
        wrapped(disk, place, job.script(bin))[place].holds(shim::ABSOLUTE_WRAPPER_MARKER@),
        disk::has(wrapped(disk, place, job.script(bin)), wrap::sidecar(place), disk[place]),
{
    lemma_sidecar_differs(place);
    shim::law_wrapper_is_marked(files::shown(bin), job.min_mem, job.min_swap);
}

/// Undoing a wrapping restores the disk exactly: whatever was at the place of the executable, and
/// nothing next to it. The wrapper may be named by any path that leads to its place, be it spelled
/// as for the wrapping or not.
pub proof fn law_unwrap_restores_exactly(
    places: Places,
    job: WrapView,
    disk: Disk,
    steps: Seq<(FileReplyView, Disk)>,
    undo: UnwrapView,
    undo_steps: Seq<(FileReplyView, Disk)>,
)
    requires
        disk::keeps_neighbours(places),
        job.stage is Look,
        disk.contains_key(places(job.target)),
        !shows_wrapper(disk, places(job.target)),
        !disk.contains_key(wrap::sidecar(places(job.target))),
        disk::can_do(places, JobView::Wrap(job), disk, steps),
        disk::job_after(JobView::Wrap(job), steps).action() matches FileActionView::Finish(Ok(_)),
        undo.stage is Resolve,
        places(undo.path) == places(job.target) || leads_to(
            places,
            disk::disk_after(disk, steps),
            undo.path,
            places(job.target),
        ),
        disk::can_do(places, JobView::Unwrap(undo), disk::disk_after(disk, steps), undo_steps),
        disk::job_after(JobView::Unwrap(undo), undo_steps).action() matches FileActionView::Finish(
            Ok(_),
        ),
    ensures
        disk::disk_after(disk::disk_after(disk, steps), undo_steps) == disk,
{
    let place = places(job.target);
    let middle = disk::disk_after(disk, steps);
    law_wrap_moves_and_replaces(places, job, disk, steps);
    let bin = choose|bin: Seq<u8>| middle == wrapped(disk, place, #[trigger] job.script(bin));
    law_wrapped_is_a_wrapper(job, disk, place, bin);
    lemma_unwrap(places, undo, place, middle, undo_steps);
    assert(unwrapped(middle, place) =~= disk);
}

/// After a wrapping that has moved an executable, an undoing in which nothing fails comes to a good
/// end, with the sixth reply, and the disk is then exactly as it was before the wrapping.
pub proof fn law_unwrap_undoes_wrap(
    places: Places,
    job: WrapView,
    disk: Disk,
    steps: Seq<(FileReplyView, Disk)>,
    undo: UnwrapView,
    undo_steps: Seq<(FileReplyView, Disk)>,
)
    requires
        disk::keeps_neighbours(places),
        job.stage is Look,
        disk.contains_key(places(job.target)),
        !shows_wrapper(disk, places(job.target)),
        !disk.contains_key(wrap::sidecar(places(job.target))),
        disk::can_do(places, JobView::Wrap(job), disk, steps),
        disk::job_after(JobView::Wrap(job), steps).action() matches FileActionView::Finish(Ok(_)),
        undo.stage is Resolve,
        places(undo.path) == places(job.target) || leads_to(
            places,
            disk::disk_after(disk, steps),
            undo.path,
            places(job.target),
        ),
        disk::can_do(places, JobView::Unwrap(undo), disk::disk_after(disk, steps), undo_steps),
        disk::all_well(undo_steps),
    ensures
        unwraps_well(disk::job_after(JobView::Unwrap(undo), undo_steps), undo_steps.len()),
        undo_steps.len() == 6 ==> disk::job_after(JobView::Unwrap(undo), undo_steps).action()
            == FileActionView::Finish(Ok(0)) && disk::disk_after(
            disk::disk_after(disk, steps),
            undo_steps,
        ) == disk,
{
    let place = places(job.target);
    let middle = disk::disk_after(disk, steps);
    law_wrap_moves_and_replaces(places, job, disk, steps);
    let bin = choose|bin: Seq<u8>| middle == wrapped(disk, place, #[trigger] job.script(bin));
    law_wrapped_is_a_wrapper(job, disk, place, bin);
    law_unwrap_succeeds(places, undo, place, middle, undo_steps);
    if undo_steps.len() == 6 {
        law_unwrap_restores_exactly(places, job, disk, steps, undo, undo_steps);
    }
}

/// What cannot be wrapped is refused, and the disk stays as it is: nothing at all, what is no file, a
/// shim, and a file that nobody may execute.
pub proof fn law_wrap_refuses_what_is_no_executable(
    places: Places,
    job: WrapView,
    disk: Disk,
    steps: Seq<(FileReplyView, Disk)>,
)
    requires
        job.stage is Look,
        !disk::shows(disk, places(job.target), "oomwrap managed absolute wrapper"@),
        disk::found(disk, places, job.target) matches Some(node) ==> !node.is_file() || node.holds(
            "oomwrap managed path shim"@,
        ) || node.mode() & 0o111 == 0,
        disk::can_do(places, JobView::Wrap(job), disk, steps),
    ensures
        disk::disk_after(disk, steps) == disk,
        disk::job_after(JobView::Wrap(job), steps) matches JobView::Wrap(now) && now == (WrapView {
            stage: now.stage,
            ..job
        }) && (now.stage is Look || now.stage is Mode || (now.stage matches WrapStageView::End(r)
            && r is Err)) && (now.stage is Mode ==> disk::found(disk, places, job.target) is Some
            && (disk::found(disk, places, job.target)->0).is_file() && !(disk::found(
            disk,
            places,
            job.target,
        )->0).holds("oomwrap managed path shim"@)),
    decreases steps.len(),
{
    shim::lemma_empty_is_unmarked();
    if steps.len() > 0 {
        law_wrap_refuses_what_is_no_executable(places, job, disk, steps.drop_last());
    }
}

/// Without force, nothing is wrapped where there is something in the place for the executable behind
/// the wrapper, and the disk stays as it is.
pub proof fn law_wrap_refuses_a_taken_place(
    places: Places,
    job: WrapView,
    disk: Disk,
    steps: Seq<(FileReplyView, Disk)>,
)
    requires
        job.stage is Look,
        !job.force,
        disk.contains_key(places(job.target + seq![0x2eu8, 0x72, 0x65, 0x61, 0x6c])),
        !disk::shows(disk, places(job.target), "oomwrap managed absolute wrapper"@),
        disk::can_do(places, JobView::Wrap(job), disk, steps),
    ensures
        disk::disk_after(disk, steps) == disk,
        disk::job_after(JobView::Wrap(job), steps) matches JobView::Wrap(now) && now == (WrapView {
            stage: now.stage,
            ..job
        }) && (now.stage is Look || now.stage is Mode || now.stage is Sidecar || (
        now.stage matches WrapStageView::End(r) && r is Err)),
    decreases steps.len(),
{
    law_sidecar_ends_in_real(job.target);
    shim::lemma_empty_is_unmarked();
    if steps.len() > 0 {
        law_wrap_refuses_a_taken_place(places, job, disk, steps.drop_last());
    }
}

/// The executable behind a wrapper is kept under the path of the wrapper with `.real` behind it.
pub proof fn law_sidecar_ends_in_real(p: Seq<u8>)
    ensures
        wrap::sidecar(p) == p + seq![0x2eu8, 0x72, 0x65, 0x61, 0x6c],
{
    reveal_strlit(".real");
    assert(wrap::sidecar(p) =~= p + seq![0x2eu8, 0x72, 0x65, 0x61, 0x6c]);
}

/// A wrapping that ends well has left a file with the marker of a wrapper in the place of the
/// executable, with permission for everybody to read and execute it, and the executable itself in
/// the place next to it.
pub proof fn law_wrap_leaves_a_wrapper(
    places: Places,
    job: WrapView,
    disk: Disk,
    steps: Seq<(FileReplyView, Disk)>,
)
    requires
        disk::keeps_neighbours(places),
        job.stage is Look,
        disk.contains_key(places(job.target)),
        !disk::shows(disk, places(job.target), "oomwrap managed absolute wrapper"@),
        disk::can_do(places, JobView::Wrap(job), disk, steps),
        disk::job_after(JobView::Wrap(job), steps).action() matches FileActionView::Finish(Ok(_)),
    ensures
        ({
            let now = disk::disk_after(disk, steps);
            let place = places(job.target);
            &&& now.contains_key(place)
            &&& now[place] matches disk::Node::Text { text, mode } && mode == 0o755
                && crate::text::contains(text, "oomwrap managed absolute wrapper"@)
            &&& disk::has(now, place + seq![0x2eu8, 0x72, 0x65, 0x61, 0x6c], disk[place])
            &&& forall|p: Seq<u8>|
                p != place && p != place + seq![0x2eu8, 0x72, 0x65, 0x61, 0x6c] ==> #[trigger]
                    disk::agree_at(disk, now, p)
        }),
{
    let place = places(job.target);
    law_wrap_moves_and_replaces(places, job, disk, steps);
    let bin = choose|bin: Seq<u8>|
        disk::disk_after(disk, steps) == wrapped(disk, place, #[trigger] job.script(bin));
    law_wrapped_is_a_wrapper(job, disk, place, bin);
    law_sidecar_ends_in_real(place);
}

/// What is no wrapper, or a wrapper whose executable is missing, is not undone, and the disk stays as
/// it is.
pub proof fn law_unwrap_refuses_others(
    places: Places,
    undo: UnwrapView,
    place: Seq<u8>,
    disk: Disk,
    steps: Seq<(FileReplyView, Disk)>,
)
    requires
        disk::keeps_neighbours(places),
        undo.stage is Resolve,
        leads_to(places, disk, undo.path, place),
        !disk[place].holds("oomwrap managed absolute wrapper"@) || !disk.contains_key(
            place + seq![0x2eu8, 0x72, 0x65, 0x61, 0x6c],
        ),
        disk::can_do(places, JobView::Unwrap(undo), disk, steps),
    ensures
        disk::disk_after(disk, steps) == disk,
        disk::job_after(JobView::Unwrap(undo), steps) matches JobView::Unwrap(now) && (now.stage
            is Resolve || now.stage is Look || now.stage is Sidecar || (now.stage matches
            UnwrapStageView::End(r) && r is Err)) && (now.stage is Sidecar ==> disk[place].holds(
            "oomwrap managed absolute wrapper"@,
        )),
    decreases steps.len(),
{
    law_sidecar_ends_in_real(place);
    shim::lemma_empty_is_unmarked();
    if steps.len() > 0 {
        let front = steps.drop_last();
        law_unwrap_refuses_others(places, undo, place, disk, front);
        lemma_unwrap(places, undo, place, disk, front);
        let now = disk::job_after(JobView::Unwrap(undo), front)->Unwrap_0;
        if now.stage is Sidecar {
            assert(places(wrap::sidecar(now.stage->Sidecar_target)) == wrap::sidecar(place));
        }
    }
}

/// What is at no place cannot be undone.
pub proof fn law_unwrap_refuses_nothing(
    places: Places,
    undo: UnwrapView,
    disk: Disk,
    steps: Seq<(FileReplyView, Disk)>,
)
    requires
        undo.stage is Resolve,
        disk::found(disk, places, undo.path) is None,
        disk::can_do(places, JobView::Unwrap(undo), disk, steps),
    ensures
        disk::disk_after(disk, steps) == disk,
        disk::job_after(JobView::Unwrap(undo), steps) matches JobView::Unwrap(now) && now == (
        UnwrapView { stage: now.stage, ..undo }) && (now.stage is Resolve || (now.stage matches
            UnwrapStageView::End(r) && r is Err)),
    decreases steps.len(),
{
    if steps.len() > 0 {
        law_unwrap_refuses_nothing(places, undo, disk, steps.drop_last());
    }
}

/// A wrapper is made from the program that is running and the floors that were asked for, and the
/// shell gets exactly these.
pub proof fn law_wrapper_has_the_floors(job: WrapView, bin: Seq<u8>)
    ensures
        shim::sets(job.script(bin), "default_oomwrap"@, files::shown(bin)),
        shim::sets(job.script(bin), "default_min_mem"@, job.min_mem),
        shim::sets(job.script(bin), "default_min_swap"@, job.min_swap),
{
    shim::law_wrapper_sets_what_it_was_made_from(files::shown(bin), job.min_mem, job.min_swap);
}

/// What is wrapped is what was asked for: the path, the floors and whether force may be used are those
/// of the arguments, and so is the path to be undone.
pub proof fn law_wrap_follows_its_arguments(args: wrap::WrapArgs, undo: wrap::UnwrapArgs)
    ensures
        WrapView::start(args) == (WrapView {
            target: args.path@,
            min_mem: args.min_mem@,
            min_swap: args.min_swap@,
            force: args.force,
            stage: WrapStageView::Look,
        }),
        UnwrapView::start(undo) == (UnwrapView {
            path: undo.path@,
            stage: UnwrapStageView::Resolve,
        }),
{
}

} // verus!
