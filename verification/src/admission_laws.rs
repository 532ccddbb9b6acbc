//! Which job starts, with how much set aside for it, said of the jobs and the limits themselves.

use crate::capacity::{HostCapacity, Limits};
use crate::ids::JobId;
use crate::protocol::{CompileSlotsView, JobView};
use crate::scheduling::{
    excess, lemma_line_places, lemma_one_settles, lemma_place_in_line, lemma_running_places,
    lemma_slots_without, memory_taken, requested_memory, requested_slots, slots_taken, Admission,
    Allocation, Excess, Running, ScheduledView, SchedulerView, Verdict,
};
use vstd::prelude::*;

verus! {

/// A job waits if and only if it stands somewhere in line, and runs if and only if it stands
/// somewhere among those that run.
pub proof fn who_waits_and_who_runs(scheduler: SchedulerView, id: JobId)
    ensures
        scheduler.is_queued(id) <==> !(forall|i: int|
            0 <= i < scheduler.queue.len() ==> #[trigger] scheduler.queue[i] != id),
        scheduler.is_running(id) <==> !(forall|i: int|
            0 <= i < scheduler.running.len() ==> (#[trigger] scheduler.running[i]).id != id),
{
}

/// A job that leaves its compile slots to the runner takes what is free, and four at most, so that
/// it never waits for slots while one is free; a job that names a number gets that number, and one
/// where it names none.
pub proof fn slots_follow_the_request(job: JobView, free: u16)
    ensures
        job.resources.compile_slots is Auto && free >= 1 ==> {
            &&& requested_slots(job, free) <= free
            &&& requested_slots(job, free) <= 4
            &&& requested_slots(job, free) == free || requested_slots(job, free) == 4
        },
        job.resources.compile_slots matches CompileSlotsView::Exact(count) ==> {
            &&& count >= 1 ==> requested_slots(job, free) == count
            &&& count == 0 ==> requested_slots(job, free) == 1
        },
{
}

/// More free slots never give a job fewer.
pub proof fn more_free_slots_give_no_fewer(job: JobView, fewer: u16, more: u16)
    requires
        fewer <= more,
    ensures
        requested_slots(job, fewer) <= requested_slots(job, more),
{
}

/// A job gets the memory that it asks for, and half a GiB at least, and no more than one of the
/// two.
pub proof fn memory_follows_the_request(job: JobView)
    ensures
        requested_memory(job) >= job.resources.memory_mib,
        requested_memory(job) >= 512,
        requested_memory(job) == job.resources.memory_mib || requested_memory(job) == 512,
{
}

/// What is set aside adds up job by job, from nothing.
pub proof fn reservations_add_up(running: Seq<Running>, more: Running)
    ensures
        slots_taken(Seq::empty()) == 0,
        memory_taken(Seq::empty()) == 0,
        slots_taken(running.push(more)) == slots_taken(running) + more.allocation.compile_slots,
        memory_taken(running.push(more)) == memory_taken(running) + more.allocation.memory_mib,
{
    assert(running.push(more).drop_last() =~= running);
}

/// The memory in MiB that a job cannot do without.
pub open spec fn memory_need(job: JobView) -> int {
    if job.resources.memory_mib >= 512 {
        job.resources.memory_mib as int
    } else {
        512
    }
}

/// Whether no host within these limits could ever bear the job.
pub open spec fn beyond_limits(job: JobView, limits: Limits) -> bool {
    ||| memory_need(job) > limits.max_job_memory_mib
    ||| limits.max_compile_slots == 0
    ||| job.resources.compile_slots matches CompileSlotsView::Exact(count) && (count
        > limits.max_compile_slots)
}

/// Whether the job and a running one want the same lock.
pub open spec fn shares_a_lock(scheduler: SchedulerView, id: JobId) -> bool {
    exists|i: int, j: int, k: int|
        0 <= i < scheduler.jobs[id].job.locks.len() && 0 <= j < scheduler.running.len() && 0 <= k
            < scheduler.jobs[scheduler.running[j].id].job.locks.len()
            && #[trigger] scheduler.jobs[id].job.locks[i]
            == #[trigger] scheduler.jobs[scheduler.running[j].id].job.locks[k]
}

/// Whether the host has the memory for the job beside all that is set aside and the reserve. A sum
/// beyond the greatest number counts as that number.
pub open spec fn memory_suffices(
    scheduler: SchedulerView,
    limits: Limits,
    host: HostCapacity,
    id: JobId,
) -> bool {
    ||| host.available_memory_mib >= memory_need(scheduler.jobs[id].job) + memory_taken(
        scheduler.running,
    ) + limits.host_memory_reserve_mib
    ||| host.available_memory_mib == u64::MAX
}

/// Whether none of the host's pressures is above its limit.
pub open spec fn pressures_allow(limits: Limits, host: HostCapacity) -> bool {
    &&& host.cpu_pressure_some_avg10 <= limits.cpu_pressure_limit
    &&& host.memory_pressure_full_avg10 <= limits.memory_pressure_limit
    &&& host.io_pressure_full_avg10 <= limits.io_pressure_limit
}

/// The locks that running jobs hold are the ones named in the jobs.
proof fn lemma_shared_locks(scheduler: SchedulerView, id: JobId)
    ensures
        shares_a_lock(scheduler, id) == scheduler.some_held(scheduler.jobs[id].job.locks),
{
    let locks = scheduler.jobs[id].job.locks;
    if shares_a_lock(scheduler, id) {
        let (i, j, k) = choose|i: int, j: int, k: int|
            0 <= i < scheduler.jobs[id].job.locks.len() && 0 <= j < scheduler.running.len() && 0
                <= k < scheduler.jobs[scheduler.running[j].id].job.locks.len()
                && #[trigger] scheduler.jobs[id].job.locks[i]
                == #[trigger] scheduler.jobs[scheduler.running[j].id].job.locks[k];
        assert(scheduler.jobs[scheduler.running[j].id].job.locks.contains(locks[i]));
        assert(scheduler.held(locks[i]));
    }
    if scheduler.some_held(locks) {
        let i = choose|i: int| 0 <= i < locks.len() && scheduler.held(#[trigger] locks[i]);
        let j = choose|j: int|
            0 <= j < scheduler.running.len() && scheduler.jobs[(
            #[trigger] scheduler.running[j]).id].job.locks.contains(locks[i]);
        let other = scheduler.jobs[scheduler.running[j].id].job.locks;
        let k = other.index_of(locks[i]);
        assert(other[k] == locks[i]);
        assert(scheduler.jobs[id].job.locks[i]
            == scheduler.jobs[scheduler.running[j].id].job.locks[k]);
    }
}

/// What a waiting job's turn comes to: it is turned down if and only if no host within the limits
/// could ever bear it; else it is a barrier if and only if it wants the whole host while something
/// runs; else it starts if and only if a compile slot is free, the slots that it names are free,
/// its memory is there beside all that is set aside and the reserve, no pressure is too high and no
/// running job has one of its locks; and it waits otherwise.
pub proof fn what_a_turn_comes_to(
    scheduler: SchedulerView,
    limits: Limits,
    host: HostCapacity,
    id: JobId,
)
    ensures
        ({
            let job = scheduler.jobs[id].job;
            let verdict = scheduler.verdict(limits, host, id);
            let free = limits.max_compile_slots - slots_taken(scheduler.running);
            &&& verdict is TooLarge <==> beyond_limits(job, limits)
            &&& verdict == Verdict::TooLarge(Excess::Memory) <==> memory_need(job)
                > limits.max_job_memory_mib
            &&& verdict is Barrier <==> !beyond_limits(job, limits) && job.exclusive is Some
                && scheduler.running.len() > 0
            &&& verdict is Start <==> {
                &&& !beyond_limits(job, limits)
                &&& job.exclusive is None || scheduler.running.len() == 0
                &&& free >= 1
                &&& job.resources.compile_slots matches CompileSlotsView::Exact(count) ==> (count
                    <= free)
                &&& memory_suffices(scheduler, limits, host, id)
                &&& pressures_allow(limits, host)
                &&& !shares_a_lock(scheduler, id)
            }
            &&& verdict matches Verdict::Start(allocation) ==> {
                &&& allocation.memory_mib == memory_need(job)
                &&& 1 <= allocation.compile_slots <= free
                &&& job.resources.compile_slots is Auto ==> allocation.compile_slots <= 4 && (
                allocation.compile_slots == free || allocation.compile_slots == 4)
                &&& job.resources.compile_slots matches CompileSlotsView::Exact(count) ==> {
                    &&& count >= 1 ==> allocation.compile_slots == count
                    &&& count == 0 ==> allocation.compile_slots == 1
                }
            }
        }),
{
    lemma_shared_locks(scheduler, id);
}

/// Whether another job may start at all: there is one, there is room for one more, nobody has the
/// whole host, and a compile slot is free.
pub open spec fn room_for_one_more(scheduler: SchedulerView, limits: Limits) -> bool {
    &&& scheduler.queue.len() > 0
    &&& scheduler.running.len() < limits.max_running_jobs
    &&& slots_taken(scheduler.running) < limits.max_compile_slots
    &&& forall|i: int|
        0 <= i < scheduler.running.len() ==> scheduler.jobs[(
        #[trigger] scheduler.running[i]).id].job.exclusive is None
}

/// Whether a job of the project runs.
pub open spec fn project_runs(scheduler: SchedulerView, project: Seq<char>) -> bool {
    exists|i: int|
        0 <= i < scheduler.running.len() && project == scheduler.jobs[(
        #[trigger] scheduler.running[i]).id].project
}

/// Whether the job at this place is passed over: its project has a job running, and some other
/// waiting job's project has none.
pub open spec fn passed_over(scheduler: SchedulerView, place: int) -> bool {
    &&& project_runs(scheduler, scheduler.jobs[scheduler.queue[place]].project)
    &&& exists|i: int|
        0 <= i < scheduler.queue.len() && !project_runs(
            scheduler,
            scheduler.jobs[#[trigger] scheduler.queue[i]].project,
        )
}

proof fn lemma_passed_over(scheduler: SchedulerView, place: int)
    ensures
        passed_over(scheduler, place) == !scheduler.considered(scheduler.queue[place]),
{
    assert forall|project: Seq<char>| project_runs(scheduler, project) == scheduler.represented(
        project,
    ) by {
        if project_runs(scheduler, project) {
            let i = choose|i: int|
                0 <= i < scheduler.running.len() && project == scheduler.jobs[(
                #[trigger] scheduler.running[i]).id].project;
            assert(scheduler.jobs[scheduler.running[i].id].project == project);
        }
        if scheduler.represented(project) {
            let i = choose|i: int|
                0 <= i < scheduler.running.len() && scheduler.jobs[(
                #[trigger] scheduler.running[i]).id].project == project;
            assert(project == scheduler.jobs[scheduler.running[i].id].project);
        }
    }
    if passed_over(scheduler, place) {
        let i = choose|i: int|
            0 <= i < scheduler.queue.len() && !project_runs(
                scheduler,
                scheduler.jobs[#[trigger] scheduler.queue[i]].project,
            );
        assert(!scheduler.represented(scheduler.jobs[scheduler.queue[i]].project));
    }
    if scheduler.project_left_out() {
        let i = choose|i: int|
            0 <= i < scheduler.queue.len() && !scheduler.represented(
                scheduler.jobs[#[trigger] scheduler.queue[i]].project,
            );
        assert(!project_runs(scheduler, scheduler.jobs[scheduler.queue[i]].project));
    }
}

proof fn lemma_room(scheduler: SchedulerView, limits: Limits)
    ensures
        room_for_one_more(scheduler, limits) == scheduler.open_for_admission(limits),
{
    if scheduler.exclusive_runs() {
        let i = choose|i: int|
            0 <= i < scheduler.running.len() && scheduler.jobs[(
            #[trigger] scheduler.running[i]).id].job.exclusive is Some;
        assert(!(scheduler.jobs[scheduler.running[i].id].job.exclusive is None));
    }
}

/// Where there is room for one more, the first job in line that is not passed over and whose turn
/// does not come to waiting settles the matter: it starts, or is turned down, or as a barrier lets
/// nothing start.
pub proof fn the_first_turn_settles_the_matter(
    scheduler: SchedulerView,
    limits: Limits,
    host: HostCapacity,
    place: int,
)
    requires
        room_for_one_more(scheduler, limits),
        0 <= place < scheduler.queue.len(),
        !passed_over(scheduler, place),
        !(scheduler.verdict(limits, host, scheduler.queue[place]) is Wait),
        forall|i: int|
            #![trigger scheduler.queue[i]]
            0 <= i < place ==> passed_over(scheduler, i) || scheduler.verdict(
                limits,
                host,
                scheduler.queue[i],
            ) is Wait,
    ensures
        match scheduler.verdict(limits, host, scheduler.queue[place]) {
            Verdict::Start(allocation) => scheduler.admission(limits, host) == (Admission::Start {
                place,
                allocation,
            }),
            Verdict::TooLarge(excess) => scheduler.admission(limits, host)
                == (Admission::TooLarge { job: scheduler.queue[place], excess }),
            _ => scheduler.admission(limits, host) is Idle,
        },
{
    lemma_room(scheduler, limits);
    lemma_passed_over(scheduler, place);
    assert forall|i: int| 0 <= i < place implies !#[trigger] scheduler.settles(limits, host, i) by {
        lemma_passed_over(scheduler, i);
        assert(passed_over(scheduler, i) || scheduler.verdict(
            limits,
            host,
            scheduler.queue[i],
        ) is Wait);
    }
    assert(scheduler.first_to_settle(limits, host, place));
    lemma_one_settles(scheduler, limits, host, place);
}

/// Nothing starts and nothing is turned down where there is no room for one more, or where every
/// waiting job is passed over or has to wait.
pub proof fn without_room_or_turn_nothing_happens(
    scheduler: SchedulerView,
    limits: Limits,
    host: HostCapacity,
)
    requires
        !room_for_one_more(scheduler, limits) || forall|i: int|
            #![trigger scheduler.queue[i]]
            0 <= i < scheduler.queue.len() ==> passed_over(scheduler, i) || scheduler.verdict(
                limits,
                host,
                scheduler.queue[i],
            ) is Wait,
    ensures
        scheduler.admission(limits, host) is Idle,
{
    lemma_room(scheduler, limits);
    if room_for_one_more(scheduler, limits) {
        assert forall|i: int| !#[trigger] scheduler.first_to_settle(limits, host, i) by {
            if 0 <= i < scheduler.queue.len() {
                lemma_passed_over(scheduler, i);
                assert(passed_over(scheduler, i) || scheduler.verdict(
                    limits,
                    host,
                    scheduler.queue[i],
                ) is Wait);
            }
        }
    }
}

/// Where a job of a project that has none running can start, no job of a project that has one
/// running does.
pub proof fn a_started_job_leaves_no_project_behind(
    scheduler: SchedulerView,
    limits: Limits,
    host: HostCapacity,
    place: int,
    allocation: Allocation,
    waiting: int,
    runner: int,
)
    requires
        scheduler.admission(limits, host) == (Admission::Start { place, allocation }),
        0 <= waiting < scheduler.queue.len(),
        forall|i: int|
            0 <= i < scheduler.running.len() ==> scheduler.jobs[(
            #[trigger] scheduler.running[i]).id].project
                != scheduler.jobs[scheduler.queue[waiting]].project,
        0 <= runner < scheduler.running.len(),
    ensures
        0 <= place < scheduler.queue.len(),
        scheduler.jobs[scheduler.running[runner].id].project
            != scheduler.jobs[scheduler.queue[place]].project,
{
    assert(scheduler.first_to_settle(limits, host, place));
    lemma_passed_over(scheduler, place);
    let project = scheduler.jobs[scheduler.queue[waiting]].project;
    if project_runs(scheduler, project) {
        let i = choose|i: int|
            0 <= i < scheduler.running.len() && project == scheduler.jobs[(
            #[trigger] scheduler.running[i]).id].project;
        assert(false);
    }
    assert(!project_runs(scheduler, scheduler.jobs[scheduler.queue[waiting]].project));
    if scheduler.jobs[scheduler.running[runner].id].project
        == scheduler.jobs[scheduler.queue[place]].project {
        assert(project_runs(scheduler, scheduler.jobs[scheduler.queue[place]].project));
    }
}

/// The first in line starts where it fits: where there is room for one more job and a free compile
/// slot, it asks for no more slots than are free and for no more memory than any job may have or
/// the host has left beside what is set aside and the reserve, no pressure is too high, nothing that
/// runs has the whole host or one of its locks or counts for its project, and it does not ask for
/// the whole host itself.
pub proof fn the_first_in_line_starts_where_it_fits(
    scheduler: SchedulerView,
    limits: Limits,
    host: HostCapacity,
)
    requires
        scheduler.queue.len() > 0,
        scheduler.running.len() < limits.max_running_jobs,
        slots_taken(scheduler.running) < limits.max_compile_slots,
        ({
            let job = scheduler.jobs[scheduler.queue[0]].job;
            let set_aside = memory_taken(scheduler.running) + limits.host_memory_reserve_mib;
            &&& job.exclusive is None
            &&& job.resources.compile_slots matches CompileSlotsView::Exact(count) ==> (count
                + slots_taken(scheduler.running) <= limits.max_compile_slots)
            &&& job.resources.memory_mib <= limits.max_job_memory_mib
            &&& 512 <= limits.max_job_memory_mib
            &&& job.resources.memory_mib + set_aside <= host.available_memory_mib
            &&& 512 + set_aside <= host.available_memory_mib
            &&& host.cpu_pressure_some_avg10 <= limits.cpu_pressure_limit
            &&& host.memory_pressure_full_avg10 <= limits.memory_pressure_limit
            &&& host.io_pressure_full_avg10 <= limits.io_pressure_limit
            &&& forall|i: int|
                #![trigger scheduler.running[i]]
                0 <= i < scheduler.running.len() ==> {
                    let other = scheduler.jobs[scheduler.running[i].id];
                    &&& other.job.exclusive is None
                    &&& other.project != scheduler.jobs[scheduler.queue[0]].project
                    &&& forall|k: int|
                        0 <= k < other.job.locks.len() ==> !job.locks.contains(
                            #[trigger] other.job.locks[k],
                        )
                }
        }),
    ensures
        ({
            let job = scheduler.jobs[scheduler.queue[0]].job;
            let admission = scheduler.admission(limits, host);
            let free = limits.max_compile_slots - slots_taken(scheduler.running);
            &&& admission is Start
            &&& admission->place == 0
            &&& admission->allocation.memory_mib >= 512
            &&& admission->allocation.memory_mib >= job.resources.memory_mib
            &&& admission->allocation.memory_mib == 512 || admission->allocation.memory_mib
                == job.resources.memory_mib
            &&& 1 <= admission->allocation.compile_slots <= free
            &&& job.resources.compile_slots matches CompileSlotsView::Exact(count) ==> (count >= 1
                ==> admission->allocation.compile_slots == count)
            &&& job.resources.compile_slots is Auto ==> admission->allocation.compile_slots == free
                || (admission->allocation.compile_slots == 4 && free > 4)
        }),
{
    let id = scheduler.queue[0];
    let mine = scheduler.jobs[id].job.locks;
    if shares_a_lock(scheduler, id) {
        let (i, j, k) = choose|i: int, j: int, k: int|
            0 <= i < scheduler.jobs[id].job.locks.len() && 0 <= j < scheduler.running.len() && 0
                <= k < scheduler.jobs[scheduler.running[j].id].job.locks.len()
                && #[trigger] scheduler.jobs[id].job.locks[i]
                == #[trigger] scheduler.jobs[scheduler.running[j].id].job.locks[k];
        let other = scheduler.jobs[scheduler.running[j].id];
        assert(!mine.contains(other.job.locks[k]));
        assert(mine.contains(mine[i]));
    }
    what_a_turn_comes_to(scheduler, limits, host, id);
    assert(!project_runs(scheduler, scheduler.jobs[id].project));
    assert(!passed_over(scheduler, 0));
    the_first_turn_settles_the_matter(scheduler, limits, host, 0);
}

/// A waiting job that wants a lock of a running one does not start, whichever of their locks it is.
pub proof fn one_shared_lock_keeps_a_job_waiting(
    scheduler: SchedulerView,
    limits: Limits,
    host: HostCapacity,
    id: JobId,
    mine: int,
    other: int,
    theirs: int,
)
    requires
        0 <= mine < scheduler.jobs[id].job.locks.len(),
        0 <= other < scheduler.running.len(),
        0 <= theirs < scheduler.jobs[scheduler.running[other].id].job.locks.len(),
        scheduler.jobs[id].job.locks[mine]
            == scheduler.jobs[scheduler.running[other].id].job.locks[theirs],
    ensures
        !(scheduler.verdict(limits, host, id) is Start),
{
    assert(shares_a_lock(scheduler, id));
    what_a_turn_comes_to(scheduler, limits, host, id);
}

/// A job is beyond the limits if and only if it asks for more memory than a job may have, or for
/// more compile slots than there are, or a job may not even have half a GiB or one slot.
pub proof fn which_jobs_ask_for_too_much(job: JobView, limits: Limits)
    ensures
        excess(job, limits) is Some <==> {
            ||| job.resources.memory_mib > limits.max_job_memory_mib
            ||| 512 > limits.max_job_memory_mib
            ||| limits.max_compile_slots < 1
            ||| job.resources.compile_slots matches CompileSlotsView::Exact(count) && (count
                > limits.max_compile_slots)
        },
        excess(job, limits) == Some(Excess::Memory) <==> job.resources.memory_mib
            > limits.max_job_memory_mib || 512 > limits.max_job_memory_mib,
{
}

/// Putting a job in line changes nothing else: it stands behind everyone with a higher priority, or
/// an equal one and an earlier identifier, and in front of everyone else, who keep their order.
pub proof fn enqueuing_puts_the_job_in_its_place(
    scheduler: SchedulerView,
    job: JobView,
    project: Seq<char>,
) -> (place: int)
    requires
        scheduler.wf(),
        !scheduler.jobs.contains_key(job.id),
    ensures
        0 <= place <= scheduler.queue.len(),
        scheduler.enqueued(job, project).queue == scheduler.queue.take(place).push(job.id)
            + scheduler.queue.skip(place),
        forall|i: int|
            #![trigger scheduler.queue[i]]
            0 <= i < place ==> {
                let other = scheduler.jobs[scheduler.queue[i]].job;
                other.priority > job.priority || other.priority == job.priority
                    && scheduler.queue[i] < job.id
            },
        forall|i: int|
            #![trigger scheduler.queue[i]]
            place <= i < scheduler.queue.len() ==> {
                let other = scheduler.jobs[scheduler.queue[i]].job;
                job.priority > other.priority || job.priority == other.priority && job.id
                    < scheduler.queue[i]
            },
        scheduler.enqueued(job, project).jobs == scheduler.jobs.insert(
            job.id,
            ScheduledView { job, project },
        ),
        scheduler.enqueued(job, project).running == scheduler.running,
{
    let place = scheduler.place_in_line(job.priority, job.id, 0);
    lemma_place_in_line(scheduler, job.priority, job.id, 0);
    assert(scheduler.enqueued(job, project).queue =~= scheduler.queue.take(place).push(job.id)
        + scheduler.queue.skip(place));
    place
}

/// Cancelling a waiting job takes it, and nothing else, away; the others keep their order.
pub proof fn cancelling_takes_one_job_away(scheduler: SchedulerView, place: int)
    requires
        scheduler.wf(),
        0 <= place < scheduler.queue.len(),
    ensures
        scheduler.without_queued(scheduler.queue[place]).queue == scheduler.queue.take(place)
            + scheduler.queue.skip(place + 1),
        scheduler.without_queued(scheduler.queue[place]).jobs == scheduler.jobs.remove(
            scheduler.queue[place],
        ),
        scheduler.without_queued(scheduler.queue[place]).running == scheduler.running,
{
    assert(scheduler.is_queued(scheduler.queue[place]));
    lemma_line_places(scheduler, scheduler.queue[place]);
    assert(scheduler.without_queued(scheduler.queue[place]).queue =~= scheduler.queue.take(place)
        + scheduler.queue.skip(place + 1));
}

/// Starting a waiting job moves it from the line to the end of those that run, with what is set
/// aside for it, and changes nothing else.
pub proof fn starting_moves_one_job(scheduler: SchedulerView, place: int, allocation: Allocation)
    requires
        0 <= place < scheduler.queue.len(),
    ensures
        scheduler.started(place, allocation).queue == scheduler.queue.take(place)
            + scheduler.queue.skip(place + 1),
        scheduler.started(place, allocation).running.len() == scheduler.running.len() + 1,
        scheduler.started(place, allocation).running.drop_last() == scheduler.running,
        scheduler.started(place, allocation).running.last().id == scheduler.queue[place],
        scheduler.started(place, allocation).running.last().allocation == allocation,
        scheduler.started(place, allocation).jobs == scheduler.jobs,
{
    assert(scheduler.started(place, allocation).queue =~= scheduler.queue.take(place)
        + scheduler.queue.skip(place + 1));
    assert(scheduler.started(place, allocation).running.drop_last() =~= scheduler.running);
}

/// The end of a running job takes it, and nothing else, away, and frees exactly what was set aside
/// for it.
pub proof fn ending_takes_one_job_away(scheduler: SchedulerView, place: int)
    requires
        scheduler.wf(),
        0 <= place < scheduler.running.len(),
    ensures
        ({
            let gone = scheduler.running[place];
            let after = scheduler.finished(gone.id);
            &&& after.running == scheduler.running.take(place) + scheduler.running.skip(place + 1)
            &&& after.queue == scheduler.queue
            &&& after.jobs == scheduler.jobs.remove(gone.id)
            &&& slots_taken(after.running) + gone.allocation.compile_slots == slots_taken(
                scheduler.running,
            )
            &&& memory_taken(after.running) + gone.allocation.memory_mib == memory_taken(
                scheduler.running,
            )
        }),
{
    let gone = scheduler.running[place];
    let after = scheduler.finished(gone.id);
    assert(scheduler.is_running(gone.id));
    lemma_running_places(scheduler, gone.id);
    let at = scheduler.running_place(gone.id);
    assert(scheduler.running[at].id == gone.id);
    assert(at == place);
    assert(after.running =~= scheduler.running.take(place) + scheduler.running.skip(place + 1));
    lemma_slots_without(scheduler.running, place);
    lemma_memory_without(scheduler.running, place);
}

proof fn lemma_memory_without(running: Seq<Running>, place: int)
    requires
        0 <= place < running.len(),
    ensures
        memory_taken(running.remove(place)) + running[place].allocation.memory_mib == memory_taken(
            running,
        ),
    decreases running.len(),
{
    if place == running.len() - 1 {
        assert(running.remove(place) =~= running.drop_last());
    } else {
        lemma_memory_without(running.drop_last(), place);
        assert(running.remove(place).drop_last() =~= running.drop_last().remove(place));
    }
}

/// A change of priority changes that one field of that one job.
pub proof fn a_change_of_priority_changes_one_field(
    scheduler: SchedulerView,
    id: JobId,
    priority: i32,
)
    requires
        scheduler.wf(),
        scheduler.is_queued(id),
    ensures
        ({
            let after = scheduler.reprioritized(id, priority);
            &&& after.jobs[id].job.priority == priority
            &&& (JobView { priority: scheduler.jobs[id].job.priority, ..after.jobs[id].job })
                == scheduler.jobs[id].job
            &&& after.jobs[id].project == scheduler.jobs[id].project
            &&& after.jobs.dom() == scheduler.jobs.dom()
            &&& after.running == scheduler.running
            &&& forall|other: JobId|
                other != id ==> #[trigger] after.jobs[other] == scheduler.jobs[other]
        }),
{
    lemma_line_places(scheduler, id);
    assert(scheduler.jobs[id].job.id == id);
    let after = scheduler.reprioritized(id, priority);
    assert(after.jobs.dom() =~= scheduler.jobs.dom());
}

} // verus!
