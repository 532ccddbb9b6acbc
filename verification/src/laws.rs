//! What the scheduler promises, whatever jobs come and go.

use crate::capacity::{HostCapacity, Limits};
use crate::ids::{submission_time, JobId};
use crate::protocol::JobView;
use crate::scheduling::{
    cancelling_keeps_order, enqueuing_keeps_order, excess, finishing_keeps_order, goes_before,
    least_slots, lemma_line_places, lemma_one_settles, lemma_place_in_line, memory_taken,
    requested_memory, slots_taken, starting_keeps_order, Admission, Allocation, Excess,
    ScheduledView, SchedulerView, Verdict,
};
use vstd::prelude::*;

verus! {

/// What is known of the place whose job starts.
proof fn lemma_started_place(
    scheduler: SchedulerView,
    limits: Limits,
    host: HostCapacity,
    place: int,
    allocation: Allocation,
)
    requires
        scheduler.admission(limits, host) == (Admission::Start { place, allocation }),
    ensures
        scheduler.open_for_admission(limits),
        scheduler.first_to_settle(limits, host, place),
        scheduler.verdict(limits, host, scheduler.queue[place]) == Verdict::Start(allocation),
{
}

/// The job that starts goes before every other waiting job that could have started: it has the
/// higher priority or, at equal priority, the earlier identifier.
pub proof fn higher_priority_runs_first(
    scheduler: SchedulerView,
    limits: Limits,
    host: HostCapacity,
    place: int,
    allocation: Allocation,
    other: int,
)
    requires
        scheduler.wf(),
        scheduler.admission(limits, host) == (Admission::Start { place, allocation }),
        0 <= other < scheduler.queue.len(),
        scheduler.considered(scheduler.queue[other]),
        scheduler.verdict(limits, host, scheduler.queue[other]) is Start,
        other != place,
    ensures
        goes_before(
            scheduler.jobs[scheduler.queue[place]].job.priority,
            scheduler.queue[place],
            scheduler.jobs[scheduler.queue[other]].job.priority,
            scheduler.queue[other],
        ),
{
    lemma_started_place(scheduler, limits, host, place, allocation);
    assert(scheduler.settles(limits, host, other));
    assert(scheduler.outranks(scheduler.queue[place], scheduler.queue[other]));
}

/// The order of the line is strict and total: of two jobs one goes before the other unless they
/// have the same priority and identifier, never both, and what goes before one that goes before a
/// third goes before the third.
pub proof fn the_line_is_strictly_ordered(
    priority: i32,
    id: JobId,
    other_priority: i32,
    other: JobId,
    third_priority: i32,
    third: JobId,
)
    ensures
        goes_before(priority, id, other_priority, other) <==> priority > other_priority || (priority
            == other_priority && id < other),
        !goes_before(priority, id, other_priority, other) && !goes_before(
            other_priority,
            other,
            priority,
            id,
        ) <==> priority == other_priority && id == other,
        !(goes_before(priority, id, other_priority, other) && goes_before(
            other_priority,
            other,
            priority,
            id,
        )),
        goes_before(priority, id, other_priority, other) && goes_before(
            other_priority,
            other,
            third_priority,
            third,
        ) ==> goes_before(priority, id, third_priority, third),
{
}

/// Among jobs of equal priority the one submitted earlier goes first: an identifier begins with the
/// moment of its submission.
pub proof fn equal_priorities_go_by_submission(priority: i32, first: JobId, second: JobId)
    requires
        submission_time(first) < submission_time(second),
    ensures
        goes_before(priority, first, priority, second),
{
}

/// While a waiting project has no job running, no project that has one gets another.
pub proof fn waiting_projects_are_represented_first(
    scheduler: SchedulerView,
    limits: Limits,
    host: HostCapacity,
    place: int,
    allocation: Allocation,
)
    requires
        scheduler.admission(limits, host) == (Admission::Start { place, allocation }),
        scheduler.project_left_out(),
    ensures
        !scheduler.represented(scheduler.jobs[scheduler.queue[place]].project),
{
    lemma_started_place(scheduler, limits, host, place, allocation);
}

/// Once every waiting project has a job running, all waiting jobs are looked at.
pub proof fn spare_capacity_is_open_to_all(scheduler: SchedulerView, id: JobId)
    requires
        !scheduler.project_left_out(),
    ensures
        scheduler.considered(id),
{
}

/// No two running jobs hold the same lock.
pub proof fn running_jobs_share_no_lock(
    scheduler: SchedulerView,
    first: JobId,
    second: JobId,
    lock: Seq<char>,
)
    requires
        scheduler.wf(),
        scheduler.is_running(first),
        scheduler.is_running(second),
        scheduler.jobs[first].job.locks.contains(lock),
        scheduler.jobs[second].job.locks.contains(lock),
    ensures
        first == second,
{
    let i = scheduler.running_place(first);
    let j = scheduler.running_place(second);
    if i < j {
        assert(scheduler.locks_apart(scheduler.running[i].id, scheduler.running[j].id));
    } else if j < i {
        assert(scheduler.locks_apart(scheduler.running[j].id, scheduler.running[i].id));
    }
}

/// The end of a job frees its locks.
pub proof fn ending_a_job_frees_its_locks(scheduler: SchedulerView, id: JobId, lock: Seq<char>)
    requires
        scheduler.wf(),
        scheduler.is_running(id),
        scheduler.jobs[id].job.locks.contains(lock),
    ensures
        !scheduler.finished(id).held(lock),
{
    let after = scheduler.finished(id);
    let gone = scheduler.running_place(id);
    assert(scheduler.running[gone].id == id);
    if after.held(lock) {
        let at = choose|i: int|
            0 <= i < after.running.len() && after.jobs[(
            #[trigger] after.running[i]).id].job.locks.contains(lock);
        let from = if at < gone { at } else { at + 1 };
        let other = after.running[at].id;
        assert(after.running[at] == scheduler.running[from]);
        assert(other != id);
        running_jobs_share_no_lock(scheduler, id, other, lock);
    }
}

/// A job starts only within the limits: on the number of jobs, on compile slots, on its memory, on
/// the memory that the host keeps once all that is set aside is used, and on the host's pressures.
pub proof fn admission_stays_within_limits(
    scheduler: SchedulerView,
    limits: Limits,
    host: HostCapacity,
    place: int,
    allocation: Allocation,
)
    requires
        scheduler.wf(),
        scheduler.admission(limits, host) == (Admission::Start { place, allocation }),
    ensures
        scheduler.started(place, allocation).running.len() <= limits.max_running_jobs,
        slots_taken(scheduler.started(place, allocation).running) <= limits.max_compile_slots,
        allocation.memory_mib <= limits.max_job_memory_mib,
        ({
            let kept = memory_taken(scheduler.started(place, allocation).running)
                + limits.host_memory_reserve_mib;
            kept <= u64::MAX ==> kept <= host.available_memory_mib
        }),
        host.calm(limits),
{
    lemma_started_place(scheduler, limits, host, place, allocation);
    let after = scheduler.started(place, allocation);
    assert(after.running.drop_last() =~= scheduler.running);
}

/// While one of the host's pressures is above its limit, nothing starts.
pub proof fn strained_host_starts_nothing(
    scheduler: SchedulerView,
    limits: Limits,
    host: HostCapacity,
)
    requires
        !host.calm(limits),
    ensures
        !(scheduler.admission(limits, host) is Start),
{
}

/// A job waits while a running job holds one of its locks.
pub proof fn held_locks_keep_jobs_waiting(
    scheduler: SchedulerView,
    limits: Limits,
    host: HostCapacity,
    place: int,
    allocation: Allocation,
    lock: Seq<char>,
)
    requires
        scheduler.admission(limits, host) == (Admission::Start { place, allocation }),
        scheduler.jobs[scheduler.queue[place]].job.locks.contains(lock),
    ensures
        !scheduler.held(lock),
{
    lemma_started_place(scheduler, limits, host, place, allocation);
    let locks = scheduler.jobs[scheduler.queue[place]].job.locks;
    let at = locks.index_of(lock);
    assert(locks[at] == lock);
}

/// While an exclusive job runs, nothing starts.
pub proof fn exclusive_job_blocks_the_host(
    scheduler: SchedulerView,
    limits: Limits,
    host: HostCapacity,
    id: JobId,
)
    requires
        scheduler.is_running(id),
        scheduler.jobs[id].job.exclusive is Some,
    ensures
        scheduler.admission(limits, host) is Idle,
{
    assert(scheduler.running[scheduler.running_place(id)].id == id);
    assert(scheduler.exclusive_runs());
}

/// An exclusive job runs alone.
pub proof fn exclusive_job_runs_alone(scheduler: SchedulerView, id: JobId, other: JobId)
    requires
        scheduler.wf(),
        scheduler.is_running(id),
        scheduler.jobs[id].job.exclusive is Some,
        scheduler.is_running(other),
    ensures
        other == id,
{
    assert(scheduler.running[scheduler.running_place(id)].id == id);
    assert(scheduler.running[scheduler.running_place(other)].id == other);
}

/// An exclusive job that waits for the running ones lets nobody behind it in line start.
pub proof fn exclusive_job_drains_the_host(
    scheduler: SchedulerView,
    limits: Limits,
    host: HostCapacity,
    barrier: int,
    place: int,
    allocation: Allocation,
)
    requires
        0 <= barrier < scheduler.queue.len(),
        scheduler.considered(scheduler.queue[barrier]),
        scheduler.jobs[scheduler.queue[barrier]].job.exclusive is Some,
        scheduler.running.len() > 0,
        scheduler.admission(limits, host) == (Admission::Start { place, allocation }),
    ensures
        place < barrier,
{
    lemma_started_place(scheduler, limits, host, place, allocation);
    assert(scheduler.settles(limits, host, barrier));
}

/// A job that cannot start at the moment does not keep the ones behind it from starting: where one
/// fits, and nobody in front of it is too large or waits for the whole host, a job starts.
pub proof fn blocked_head_does_not_strand_capacity(
    scheduler: SchedulerView,
    limits: Limits,
    host: HostCapacity,
    fitting: int,
)
    requires
        scheduler.open_for_admission(limits),
        0 <= fitting < scheduler.queue.len(),
        scheduler.considered(scheduler.queue[fitting]),
        scheduler.verdict(limits, host, scheduler.queue[fitting]) is Start,
        forall|i: int|
            0 <= i < fitting ==> {
                let verdict = #[trigger] scheduler.verdict(limits, host, scheduler.queue[i]);
                verdict is Wait || verdict is Start
            },
    ensures
        scheduler.admission(limits, host) is Start,
{
    lemma_some_place_settles(scheduler, limits, host, fitting);
    let place = choose|place: int| #[trigger] scheduler.first_to_settle(limits, host, place);
    assert(scheduler.settles(limits, host, fitting));
    assert(place <= fitting);
}

proof fn lemma_some_place_settles(
    scheduler: SchedulerView,
    limits: Limits,
    host: HostCapacity,
    place: int,
)
    requires
        scheduler.settles(limits, host, place),
    ensures
        exists|first: int| #[trigger] scheduler.first_to_settle(limits, host, first),
    decreases place,
{
    if exists|i: int| 0 <= i < place && #[trigger] scheduler.settles(limits, host, i) {
        let i = choose|i: int| 0 <= i < place && #[trigger] scheduler.settles(limits, host, i);
        lemma_some_place_settles(scheduler, limits, host, i);
    } else {
        assert(scheduler.first_to_settle(limits, host, place));
    }
}

/// Where no waiting job asks for more than a job may ever have, the queue never fails.
pub proof fn queue_of_fitting_jobs_never_fails(
    scheduler: SchedulerView,
    limits: Limits,
    host: HostCapacity,
)
    requires
        forall|i: int|
            0 <= i < scheduler.queue.len() ==> excess(
                scheduler.jobs[#[trigger] scheduler.queue[i]].job,
                limits,
            ) is None,
    ensures
        !(scheduler.admission(limits, host) is TooLarge),
{
}

proof fn lemma_too_large_place(
    scheduler: SchedulerView,
    limits: Limits,
    host: HostCapacity,
    job: JobId,
    excess: Excess,
) -> (place: int)
    requires
        scheduler.admission(limits, host) == (Admission::TooLarge { job, excess }),
    ensures
        scheduler.open_for_admission(limits),
        scheduler.first_to_settle(limits, host, place),
        scheduler.queue[place] == job,
        scheduler.verdict(limits, host, job) == Verdict::TooLarge(excess),
        scheduler.is_queued(job),
{
    let place = choose|place: int| #[trigger] scheduler.first_to_settle(limits, host, place);
    assert(scheduler.queue[place] == job);
    place
}

/// A job that can never fit the limits leaves the queue when its turn comes, and no other job does.
pub proof fn oversized_jobs_leave_the_queue(
    scheduler: SchedulerView,
    limits: Limits,
    host: HostCapacity,
    job: JobId,
    excess: Excess,
    other: JobId,
)
    requires
        scheduler.wf(),
        scheduler.admission(limits, host) == (Admission::TooLarge { job, excess }),
        other != job,
    ensures
        requested_memory(scheduler.jobs[job].job) > limits.max_job_memory_mib || least_slots(
            scheduler.jobs[job].job,
        ) > limits.max_compile_slots,
        !scheduler.without_queued(job).jobs.contains_key(job),
        !scheduler.without_queued(job).is_queued(job),
        scheduler.without_queued(job).queue.len() == scheduler.queue.len() - 1,
        scheduler.without_queued(job).is_queued(other) == scheduler.is_queued(other),
        scheduler.without_queued(job).running == scheduler.running,
{
    let place = lemma_too_large_place(scheduler, limits, host, job, excess);
    lemma_line_places(scheduler, job);
    let after = scheduler.without_queued(job);
    assert(place == scheduler.place_of(job));
    cancelling_keeps_order(scheduler, job);
    if after.is_queued(job) {
        lemma_line_places(after, job);
    }
    if scheduler.is_queued(other) {
        let at = scheduler.queue.index_of(other);
        assert(scheduler.queue[at] == other);
        assert(after.queue[if at < place { at } else { at - 1 }] == other);
    }
    if after.is_queued(other) {
        let at = after.queue.index_of(other);
        assert(after.queue[at] == other);
        assert(scheduler.queue[if at < place { at } else { at + 1 }] == other);
    }
}

/// The queue once it has been looked at as long as jobs are turned down, and `count` times at most.
pub open spec fn after_rejections(
    scheduler: SchedulerView,
    limits: Limits,
    host: HostCapacity,
    count: nat,
) -> SchedulerView
    decreases count,
{
    match scheduler.admission(limits, host) {
        Admission::TooLarge { job, .. } if count > 0 => after_rejections(
            scheduler.without_queued(job),
            limits,
            host,
            (count - 1) as nat,
        ),
        _ => scheduler,
    }
}

/// Turning a job down changes nothing about another waiting job's turn.
proof fn lemma_rejection_keeps_turns(
    scheduler: SchedulerView,
    limits: Limits,
    host: HostCapacity,
    gone: JobId,
    other: JobId,
)
    requires
        scheduler.wf(),
        scheduler.is_queued(gone),
        scheduler.is_queued(other),
        other != gone,
    ensures
        scheduler.without_queued(gone).verdict(limits, host, other) == scheduler.verdict(
            limits,
            host,
            other,
        ),
        scheduler.considered(other) ==> scheduler.without_queued(gone).considered(other),
        scheduler.open_for_admission(limits) && scheduler.without_queued(gone).queue.len() > 0
            ==> scheduler.without_queued(gone).open_for_admission(limits),
{
    let after = scheduler.without_queued(gone);
    lemma_line_places(scheduler, gone);
    let place = scheduler.place_of(gone);
    assert forall|i: int| 0 <= i < scheduler.running.len() implies after.jobs[(
    #[trigger] scheduler.running[i]).id] == scheduler.jobs[scheduler.running[i].id] by {
        assert(scheduler.is_running(scheduler.running[i].id));
    }
    let locks = scheduler.jobs[other].job.locks;
    assert forall|lock: Seq<char>| after.held(lock) == scheduler.held(lock) by {
        if scheduler.held(lock) {
            let i = choose|i: int|
                0 <= i < scheduler.running.len() && scheduler.jobs[(
                #[trigger] scheduler.running[i]).id].job.locks.contains(lock);
            assert(after.jobs[after.running[i].id].job.locks.contains(lock));
        }
        if after.held(lock) {
            let i = choose|i: int|
                0 <= i < after.running.len() && after.jobs[(
                #[trigger] after.running[i]).id].job.locks.contains(lock);
            assert(scheduler.jobs[scheduler.running[i].id].job.locks.contains(lock));
        }
    }
    assert(after.some_held(locks) == scheduler.some_held(locks)) by {
        if scheduler.some_held(locks) {
            let i = choose|i: int| 0 <= i < locks.len() && scheduler.held(#[trigger] locks[i]);
            assert(after.held(locks[i]));
        }
        if after.some_held(locks) {
            let i = choose|i: int| 0 <= i < locks.len() && after.held(#[trigger] locks[i]);
            assert(scheduler.held(locks[i]));
        }
    }
    assert forall|project: Seq<char>| after.represented(project) == scheduler.represented(
        project,
    ) by {
        if scheduler.represented(project) {
            let i = choose|i: int|
                0 <= i < scheduler.running.len() && scheduler.jobs[(
                #[trigger] scheduler.running[i]).id].project == project;
            assert(after.jobs[after.running[i].id].project == project);
        }
        if after.represented(project) {
            let i = choose|i: int|
                0 <= i < after.running.len() && after.jobs[(
                #[trigger] after.running[i]).id].project == project;
            assert(scheduler.jobs[scheduler.running[i].id].project == project);
        }
    }
    if after.project_left_out() {
        let i = choose|i: int|
            0 <= i < after.queue.len() && !after.represented(
                after.jobs[#[trigger] after.queue[i]].project,
            );
        let from = if i < place { i } else { i + 1 };
        assert(scheduler.queue[from] == after.queue[i]);
        assert(scheduler.queue[from] != gone);
        assert(!scheduler.represented(scheduler.jobs[scheduler.queue[from]].project));
        assert(scheduler.project_left_out());
    }
    if after.exclusive_runs() {
        let i = choose|i: int|
            0 <= i < after.running.len() && after.jobs[(
            #[trigger] after.running[i]).id].job.exclusive is Some;
        assert(scheduler.jobs[scheduler.running[i].id].job.exclusive is Some);
    }
}

/// Jobs that can never fit do not block the queue: where a job fits, and nobody in front of it
/// waits for the whole host, looking at the queue again and again turns down those in front that
/// can never fit and then starts a job.
pub proof fn oversized_jobs_do_not_block_the_queue(
    scheduler: SchedulerView,
    limits: Limits,
    host: HostCapacity,
    fitting: int,
)
    requires
        scheduler.wf(),
        scheduler.open_for_admission(limits),
        0 <= fitting < scheduler.queue.len(),
        scheduler.considered(scheduler.queue[fitting]),
        scheduler.verdict(limits, host, scheduler.queue[fitting]) is Start,
        forall|i: int|
            0 <= i < fitting ==> !(#[trigger] scheduler.verdict(
                limits,
                host,
                scheduler.queue[i],
            ) is Barrier),
    ensures
        after_rejections(scheduler, limits, host, fitting as nat).admission(limits, host) is Start,
    decreases fitting,
{
    assert(scheduler.settles(limits, host, fitting));
    lemma_some_place_settles(scheduler, limits, host, fitting);
    let first = choose|place: int| #[trigger] scheduler.first_to_settle(limits, host, place);
    assert(first <= fitting);
    if let Admission::TooLarge { job, excess } = scheduler.admission(limits, host) {
        let place = lemma_too_large_place(scheduler, limits, host, job, excess);
        lemma_one_settles(scheduler, limits, host, place);
        assert(place < fitting);
        lemma_line_places(scheduler, job);
        cancelling_keeps_order(scheduler, job);
        let after = scheduler.without_queued(job);
        assert(place == scheduler.place_of(job));
        assert(after.queue[fitting - 1] == scheduler.queue[fitting]);
        assert(scheduler.is_queued(scheduler.queue[fitting]));
        assert(scheduler.queue[fitting] != job);
        lemma_rejection_keeps_turns(scheduler, limits, host, job, scheduler.queue[fitting]);
        assert forall|i: int| 0 <= i < fitting - 1 implies !(#[trigger] after.verdict(
            limits,
            host,
            after.queue[i],
        ) is Barrier) by {
            let from = if i < place { i } else { i + 1 };
            assert(after.queue[i] == scheduler.queue[from]);
            assert(scheduler.is_queued(scheduler.queue[from]));
            assert(scheduler.queue[from] != job);
            lemma_rejection_keeps_turns(scheduler, limits, host, job, scheduler.queue[from]);
            assert(!(scheduler.verdict(limits, host, scheduler.queue[from]) is Barrier));
        }
        oversized_jobs_do_not_block_the_queue(after, limits, host, fitting - 1);
    } else {
        assert(!(scheduler.verdict(limits, host, scheduler.queue[first]) is Barrier));
    }
}

/// Nothing but its own end takes a running job away or changes it: not a submission, not another
/// job's cancellation or change of priority, and not another job's start.
pub proof fn running_jobs_are_never_displaced(
    scheduler: SchedulerView,
    id: JobId,
    job: JobView,
    project: Seq<char>,
    queued: JobId,
    priority: i32,
    place: int,
    allocation: Allocation,
)
    requires
        scheduler.wf(),
        scheduler.is_running(id),
        !scheduler.jobs.contains_key(job.id),
        scheduler.is_queued(queued),
        0 <= place < scheduler.queue.len(),
    ensures
        scheduler.enqueued(job, project).running == scheduler.running,
        scheduler.enqueued(job, project).jobs[id] == scheduler.jobs[id],
        scheduler.without_queued(queued).running == scheduler.running,
        scheduler.without_queued(queued).jobs[id] == scheduler.jobs[id],
        scheduler.reprioritized(queued, priority).running == scheduler.running,
        scheduler.reprioritized(queued, priority).jobs[id] == scheduler.jobs[id],
        scheduler.started(place, allocation).running.drop_last() == scheduler.running,
        scheduler.started(place, allocation).jobs[id] == scheduler.jobs[id],
{
    lemma_line_places(scheduler, queued);
    let k = scheduler.running_place(id);
    assert(scheduler.jobs.contains_key(scheduler.running[k].id));
    assert(scheduler.jobs[queued].job.id == queued);
    assert(scheduler.started(place, allocation).running.drop_last() =~= scheduler.running);
}

/// Cancelling a job that was just put in line leaves everything as it was before.
pub proof fn cancelling_undoes_enqueuing(
    scheduler: SchedulerView,
    job: JobView,
    project: Seq<char>,
)
    requires
        scheduler.wf(),
        !scheduler.jobs.contains_key(job.id),
        job.valid(),
        project.len() > 0,
    ensures
        scheduler.enqueued(job, project).without_queued(job.id) == scheduler,
{
    let after = scheduler.enqueued(job, project);
    let place = scheduler.place_in_line(job.priority, job.id, 0);
    enqueuing_keeps_order(scheduler, job, project);
    lemma_place_in_line(scheduler, job.priority, job.id, 0);
    lemma_line_places(after, job.id);
    assert(after.queue[place] == job.id);
    let back = after.without_queued(job.id);
    assert(back.queue =~= scheduler.queue);
    assert(back.jobs =~= scheduler.jobs);
    assert(back =~= scheduler);
}

/// Putting a cancelled job in line again leaves everything as it was before: it stands in its old
/// place.
pub proof fn enqueuing_undoes_cancelling(scheduler: SchedulerView, id: JobId)
    requires
        scheduler.wf(),
        scheduler.is_queued(id),
    ensures
        scheduler.without_queued(id).enqueued(scheduler.jobs[id].job, scheduler.jobs[id].project)
            == scheduler,
{
    lemma_line_places(scheduler, id);
    cancelling_keeps_order(scheduler, id);
    let shorter = scheduler.without_queued(id);
    let scheduled = scheduler.jobs[id];
    let old_place = scheduler.place_of(id);
    let place = shorter.place_in_line(scheduled.job.priority, id, 0);
    lemma_place_in_line(shorter, scheduled.job.priority, id, 0);
    assert(scheduled.job.id == id);
    assert(place == old_place) by {
        if place < old_place {
            assert(shorter.queue[place] == scheduler.queue[place]);
            assert(scheduler.outranks(scheduler.queue[place], scheduler.queue[old_place]));
            assert(scheduler.queue[place] != id);
        } else if old_place < place {
            assert(shorter.queue[old_place] == scheduler.queue[old_place + 1]);
            assert(scheduler.outranks(
                scheduler.queue[old_place],
                scheduler.queue[old_place + 1],
            ));
            assert(scheduler.queue[old_place + 1] != id);
        }
    }
    let back = shorter.enqueued(scheduled.job, scheduled.project);
    assert(back.queue =~= scheduler.queue);
    assert(back.jobs =~= scheduler.jobs);
    assert(back =~= scheduler);
}

/// A change of priority touches no other job: whoever waited waits, as it was.
pub proof fn changing_priority_leaves_others_alone(
    scheduler: SchedulerView,
    id: JobId,
    priority: i32,
    other: JobId,
)
    requires
        scheduler.wf(),
        scheduler.is_queued(id),
        other != id,
    ensures
        scheduler.reprioritized(id, priority).is_queued(other) == scheduler.is_queued(other),
        scheduler.reprioritized(id, priority).jobs.contains_key(other)
            == scheduler.jobs.contains_key(other),
        scheduler.jobs.contains_key(other) ==> scheduler.reprioritized(id, priority).jobs[other]
            == scheduler.jobs[other],
{
    lemma_line_places(scheduler, id);
    cancelling_keeps_order(scheduler, id);
    let shorter = scheduler.without_queued(id);
    let after = scheduler.reprioritized(id, priority);
    let gone = scheduler.place_of(id);
    let place = shorter.place_in_line(priority, id, 0);
    assert(scheduler.jobs[id].job.id == id);
    lemma_place_in_line(shorter, priority, id, 0);
    if scheduler.is_queued(other) {
        let at = scheduler.queue.index_of(other);
        assert(scheduler.queue[at] == other);
        let mid = if at < gone { at } else { at - 1 };
        assert(shorter.queue[mid] == other);
        let to = if mid < place { mid } else { mid + 1 };
        assert(after.queue[to] == other);
    }
    if after.is_queued(other) {
        let to = after.queue.index_of(other);
        assert(after.queue[to] == other);
        assert(after.queue[place] == id);
        let mid = if to < place { to } else { to - 1 };
        assert(shorter.queue[mid] == other);
        let at = if mid < gone { mid } else { mid + 1 };
        assert(scheduler.queue[at] == other);
    }
}

/// A change of priority is undone by the change back.
pub proof fn changing_priority_back_undoes_the_change(
    scheduler: SchedulerView,
    id: JobId,
    priority: i32,
)
    requires
        scheduler.wf(),
        scheduler.is_queued(id),
    ensures
        scheduler.reprioritized(id, priority).reprioritized(id, scheduler.jobs[id].job.priority)
            == scheduler,
{
    lemma_line_places(scheduler, id);
    cancelling_keeps_order(scheduler, id);
    let shorter = scheduler.without_queued(id);
    let scheduled = scheduler.jobs[id];
    let job = JobView { priority, ..scheduled.job };
    assert(job.fault() == scheduled.job.fault());
    assert(scheduled.job.id == id);
    cancelling_undoes_enqueuing(shorter, job, scheduled.project);
    assert(scheduler.reprioritized(id, priority).jobs[id] == (ScheduledView {
        job,
        project: scheduled.project,
    }));
    assert((JobView { priority: scheduled.job.priority, ..job }) =~= scheduled.job);
    enqueuing_undoes_cancelling(scheduler, id);
}

/// Ending a job that just started leaves what cancelling it instead would have left.
pub proof fn finishing_at_once_is_cancelling(
    scheduler: SchedulerView,
    place: int,
    allocation: Allocation,
)
    requires
        scheduler.wf(),
        0 <= place < scheduler.queue.len(),
    ensures
        scheduler.started(place, allocation).finished(scheduler.queue[place])
            == scheduler.without_queued(scheduler.queue[place]),
{
    let id = scheduler.queue[place];
    assert(scheduler.is_queued(id));
    lemma_line_places(scheduler, id);
    let after = scheduler.started(place, allocation);
    let last = scheduler.running.len() as int;
    assert(after.running[last].id == id);
    let k = after.running_place(id);
    assert(after.running[k].id == id);
    if k < last {
        assert(scheduler.running[k].id == id);
        assert(scheduler.is_running(id));
    }
    assert(after.finished(id).running =~= scheduler.running);
    assert(after.finished(id) =~= scheduler.without_queued(id));
}

// ---------------------------------------------------------------------------
// Sequences of calls
// ---------------------------------------------------------------------------

/// One thing that a scheduler is asked to do.
pub enum SchedulerCall {
    Enqueue { job: JobView, project: Seq<char> },
    SetPriority { id: JobId, priority: i32 },
    CancelQueued { id: JobId },
    Next { limits: Limits, host: HostCapacity },
    Finish { id: JobId },
}

/// What a call does to the number of jobs that wait.
pub enum Effect {
    /// A job was put in line.
    Accepted,
    /// A waiting job was started.
    Started,
    /// A waiting job was cancelled.
    Cancelled,
    /// A waiting job was turned down with an error.
    TurnedDown,
    /// None of these.
    Other,
}

impl SchedulerCall {
    /// The scheduler after the call.
    pub open spec fn apply(self, scheduler: SchedulerView) -> SchedulerView {
        match self {
            SchedulerCall::Enqueue { job, project } => if self.effect(scheduler) is Accepted {
                scheduler.enqueued(job, project)
            } else {
                scheduler
            },
            SchedulerCall::SetPriority { id, priority } => if scheduler.is_queued(id) {
                scheduler.reprioritized(id, priority)
            } else {
                scheduler
            },
            SchedulerCall::CancelQueued { id } => if scheduler.is_queued(id) {
                scheduler.without_queued(id)
            } else {
                scheduler
            },
            SchedulerCall::Next { limits, host } => match scheduler.admission(limits, host) {
                Admission::Idle => scheduler,
                Admission::TooLarge { job, .. } => scheduler.without_queued(job),
                Admission::Start { place, allocation } => scheduler.started(place, allocation),
            },
            SchedulerCall::Finish { id } => if scheduler.is_running(id) {
                scheduler.finished(id)
            } else {
                scheduler
            },
        }
    }

    /// What the call does to the number of jobs that wait.
    pub open spec fn effect(self, scheduler: SchedulerView) -> Effect {
        match self {
            SchedulerCall::Enqueue { job, project } => if job.valid() && project.len() > 0
                && !scheduler.jobs.contains_key(job.id) {
                Effect::Accepted
            } else {
                Effect::Other
            },
            SchedulerCall::CancelQueued { id } => if scheduler.is_queued(id) {
                Effect::Cancelled
            } else {
                Effect::Other
            },
            SchedulerCall::Next { limits, host } => match scheduler.admission(limits, host) {
                Admission::Idle => Effect::Other,
                Admission::TooLarge { .. } => Effect::TurnedDown,
                Admission::Start { .. } => Effect::Started,
            },
            _ => Effect::Other,
        }
    }
}

/// The scheduler after the calls.
pub open spec fn after_calls(scheduler: SchedulerView, calls: Seq<SchedulerCall>) -> SchedulerView
    decreases calls.len(),
{
    if calls.len() == 0 {
        scheduler
    } else {
        calls.last().apply(after_calls(scheduler, calls.drop_last()))
    }
}

/// How many of the calls have the effect.
pub open spec fn effects(
    scheduler: SchedulerView,
    calls: Seq<SchedulerCall>,
    effect: Effect,
) -> nat
    decreases calls.len(),
{
    if calls.len() == 0 {
        0
    } else {
        effects(scheduler, calls.drop_last(), effect) + if calls.last().effect(
            after_calls(scheduler, calls.drop_last()),
        ) == effect {
            1nat
        } else {
            0nat
        }
    }
}

/// A call keeps a scheduler well-formed and changes the number of jobs that wait as its effect
/// says: a change of priority and the end of a job leave it as it is.
pub proof fn calls_change_the_count_by_their_effect(scheduler: SchedulerView, call: SchedulerCall)
    requires
        scheduler.wf(),
    ensures
        call.apply(scheduler).wf(),
        call.apply(scheduler).queue.len() - scheduler.queue.len() == match call.effect(scheduler) {
            Effect::Accepted => 1int,
            Effect::Other => 0int,
            _ => -1int,
        },
{
    match call {
        SchedulerCall::Enqueue { job, project } => {
            if call.effect(scheduler) is Accepted {
                enqueuing_keeps_order(scheduler, job, project);
                lemma_place_in_line(scheduler, job.priority, job.id, 0);
            }
        },
        SchedulerCall::SetPriority { id, priority } => {
            if scheduler.is_queued(id) {
                let scheduled = scheduler.jobs[id];
                let job = JobView { priority, ..scheduled.job };
                lemma_line_places(scheduler, id);
                cancelling_keeps_order(scheduler, id);
                assert(scheduled.job.id == id);
                assert(job.fault() == scheduled.job.fault());
                enqueuing_keeps_order(scheduler.without_queued(id), job, scheduled.project);
                lemma_place_in_line(scheduler.without_queued(id), priority, id, 0);
            }
        },
        SchedulerCall::CancelQueued { id } => {
            if scheduler.is_queued(id) {
                lemma_line_places(scheduler, id);
                cancelling_keeps_order(scheduler, id);
            }
        },
        SchedulerCall::Next { limits, host } => {
            match scheduler.admission(limits, host) {
                Admission::Idle => {},
                Admission::TooLarge { job, excess } => {
                    let _ = lemma_too_large_place(scheduler, limits, host, job, excess);
                    lemma_line_places(scheduler, job);
                    cancelling_keeps_order(scheduler, job);
                },
                Admission::Start { place, allocation } => {
                    lemma_started_place(scheduler, limits, host, place, allocation);
                    starting_keeps_order(scheduler, limits, host, place, allocation);
                },
            }
        },
        SchedulerCall::Finish { id } => {
            if scheduler.is_running(id) {
                finishing_keeps_order(scheduler, id);
            }
        },
    }
}

/// The number of jobs that wait is the number that were put in line, without those that were
/// started, those that were cancelled and those that were turned down.
pub proof fn waiting_jobs_are_counted(calls: Seq<SchedulerCall>)
    ensures
        after_calls(SchedulerView::empty(), calls).wf(),
        after_calls(SchedulerView::empty(), calls).queue.len() == effects(
            SchedulerView::empty(),
            calls,
            Effect::Accepted,
        ) - effects(SchedulerView::empty(), calls, Effect::Started) - effects(
            SchedulerView::empty(),
            calls,
            Effect::Cancelled,
        ) - effects(SchedulerView::empty(), calls, Effect::TurnedDown),
    decreases calls.len(),
{
    if calls.len() > 0 {
        waiting_jobs_are_counted(calls.drop_last());
        calls_change_the_count_by_their_effect(
            after_calls(SchedulerView::empty(), calls.drop_last()),
            calls.last(),
        );
    }
}

} // verus!
