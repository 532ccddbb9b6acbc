//! The queue of jobs as mathematics: who stands where in line, who runs, and who may start next.

use crate::capacity::{HostCapacity, Limits};
use crate::ids::JobId;
use crate::protocol::{CompileSlotsView, JobView};
use vstd::prelude::*;

verus! {

/// What is set aside for a job while it runs.
#[derive(Clone, Copy, Debug, PartialEq, Eq, Structural)]
pub struct Allocation {
    pub compile_slots: u16,
    pub memory_mib: u64,
}

/// A running job and what is set aside for it.
#[derive(Clone, Copy, Debug, PartialEq, Eq, Structural)]
pub struct Running {
    pub id: JobId,
    pub allocation: Allocation,
}

/// What a job asks for more of than any job may ever have.
#[derive(Clone, Copy, Debug, PartialEq, Eq, Structural)]
pub enum Excess {
    Memory,
    CompileSlots,
}

/// What the turn of one job in the queue comes to.
#[derive(Clone, Copy, Debug, PartialEq, Eq, Structural)]
pub enum Verdict {
    /// It asks for more than any job may ever have, and is turned down.
    TooLarge(Excess),
    /// It wants the host for itself and waits until nothing runs; nobody may pass it.
    Barrier,
    /// It starts, with this set aside for it.
    Start(Allocation),
    /// It does not fit at the moment; others may pass it.
    Wait,
}

/// What one look at the queue comes to.
pub enum Admission {
    Idle,
    TooLarge { job: JobId, excess: Excess },
    Start { place: int, allocation: Allocation },
}

/// A job with the project that it counts for.
#[verifier::ext_equal]
pub struct ScheduledView {
    pub job: JobView,
    pub project: Seq<char>,
}

/// The jobs that a scheduler knows: those that wait, in line, and those that run, in the order in
/// which they started.
#[verifier::ext_equal]
pub struct SchedulerView {
    pub jobs: Map<JobId, ScheduledView>,
    pub queue: Seq<JobId>,
    pub running: Seq<Running>,
}

/// Whether a job with the first priority and identifier goes before one with the second: the
/// higher priority first, and among equals the earlier identifier.
pub open spec fn goes_before(
    priority: i32,
    id: JobId,
    other_priority: i32,
    other: JobId,
) -> bool {
    priority > other_priority || (priority == other_priority && id < other)
}

/// The compile slots that the allocations take together.
pub open spec fn slots_taken(running: Seq<Running>) -> nat
    decreases running.len(),
{
    if running.len() == 0 {
        0
    } else {
        slots_taken(running.drop_last()) + running.last().allocation.compile_slots as nat
    }
}

/// The memory that is set aside for the running jobs together.
pub open spec fn memory_taken(running: Seq<Running>) -> nat
    decreases running.len(),
{
    if running.len() == 0 {
        0
    } else {
        memory_taken(running.drop_last()) + running.last().allocation.memory_mib as nat
    }
}

/// The memory that a job is given: what it asks for, and 512 MiB at least.
pub open spec fn requested_memory(job: JobView) -> u64 {
    if job.resources.memory_mib < 512 {
        512
    } else {
        job.resources.memory_mib
    }
}

/// The compile slots that a job is given where `free` are free: the number it asks for, and one at
/// least, or between one and four where it leaves the number to the runner.
pub open spec fn requested_slots(job: JobView, free: u16) -> u16 {
    match job.resources.compile_slots {
        CompileSlotsView::Exact(count) => if count < 1 {
            1
        } else {
            count
        },
        CompileSlotsView::Auto(_) => if free < 1 {
            1
        } else if free > 4 {
            4
        } else {
            free
        },
    }
}

/// The compile slots that a job cannot do without.
pub open spec fn least_slots(job: JobView) -> u16 {
    requested_slots(job, 1)
}

/// What the job asks for more of than any job may ever have, if it does.
pub open spec fn excess(job: JobView, limits: Limits) -> Option<Excess> {
    if requested_memory(job) > limits.max_job_memory_mib {
        Some(Excess::Memory)
    } else if least_slots(job) > limits.max_compile_slots {
        Some(Excess::CompileSlots)
    } else {
        None
    }
}

impl SchedulerView {
    /// A scheduler that knows no job.
    pub open spec fn empty() -> SchedulerView {
        SchedulerView { jobs: Map::empty(), queue: Seq::empty(), running: Seq::empty() }
    }

    pub open spec fn is_running(self, id: JobId) -> bool {
        exists|i: int| 0 <= i < self.running.len() && (#[trigger] self.running[i]).id == id
    }

    pub open spec fn is_queued(self, id: JobId) -> bool {
        self.queue.contains(id)
    }

    /// Whether the first of two known jobs goes before the second.
    pub open spec fn outranks(self, id: JobId, other: JobId) -> bool {
        goes_before(self.jobs[id].job.priority, id, self.jobs[other].job.priority, other)
    }

    /// Whether two running jobs have no lock in common.
    pub open spec fn locks_apart(self, id: JobId, other: JobId) -> bool {
        forall|lock: Seq<char>| #[trigger]
            self.jobs[id].job.locks.contains(lock) ==> !self.jobs[other].job.locks.contains(lock)
    }

    /// What holds of every scheduler.
    pub open spec fn wf(self) -> bool {
        // every job is known by its own identifier, is valid, and counts for a project
        &&& forall|id: JobId| #[trigger]
            self.jobs.contains_key(id) ==> self.jobs[id].job.id == id && self.jobs[id].job.valid()
                && self.jobs[id].project.len() > 0
        // every job waits or runs
        &&& forall|id: JobId| #[trigger]
            self.jobs.contains_key(id) ==> self.is_queued(id) || self.is_running(id)
        // what waits is known and does not run
        &&& forall|i: int|
            0 <= i < self.queue.len() ==> self.jobs.contains_key(#[trigger] self.queue[i])
                && !self.is_running(self.queue[i])
        // the line is in order
        &&& forall|i: int, j: int|
            0 <= i < j < self.queue.len() ==> self.outranks(
                #[trigger] self.queue[i],
                #[trigger] self.queue[j],
            )
        // what runs is known, and runs once
        &&& forall|i: int|
            0 <= i < self.running.len() ==> self.jobs.contains_key((#[trigger] self.running[i]).id)
        &&& forall|i: int, j: int|
            0 <= i < j < self.running.len() ==> (#[trigger] self.running[i]).id != (
            #[trigger] self.running[j]).id
        // no two running jobs hold the same lock
        &&& forall|i: int, j: int|
            0 <= i < j < self.running.len() ==> self.locks_apart(
                (#[trigger] self.running[i]).id,
                (#[trigger] self.running[j]).id,
            )
        // an exclusive job runs alone
        &&& forall|i: int|
            0 <= i < self.running.len() && self.jobs[(
            #[trigger] self.running[i]).id].job.exclusive is Some ==> self.running.len() == 1
        &&& slots_taken(self.running) <= u16::MAX
    }

    /// The place in line of a job with this priority and identifier, looking from `from` on: in
    /// front of the first that does not go before it.
    pub open spec fn place_in_line(self, priority: i32, id: JobId, from: int) -> int
        decreases self.queue.len() - from,
    {
        if from >= self.queue.len() || !goes_before(
            self.jobs[self.queue[from]].job.priority,
            self.queue[from],
            priority,
            id,
        ) {
            from
        } else {
            self.place_in_line(priority, id, from + 1)
        }
    }

    /// The scheduler once the job stands in line.
    pub open spec fn enqueued(self, job: JobView, project: Seq<char>) -> SchedulerView {
        SchedulerView {
            jobs: self.jobs.insert(job.id, ScheduledView { job, project }),
            queue: self.queue.insert(self.place_in_line(job.priority, job.id, 0), job.id),
            running: self.running,
        }
    }

    /// The place of a waiting job in line.
    pub open spec fn place_of(self, id: JobId) -> int {
        self.queue.index_of(id)
    }

    /// The scheduler without the waiting job.
    pub open spec fn without_queued(self, id: JobId) -> SchedulerView {
        SchedulerView {
            jobs: self.jobs.remove(id),
            queue: self.queue.remove(self.place_of(id)),
            running: self.running,
        }
    }

    /// The scheduler once the waiting job stands in line with another priority.
    pub open spec fn reprioritized(self, id: JobId, priority: i32) -> SchedulerView {
        self.without_queued(id).enqueued(
            JobView { priority, ..self.jobs[id].job },
            self.jobs[id].project,
        )
    }

    /// The scheduler once the job at this place in line has started.
    pub open spec fn started(self, place: int, allocation: Allocation) -> SchedulerView {
        SchedulerView {
            jobs: self.jobs,
            queue: self.queue.remove(place),
            running: self.running.push(Running { id: self.queue[place], allocation }),
        }
    }

    /// The place of a running job among those that run.
    pub open spec fn running_place(self, id: JobId) -> int {
        choose|i: int| 0 <= i < self.running.len() && (#[trigger] self.running[i]).id == id
    }

    /// The scheduler once the running job has ended.
    pub open spec fn finished(self, id: JobId) -> SchedulerView {
        SchedulerView {
            jobs: self.jobs.remove(id),
            queue: self.queue,
            running: self.running.remove(self.running_place(id)),
        }
    }

    /// The compile slots that no running job has.
    pub open spec fn free_slots(self, limits: Limits) -> u16 {
        if slots_taken(self.running) >= limits.max_compile_slots {
            0
        } else {
            (limits.max_compile_slots - slots_taken(self.running)) as u16
        }
    }

    /// Whether an exclusive job runs.
    pub open spec fn exclusive_runs(self) -> bool {
        exists|i: int|
            0 <= i < self.running.len() && self.jobs[(
            #[trigger] self.running[i]).id].job.exclusive is Some
    }

    /// Whether a running job holds the lock.
    pub open spec fn held(self, lock: Seq<char>) -> bool {
        exists|i: int|
            0 <= i < self.running.len() && self.jobs[(
            #[trigger] self.running[i]).id].job.locks.contains(lock)
    }

    /// Whether a running job holds one of the locks.
    pub open spec fn some_held(self, locks: Seq<Seq<char>>) -> bool {
        exists|i: int| 0 <= i < locks.len() && self.held(#[trigger] locks[i])
    }

    /// Whether a job of the project runs.
    pub open spec fn represented(self, project: Seq<char>) -> bool {
        exists|i: int|
            0 <= i < self.running.len() && self.jobs[(#[trigger] self.running[i]).id].project
                == project
    }

    /// Whether a job waits whose project has none running.
    pub open spec fn project_left_out(self) -> bool {
        exists|i: int|
            0 <= i < self.queue.len() && !self.represented(
                self.jobs[#[trigger] self.queue[i]].project,
            )
    }

    /// Whether the waiting job may be looked at: while some project is left out, only jobs of
    /// projects that are.
    pub open spec fn considered(self, id: JobId) -> bool {
        self.project_left_out() ==> !self.represented(self.jobs[id].project)
    }

    /// What the waiting job's turn comes to.
    pub open spec fn verdict(self, limits: Limits, host: HostCapacity, id: JobId) -> Verdict {
        let job = self.jobs[id].job;
        let memory = requested_memory(job);
        let free = self.free_slots(limits);
        let slots = requested_slots(job, free);
        let needed = memory + memory_taken(self.running) + limits.host_memory_reserve_mib;
        if excess(job, limits) is Some {
            Verdict::TooLarge(excess(job, limits)->0)
        } else if job.exclusive is Some && self.running.len() > 0 {
            Verdict::Barrier
        } else if slots <= free && host.available_memory_mib >= (if needed > u64::MAX {
            u64::MAX as int
        } else {
            needed
        }) && host.calm(limits) && !self.some_held(job.locks) {
            Verdict::Start(Allocation { compile_slots: slots, memory_mib: memory })
        } else {
            Verdict::Wait
        }
    }

    /// Whether the turn of the job at this place settles the matter.
    pub open spec fn settles(self, limits: Limits, host: HostCapacity, place: int) -> bool {
        &&& 0 <= place < self.queue.len()
        &&& self.considered(self.queue[place])
        &&& self.verdict(limits, host, self.queue[place]) != Verdict::Wait
    }

    /// Whether this is the first place in line whose turn settles the matter.
    pub open spec fn first_to_settle(self, limits: Limits, host: HostCapacity, place: int) -> bool {
        &&& self.settles(limits, host, place)
        &&& forall|i: int| 0 <= i < place ==> !#[trigger] self.settles(limits, host, i)
    }

    /// Whether another job may start at all.
    pub open spec fn open_for_admission(self, limits: Limits) -> bool {
        &&& self.running.len() < limits.max_running_jobs
        &&& self.queue.len() > 0
        &&& !self.exclusive_runs()
        &&& self.free_slots(limits) > 0
    }

    /// What a look at the queue comes to.
    pub open spec fn admission(self, limits: Limits, host: HostCapacity) -> Admission {
        if self.open_for_admission(limits) && exists|place: int| #[trigger]
            self.first_to_settle(limits, host, place) {
            let place = choose|place: int| #[trigger] self.first_to_settle(limits, host, place);
            match self.verdict(limits, host, self.queue[place]) {
                Verdict::TooLarge(excess) => Admission::TooLarge { job: self.queue[place], excess },
                Verdict::Start(allocation) => Admission::Start { place, allocation },
                _ => Admission::Idle,
            }
        } else {
            Admission::Idle
        }
    }
}

// ---------------------------------------------------------------------------
// Every operation keeps what holds of a scheduler
// ---------------------------------------------------------------------------

pub proof fn lemma_place_in_line(scheduler: SchedulerView, priority: i32, id: JobId, from: int)
    requires
        scheduler.wf(),
        !scheduler.jobs.contains_key(id),
        0 <= from <= scheduler.queue.len(),
    ensures
        from <= scheduler.place_in_line(priority, id, from) <= scheduler.queue.len(),
        forall|i: int|
            from <= i < scheduler.place_in_line(priority, id, from) ==> goes_before(
                scheduler.jobs[#[trigger] scheduler.queue[i]].job.priority,
                scheduler.queue[i],
                priority,
                id,
            ),
        forall|i: int|
            scheduler.place_in_line(priority, id, from) <= i < scheduler.queue.len()
                ==> goes_before(
                priority,
                id,
                scheduler.jobs[#[trigger] scheduler.queue[i]].job.priority,
                scheduler.queue[i],
            ),
    decreases scheduler.queue.len() - from,
{
    let place = scheduler.place_in_line(priority, id, from);
    if from < scheduler.queue.len() {
        let first = scheduler.queue[from];
        assert(scheduler.jobs.contains_key(first));
        if !goes_before(scheduler.jobs[first].job.priority, first, priority, id) {
            assert(place == from);
            assert forall|i: int| from <= i < scheduler.queue.len() implies goes_before(
                priority,
                id,
                scheduler.jobs[#[trigger] scheduler.queue[i]].job.priority,
                scheduler.queue[i],
            ) by {
                if i > from {
                    assert(scheduler.outranks(first, scheduler.queue[i]));
                }
            }
        } else {
            lemma_place_in_line(scheduler, priority, id, from + 1);
        }
    }
}

/// Putting a valid job that is not known yet in line keeps the scheduler well-formed.
pub proof fn enqueuing_keeps_order(scheduler: SchedulerView, job: JobView, project: Seq<char>)
    requires
        scheduler.wf(),
        !scheduler.jobs.contains_key(job.id),
        job.valid(),
        project.len() > 0,
    ensures
        scheduler.enqueued(job, project).wf(),
        scheduler.enqueued(job, project).is_queued(job.id),
{
    let id = job.id;
    let place = scheduler.place_in_line(job.priority, id, 0);
    let after = scheduler.enqueued(job, project);
    lemma_place_in_line(scheduler, job.priority, id, 0);
    assert(after.queue[place] == id);
    assert forall|i: int| 0 <= i < scheduler.queue.len() implies after.queue.contains(
        #[trigger] scheduler.queue[i],
    ) by {
        if i < place {
            assert(after.queue[i] == scheduler.queue[i]);
        } else {
            assert(after.queue[i + 1] == scheduler.queue[i]);
        }
    }
    assert forall|other: JobId| #[trigger] after.jobs.contains_key(other) implies after.is_queued(
        other,
    ) || after.is_running(other) by {
        if other != id {
            assert(scheduler.jobs.contains_key(other));
            if scheduler.is_queued(other) {
                let i = choose|i: int|
                    0 <= i < scheduler.queue.len() && scheduler.queue[i] == other;
                assert(after.queue.contains(scheduler.queue[i]));
            } else {
                assert(after.running[scheduler.running_place(other)].id == other);
            }
        }
    }
    assert forall|i: int| 0 <= i < after.queue.len() implies after.jobs.contains_key(
        #[trigger] after.queue[i],
    ) && !after.is_running(after.queue[i]) by {
        let other = after.queue[i];
        if i < place {
            assert(other == scheduler.queue[i]);
        } else if i > place {
            assert(other == scheduler.queue[i - 1]);
        } else if after.is_running(id) {
            let k = scheduler.running_place(id);
            assert(scheduler.jobs.contains_key(scheduler.running[k].id));
        }
    }
    assert forall|i: int, j: int| 0 <= i < j < after.queue.len() implies after.outranks(
        #[trigger] after.queue[i],
        #[trigger] after.queue[j],
    ) by {
        let old_i = if i <= place { i } else { i - 1 };
        let old_j = if j <= place { j } else { j - 1 };
        if i != place {
            assert(after.queue[i] == scheduler.queue[old_i]);
            assert(scheduler.jobs.contains_key(scheduler.queue[old_i]));
        }
        if j != place {
            assert(after.queue[j] == scheduler.queue[old_j]);
            assert(scheduler.jobs.contains_key(scheduler.queue[old_j]));
        }
        if i != place && j != place {
            assert(scheduler.outranks(scheduler.queue[old_i], scheduler.queue[old_j]));
        }
    }
    lemma_running_unchanged(scheduler, after);
}

/// What is said of running jobs carries over where they stay and are known as before.
proof fn lemma_running_unchanged(before: SchedulerView, after: SchedulerView)
    requires
        before.wf(),
        after.running == before.running,
        forall|i: int|
            0 <= i < before.running.len() ==> after.jobs.contains_key(
                (#[trigger] before.running[i]).id,
            ) && after.jobs[before.running[i].id] == before.jobs[before.running[i].id],
    ensures
        forall|i: int|
            0 <= i < after.running.len() ==> after.jobs.contains_key((#[trigger] after.running[i]).id),
        forall|i: int, j: int|
            0 <= i < j < after.running.len() ==> (#[trigger] after.running[i]).id != (
            #[trigger] after.running[j]).id,
        forall|i: int, j: int|
            0 <= i < j < after.running.len() ==> after.locks_apart(
                (#[trigger] after.running[i]).id,
                (#[trigger] after.running[j]).id,
            ),
        forall|i: int|
            0 <= i < after.running.len() && after.jobs[(
            #[trigger] after.running[i]).id].job.exclusive is Some ==> after.running.len() == 1,
        slots_taken(after.running) <= u16::MAX,
{
    assert forall|i: int, j: int| 0 <= i < j < after.running.len() implies after.locks_apart(
        (#[trigger] after.running[i]).id,
        (#[trigger] after.running[j]).id,
    ) by {
        assert(before.locks_apart(before.running[i].id, before.running[j].id));
    }
}

/// Each waiting job stands in line once.
pub proof fn lemma_line_places(scheduler: SchedulerView, id: JobId)
    requires
        scheduler.wf(),
        scheduler.is_queued(id),
    ensures
        0 <= scheduler.place_of(id) < scheduler.queue.len(),
        scheduler.queue[scheduler.place_of(id)] == id,
        forall|i: int|
            0 <= i < scheduler.queue.len() && #[trigger] scheduler.queue[i] == id ==> i
                == scheduler.place_of(id),
        scheduler.jobs.contains_key(id),
        !scheduler.is_running(id),
{
    let place = scheduler.place_of(id);
    assert(0 <= place < scheduler.queue.len() && scheduler.queue[place] == id);
    assert forall|i: int| 0 <= i < scheduler.queue.len() && #[trigger] scheduler.queue[i]
        == id implies i == place by {
        if i < place {
            assert(scheduler.outranks(scheduler.queue[i], scheduler.queue[place]));
        } else if place < i {
            assert(scheduler.outranks(scheduler.queue[place], scheduler.queue[i]));
        }
    }
}

/// Taking a waiting job out of line keeps the scheduler well-formed.
pub proof fn cancelling_keeps_order(scheduler: SchedulerView, id: JobId)
    requires
        scheduler.wf(),
        scheduler.is_queued(id),
    ensures
        scheduler.without_queued(id).wf(),
        !scheduler.without_queued(id).jobs.contains_key(id),
{
    lemma_line_places(scheduler, id);
    let place = scheduler.place_of(id);
    let after = scheduler.without_queued(id);
    assert forall|other: JobId| #[trigger] after.jobs.contains_key(other) implies after.is_queued(
        other,
    ) || after.is_running(other) by {
        assert(scheduler.jobs.contains_key(other));
        if scheduler.is_queued(other) {
            let i = choose|i: int| 0 <= i < scheduler.queue.len() && scheduler.queue[i] == other;
            if i < place {
                assert(after.queue[i] == other);
            } else {
                assert(after.queue[i - 1] == other);
            }
        } else {
            assert(after.running[scheduler.running_place(other)].id == other);
        }
    }
    assert forall|i: int| 0 <= i < after.queue.len() implies after.jobs.contains_key(
        #[trigger] after.queue[i],
    ) && !after.is_running(after.queue[i]) by {
        let old_i = if i < place { i } else { i + 1 };
        assert(after.queue[i] == scheduler.queue[old_i]);
        assert(scheduler.queue[old_i] != id);
    }
    assert forall|i: int, j: int| 0 <= i < j < after.queue.len() implies after.outranks(
        #[trigger] after.queue[i],
        #[trigger] after.queue[j],
    ) by {
        let old_i = if i < place { i } else { i + 1 };
        let old_j = if j < place { j } else { j + 1 };
        assert(after.queue[i] == scheduler.queue[old_i]);
        assert(after.queue[j] == scheduler.queue[old_j]);
        assert(scheduler.outranks(scheduler.queue[old_i], scheduler.queue[old_j]));
        assert(scheduler.queue[old_i] != id && scheduler.queue[old_j] != id);
    }
    assert forall|i: int| 0 <= i < scheduler.running.len() implies after.jobs.contains_key(
        (#[trigger] scheduler.running[i]).id,
    ) && after.jobs[scheduler.running[i].id] == scheduler.jobs[scheduler.running[i].id] by {
        assert(scheduler.jobs.contains_key(scheduler.running[i].id));
        if scheduler.running[i].id == id {
            assert(scheduler.is_running(id));
        }
    }
    lemma_running_unchanged(scheduler, after);
}

/// Each running job stands among those that run once.
pub proof fn lemma_running_places(scheduler: SchedulerView, id: JobId)
    requires
        scheduler.wf(),
        scheduler.is_running(id),
    ensures
        0 <= scheduler.running_place(id) < scheduler.running.len(),
        scheduler.running[scheduler.running_place(id)].id == id,
        forall|i: int|
            0 <= i < scheduler.running.len() && (#[trigger] scheduler.running[i]).id == id ==> i
                == scheduler.running_place(id),
        scheduler.jobs.contains_key(id),
        !scheduler.is_queued(id),
{
    let place = scheduler.running_place(id);
    assert(scheduler.running[place].id == id);
    if scheduler.is_queued(id) {
        let i = choose|i: int| 0 <= i < scheduler.queue.len() && scheduler.queue[i] == id;
        assert(!scheduler.is_running(scheduler.queue[i]));
    }
}

pub proof fn lemma_slots_without(running: Seq<Running>, place: int)
    requires
        0 <= place < running.len(),
    ensures
        slots_taken(running.remove(place)) + running[place].allocation.compile_slots
            == slots_taken(running),
    decreases running.len(),
{
    if place == running.len() - 1 {
        assert(running.remove(place) =~= running.drop_last());
    } else {
        lemma_slots_without(running.drop_last(), place);
        assert(running.remove(place).drop_last() =~= running.drop_last().remove(place));
        assert(running.remove(place).last() == running.last());
    }
}

/// Starting a job that fits keeps the scheduler well-formed.
pub proof fn starting_keeps_order(
    scheduler: SchedulerView,
    limits: Limits,
    host: HostCapacity,
    place: int,
    allocation: Allocation,
)
    requires
        scheduler.wf(),
        scheduler.open_for_admission(limits),
        0 <= place < scheduler.queue.len(),
        scheduler.verdict(limits, host, scheduler.queue[place]) == Verdict::Start(allocation),
    ensures
        scheduler.started(place, allocation).wf(),
{
    let id = scheduler.queue[place];
    let after = scheduler.started(place, allocation);
    let last = scheduler.running.len() as int;
    assert(scheduler.is_queued(id));
    lemma_line_places(scheduler, id);
    assert(after.running[last].id == id);
    assert(after.is_running(id));
    assert forall|other: JobId| #[trigger] after.jobs.contains_key(other) implies after.is_queued(
        other,
    ) || after.is_running(other) by {
        if other != id {
            assert(scheduler.jobs.contains_key(other));
            if scheduler.is_queued(other) {
                let i = choose|i: int|
                    0 <= i < scheduler.queue.len() && scheduler.queue[i] == other;
                if i < place {
                    assert(after.queue[i] == other);
                } else {
                    assert(after.queue[i - 1] == other);
                }
            } else {
                assert(after.running[scheduler.running_place(other)].id == other);
            }
        }
    }
    assert forall|i: int| 0 <= i < after.queue.len() implies after.jobs.contains_key(
        #[trigger] after.queue[i],
    ) && !after.is_running(after.queue[i]) by {
        let old_i = if i < place { i } else { i + 1 };
        assert(after.queue[i] == scheduler.queue[old_i]);
        assert(scheduler.queue[old_i] != id);
        if after.is_running(after.queue[i]) {
            let k = after.running_place(after.queue[i]);
            assert(scheduler.running[k].id == scheduler.queue[old_i]);
        }
    }
    assert forall|i: int, j: int| 0 <= i < j < after.queue.len() implies after.outranks(
        #[trigger] after.queue[i],
        #[trigger] after.queue[j],
    ) by {
        let old_i = if i < place { i } else { i + 1 };
        let old_j = if j < place { j } else { j + 1 };
        assert(after.queue[i] == scheduler.queue[old_i]);
        assert(after.queue[j] == scheduler.queue[old_j]);
        assert(scheduler.outranks(scheduler.queue[old_i], scheduler.queue[old_j]));
    }
    assert forall|i: int, j: int| 0 <= i < j < after.running.len() implies (
    #[trigger] after.running[i]).id != (#[trigger] after.running[j]).id by {
        assert(after.running[i] == scheduler.running[i]);
        if j == last {
            assert(scheduler.is_running(scheduler.running[i].id));
        } else {
            assert(after.running[j] == scheduler.running[j]);
        }
    }
    assert forall|i: int, j: int| 0 <= i < j < after.running.len() implies after.locks_apart(
        (#[trigger] after.running[i]).id,
        (#[trigger] after.running[j]).id,
    ) by {
        assert(after.running[i] == scheduler.running[i]);
        if j == last {
            let mine = scheduler.jobs[id].job.locks;
            assert forall|lock: Seq<char>| #[trigger]
                after.jobs[after.running[i].id].job.locks.contains(
                    lock,
                ) implies !after.jobs[id].job.locks.contains(lock) by {
                if mine.contains(lock) {
                    let k = choose|k: int| 0 <= k < mine.len() && mine[k] == lock;
                    assert(scheduler.jobs[scheduler.running[i].id].job.locks.contains(lock));
                    assert(scheduler.held(mine[k]));
                }
            }
        } else {
            assert(after.running[j] == scheduler.running[j]);
            assert(scheduler.locks_apart(scheduler.running[i].id, scheduler.running[j].id));
        }
    }
    assert forall|i: int|
        0 <= i < after.running.len() && after.jobs[(
        #[trigger] after.running[i]).id].job.exclusive is Some implies after.running.len() == 1 by {
        if i < last {
            assert(after.running[i] == scheduler.running[i]);
            assert(scheduler.exclusive_runs());
        }
    }
    assert(after.running.drop_last() =~= scheduler.running);
}

/// Ending a running job keeps the scheduler well-formed.
pub proof fn finishing_keeps_order(scheduler: SchedulerView, id: JobId)
    requires
        scheduler.wf(),
        scheduler.is_running(id),
    ensures
        scheduler.finished(id).wf(),
        !scheduler.finished(id).jobs.contains_key(id),
{
    lemma_running_places(scheduler, id);
    let place = scheduler.running_place(id);
    let after = scheduler.finished(id);
    lemma_slots_without(scheduler.running, place);
    assert forall|i: int| 0 <= i < after.running.len() implies #[trigger] after.running[i]
        == scheduler.running[if i < place { i } else { i + 1 }] && after.running[i].id != id by {
    }
    assert forall|other: JobId| #[trigger] after.jobs.contains_key(other) implies after.is_queued(
        other,
    ) || after.is_running(other) by {
        assert(scheduler.jobs.contains_key(other));
        if scheduler.is_running(other) {
            let k = scheduler.running_place(other);
            assert(scheduler.running[k].id == other);
            if k < place {
                assert(after.running[k].id == other);
            } else {
                assert(after.running[k - 1].id == other);
            }
        }
    }
    assert forall|i: int| 0 <= i < after.queue.len() implies after.jobs.contains_key(
        #[trigger] after.queue[i],
    ) && !after.is_running(after.queue[i]) by {
        let other = scheduler.queue[i];
        assert(scheduler.jobs.contains_key(other));
        if other == id {
            assert(scheduler.is_queued(id));
        }
        if after.is_running(other) {
            let k = after.running_place(other);
            assert(scheduler.running[if k < place { k } else { k + 1 }].id == other);
        }
    }
    assert forall|i: int, j: int| 0 <= i < j < after.queue.len() implies after.outranks(
        #[trigger] after.queue[i],
        #[trigger] after.queue[j],
    ) by {
        assert(scheduler.outranks(scheduler.queue[i], scheduler.queue[j]));
        assert(after.jobs.contains_key(after.queue[i]));
        assert(after.jobs.contains_key(after.queue[j]));
    }
    assert forall|i: int, j: int| 0 <= i < j < after.running.len() implies after.locks_apart(
        (#[trigger] after.running[i]).id,
        (#[trigger] after.running[j]).id,
    ) by {
        let old_i = if i < place { i } else { i + 1 };
        let old_j = if j < place { j } else { j + 1 };
        assert(after.running[i] == scheduler.running[old_i]);
        assert(after.running[j] == scheduler.running[old_j]);
        assert(scheduler.locks_apart(scheduler.running[old_i].id, scheduler.running[old_j].id));
    }
    assert forall|i: int|
        0 <= i < after.running.len() && after.jobs[(
        #[trigger] after.running[i]).id].job.exclusive is Some implies after.running.len() == 1 by {
        assert(after.running[i] == scheduler.running[if i < place { i } else { i + 1 }]);
    }
}

pub proof fn lemma_slots_grow(running: Seq<Running>, count: int)
    requires
        0 <= count <= running.len(),
    ensures
        slots_taken(running.take(count)) <= slots_taken(running),
    decreases running.len(),
{
    if count == running.len() {
        assert(running.take(count) =~= running);
    } else {
        lemma_slots_grow(running.drop_last(), count);
        assert(running.drop_last().take(count) =~= running.take(count));
    }
}

/// At most one place is the first to settle the matter.
pub proof fn lemma_one_settles(
    scheduler: SchedulerView,
    limits: Limits,
    host: HostCapacity,
    place: int,
)
    requires
        scheduler.first_to_settle(limits, host, place),
    ensures
        forall|other: int| #[trigger]
            scheduler.first_to_settle(limits, host, other) ==> other == place,
{
    assert forall|other: int| #[trigger]
        scheduler.first_to_settle(limits, host, other) implies other == place by {
        if other < place {
            assert(scheduler.settles(limits, host, other));
        } else if place < other {
            assert(scheduler.settles(limits, host, place));
        }
    }
}

} // verus!
