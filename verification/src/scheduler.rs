//! The queue of jobs, and which job may start next.

use crate::capacity::{HostCapacity, Limits};
use crate::ids::{ulid_string, ulid_text, JobId};
use crate::protocol::{CompileSlots, Job, JobView};
use crate::scheduling::{
    cancelling_keeps_order, enqueuing_keeps_order, excess, finishing_keeps_order, goes_before,
    lemma_line_places, lemma_one_settles, lemma_running_places, lemma_slots_grow, memory_taken,
    requested_memory, requested_slots, slots_taken, starting_keeps_order, Admission, Allocation,
    Excess, Running, ScheduledView, SchedulerView, Verdict,
};
use crate::text::{holds_text, same_text, texts};
use std::collections::HashMap;
use vstd::prelude::*;
use vstd::string::StringExecFns;

verus! {

broadcast use vstd::std_specs::hash::group_hash_axioms;

/// Why no job could be chosen.
#[derive(Clone, Copy, Debug, PartialEq, Eq, Structural)]
pub enum SchedulerError {
    /// The job whose turn it was asks for more memory than any job may have.
    MemoryLimit { job: JobId },
    /// The job whose turn it was asks for more compile slots than there are.
    SlotLimit { job: JobId },
}

impl SchedulerError {
    /// The error for a job that asks for too much of this.
    pub open spec fn of(job: JobId, excess: Excess) -> SchedulerError {
        match excess {
            Excess::Memory => SchedulerError::MemoryLimit { job },
            Excess::CompileSlots => SchedulerError::SlotLimit { job },
        }
    }

    /// The error for a job that asks for too much of this.
    pub fn new(job: JobId, excess: Excess) -> (error: SchedulerError)
        ensures
            error == SchedulerError::of(job, excess),
    {
        match excess {
            Excess::Memory => SchedulerError::MemoryLimit { job },
            Excess::CompileSlots => SchedulerError::SlotLimit { job },
        }
    }

    /// The error in words.
    pub open spec fn text(self) -> Seq<char> {
        match self {
            SchedulerError::MemoryLimit { job } => "job "@ + ulid_text(job)
                + " requests more memory than the host limit"@,
            SchedulerError::SlotLimit { job } => "job "@ + ulid_text(job)
                + " requests more compile slots than the host limit"@,
        }
    }

    /// The error in words.
    pub fn message(&self) -> (message: String)
        ensures
            message@ == self.text(),
    {
        match self {
            SchedulerError::MemoryLimit { job } => {
                let mut message = "job ".to_owned();
                message.append(ulid_string(*job).as_str());
                message.append(" requests more memory than the host limit");
                message
            },
            SchedulerError::SlotLimit { job } => {
                let mut message = "job ".to_owned();
                message.append(ulid_string(*job).as_str());
                message.append(" requests more compile slots than the host limit");
                message
            },
        }
    }
}

/// The memory that the job is given.
pub fn memory_for(job: &Job) -> (memory: u64)
    ensures
        memory == requested_memory(job@),
{
    if job.resources.memory_mib < 512 {
        512
    } else {
        job.resources.memory_mib
    }
}

/// The compile slots that the job is given where `free` are free.
pub fn slots_for(job: &Job, free: u16) -> (slots: u16)
    ensures
        slots == requested_slots(job@, free),
{
    match &job.resources.compile_slots {
        CompileSlots::Exact(count) => if *count < 1 {
            1
        } else {
            *count
        },
        CompileSlots::Auto(_) => if free < 1 {
            1
        } else if free > 4 {
            4
        } else {
            free
        },
    }
}

/// What the job asks for more of than any job may ever have, if it does.
pub fn excess_of(job: &Job, limits: &Limits) -> (found: Option<Excess>)
    ensures
        found == excess(job@, *limits),
{
    if memory_for(job) > limits.max_job_memory_mib {
        Some(Excess::Memory)
    } else if slots_for(job, 1) > limits.max_compile_slots {
        Some(Excess::CompileSlots)
    } else {
        None
    }
}

/// A key of the queue.
#[derive(Clone, Copy, Debug, PartialEq, Eq, Structural)]
struct QueueKey {
    priority: i32,
    id: JobId,
}

impl QueueKey {
    /// Whether this key goes before the other one.
    fn precedes(&self, other: &QueueKey) -> (res: bool)
        ensures
            res == goes_before(self.priority, self.id, other.priority, other.id),
    {
        self.priority > other.priority || (self.priority == other.priority && self.id < other.id)
    }
}

/// A job that the scheduler knows.
struct ScheduledJob {
    job: Job,
    project: String,
}

impl View for ScheduledJob {
    type V = ScheduledView;

    closed spec fn view(&self) -> ScheduledView {
        ScheduledView { job: self.job@, project: self.project@ }
    }
}

/// The jobs that wait and the jobs that run.
pub struct Scheduler {
    jobs: HashMap<JobId, ScheduledJob>,
    queue: Vec<QueueKey>,
    running: Vec<Running>,
}

impl View for Scheduler {
    type V = SchedulerView;

    closed spec fn view(&self) -> SchedulerView {
        SchedulerView {
            jobs: Map::new(
                |id: JobId| self.jobs@.contains_key(id),
                |id: JobId| self.jobs@[id]@,
            ),
            queue: Seq::new(self.queue@.len(), |i: int| self.queue@[i].id),
            running: self.running@,
        }
    }
}

impl Default for Scheduler {
    fn default() -> (scheduler: Self)
        ensures
            scheduler.wf(),
            scheduler@ == SchedulerView::empty(),
    {
        let scheduler = Scheduler {
            jobs: HashMap::new(),
            queue: Vec::new(),
            running: Vec::new(),
        };
        assert(scheduler@ =~= SchedulerView::empty());
        scheduler
    }
}

impl Scheduler {
    /// What holds of every scheduler.
    pub open spec fn wf(&self) -> bool {
        self@.wf() && self.keys_agree()
    }

    /// Whether the keys of the queue carry the priorities of their jobs.
    pub closed spec fn keys_agree(&self) -> bool {
        forall|i: int|
            0 <= i < self.queue@.len() ==> (#[trigger] self.queue@[i]).priority == self.jobs@[
            self.queue@[i].id].job.priority
    }

    /// Whether the job is known: it waits or runs.
    pub fn contains(&self, id: JobId) -> (known: bool)
        ensures
            known == self@.jobs.contains_key(id),
    {
        self.jobs.contains_key(&id)
    }

    /// How many jobs wait.
    pub fn queued_len(&self) -> (count: usize)
        ensures
            count == self@.queue.len(),
    {
        self.queue.len()
    }

    /// The place of the running job, or how many run where it does not.
    fn find_running(&self, id: JobId) -> (place: usize)
        ensures
            place <= self.running@.len(),
            place < self.running@.len() ==> self.running@[place as int].id == id,
            place == self.running@.len() <==> !self@.is_running(id),
    {
        let mut place: usize = 0;
        while place < self.running.len() && self.running[place].id != id
            invariant
                place <= self.running@.len(),
                forall|i: int| 0 <= i < place ==> (#[trigger] self@.running[i]).id != id,
            decreases self.running.len() - place,
        {
            place = place + 1;
        }
        if place < self.running.len() {
            assert(self@.running[place as int].id == id);
        }
        place
    }

    /// The place of the waiting job, or how many wait where it does not.
    fn find_queued(&self, id: JobId) -> (place: usize)
        ensures
            place <= self.queue@.len(),
            place < self.queue@.len() ==> self@.queue[place as int] == id,
            place == self.queue@.len() <==> !self@.is_queued(id),
    {
        let mut place: usize = 0;
        while place < self.queue.len() && self.queue[place].id != id
            invariant
                place <= self.queue@.len(),
                forall|i: int| 0 <= i < place ==> (#[trigger] self@.queue[i]) != id,
            decreases self.queue.len() - place,
        {
            place = place + 1;
        }
        if place < self.queue.len() {
            assert(self@.queue[place as int] == id);
        }
        place
    }

    /// Puts a job in line that is not known yet.
    fn insert_in_line(&mut self, job: Job, project: String)
        requires
            old(self).wf(),
            !old(self)@.jobs.contains_key(job@.id),
            job@.valid(),
            project@.len() > 0,
        ensures
            final(self).wf(),
            final(self)@ == old(self)@.enqueued(job@, project@),
    {
        let ghost before = self@;
        let ghost view = job@;
        let ghost title = project@;
        let key = QueueKey { priority: job.priority, id: job.id };
        let mut place: usize = 0;
        while place < self.queue.len() && self.queue[place].precedes(&key)
            invariant
                place <= self.queue@.len(),
                self.wf(),
                self@ == before,
                key.priority == view.priority,
                key.id == view.id,
                before.place_in_line(view.priority, view.id, 0) == before.place_in_line(
                    view.priority,
                    view.id,
                    place as int,
                ),
            decreases self.queue.len() - place,
        {
            assert(before.queue[place as int] == self.queue@[place as int].id);
            assert(before.jobs.contains_key(before.queue[place as int]));
            place = place + 1;
        }
        proof {
            if place < self.queue@.len() {
                assert(before.queue[place as int] == self.queue@[place as int].id);
                assert(before.jobs.contains_key(before.queue[place as int]));
            }
            enqueuing_keeps_order(before, view, title);
        }
        let ghost keys = self.queue@;
        let id = job.id;
        self.queue.insert(place, key);
        self.jobs.insert(id, ScheduledJob { job, project });
        proof {
            let after = before.enqueued(view, title);
            assert(self@.jobs =~= after.jobs);
            assert(self@.queue =~= after.queue);
            assert(self@ =~= after);
            assert forall|i: int| 0 <= i < self.queue@.len() implies (
            #[trigger] self.queue@[i]).priority == self.jobs@[self.queue@[i].id].job.priority by {
                if i != place {
                    let old_i = if i < place { i } else { i - 1 };
                    assert(self.queue@[i] == keys[old_i]);
                    assert(before.queue[old_i] == keys[old_i].id);
                    assert(before.jobs.contains_key(before.queue[old_i]));
                }
            }
        }
    }

    /// Puts a job in line. A job that is known already is left as it is.
    pub fn enqueue(&mut self, job: Job, project: String) -> (res: Result<bool, &'static str>)
        requires
            old(self).wf(),
        ensures
            final(self).wf(),
            match job@.fault() {
                Some(fault) => (res matches Err(message) && message@ == fault) && final(self)@
                    == old(self)@,
                None => if project@.len() == 0 {
                    (res matches Err(message) && message@ == "job project is required"@)
                        && final(self)@ == old(self)@
                } else if old(self)@.jobs.contains_key(job@.id) {
                    res == Ok::<bool, &'static str>(false) && final(self)@ == old(self)@
                } else {
                    res == Ok::<bool, &'static str>(true) && final(self)@ == old(self)@.enqueued(
                        job@,
                        project@,
                    )
                },
            },
    {
        if let Err(fault) = job.validate() {
            return Err(fault);
        }
        if project.as_str().is_empty() {
            return Err("job project is required");
        }
        if self.contains(job.id) {
            return Ok(false);
        }
        self.insert_in_line(job, project);
        Ok(true)
    }

    /// Takes a waiting job out of line and hands it out.
    fn remove_queued(&mut self, place: usize) -> (scheduled: ScheduledJob)
        requires
            old(self).wf(),
            place < old(self)@.queue.len(),
        ensures
            final(self).wf(),
            final(self)@ == old(self)@.without_queued(old(self)@.queue[place as int]),
            scheduled@ == old(self)@.jobs[old(self)@.queue[place as int]],
    {
        let ghost before = self@;
        let ghost keys = self.queue@;
        let id = self.queue[place].id;
        proof {
            assert(before.queue[place as int] == id);
            assert(before.is_queued(id));
            lemma_line_places(before, id);
            cancelling_keeps_order(before, id);
        }
        self.queue.remove(place);
        let scheduled = self.jobs.remove(&id).unwrap();
        proof {
            let after = before.without_queued(id);
            assert(self@.jobs =~= after.jobs);
            assert(self@.queue =~= after.queue);
            assert(self@ =~= after);
            assert forall|i: int| 0 <= i < self.queue@.len() implies (
            #[trigger] self.queue@[i]).priority == self.jobs@[self.queue@[i].id].job.priority by {
                let old_i = if i < place { i } else { i + 1 };
                assert(self.queue@[i] == keys[old_i]);
                assert(before.queue[old_i] == keys[old_i].id);
            }
        }
        scheduled
    }

    /// Changes the priority of a job that waits. Others are left as they are.
    pub fn set_priority(&mut self, id: JobId, priority: i32) -> (changed: bool)
        requires
            old(self).wf(),
        ensures
            final(self).wf(),
            changed == old(self)@.is_queued(id),
            changed ==> final(self)@ == old(self)@.reprioritized(id, priority),
            !changed ==> final(self)@ == old(self)@,
    {
        let place = self.find_queued(id);
        if place == self.queue.len() {
            return false;
        }
        let ghost before = self@;
        proof {
            lemma_line_places(before, id);
            cancelling_keeps_order(before, id);
        }
        let mut scheduled = self.remove_queued(place);
        let ghost view = JobView { priority, ..before.jobs[id].job };
        scheduled.job.priority = priority;
        assert(scheduled.job@ =~= view);
        assert(view.fault() == before.jobs[id].job.fault());
        self.insert_in_line(scheduled.job, scheduled.project);
        true
    }

    /// Takes a job that waits out of line and hands it out. Others are left as they are.
    pub fn cancel_queued(&mut self, id: JobId) -> (job: Option<Job>)
        requires
            old(self).wf(),
        ensures
            final(self).wf(),
            if old(self)@.is_queued(id) {
                (job matches Some(cancelled) && cancelled@ == old(self)@.jobs[id].job)
                    && final(self)@ == old(self)@.without_queued(id)
            } else {
                job is None && final(self)@ == old(self)@
            },
    {
        let place = self.find_queued(id);
        if place == self.queue.len() {
            return None;
        }
        let scheduled = self.remove_queued(place);
        Some(scheduled.job)
    }

    /// Ends a job that runs and hands it out. Others are left as they are.
    pub fn finish(&mut self, id: JobId) -> (job: Option<Job>)
        requires
            old(self).wf(),
        ensures
            final(self).wf(),
            if old(self)@.is_running(id) {
                (job matches Some(ended) && ended@ == old(self)@.jobs[id].job) && final(self)@
                    == old(self)@.finished(id)
            } else {
                job is None && final(self)@ == old(self)@
            },
    {
        let place = self.find_running(id);
        if place == self.running.len() {
            return None;
        }
        let ghost before = self@;
        proof {
            lemma_running_places(before, id);
            finishing_keeps_order(before, id);
            assert(before.running[place as int].id == id);
        }
        self.running.remove(place);
        let scheduled = self.jobs.remove(&id).unwrap();
        proof {
            let after = before.finished(id);
            assert(self@.jobs =~= after.jobs);
            assert(self@.queue =~= after.queue);
            assert(self@.running =~= after.running);
            assert(self@ =~= after);
            assert forall|i: int| 0 <= i < self.queue@.len() implies (
            #[trigger] self.queue@[i]).priority == self.jobs@[self.queue@[i].id].job.priority by {
                assert(before.queue[i] == self.queue@[i].id);
                assert(before.is_queued(self.queue@[i].id));
            }
        }
        Some(scheduled.job)
    }

    /// The job that is known by this identifier.
    fn known(&self, id: JobId) -> (scheduled: &ScheduledJob)
        requires
            self@.jobs.contains_key(id),
        ensures
            scheduled@ == self@.jobs[id],
    {
        self.jobs.get(&id).unwrap()
    }

    /// Whether an exclusive job runs.
    fn exclusive_is_running(&self) -> (res: bool)
        requires
            self.wf(),
        ensures
            res == self@.exclusive_runs(),
    {
        let mut at: usize = 0;
        while at < self.running.len()
            invariant
                self.wf(),
                at <= self.running@.len(),
                forall|i: int|
                    0 <= i < at ==> self@.jobs[(
                    #[trigger] self@.running[i]).id].job.exclusive is None,
            decreases self.running.len() - at,
        {
            let id = self.running[at].id;
            assert(self@.running[at as int].id == id);
            if self.known(id).job.exclusive.is_some() {
                return true;
            }
            at = at + 1;
        }
        false
    }

    /// The compile slots that the running jobs have.
    fn slots_in_use(&self) -> (slots: u16)
        requires
            self.wf(),
        ensures
            slots == slots_taken(self@.running),
    {
        let mut slots: u16 = 0;
        let mut at: usize = 0;
        while at < self.running.len()
            invariant
                self.wf(),
                at <= self.running@.len(),
                slots == slots_taken(self@.running.take(at as int)),
            decreases self.running.len() - at,
        {
            proof {
                let longer = self@.running.take(at + 1);
                assert(longer.drop_last() =~= self@.running.take(at as int));
                lemma_slots_grow(self@.running, at + 1);
            }
            slots = slots + self.running[at].allocation.compile_slots;
            at = at + 1;
        }
        assert(self@.running.take(at as int) =~= self@.running);
        slots
    }

    /// The memory that is set aside for the running jobs, or the greatest number where it is more.
    fn memory_in_use(&self) -> (memory: u64)
        ensures
            memory == if memory_taken(self@.running) > u64::MAX {
                u64::MAX as nat
            } else {
                memory_taken(self@.running)
            },
    {
        let mut memory: u64 = 0;
        let mut at: usize = 0;
        while at < self.running.len()
            invariant
                at <= self.running@.len(),
                memory == if memory_taken(self@.running.take(at as int)) > u64::MAX {
                    u64::MAX as nat
                } else {
                    memory_taken(self@.running.take(at as int))
                },
            decreases self.running.len() - at,
        {
            assert(self@.running.take(at + 1).drop_last() =~= self@.running.take(at as int));
            memory = memory.saturating_add(self.running[at].allocation.memory_mib);
            at = at + 1;
        }
        assert(self@.running.take(at as int) =~= self@.running);
        memory
    }

    /// Whether a job of the project runs.
    fn is_represented(&self, project: &str) -> (res: bool)
        requires
            self.wf(),
        ensures
            res == self@.represented(project@),
    {
        let mut at: usize = 0;
        while at < self.running.len()
            invariant
                self.wf(),
                at <= self.running@.len(),
                forall|i: int|
                    0 <= i < at ==> self@.jobs[(#[trigger] self@.running[i]).id].project
                        != project@,
            decreases self.running.len() - at,
        {
            let id = self.running[at].id;
            assert(self@.running[at as int].id == id);
            if same_text(self.known(id).project.as_str(), project) {
                return true;
            }
            at = at + 1;
        }
        false
    }

    /// Whether a job waits whose project has none running.
    fn leaves_project_out(&self) -> (res: bool)
        requires
            self.wf(),
        ensures
            res == self@.project_left_out(),
    {
        let mut at: usize = 0;
        while at < self.queue.len()
            invariant
                self.wf(),
                at <= self.queue@.len(),
                forall|i: int|
                    0 <= i < at ==> self@.represented(
                        self@.jobs[#[trigger] self@.queue[i]].project,
                    ),
            decreases self.queue.len() - at,
        {
            let id = self.queue[at].id;
            assert(self@.queue[at as int] == id);
            if !self.is_represented(self.known(id).project.as_str()) {
                return true;
            }
            at = at + 1;
        }
        false
    }

    /// Whether a running job holds the lock.
    fn is_held(&self, lock: &str) -> (res: bool)
        requires
            self.wf(),
        ensures
            res == self@.held(lock@),
    {
        let mut at: usize = 0;
        while at < self.running.len()
            invariant
                self.wf(),
                at <= self.running@.len(),
                forall|i: int|
                    0 <= i < at ==> !self@.jobs[(
                    #[trigger] self@.running[i]).id].job.locks.contains(lock@),
            decreases self.running.len() - at,
        {
            let id = self.running[at].id;
            assert(self@.running[at as int].id == id);
            if holds_text(&self.known(id).job.locks, lock) {
                return true;
            }
            at = at + 1;
        }
        false
    }

    /// Whether a running job holds one of the locks.
    fn holds_some(&self, locks: &Vec<String>) -> (res: bool)
        requires
            self.wf(),
        ensures
            res == self@.some_held(texts(locks@)),
    {
        let mut at: usize = 0;
        while at < locks.len()
            invariant
                self.wf(),
                at <= locks@.len(),
                forall|i: int| 0 <= i < at ==> !self@.held(#[trigger] texts(locks@)[i]),
            decreases locks.len() - at,
        {
            assert(texts(locks@)[at as int] == locks@[at as int]@);
            if self.is_held(locks[at].as_str()) {
                return true;
            }
            at = at + 1;
        }
        false
    }

    /// What the waiting job's turn comes to.
    fn weigh(&self, limits: &Limits, host: &HostCapacity, free: u16, id: JobId) -> (verdict:
        Verdict)
        requires
            self.wf(),
            self@.jobs.contains_key(id),
            free == self@.free_slots(*limits),
        ensures
            verdict == self@.verdict(*limits, *host, id),
    {
        let job = &self.known(id).job;
        if let Some(found) = excess_of(job, limits) {
            return Verdict::TooLarge(found);
        }
        let memory = memory_for(job);
        let slots = slots_for(job, free);
        if job.exclusive.is_some() && self.running.len() > 0 {
            return Verdict::Barrier;
        }
        let needed = memory.saturating_add(self.memory_in_use()).saturating_add(
            limits.host_memory_reserve_mib,
        );
        if slots <= free && host.available_memory_mib >= needed && host.is_calm(limits)
            && !self.holds_some(&job.locks) {
            Verdict::Start(Allocation { compile_slots: slots, memory_mib: memory })
        } else {
            Verdict::Wait
        }
    }

    /// Moves the job at this place in line to those that run.
    fn start_at(&mut self, place: usize, allocation: Allocation) -> (job: Job)
        requires
            old(self).wf(),
            place < old(self)@.queue.len(),
            old(self)@.started(place as int, allocation).wf(),
        ensures
            final(self).wf(),
            final(self)@ == old(self)@.started(place as int, allocation),
            job@ == old(self)@.jobs[old(self)@.queue[place as int]].job,
    {
        let ghost before = self@;
        let ghost keys = self.queue@;
        let id = self.queue[place].id;
        assert(before.queue[place as int] == id);
        assert(before.jobs.contains_key(before.queue[place as int]));
        let job = self.known(id).job.clone();
        self.queue.remove(place);
        self.running.push(Running { id, allocation });
        proof {
            let after = before.started(place as int, allocation);
            assert(self@.jobs =~= after.jobs);
            assert(self@.queue =~= after.queue);
            assert(self@ =~= after);
            assert forall|i: int| 0 <= i < self.queue@.len() implies (
            #[trigger] self.queue@[i]).priority == self.jobs@[self.queue@[i].id].job.priority by {
                assert(self.queue@[i] == keys[if i < place { i } else { i + 1 }]);
            }
        }
        job
    }

    /// Starts the job whose turn it is, if one may start: the first in line that fits, where no
    /// project that waits with nothing running is passed over. A job whose turn comes and that can
    /// never fit the limits is turned down: it leaves the line, and the error names it.
    pub fn next(&mut self, limits: &Limits, host: &HostCapacity) -> (res: Result<
        Option<(Job, Allocation)>,
        SchedulerError,
    >)
        requires
            old(self).wf(),
        ensures
            final(self).wf(),
            match old(self)@.admission(*limits, *host) {
                Admission::Idle => (res matches Ok(None)) && final(self)@ == old(self)@,
                Admission::TooLarge { job, excess } => (res matches Err(error) && error
                    == SchedulerError::of(job, excess)) && final(self)@
                    == old(self)@.without_queued(job),
                Admission::Start { place, allocation } => (res matches Ok(Some(started))
                    && started.0@ == old(self)@.jobs[old(self)@.queue[place]].job && started.1
                    == allocation) && final(self)@ == old(self)@.started(place, allocation),
            },
    {
        if self.running.len() >= limits.max_running_jobs || self.queue.len() == 0
            || self.exclusive_is_running() {
            return Ok(None);
        }
        let free = limits.max_compile_slots.saturating_sub(self.slots_in_use());
        if free == 0 {
            return Ok(None);
        }
        let ghost view = self@;
        let left_out = self.leaves_project_out();
        let mut place: usize = 0;
        while place < self.queue.len()
            invariant
                self.wf(),
                self@ == view,
                view == old(self)@,
                view.open_for_admission(*limits),
                free == view.free_slots(*limits),
                left_out == view.project_left_out(),
                place <= self.queue@.len(),
                forall|i: int| 0 <= i < place ==> !#[trigger] view.settles(*limits, *host, i),
            decreases self.queue.len() - place,
        {
            let id = self.queue[place].id;
            assert(view.queue[place as int] == id);
            assert(view.jobs.contains_key(view.queue[place as int]));
            if !(left_out && self.is_represented(self.known(id).project.as_str())) {
                let verdict = self.weigh(limits, host, free, id);
                if verdict != Verdict::Wait {
                    proof {
                        assert(view.first_to_settle(*limits, *host, place as int));
                        lemma_one_settles(view, *limits, *host, place as int);
                    }
                    match verdict {
                        Verdict::TooLarge(excess) => {
                            let _ = self.remove_queued(place);
                            return Err(SchedulerError::new(id, excess));
                        },
                        Verdict::Start(allocation) => {
                            proof {
                                starting_keeps_order(
                                    view,
                                    *limits,
                                    *host,
                                    place as int,
                                    allocation,
                                );
                            }
                            let job = self.start_at(place, allocation);
                            return Ok(Some((job, allocation)));
                        },
                        _ => {
                            return Ok(None);
                        },
                    }
                }
            }
            place = place + 1;
        }
        Ok(None)
    }
}

} // verus!
