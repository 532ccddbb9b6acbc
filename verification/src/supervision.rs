//! The runner as mathematics: what it makes of the documents it reads, and of the jobs it runs.

use crate::board::{BoardLineView, ProtocolMessageView};
use crate::capacity::{HostCapacity, Limits};
use crate::clock::{elapsed, MILLISECOND, SECOND};
use crate::events::{JobEventView, StateNoticeView};
use crate::ids::JobId;
use crate::laws::{finishing_at_once_is_cancelling, queue_of_fitting_jobs_never_fails};
use crate::output::{output_of, BufferView, OutputNoticeView};
use crate::policy::{docker_fault, exclusive_fault, parallelism_fault, project_of, target_fault};
use crate::process::{live_member, ProcessStat};
use crate::protocol::{ControlAction, JobProfile, JobState, JobView, OutputStream};
use crate::scheduler::SchedulerError;
use crate::scheduling::{
    cancelling_keeps_order, enqueuing_keeps_order, excess, finishing_keeps_order,
    lemma_line_places, lemma_running_places, starting_keeps_order, Admission, Allocation,
    SchedulerView,
};
use crate::text::decimal;
use vstd::prelude::*;

verus! {

/// How long a job that was told to end is given before it is killed, in nanoseconds.
pub const TERMINATION_GRACE: u64 = 10_000_000_000;

/// The nanoseconds between two looks at the queue.
pub const ADMISSION_INTERVAL: u64 = 5_000_000_000;

// ---------------------------------------------------------------------------
// How a runner is set up
// ---------------------------------------------------------------------------

/// What a runner goes by.
#[verifier::ext_equal]
pub struct Setup {
    pub runner: Seq<char>,
    pub docker_builder: Option<Seq<char>>,
    pub allowed_projects: Seq<Seq<char>>,
    pub allowed_profiles: Seq<JobProfile>,
    pub limits: Limits,
}

/// The lock on a BuildKit builder.
pub open spec fn builder_lock(builder: Seq<char>) -> Seq<char> {
    "buildkit:"@ + builder
}

impl Setup {
    /// The job with the locks that the runner adds: a Docker build holds the builder.
    pub open spec fn prepared(self, job: JobView) -> JobView {
        match self.docker_builder {
            Some(builder) => if job.profile == JobProfile::DockerBuild {
                JobView { locks: job.locks.push(builder_lock(builder)), ..job }
            } else {
                job
            },
            None => job,
        }
    }

    /// Why the runner does not take the job from this submitter, where it does not.
    pub open spec fn refusal(self, submitter: Option<Seq<char>>, job: JobView) -> Option<
        Seq<char>,
    > {
        let exclusive = exclusive_fault(
            self.allowed_projects,
            self.allowed_profiles,
            submitter,
            job,
        );
        let docker = docker_fault(job.argv);
        let target = target_fault(self.prepared(job));
        let fault = self.prepared(job).fault();
        if exclusive is Some {
            exclusive
        } else if job.profile == JobProfile::DockerBuild && self.docker_builder is None {
            Some("docker-build jobs are disabled on this runner"@)
        } else if job.profile == JobProfile::DockerBuild && docker is Some {
            Some("invalid docker-build job: "@ + docker->Some_0)
        } else if project_of(submitter, job) is Err {
            Some("invalid job project: "@ + project_of(submitter, job)->Err_0)
        } else if target is Some {
            Some("invalid Rust build target: "@ + target->Some_0)
        } else if fault is Some {
            Some("invalid job: "@ + fault->Some_0)
        } else {
            None
        }
    }

    /// Why the job can never start within the limits, where it cannot.
    pub open spec fn limit_fault(self, job: JobView) -> Option<Seq<char>> {
        match excess(job, self.limits) {
            Some(found) => Some(SchedulerError::of(job.id, found).text()),
            None => None,
        }
    }

    /// What holds of every job that the runner has taken.
    pub open spec fn takes(self, job: JobView) -> bool {
        &&& job.runner == self.runner
        &&& job.valid()
        &&& target_fault(job) is None
        &&& self.limit_fault(job) is None
        &&& job.profile == JobProfile::DockerBuild ==> (self.docker_builder matches Some(builder)
            && job.locks.contains(builder_lock(builder)) && docker_fault(job.argv) is None)
        &&& job.exclusive is Some ==> self.allowed_profiles.contains(job.profile)
    }

    /// The variables that the job's command is started with.
    pub open spec fn command_environment(self, job: JobView, allocation: Allocation) -> Map<
        Seq<char>,
        Seq<char>,
    > {
        match job.profile {
            JobProfile::Rust => job.env.insert(
                "CARGO_BUILD_JOBS"@,
                decimal(allocation.compile_slots as nat),
            ),
            JobProfile::DockerBuild => match self.docker_builder {
                Some(builder) => job.env.insert("BUILDX_BUILDER"@, builder),
                None => job.env,
            },
            _ => job.env,
        }
    }
}

// ---------------------------------------------------------------------------
// A running job
// ---------------------------------------------------------------------------

/// How a running job was told to end.
#[verifier::ext_equal]
pub struct TerminationView {
    pub sent_at: u64,
    pub state: JobState,
    pub process_groups: Set<i32>,
}

/// A job whose command runs.
#[verifier::ext_equal]
pub struct RunningView {
    pub job: JobView,
    pub started: u64,
    pub sequence: u64,
    pub stdout: BufferView,
    pub stderr: BufferView,
    pub streams_open: usize,
    pub termination: Option<TerminationView>,
}

/// What is to be done to a running job's processes.
#[derive(Clone, Copy, Debug, PartialEq, Eq, Structural)]
pub enum Signal {
    /// Nothing.
    Leave,
    /// They are told to end, for the job has run too long.
    Terminate,
    /// They are killed, for they were told to end and had time to.
    Kill,
}

impl RunningView {
    /// A job whose command has just started.
    pub open spec fn fresh(job: JobView, now: u64) -> RunningView {
        RunningView {
            job,
            started: now,
            sequence: 0,
            stdout: BufferView::empty(now),
            stderr: BufferView::empty(now),
            streams_open: 2,
            termination: None,
        }
    }

    pub open spec fn buffer(self, stream: OutputStream) -> BufferView {
        match stream {
            OutputStream::Stdout => self.stdout,
            OutputStream::Stderr => self.stderr,
        }
    }

    pub open spec fn with_buffer(self, stream: OutputStream, buffer: BufferView) -> RunningView {
        match stream {
            OutputStream::Stdout => RunningView { stdout: buffer, ..self },
            OutputStream::Stderr => RunningView { stderr: buffer, ..self },
        }
    }

    /// The job once what the stream gathered is published; each piece of output has the next
    /// number.
    pub open spec fn flushed(self, stream: OutputStream, now: u64) -> RunningView {
        if self.buffer(stream).bytes.len() == 0 {
            self
        } else {
            RunningView {
                sequence: (self.sequence + 1) as u64,
                ..self.with_buffer(stream, self.buffer(stream).flushed(now))
            }
        }
    }

    /// What is published when the stream is.
    pub open spec fn flush_notices(self, stream: OutputStream) -> Seq<OutputNoticeView> {
        if self.buffer(stream).bytes.len() == 0 {
            Seq::empty()
        } else {
            seq![
                output_of(
                    self.job,
                    stream,
                    (self.sequence + 1) as u64,
                    self.buffer(stream).bytes,
                ),
            ]
        }
    }

    /// The job with more bytes gathered.
    pub open spec fn gathered(self, stream: OutputStream, bytes: Seq<u8>) -> RunningView {
        self.with_buffer(stream, self.buffer(stream).gathered(bytes))
    }

    /// The job once its command wrote these bytes.
    pub open spec fn received(self, stream: OutputStream, bytes: Seq<u8>, now: u64) -> RunningView {
        let more = self.gathered(stream, bytes);
        if more.buffer(stream).full() {
            more.flushed(stream, now)
        } else {
            more
        }
    }

    /// What is published when its command wrote these bytes.
    pub open spec fn receive_notices(self, stream: OutputStream, bytes: Seq<u8>) -> Seq<
        OutputNoticeView,
    > {
        let more = self.gathered(stream, bytes);
        if more.buffer(stream).full() {
            more.flush_notices(stream)
        } else {
            Seq::empty()
        }
    }

    /// The job once the stream is published if it is due.
    pub open spec fn checked(self, stream: OutputStream, now: u64) -> RunningView {
        if self.buffer(stream).due(now) {
            self.flushed(stream, now)
        } else {
            self
        }
    }

    /// What is published when the stream is if it is due.
    pub open spec fn check_notices(self, stream: OutputStream, now: u64) -> Seq<
        OutputNoticeView,
    > {
        if self.buffer(stream).due(now) {
            self.flush_notices(stream)
        } else {
            Seq::empty()
        }
    }

    /// The job once both streams are published if they are due.
    pub open spec fn all_checked(self, now: u64) -> RunningView {
        self.checked(OutputStream::Stdout, now).checked(OutputStream::Stderr, now)
    }

    /// What is published when both streams are if they are due.
    pub open spec fn all_check_notices(self, now: u64) -> Seq<OutputNoticeView> {
        self.check_notices(OutputStream::Stdout, now) + self.checked(
            OutputStream::Stdout,
            now,
        ).check_notices(OutputStream::Stderr, now)
    }

    /// The job once both streams are published.
    pub open spec fn all_flushed(self, now: u64) -> RunningView {
        self.flushed(OutputStream::Stdout, now).flushed(OutputStream::Stderr, now)
    }

    /// What is published when both streams are.
    pub open spec fn all_flush_notices(self, now: u64) -> Seq<OutputNoticeView> {
        self.flush_notices(OutputStream::Stdout) + self.flushed(
            OutputStream::Stdout,
            now,
        ).flush_notices(OutputStream::Stderr)
    }

    /// The job once one of its streams has been closed.
    pub open spec fn stream_closed(self) -> RunningView {
        RunningView {
            streams_open: if self.streams_open == 0 {
                0
            } else {
                (self.streams_open - 1) as usize
            },
            ..self
        }
    }

    /// The job once its processes in these groups were told to end.
    pub open spec fn terminated(
        self,
        state: JobState,
        process_groups: Set<i32>,
        now: u64,
    ) -> RunningView {
        RunningView {
            termination: Some(TerminationView { sent_at: now, state, process_groups }),
            ..self
        }
    }

    /// The job once its processes in these groups were told to end, for it was cancelled.
    pub open spec fn cancelled(self, process_groups: Set<i32>, now: u64) -> RunningView {
        self.terminated(JobState::Cancelled, process_groups, now)
    }

    /// The job once its processes in these groups were told to end, for it ran too long; one that
    /// was told to end before ends as it was told then.
    pub open spec fn timed_out(self, process_groups: Set<i32>, now: u64) -> RunningView {
        if self.termination is None {
            self.terminated(JobState::Failed, process_groups, now)
        } else {
            self
        }
    }

    /// Whether the job, if it was told to end, ends cancelled or failed.
    pub open spec fn end_is_settled(self) -> bool {
        self.termination matches Some(termination) ==> termination.state == JobState::Cancelled
            || termination.state == JobState::Failed
    }

    /// Whether two more pieces of output can be numbered.
    pub open spec fn numbers_left(self) -> bool {
        self.sequence <= u64::MAX - 2
    }

    /// What is to be done to the job's processes.
    pub open spec fn signal(self, now: u64) -> Signal {
        match self.termination {
            None => if elapsed(self.started, now) / SECOND >= self.job.timeout_seconds {
                Signal::Terminate
            } else {
                Signal::Leave
            },
            Some(termination) => if elapsed(termination.sent_at, now) >= TERMINATION_GRACE {
                Signal::Kill
            } else {
                Signal::Leave
            },
        }
    }

    /// Whether a process that was told to end is still there.
    pub open spec fn lingers(self, processes: Seq<ProcessStat>) -> bool {
        self.termination matches Some(termination) && live_member(
            termination.process_groups,
            processes,
        )
    }

    /// The state that the job ends in once its command has ended.
    pub open spec fn final_state(self, success: bool) -> JobState {
        match self.termination {
            Some(termination) => termination.state,
            None => if success {
                JobState::Completed
            } else {
                JobState::Failed
            },
        }
    }

    /// The record of the job's end: it holds the number of the last piece of output, the exit
    /// status and how long the job ran.
    pub open spec fn final_notice(
        self,
        success: bool,
        code: Option<i32>,
        now: u64,
    ) -> StateNoticeView {
        StateNoticeView {
            job: self.job.id,
            state: self.final_state(success),
            detail: Some(
                "elapsed_ms="@ + decimal((elapsed(self.started, now) / MILLISECOND) as nat),
            ),
            exit_code: code,
            last_sequence: Some(self.all_flushed(now).sequence),
        }
    }
}

// ---------------------------------------------------------------------------
// The runner
// ---------------------------------------------------------------------------

/// A message that is to be handled, and whether the runner answers it.
#[verifier::ext_equal]
pub struct DeliveryView {
    pub message: ProtocolMessageView,
    pub announce: bool,
}

/// What the runner makes of a submitted job.
pub enum Reply {
    /// It is for another runner, or has ended.
    Ignored,
    /// It is turned down for this reason.
    Rejected { detail: Seq<char> },
    /// It waits or runs already.
    Known,
    /// It stands in line, in this form and for this project.
    Queued { job: JobView, project: Seq<char> },
}

/// Something that the runner does about a submitted job.
pub enum JobStepView {
    CreateGroup { name: Seq<char> },
    JoinGroup { name: Seq<char> },
    Publish { notice: StateNoticeView },
}

/// What the runner makes of a control document.
pub enum ControlReplyView {
    /// The job waited; it is cancelled, and this is recorded.
    Cancelled { notice: StateNoticeView },
    /// The job runs; its processes are to be told to end.
    Terminate,
    /// The job waits with another priority.
    Reprioritized,
    /// There is no such job to do this with.
    Ignored,
}

/// A job that is to be started.
pub struct LaunchView {
    pub job: JobView,
    pub allocation: Allocation,
    pub environment: Map<Seq<char>, Seq<char>>,
}

/// What a look at the queue leads to.
pub enum AdmittedView {
    /// Nothing starts.
    Nothing,
    /// The job whose turn it was asks for more than it is given; this is recorded.
    Rejected { notice: StateNoticeView },
    /// The job is to be started.
    Launch { launch: LaunchView },
}

/// What a runner knows.
#[verifier::ext_equal]
pub struct DaemonView {
    pub setup: Setup,
    pub scheduler: SchedulerView,
    pub running: Seq<RunningView>,
    pub terminal: Set<JobId>,
    pub history_replayed: bool,
    pub pending: Seq<ProtocolMessageView>,
    pub last_admission: Option<u64>,
}

/// The messages as deliveries.
pub open spec fn deliveries(messages: Seq<ProtocolMessageView>, announce: bool) -> Seq<
    DeliveryView,
> {
    Seq::new(messages.len(), |i: int| DeliveryView { message: messages[i], announce })
}

/// What is published when every stream of the jobs is if it is due.
pub open spec fn due_notices(running: Seq<RunningView>, now: u64) -> Seq<OutputNoticeView>
    decreases running.len(),
{
    if running.len() == 0 {
        Seq::empty()
    } else {
        due_notices(running.drop_last(), now) + running.last().all_check_notices(now)
    }
}

/// The record that says what a started job was given.
pub open spec fn started_detail(job: JobView, allocation: Allocation) -> Seq<char> {
    "compile_slots="@ + decimal(allocation.compile_slots as nat) + " memory_mib="@ + decimal(
        allocation.memory_mib as nat,
    ) + " exclusive="@ + (if job.exclusive is Some {
        "true"@
    } else {
        "false"@
    })
}

impl DaemonView {
    /// A runner that has just been set up.
    pub open spec fn initial(setup: Setup) -> DaemonView {
        DaemonView {
            setup,
            scheduler: SchedulerView::empty(),
            running: Seq::empty(),
            terminal: Set::empty(),
            history_replayed: false,
            pending: Seq::empty(),
            last_admission: None,
        }
    }

    /// Whether the job's command runs.
    pub open spec fn is_live(self, id: JobId) -> bool {
        exists|i: int| 0 <= i < self.running.len() && (#[trigger] self.running[i]).job.id == id
    }

    /// The place of a job among those whose commands run.
    pub open spec fn live_place(self, id: JobId) -> int {
        choose|i: int| 0 <= i < self.running.len() && (#[trigger] self.running[i]).job.id == id
    }

    /// The job whose command runs.
    pub open spec fn live(self, id: JobId) -> RunningView {
        self.running[self.live_place(id)]
    }

    /// The runner with a job whose command runs replaced.
    pub open spec fn with_live(self, id: JobId, running: RunningView) -> DaemonView {
        DaemonView { running: self.running.update(self.live_place(id), running), ..self }
    }

    /// What holds of every runner.
    pub open spec fn wf(self) -> bool {
        &&& self.scheduler.wf()
        // every job that waits or runs has been taken
        &&& forall|id: JobId| #[trigger]
            self.scheduler.jobs.contains_key(id) ==> self.setup.takes(self.scheduler.jobs[id].job)
        // what has a command running runs, as itself, and once
        &&& forall|i: int|
            0 <= i < self.running.len() ==> self.scheduler.is_running(
                (#[trigger] self.running[i]).job.id,
            ) && self.running[i].job == self.scheduler.jobs[self.running[i].job.id].job
        &&& forall|i: int, j: int|
            0 <= i < j < self.running.len() ==> (#[trigger] self.running[i]).job.id != (
            #[trigger] self.running[j]).job.id
        // no stream holds back much
        &&& forall|i: int|
            0 <= i < self.running.len() ==> !(#[trigger] self.running[i]).stdout.full()
                && !self.running[i].stderr.full()
        // what was told to end ends cancelled or failed
        &&& forall|i: int|
            0 <= i < self.running.len() ==> (#[trigger] self.running[i]).end_is_settled()
        // nothing is held back once the history has been applied
        &&& self.history_replayed ==> self.pending.len() == 0
    }

    /// Whether every running job can number two more pieces of output.
    pub open spec fn numbers_left(self) -> bool {
        forall|i: int| 0 <= i < self.running.len() ==> (#[trigger] self.running[i]).numbers_left()
    }

    /// The record of a job's state.
    pub open spec fn notice(
        self,
        id: JobId,
        state: JobState,
        detail: Option<Seq<char>>,
    ) -> StateNoticeView {
        StateNoticeView {
            job: id,
            state,
            detail,
            exit_code: None,
            last_sequence: if self.is_live(id) {
                Some(self.live(id).sequence)
            } else {
                None
            },
        }
    }

    // -- what the board says ------------------------------------------------

    /// The messages that are handled when the board says this: live ones wait until the history
    /// has been applied, and then follow it in the order in which they came.
    pub open spec fn handled(self, line: BoardLineView) -> Seq<DeliveryView> {
        match line {
            BoardLineView::Message(Some(message)) => if self.history_replayed {
                deliveries(seq![message], true)
            } else {
                Seq::empty()
            },
            BoardLineView::History(messages) => if self.history_replayed {
                Seq::empty()
            } else {
                deliveries(messages, false) + deliveries(self.pending, true)
            },
            _ => Seq::empty(),
        }
    }

    /// The runner once the board has said this, its messages not handled yet.
    pub open spec fn heard(self, line: BoardLineView) -> DaemonView {
        match line {
            BoardLineView::Message(Some(message)) => if self.history_replayed {
                self
            } else {
                DaemonView { pending: self.pending.push(message), ..self }
            },
            BoardLineView::History(_) => if self.history_replayed {
                self
            } else {
                DaemonView { history_replayed: true, pending: Seq::empty(), ..self }
            },
            _ => self,
        }
    }

    // -- submissions ----------------------------------------------------------

    /// What the runner makes of a job from this submitter.
    pub open spec fn reply(self, submitter: Option<Seq<char>>, job: JobView) -> Reply {
        let prepared = self.setup.prepared(job);
        if job.runner != self.setup.runner || self.terminal.contains(job.id) {
            Reply::Ignored
        } else {
            match self.setup.refusal(submitter, job) {
                Some(detail) => Reply::Rejected { detail },
                None => if self.scheduler.jobs.contains_key(job.id) {
                    Reply::Known
                } else {
                    match self.setup.limit_fault(prepared) {
                        Some(detail) => Reply::Rejected { detail },
                        None => Reply::Queued {
                            job: prepared,
                            project: project_of(submitter, job)->Ok_0,
                        },
                    }
                },
            }
        }
    }

    /// The runner once it has made this of the job.
    pub open spec fn after_reply(self, id: JobId, reply: Reply) -> DaemonView {
        match reply {
            Reply::Rejected { .. } => DaemonView { terminal: self.terminal.insert(id), ..self },
            Reply::Queued { job, project } => DaemonView {
                scheduler: self.scheduler.enqueued(job, project),
                ..self
            },
            _ => self,
        }
    }

    /// The runner once it has handled the job.
    pub open spec fn after_job(self, submitter: Option<Seq<char>>, job: JobView) -> DaemonView {
        self.after_reply(job.id, self.reply(submitter, job))
    }

    /// What the runner does about the job.
    pub open spec fn job_steps(
        self,
        submitter: Option<Seq<char>>,
        job: JobView,
        announce: bool,
    ) -> Seq<JobStepView> {
        match self.reply(submitter, job) {
            Reply::Rejected { detail } => seq![
                JobStepView::Publish {
                    notice: self.notice(job.id, JobState::Rejected, Some(detail)),
                },
            ],
            Reply::Queued { job: queued, .. } => {
                let joined = seq![
                    JobStepView::CreateGroup { name: queued.group },
                    JobStepView::JoinGroup { name: queued.group },
                ];
                if announce {
                    joined.push(
                        JobStepView::Publish {
                            notice: self.notice(job.id, JobState::Accepted, None),
                        },
                    ).push(
                        JobStepView::Publish {
                            notice: self.notice(job.id, JobState::Queued, None),
                        },
                    )
                } else {
                    joined
                }
            },
            _ => Seq::empty(),
        }
    }

    // -- control documents ------------------------------------------------------

    /// What the runner makes of a control document.
    pub open spec fn control_reply(self, id: JobId, action: ControlAction) -> ControlReplyView {
        match action {
            ControlAction::Cancel => if self.scheduler.is_queued(id) {
                ControlReplyView::Cancelled {
                    notice: self.notice(
                        id,
                        JobState::Cancelled,
                        Some("cancelled while queued"@),
                    ),
                }
            } else if self.is_live(id) {
                ControlReplyView::Terminate
            } else {
                ControlReplyView::Ignored
            },
            ControlAction::SetPriority { .. } => if self.scheduler.is_queued(id) {
                ControlReplyView::Reprioritized
            } else {
                ControlReplyView::Ignored
            },
        }
    }

    /// The runner once it has handled the control document.
    pub open spec fn after_control(self, id: JobId, action: ControlAction) -> DaemonView {
        if !self.scheduler.is_queued(id) {
            self
        } else {
            match action {
                ControlAction::Cancel => DaemonView {
                    scheduler: self.scheduler.without_queued(id),
                    terminal: self.terminal.insert(id),
                    ..self
                },
                ControlAction::SetPriority { priority } => DaemonView {
                    scheduler: self.scheduler.reprioritized(id, priority),
                    ..self
                },
            }
        }
    }

    // -- recorded states ----------------------------------------------------------

    /// The runner once it has read the record of a state: a job of its own that has ended does not
    /// wait any more and is not taken again.
    pub open spec fn after_event(self, event: JobEventView) -> DaemonView {
        if event.runner == self.setup.runner && event.state.terminal() {
            DaemonView {
                scheduler: if self.scheduler.is_queued(event.job) {
                    self.scheduler.without_queued(event.job)
                } else {
                    self.scheduler
                },
                terminal: self.terminal.insert(event.job),
                ..self
            }
        } else {
            self
        }
    }

    // -- admission ------------------------------------------------------------------

    /// Whether it is time to look at the queue.
    pub open spec fn admission_due(self, now: u64) -> bool {
        self.scheduler.queue.len() > 0 && (self.last_admission matches Some(last) ==> elapsed(
            last,
            now,
        ) >= ADMISSION_INTERVAL)
    }

    /// What a look at the queue leads to, given what the queue says.
    pub open spec fn admitted(self, admission: Admission) -> AdmittedView {
        match admission {
            Admission::Start { place, allocation } => {
                let job = self.scheduler.jobs[self.scheduler.queue[place]].job;
                match parallelism_fault(job, allocation.compile_slots) {
                    Some(detail) => AdmittedView::Rejected {
                        notice: self.notice(job.id, JobState::Rejected, Some(detail)),
                    },
                    None => AdmittedView::Launch {
                        launch: LaunchView {
                            job,
                            allocation,
                            environment: self.setup.command_environment(job, allocation),
                        },
                    },
                }
            },
            _ => AdmittedView::Nothing,
        }
    }

    /// The runner after a look at the queue, given what the queue says.
    pub open spec fn after_admission(self, admission: Admission) -> DaemonView {
        match admission {
            Admission::Start { place, allocation } => {
                let id = self.scheduler.queue[place];
                let started = self.scheduler.started(place, allocation);
                let fault = parallelism_fault(
                    self.scheduler.jobs[id].job,
                    allocation.compile_slots,
                );
                if fault is Some {
                    DaemonView {
                        scheduler: started.finished(id),
                        terminal: self.terminal.insert(id),
                        ..self
                    }
                } else {
                    DaemonView { scheduler: started, ..self }
                }
            },
            _ => self,
        }
    }

    /// Whether the job was chosen to start and its command does not run yet.
    pub open spec fn starting(self, job: JobView) -> bool {
        &&& self.scheduler.is_running(job.id)
        &&& self.scheduler.jobs[job.id].job == job
        &&& !self.is_live(job.id)
    }

    /// The runner once the job's command runs.
    pub open spec fn after_start(self, job: JobView, now: u64) -> DaemonView {
        DaemonView { running: self.running.push(RunningView::fresh(job, now)), ..self }
    }

    // -- running jobs ---------------------------------------------------------------

    /// The runner once every stream is published if it is due.
    pub open spec fn after_check(self, now: u64) -> DaemonView {
        DaemonView {
            running: Seq::new(self.running.len(), |i: int| self.running[i].all_checked(now)),
            ..self
        }
    }

    /// The runner once the job has ended.
    pub open spec fn after_exit(self, id: JobId) -> DaemonView {
        DaemonView {
            scheduler: self.scheduler.finished(id),
            running: self.running.remove(self.live_place(id)),
            terminal: self.terminal.insert(id),
            ..self
        }
    }
}

// ---------------------------------------------------------------------------
// Everything that happens keeps what holds of a runner
// ---------------------------------------------------------------------------

/// A job's command runs at one place only.
pub proof fn lemma_live_place(daemon: DaemonView, place: int)
    requires
        daemon.wf(),
        0 <= place < daemon.running.len(),
    ensures
        daemon.is_live(daemon.running[place].job.id),
        daemon.live_place(daemon.running[place].job.id) == place,
{
    let id = daemon.running[place].job.id;
    let other = daemon.live_place(id);
    assert(daemon.running[other].job.id == id);
}

/// A runner that has just been set up is well-formed.
pub proof fn setting_up_is_well_formed(setup: Setup)
    ensures
        DaemonView::initial(setup).wf(),
{
    let scheduler = DaemonView::initial(setup).scheduler;
    assert(scheduler.running =~= Seq::empty());
    assert(scheduler.queue =~= Seq::empty());
}

/// A job that is put in line has been taken by the runner.
pub proof fn queued_jobs_are_taken(daemon: DaemonView, submitter: Option<Seq<char>>, job: JobView)
    requires
        daemon.reply(submitter, job) is Queued,
    ensures
        daemon.setup.takes(daemon.reply(submitter, job)->Queued_job),
        daemon.reply(submitter, job)->Queued_job.id == job.id,
        daemon.reply(submitter, job)->project.len() > 0,
        !daemon.scheduler.jobs.contains_key(job.id),
        !daemon.terminal.contains(job.id),
{
    let prepared = daemon.setup.prepared(job);
    if job.profile == JobProfile::DockerBuild {
        let builder = daemon.setup.docker_builder->Some_0;
        assert(prepared.locks[job.locks.len() as int] == builder_lock(builder));
    }
}

/// Handling a job keeps a runner well-formed.
pub proof fn handling_a_job_keeps_order(
    daemon: DaemonView,
    submitter: Option<Seq<char>>,
    job: JobView,
)
    requires
        daemon.wf(),
    ensures
        daemon.after_job(submitter, job).wf(),
{
    if daemon.reply(submitter, job) is Queued {
        let queued = daemon.reply(submitter, job)->Queued_job;
        let project = daemon.reply(submitter, job)->project;
        queued_jobs_are_taken(daemon, submitter, job);
        enqueuing_keeps_order(daemon.scheduler, queued, project);
        let after = daemon.after_job(submitter, job);
        lemma_commands_still_run(daemon, after.scheduler);
    }
}

proof fn lemma_running_is_known(scheduler: SchedulerView, id: JobId)
    requires
        scheduler.wf(),
        scheduler.is_running(id),
    ensures
        scheduler.jobs.contains_key(id),
        !scheduler.is_queued(id),
{
    let place = scheduler.running_place(id);
    assert(scheduler.running[place].id == id);
    if scheduler.is_queued(id) {
        let at = scheduler.queue.index_of(id);
        assert(scheduler.queue[at] == id);
    }
}

/// What has a command running still runs, as itself, in a scheduler that knows the same running
/// jobs and perhaps one more.
proof fn lemma_commands_still_run(daemon: DaemonView, after: SchedulerView)
    requires
        daemon.wf(),
        forall|i: int|
            0 <= i < daemon.scheduler.running.len() ==> i < after.running.len()
                && #[trigger] after.running[i] == daemon.scheduler.running[i],
        forall|id: JobId|
            daemon.scheduler.jobs.contains_key(id) && !daemon.scheduler.is_queued(id)
                ==> #[trigger] after.jobs[id] == daemon.scheduler.jobs[id],
    ensures
        forall|i: int|
            0 <= i < daemon.running.len() ==> after.is_running(
                (#[trigger] daemon.running[i]).job.id,
            ) && daemon.running[i].job == after.jobs[daemon.running[i].job.id].job,
{
    assert forall|i: int| 0 <= i < daemon.running.len() implies after.is_running(
        (#[trigger] daemon.running[i]).job.id,
    ) && daemon.running[i].job == after.jobs[daemon.running[i].job.id].job by {
        let id = daemon.running[i].job.id;
        let place = daemon.scheduler.running_place(id);
        lemma_running_is_known(daemon.scheduler, id);
        assert(daemon.scheduler.running[place].id == id);
        assert(after.running[place].id == id);
        assert(after.jobs[id] == daemon.scheduler.jobs[id]);
    }
}

/// Taking a waiting job out of line keeps a runner well-formed.
proof fn lemma_without_queued(daemon: DaemonView, id: JobId, terminal: Set<JobId>)
    requires
        daemon.wf(),
        daemon.scheduler.is_queued(id),
    ensures
        (DaemonView { scheduler: daemon.scheduler.without_queued(id), terminal, ..daemon }).wf(),
{
    let after = DaemonView {
        scheduler: daemon.scheduler.without_queued(id),
        terminal,
        ..daemon
    };
    cancelling_keeps_order(daemon.scheduler, id);
    lemma_commands_still_run(daemon, after.scheduler);
}

/// Handling a control document keeps a runner well-formed.
pub proof fn handling_control_keeps_order(daemon: DaemonView, id: JobId, action: ControlAction)
    requires
        daemon.wf(),
    ensures
        daemon.after_control(id, action).wf(),
{
    if daemon.scheduler.is_queued(id) {
        match action {
            ControlAction::Cancel => {
                lemma_without_queued(daemon, id, daemon.terminal.insert(id));
            },
            ControlAction::SetPriority { priority } => {
                let scheduled = daemon.scheduler.jobs[id];
                let job = JobView { priority, ..scheduled.job };
                let shorter = daemon.scheduler.without_queued(id);
                let after = daemon.after_control(id, action);
                lemma_line_places(daemon.scheduler, id);
                cancelling_keeps_order(daemon.scheduler, id);
                assert(scheduled.job.id == id);
                assert(job.fault() == scheduled.job.fault());
                enqueuing_keeps_order(shorter, job, scheduled.project);
                assert(daemon.setup.takes(job)) by {
                    assert(daemon.setup.takes(scheduled.job));
                }
                lemma_commands_still_run(daemon, after.scheduler);
            },
        }
    }
}

/// Reading the record of a state keeps a runner well-formed.
pub proof fn reading_an_event_keeps_order(daemon: DaemonView, event: JobEventView)
    requires
        daemon.wf(),
    ensures
        daemon.after_event(event).wf(),
{
    if event.runner == daemon.setup.runner && event.state.terminal()
        && daemon.scheduler.is_queued(event.job) {
        lemma_without_queued(daemon, event.job, daemon.terminal.insert(event.job));
    }
}

/// A look at the queue of a well-formed runner never fails, and keeps it well-formed.
pub proof fn admission_keeps_order(daemon: DaemonView, limits: Limits, host: HostCapacity)
    requires
        daemon.wf(),
        limits == daemon.setup.limits,
    ensures
        !(daemon.scheduler.admission(limits, host) is TooLarge),
        daemon.after_admission(daemon.scheduler.admission(limits, host)).wf(),
{
    assert forall|i: int| 0 <= i < daemon.scheduler.queue.len() implies excess(
        daemon.scheduler.jobs[#[trigger] daemon.scheduler.queue[i]].job,
        limits,
    ) is None by {
        assert(daemon.scheduler.jobs.contains_key(daemon.scheduler.queue[i]));
        assert(daemon.setup.takes(daemon.scheduler.jobs[daemon.scheduler.queue[i]].job));
    }
    queue_of_fitting_jobs_never_fails(daemon.scheduler, limits, host);
    let admission = daemon.scheduler.admission(limits, host);
    if let Admission::Start { place, allocation } = admission {
        let id = daemon.scheduler.queue[place];
        let after = daemon.after_admission(admission);
        assert(daemon.scheduler.first_to_settle(limits, host, place));
        starting_keeps_order(daemon.scheduler, limits, host, place, allocation);
        assert(daemon.scheduler.is_queued(id));
        if parallelism_fault(daemon.scheduler.jobs[id].job, allocation.compile_slots) is Some {
            finishing_at_once_is_cancelling(daemon.scheduler, place, allocation);
            lemma_without_queued(daemon, id, daemon.terminal.insert(id));
        } else {
            lemma_commands_still_run(daemon, after.scheduler);
        }
    }
}

/// Starting a chosen job's command keeps a runner well-formed.
pub proof fn starting_a_command_keeps_order(daemon: DaemonView, job: JobView, now: u64)
    requires
        daemon.wf(),
        daemon.starting(job),
    ensures
        daemon.after_start(job, now).wf(),
{
    let after = daemon.after_start(job, now);
    assert forall|i: int, j: int| 0 <= i < j < after.running.len() implies (
    #[trigger] after.running[i]).job.id != (#[trigger] after.running[j]).job.id by {
        if j == daemon.running.len() {
            assert(after.running[i] == daemon.running[i]);
        }
    }
}

/// Replacing what is known of a running job keeps a runner well-formed.
pub proof fn updating_a_command_keeps_order(daemon: DaemonView, id: JobId, running: RunningView)
    requires
        daemon.wf(),
        daemon.is_live(id),
        running.job == daemon.live(id).job,
        !running.stdout.full(),
        !running.stderr.full(),
        running.end_is_settled(),
    ensures
        daemon.with_live(id, running).wf(),
{
}

/// Publishing what is due keeps a runner well-formed.
pub proof fn checking_keeps_order(daemon: DaemonView, now: u64)
    requires
        daemon.wf(),
    ensures
        daemon.after_check(now).wf(),
{
    let after = daemon.after_check(now);
    assert forall|i: int| 0 <= i < after.running.len() implies (
    #[trigger] after.running[i]).job == daemon.running[i].job && !after.running[i].stdout.full()
        && !after.running[i].stderr.full() by {
        assert(after.running[i] == daemon.running[i].all_checked(now));
    }
}

/// The end of a job keeps a runner well-formed.
pub proof fn ending_a_command_keeps_order(daemon: DaemonView, id: JobId)
    requires
        daemon.wf(),
        daemon.is_live(id),
    ensures
        daemon.scheduler.is_running(id),
        daemon.after_exit(id).wf(),
{
    let place = daemon.live_place(id);
    let after = daemon.after_exit(id);
    assert(daemon.running[place].job.id == id);
    finishing_keeps_order(daemon.scheduler, id);
    lemma_running_places(daemon.scheduler, id);
    assert forall|i: int| 0 <= i < after.running.len() implies after.scheduler.is_running(
        (#[trigger] after.running[i]).job.id,
    ) && after.running[i].job == after.scheduler.jobs[after.running[i].job.id].job by {
        let from = if i < place { i } else { i + 1 };
        assert(after.running[i] == daemon.running[from]);
        let other = daemon.running[from].job.id;
        let at = daemon.scheduler.running_place(other);
        let gone = daemon.scheduler.running_place(id);
        assert(daemon.scheduler.running[at].id == other);
        assert(daemon.scheduler.running[gone].id == id);
        let to = if at < gone { at } else { at - 1 };
        assert(after.scheduler.running[to].id == other);
    }
}

} // verus!
