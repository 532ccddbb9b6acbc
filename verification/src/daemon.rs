//! The runner: what it makes of the documents it reads, and of the jobs it runs.
//!
//! Nothing here reads or writes anything. The surroundings hand in what they read and the time, and
//! do what comes back.

use crate::board::{messages_view, BoardLine, ProtocolMessage};
use crate::capacity::{HostCapacity, Limits};
use crate::cli::Config;
use crate::clock::elapsed_between;
use crate::environment::Environment;
use crate::events::{StateNotice, StateNoticeView};
use crate::ids::JobId;
use crate::output::OutputNotice;
use crate::policy::{
    exclusive_rejection, job_project, project_of, validate_docker_build, validate_parallelism,
    validate_rust_target,
};
use crate::process::ProcessStat;
use crate::protocol::{
    Control, ControlAction, Job, JobEvent, JobProfile, JobState, OutputStream,
};
use crate::running::{optional_output, outputs_view, push_output, RunningJob};
use crate::scheduler::{excess_of, Scheduler, SchedulerError};
use crate::scheduling::{Admission, Allocation};
use crate::supervision::{
    admission_keeps_order, builder_lock, checking_keeps_order, deliveries, due_notices,
    ending_a_command_keeps_order, handling_a_job_keeps_order, handling_control_keeps_order,
    lemma_live_place, queued_jobs_are_taken, reading_an_event_keeps_order,
    setting_up_is_well_formed, started_detail, starting_a_command_keeps_order,
    updating_a_command_keeps_order, AdmittedView, ControlReplyView, DaemonView, DeliveryView,
    JobStepView, LaunchView, RunningView, Setup, Signal, ADMISSION_INTERVAL,
};
use crate::text::{decimal_of, optional_text, same_text, slice_text, texts};
use std::collections::HashSet;
use vstd::prelude::*;
use vstd::string::StringExecFns;

verus! {

broadcast use vstd::std_specs::hash::group_hash_axioms;

/// A message that is to be handled, and whether the runner answers it.
#[derive(Debug, PartialEq, Eq)]
pub struct Delivery {
    pub message: ProtocolMessage,
    pub announce: bool,
}

impl View for Delivery {
    type V = DeliveryView;

    open spec fn view(&self) -> DeliveryView {
        DeliveryView { message: self.message@, announce: self.announce }
    }
}

/// What the deliveries hold.
pub open spec fn deliveries_view(all: Seq<Delivery>) -> Seq<DeliveryView> {
    Seq::new(all.len(), |i: int| all[i]@)
}

/// Something that the runner does about a submitted job.
#[derive(Debug, PartialEq, Eq)]
pub enum JobStep {
    CreateGroup { name: String },
    JoinGroup { name: String },
    Publish { notice: StateNotice },
}

impl View for JobStep {
    type V = JobStepView;

    open spec fn view(&self) -> JobStepView {
        match self {
            JobStep::CreateGroup { name } => JobStepView::CreateGroup { name: name@ },
            JobStep::JoinGroup { name } => JobStepView::JoinGroup { name: name@ },
            JobStep::Publish { notice } => JobStepView::Publish { notice: notice@ },
        }
    }
}

/// What the steps hold.
pub open spec fn steps_view(steps: Seq<JobStep>) -> Seq<JobStepView> {
    Seq::new(steps.len(), |i: int| steps[i]@)
}

/// What the runner makes of a control document.
#[derive(Debug, PartialEq, Eq)]
pub enum ControlReply {
    /// The job waited; it is cancelled, and this is recorded.
    Cancelled { notice: StateNotice },
    /// The job runs; its processes are to be told to end.
    Terminate,
    /// The job waits with another priority.
    Reprioritized,
    /// There is no such job to do this with.
    Ignored,
}

impl View for ControlReply {
    type V = ControlReplyView;

    open spec fn view(&self) -> ControlReplyView {
        match self {
            ControlReply::Cancelled { notice } => ControlReplyView::Cancelled { notice: notice@ },
            ControlReply::Terminate => ControlReplyView::Terminate,
            ControlReply::Reprioritized => ControlReplyView::Reprioritized,
            ControlReply::Ignored => ControlReplyView::Ignored,
        }
    }
}

/// A job that is to be started, with what is set aside for it and the variables of its command.
#[derive(Debug)]
pub struct Launch {
    pub job: Job,
    pub allocation: Allocation,
    pub environment: Environment,
}

impl View for Launch {
    type V = LaunchView;

    open spec fn view(&self) -> LaunchView {
        LaunchView {
            job: self.job@,
            allocation: self.allocation,
            environment: self.environment@,
        }
    }
}

/// What a look at the queue leads to.
#[derive(Debug)]
pub enum Admitted {
    /// Nothing starts.
    Nothing,
    /// The job whose turn it was asks for more than it is given; this is recorded.
    Rejected { notice: StateNotice },
    /// The job is to be started.
    Launch { launch: Launch },
}

impl View for Admitted {
    type V = AdmittedView;

    open spec fn view(&self) -> AdmittedView {
        match self {
            Admitted::Nothing => AdmittedView::Nothing,
            Admitted::Rejected { notice } => AdmittedView::Rejected { notice: notice@ },
            Admitted::Launch { launch } => AdmittedView::Launch { launch: launch@ },
        }
    }
}

/// What is published when a job has ended: the rest of its output, then the record of its end.
#[derive(Debug, PartialEq, Eq)]
pub struct JobExit {
    pub outputs: Vec<OutputNotice>,
    pub notice: StateNotice,
}

/// What a runner with this configuration goes by.
pub open spec fn setup_of(config: Config) -> Setup {
    Setup {
        runner: config.runner@,
        docker_builder: optional_text(config.docker_builder),
        allowed_projects: texts(config.exclusive.allowed_projects@),
        allowed_profiles: config.exclusive.allowed_profiles@,
        limits: config.limits.effective(),
    }
}

/// The runner.
pub struct Daemon {
    config: Config,
    limits: Limits,
    scheduler: Scheduler,
    running: Vec<RunningJob>,
    terminal: HashSet<JobId>,
    history_replayed: bool,
    pending: Vec<ProtocolMessage>,
    last_admission: Option<u64>,
}

/// What the running jobs hold.
pub open spec fn running_view(running: Seq<RunningJob>) -> Seq<RunningView> {
    Seq::new(running.len(), |i: int| running[i]@)
}

impl View for Daemon {
    type V = DaemonView;

    closed spec fn view(&self) -> DaemonView {
        DaemonView {
            setup: setup_of(self.config),
            scheduler: self.scheduler@,
            running: running_view(self.running@),
            terminal: self.terminal@,
            history_replayed: self.history_replayed,
            pending: messages_view(self.pending@),
            last_admission: self.last_admission,
        }
    }
}

impl Daemon {
    /// What holds of every runner.
    pub open spec fn wf(&self) -> bool {
        self@.wf() && self.parts_agree()
    }

    /// Whether the runner's parts fit together.
    pub closed spec fn parts_agree(&self) -> bool {
        self.scheduler.wf() && self.limits == self.config.limits.effective()
    }

    /// A runner with this configuration that knows nothing yet.
    pub fn new(config: Config) -> (daemon: Self)
        ensures
            daemon.wf(),
            daemon@ == DaemonView::initial(setup_of(config)),
    {
        let limits = config.limits();
        let daemon = Daemon {
            config,
            limits,
            scheduler: Scheduler::default(),
            running: Vec::new(),
            terminal: HashSet::new(),
            history_replayed: false,
            pending: Vec::new(),
            last_admission: None,
        };
        proof {
            setting_up_is_well_formed(setup_of(config));
            assert(daemon@ =~= DaemonView::initial(setup_of(config)));
        }
        daemon
    }

    /// The runner's name.
    pub fn runner(&self) -> (name: &str)
        ensures
            name@ == self@.setup.runner,
    {
        self.config.runner.as_str()
    }
}

// ---------------------------------------------------------------------------
// What the board says
// ---------------------------------------------------------------------------

fn push_deliveries(target: &mut Vec<Delivery>, messages: &Vec<ProtocolMessage>, announce: bool)
    ensures
        deliveries_view(final(target)@) == deliveries_view(old(target)@) + deliveries(
            messages_view(messages@),
            announce,
        ),
{
    let ghost before = deliveries_view(target@);
    let ghost all = deliveries(messages_view(messages@), announce);
    let mut at: usize = 0;
    assert(before =~= before + all.take(0));
    while at < messages.len()
        invariant
            at <= messages@.len(),
            all == deliveries(messages_view(messages@), announce),
            deliveries_view(target@) == before + all.take(at as int),
        decreases messages.len() - at,
    {
        let ghost seen = deliveries_view(target@);
        target.push(Delivery { message: messages[at].clone(), announce });
        assert(deliveries_view(target@) =~= seen.push(all[at as int]));
        assert(before + all.take(at + 1) =~= seen.push(all[at as int]));
        at = at + 1;
    }
    assert(all.take(at as int) =~= all);
}

impl Daemon {
    /// Takes in what the board said, and hands out the messages that are to be handled now.
    pub fn handle_board(&mut self, line: BoardLine) -> (handled: Vec<Delivery>)
        requires
            old(self).wf(),
        ensures
            final(self).wf(),
            final(self)@ == old(self)@.heard(line@),
            deliveries_view(handled@) == old(self)@.handled(line@),
    {
        let ghost before = self@;
        let mut handled: Vec<Delivery> = Vec::new();
        match line {
            BoardLine::Message(Some(message)) => {
                if self.history_replayed {
                    handled.push(Delivery { message, announce: true });
                    assert(deliveries_view(handled@) =~= before.handled(line@));
                } else {
                    self.pending.push(message);
                    assert(messages_view(self.pending@) =~= before.pending.push(message@));
                    assert(self@ =~= before.heard(line@));
                    assert(deliveries_view(handled@) =~= before.handled(line@));
                }
            },
            BoardLine::History(messages) => {
                if !self.history_replayed {
                    push_deliveries(&mut handled, &messages, false);
                    self.history_replayed = true;
                    push_deliveries(&mut handled, &self.pending, true);
                    self.pending = Vec::new();
                    assert(deliveries_view(handled@) =~= before.handled(line@));
                    assert(self@ =~= before.heard(line@));
                } else {
                    assert(deliveries_view(handled@) =~= before.handled(line@));
                }
            },
            _ => {
                assert(deliveries_view(handled@) =~= before.handled(line@));
            },
        }
        handled
    }
}

// ---------------------------------------------------------------------------
// Submissions
// ---------------------------------------------------------------------------

fn joined(words: &str, rest: &str) -> (message: String)
    ensures
        message@ == words@ + rest@,
{
    let mut message = words.to_owned();
    message.append(rest);
    message
}

impl Daemon {
    /// The place of the job among those whose commands run, or how many do where it is not one.
    fn find_live(&self, id: JobId) -> (place: usize)
        requires
            self@.wf(),
        ensures
            place <= self.running@.len(),
            place < self.running@.len() ==> self@.running[place as int].job.id == id
                && self@.live_place(id) == place && self@.live(id)
                == self.running@[place as int]@,
            place < self.running@.len() <==> self@.is_live(id),
    {
        let mut place: usize = 0;
        while place < self.running.len() && self.running[place].job.id != id
            invariant
                place <= self.running@.len(),
                forall|i: int| 0 <= i < place ==> (#[trigger] self@.running[i]).job.id != id,
            decreases self.running.len() - place,
        {
            place = place + 1;
        }
        proof {
            if place < self.running@.len() {
                assert(self@.running[place as int].job.id == id);
                lemma_live_place(self@, place as int);
            }
        }
        place
    }

    /// The record of a job's state.
    fn publish_state(
        &self,
        id: JobId,
        state: JobState,
        detail: Option<String>,
    ) -> (notice: StateNotice)
        requires
            self@.wf(),
        ensures
            notice@ == self@.notice(id, state, optional_text(detail)),
    {
        let place = self.find_live(id);
        let last_sequence = if place < self.running.len() {
            Some(self.running[place].sequence)
        } else {
            None
        };
        StateNotice { job: id, state, detail, exit_code: None, last_sequence }
    }

    /// The job as the runner takes it and the project that it counts for, or why it is not taken.
    fn take_job(&self, submitter: Option<&str>, job: Job) -> (res: Result<(Job, String), String>)
        ensures
            match self@.setup.refusal(slice_text(submitter), job@) {
                Some(detail) => res matches Err(message) && message@ == detail,
                None => res matches Ok((taken, project)) && taken@ == self@.setup.prepared(job@)
                    && project_of(slice_text(submitter), job@) == Ok::<Seq<char>, Seq<char>>(
                    project@,
                ),
            },
    {
        let ghost given = job@;
        if let Some(rejection) = exclusive_rejection(&self.config.exclusive, submitter, &job) {
            return Err(rejection);
        }
        let mut taken = job;
        if taken.profile == JobProfile::DockerBuild {
            match &self.config.docker_builder {
                None => {
                    return Err("docker-build jobs are disabled on this runner".to_owned());
                },
                Some(builder) => {
                    if let Err(fault) = validate_docker_build(&taken) {
                        return Err(joined("invalid docker-build job: ", fault));
                    }
                    let lock = joined("buildkit:", builder.as_str());
                    taken.locks.push(lock);
                    assert(texts(taken.locks@) =~= given.locks.push(builder_lock(builder@)));
                },
            }
        }
        assert(taken@ =~= self@.setup.prepared(given));
        let project = match job_project(submitter, &taken) {
            Ok(project) => project,
            Err(fault) => {
                return Err(joined("invalid job project: ", fault));
            },
        };
        if let Err(fault) = validate_rust_target(&taken) {
            return Err(joined("invalid Rust build target: ", fault.as_str()));
        }
        if let Err(fault) = taken.validate() {
            return Err(joined("invalid job: ", fault));
        }
        Ok((taken, project))
    }

    /// Why the job can never start within the limits, where it cannot.
    fn limit_rejection(&self, job: &Job) -> (rejection: Option<String>)
        requires
            self.parts_agree(),
        ensures
            optional_text(rejection) == self@.setup.limit_fault(job@),
    {
        match excess_of(job, &self.limits) {
            Some(found) => Some(SchedulerError::new(job.id, found).message()),
            None => None,
        }
    }

    /// Turns a job down.
    fn reject(&mut self, id: JobId, detail: String) -> (steps: Vec<JobStep>)
        requires
            old(self).wf(),
        ensures
            final(self)@ == (DaemonView { terminal: old(self)@.terminal.insert(id), ..old(self)@ }),
            final(self).wf(),
            steps_view(steps@) == seq![
                JobStepView::Publish {
                    notice: old(self)@.notice(id, JobState::Rejected, Some(detail@)),
                },
            ],
    {
        let ghost before = self@;
        let notice = self.publish_state(id, JobState::Rejected, Some(detail));
        self.terminal.insert(id);
        assert(self@ =~= (DaemonView { terminal: before.terminal.insert(id), ..before }));
        let mut steps: Vec<JobStep> = Vec::new();
        steps.push(JobStep::Publish { notice });
        assert(steps_view(steps@) =~= seq![
            JobStepView::Publish { notice: before.notice(id, JobState::Rejected, Some(detail@)) },
        ]);
        steps
    }

    /// Handles a job from this submitter: it is put in line, turned down, or left alone where it
    /// is another runner's, has ended or is known. Where `announce` is not set, a job that is put
    /// in line is not announced.
    pub fn handle_job(&mut self, submitter: Option<&str>, job: Job, announce: bool) -> (steps: Vec<
        JobStep,
    >)
        requires
            old(self).wf(),
        ensures
            final(self).wf(),
            final(self)@ == old(self)@.after_job(slice_text(submitter), job@),
            steps_view(steps@) == old(self)@.job_steps(slice_text(submitter), job@, announce),
    {
        let ghost before = self@;
        let ghost given = job@;
        let ghost from = slice_text(submitter);
        proof {
            handling_a_job_keeps_order(before, from, given);
        }
        let id = job.id;
        let mut steps: Vec<JobStep> = Vec::new();
        if !same_text(job.runner.as_str(), self.config.runner.as_str()) || self.terminal.contains(
            &id,
        ) {
            assert(steps_view(steps@) =~= before.job_steps(from, given, announce));
            return steps;
        }
        let (taken, project) = match self.take_job(submitter, job) {
            Ok(pair) => pair,
            Err(detail) => {
                return self.reject(id, detail);
            },
        };
        if self.scheduler.contains(id) {
            assert(steps_view(steps@) =~= before.job_steps(from, given, announce));
            return steps;
        }
        if let Some(detail) = self.limit_rejection(&taken) {
            return self.reject(id, detail);
        }
        proof {
            queued_jobs_are_taken(before, from, given);
        }
        steps.push(JobStep::CreateGroup { name: taken.group.clone() });
        steps.push(JobStep::JoinGroup { name: taken.group.clone() });
        if announce {
            steps.push(
                JobStep::Publish { notice: self.publish_state(id, JobState::Accepted, None) },
            );
            steps.push(
                JobStep::Publish { notice: self.publish_state(id, JobState::Queued, None) },
            );
        }
        assert(steps_view(steps@) =~= before.job_steps(from, given, announce));
        let _ = self.scheduler.enqueue(taken, project);
        assert(self@ =~= before.after_job(from, given));
        steps
    }

    // -----------------------------------------------------------------------
    // Control documents and recorded states
    // -----------------------------------------------------------------------

    /// Handles a control document. Where the answer is [`ControlReply::Terminate`], the job's
    /// processes are to be told to end, and [`Daemon::begin_cancellation`] is to be told of it.
    pub fn handle_control(&mut self, control: &Control) -> (reply: ControlReply)
        requires
            old(self).wf(),
        ensures
            final(self).wf(),
            final(self)@ == old(self)@.after_control(control.job, control.action),
            reply@ == old(self)@.control_reply(control.job, control.action),
    {
        let ghost before = self@;
        let id = control.job;
        proof {
            handling_control_keeps_order(before, id, control.action);
        }
        match control.action {
            ControlAction::Cancel => {
                let notice = self.publish_state(
                    id,
                    JobState::Cancelled,
                    Some("cancelled while queued".to_owned()),
                );
                if self.scheduler.cancel_queued(id).is_some() {
                    self.terminal.insert(id);
                    assert(self@ =~= before.after_control(id, control.action));
                    ControlReply::Cancelled { notice }
                } else if self.find_live(id) < self.running.len() {
                    ControlReply::Terminate
                } else {
                    ControlReply::Ignored
                }
            },
            ControlAction::SetPriority { priority } => {
                if self.scheduler.set_priority(id, priority) {
                    assert(self@ =~= before.after_control(id, control.action));
                    ControlReply::Reprioritized
                } else {
                    ControlReply::Ignored
                }
            },
        }
    }

    /// Reads the record of a state.
    pub fn handle_lifecycle(&mut self, event: &JobEvent)
        requires
            old(self).wf(),
        ensures
            final(self).wf(),
            final(self)@ == old(self)@.after_event(event@),
    {
        let ghost before = self@;
        proof {
            reading_an_event_keeps_order(before, event@);
        }
        if same_text(event.runner.as_str(), self.config.runner.as_str())
            && event.state.is_terminal() {
            self.terminal.insert(event.job);
            let _ = self.scheduler.cancel_queued(event.job);
            assert(self@ =~= before.after_event(event@));
        }
    }
}

// ---------------------------------------------------------------------------
// Admission
// ---------------------------------------------------------------------------

impl Daemon {
    /// Whether it is time to look at the queue.
    pub fn is_admission_due(&self, now: u64) -> (due: bool)
        ensures
            due == self@.admission_due(now),
    {
        self.scheduler.queued_len() > 0 && match self.last_admission {
            Some(last) => elapsed_between(last, now) >= ADMISSION_INTERVAL,
            None => true,
        }
    }

    /// Notes that the queue was looked at.
    pub fn admission_made(&mut self, now: u64)
        requires
            old(self).wf(),
        ensures
            final(self).wf(),
            final(self)@ == (DaemonView { last_admission: Some(now), ..old(self)@ }),
    {
        self.last_admission = Some(now);
    }

    /// The variables that the job's command is started with.
    fn command_environment(&self, job: &Job, allocation: Allocation) -> (environment: Environment)
        ensures
            environment@ == self@.setup.command_environment(job@, allocation),
    {
        let mut environment = job.env.clone();
        match job.profile {
            JobProfile::Rust => {
                environment.insert(
                    "CARGO_BUILD_JOBS".to_owned(),
                    decimal_of(allocation.compile_slots as u64),
                );
            },
            JobProfile::DockerBuild => {
                if let Some(builder) = &self.config.docker_builder {
                    environment.insert("BUILDX_BUILDER".to_owned(), builder.clone());
                }
            },
            _ => {},
        }
        environment
    }

    /// Looks at the queue: the job whose turn it is is to be started, or is turned down where it
    /// asks Cargo for more than it is given. Once a job's command runs,
    /// [`Daemon::job_started`] is to be told of it.
    pub fn start_next(&mut self, host: &HostCapacity) -> (admitted: Admitted)
        requires
            old(self).wf(),
        ensures
            final(self).wf(),
            final(self)@ == old(self)@.after_admission(
                old(self)@.scheduler.admission(old(self)@.setup.limits, *host),
            ),
            admitted@ == old(self)@.admitted(
                old(self)@.scheduler.admission(old(self)@.setup.limits, *host),
            ),
            admitted matches Admitted::Launch { launch } ==> final(self)@.starting(launch.job@),
    {
        let ghost before = self@;
        let ghost admission = before.scheduler.admission(self.limits, *host);
        proof {
            admission_keeps_order(before, self.limits, *host);
        }
        match self.scheduler.next(&self.limits, host) {
            Ok(Some((job, allocation))) => {
                let id = job.id;
                proof {
                    if let Admission::Start { place, .. } = admission {
                        lemma_chosen(before, self.limits, *host, place, allocation);
                    }
                }
                if let Err(detail) = validate_parallelism(&job, allocation.compile_slots) {
                    let _ = self.scheduler.finish(id);
                    let notice = self.rejection_of(id, detail);
                    self.terminal.insert(id);
                    assert(self@ =~= before.after_admission(admission));
                    return Admitted::Rejected { notice };
                }
                let environment = self.command_environment(&job, allocation);
                assert(self@ =~= before.after_admission(admission));
                Admitted::Launch { launch: Launch { job, allocation, environment } }
            },
            _ => {
                assert(self@ =~= before.after_admission(admission));
                Admitted::Nothing
            },
        }
    }

    /// The record that a job which does not run yet is turned down.
    fn rejection_of(&self, id: JobId, detail: String) -> (notice: StateNotice)
        ensures
            notice@ == (StateNoticeView {
                job: id,
                state: JobState::Rejected,
                detail: Some(detail@),
                exit_code: None,
                last_sequence: None,
            }),
    {
        StateNotice {
            job: id,
            state: JobState::Rejected,
            detail: Some(detail),
            exit_code: None,
            last_sequence: None,
        }
    }

    /// Notes that the chosen job's command runs, and hands out the record of it.
    pub fn job_started(&mut self, launch: Launch, now: u64) -> (notice: StateNotice)
        requires
            old(self).wf(),
            old(self)@.starting(launch.job@),
        ensures
            final(self).wf(),
            final(self)@ == old(self)@.after_start(launch.job@, now),
            notice@ == old(self)@.notice(
                launch.job@.id,
                JobState::Started,
                Some(started_detail(launch.job@, launch.allocation)),
            ),
    {
        let ghost before = self@;
        proof {
            starting_a_command_keeps_order(before, launch.job@, now);
        }
        let mut detail = joined(
            "compile_slots=",
            decimal_of(launch.allocation.compile_slots as u64).as_str(),
        );
        detail.append(" memory_mib=");
        detail.append(decimal_of(launch.allocation.memory_mib).as_str());
        detail.append(" exclusive=");
        if launch.job.exclusive.is_some() {
            detail.append("true");
        } else {
            detail.append("false");
        }
        let notice = self.publish_state(launch.job.id, JobState::Started, Some(detail));
        let running = RunningJob::new(launch.job, now);
        let ghost view = running@;
        self.running.push(running);
        assert(running_view(self.running@) =~= before.running.push(view));
        assert(self@ =~= before.after_start(launch.job@, now));
        notice
    }
}

proof fn lemma_chosen(
    daemon: DaemonView,
    limits: Limits,
    host: HostCapacity,
    place: int,
    allocation: Allocation,
)
    requires
        daemon.wf(),
        daemon.scheduler.admission(limits, host) == (Admission::Start { place, allocation }),
    ensures
        0 <= place < daemon.scheduler.queue.len(),
        !daemon.is_live(daemon.scheduler.queue[place]),
        daemon.scheduler.jobs[daemon.scheduler.queue[place]].job.id
            == daemon.scheduler.queue[place],
        daemon.scheduler.started(place, allocation).is_running(daemon.scheduler.queue[place]),
{
    let id = daemon.scheduler.queue[place];
    let started = daemon.scheduler.started(place, allocation);
    assert(daemon.scheduler.first_to_settle(limits, host, place));
    assert(daemon.scheduler.jobs.contains_key(id));
    assert(started.running[daemon.scheduler.running.len() as int].id == id);
    if daemon.is_live(id) {
        assert(daemon.running[daemon.live_place(id)].job.id == id);
    }
}

// ---------------------------------------------------------------------------
// Running jobs
// ---------------------------------------------------------------------------

impl Daemon {
    /// The jobs whose commands run, in the order in which they started.
    pub fn running_ids(&self) -> (ids: Vec<JobId>)
        ensures
            ids@ == Seq::new(self@.running.len(), |i: int| self@.running[i].job.id),
    {
        let mut ids: Vec<JobId> = Vec::new();
        let mut at: usize = 0;
        while at < self.running.len()
            invariant
                at <= self.running@.len(),
                ids@ == Seq::new(at as nat, |i: int| self@.running[i].job.id),
            decreases self.running.len() - at,
        {
            ids.push(self.running[at].job.id);
            assert(ids@ =~= Seq::new((at + 1) as nat, |i: int| self@.running[i].job.id));
            at = at + 1;
        }
        ids
    }

    /// Whether every running job can number two more pieces of output.
    pub fn has_numbers_left(&self) -> (left: bool)
        ensures
            left == self@.numbers_left(),
    {
        let mut at: usize = 0;
        while at < self.running.len()
            invariant
                at <= self.running@.len(),
                forall|i: int| 0 <= i < at ==> (#[trigger] self@.running[i]).numbers_left(),
            decreases self.running.len() - at,
        {
            assert(self@.running[at as int] == self.running@[at as int]@);
            if self.running[at].sequence > u64::MAX - 2 {
                return false;
            }
            at = at + 1;
        }
        true
    }

    /// Gathers what a job's command wrote, and hands out what is to be published for it.
    pub fn handle_output(
        &mut self,
        id: JobId,
        stream: OutputStream,
        bytes: Vec<u8>,
        now: u64,
    ) -> (res: Result<Option<OutputNotice>, &'static str>)
        requires
            old(self).wf(),
            old(self)@.is_live(id) ==> old(self)@.live(id).sequence < u64::MAX,
            bytes@.len() <= isize::MAX / 4,
        ensures
            final(self).wf(),
            if old(self)@.is_live(id) {
                &&& final(self)@ == old(self)@.with_live(
                    id,
                    old(self)@.live(id).received(stream, bytes@, now),
                )
                &&& res matches Ok(notice)
                &&& optional_output(notice) == old(self)@.live(id).receive_notices(stream, bytes@)
            } else {
                &&& final(self)@ == old(self)@
                &&& res matches Err(message)
                &&& message@ == "output for unknown job"@
            },
    {
        let ghost before = self@;
        let place = self.find_live(id);
        if place == self.running.len() {
            return Err("output for unknown job");
        }
        let ghost after = before.live(id).received(stream, bytes@, now);
        proof {
            updating_a_command_keeps_order(before, id, after);
        }
        let notice = self.running[place].receive(stream, bytes, now);
        assert(running_view(self.running@) =~= before.running.update(place as int, after));
        assert(self@ =~= before.with_live(id, after));
        Ok(notice)
    }

    /// Counts a stream of a job that has been closed.
    pub fn stream_closed(&mut self, id: JobId)
        requires
            old(self).wf(),
        ensures
            final(self).wf(),
            final(self)@ == if old(self)@.is_live(id) {
                old(self)@.with_live(id, old(self)@.live(id).stream_closed())
            } else {
                old(self)@
            },
    {
        let ghost before = self@;
        let place = self.find_live(id);
        if place < self.running.len() {
            let ghost after = before.live(id).stream_closed();
            proof {
                updating_a_command_keeps_order(before, id, after);
            }
            self.running[place].close_stream();
            assert(running_view(self.running@) =~= before.running.update(place as int, after));
            assert(self@ =~= before.with_live(id, after));
        }
    }

    /// Notes that a job's processes in these groups were told to end, for the job was cancelled: it
    /// ends cancelled.
    pub fn begin_cancellation(&mut self, id: JobId, process_groups: HashSet<i32>, now: u64)
        requires
            old(self).wf(),
        ensures
            final(self).wf(),
            final(self)@ == if old(self)@.is_live(id) {
                old(self)@.with_live(id, old(self)@.live(id).cancelled(process_groups@, now))
            } else {
                old(self)@
            },
    {
        let ghost before = self@;
        let place = self.find_live(id);
        if place < self.running.len() {
            let ghost after = before.live(id).cancelled(process_groups@, now);
            proof {
                updating_a_command_keeps_order(before, id, after);
            }
            self.running[place].cancel(process_groups, now);
            assert(running_view(self.running@) =~= before.running.update(place as int, after));
            assert(self@ =~= before.with_live(id, after));
        }
    }

    /// Notes that a job's processes in these groups were told to end, for the job ran too long: it
    /// ends failed, unless it was told to end before.
    pub fn begin_timeout(&mut self, id: JobId, process_groups: HashSet<i32>, now: u64)
        requires
            old(self).wf(),
        ensures
            final(self).wf(),
            final(self)@ == if old(self)@.is_live(id) {
                old(self)@.with_live(id, old(self)@.live(id).timed_out(process_groups@, now))
            } else {
                old(self)@
            },
    {
        let ghost before = self@;
        let place = self.find_live(id);
        if place < self.running.len() {
            let ghost after = before.live(id).timed_out(process_groups@, now);
            proof {
                updating_a_command_keeps_order(before, id, after);
            }
            self.running[place].time_out(process_groups, now);
            assert(running_view(self.running@) =~= before.running.update(place as int, after));
            assert(self@ =~= before.with_live(id, after));
        }
    }

    /// The process groups that a job's processes were found in when they were told to end.
    pub fn termination_groups(&self, id: JobId) -> (groups: Option<&HashSet<i32>>)
        requires
            self.wf(),
        ensures
            match groups {
                Some(found) => self@.is_live(id) && (self@.live(id).termination matches Some(
                    termination,
                ) && termination.process_groups == found@),
                None => self@.is_live(id) ==> self@.live(id).termination is None,
            },
    {
        let place = self.find_live(id);
        if place == self.running.len() {
            return None;
        }
        match &self.running[place].termination {
            Some(termination) => Some(&termination.process_groups),
            None => None,
        }
    }

    /// What is to be done to a job's processes.
    pub fn signal_due(&self, id: JobId, now: u64) -> (signal: Signal)
        requires
            self.wf(),
        ensures
            signal == if self@.is_live(id) {
                self@.live(id).signal(now)
            } else {
                Signal::Leave
            },
    {
        let place = self.find_live(id);
        if place == self.running.len() {
            return Signal::Leave;
        }
        self.running[place].signal(now)
    }

    /// Publishes every stream that is due.
    pub fn flush_due(&mut self, now: u64) -> (notices: Vec<OutputNotice>)
        requires
            old(self).wf(),
            old(self)@.numbers_left(),
        ensures
            final(self).wf(),
            final(self)@ == old(self)@.after_check(now),
            outputs_view(notices@) == due_notices(old(self)@.running, now),
    {
        let ghost before = self@;
        let ghost all = before.running;
        let mut notices: Vec<OutputNotice> = Vec::new();
        let mut at: usize = 0;
        proof {
            checking_keeps_order(before, now);
            assert(outputs_view(notices@) =~= due_notices(all.take(0), now));
        }
        while at < self.running.len()
            invariant
                before == old(self)@,
                before.wf(),
                before.numbers_left(),
                all == before.running,
                at <= self.running@.len(),
                self.running@.len() == all.len(),
                self@ == (DaemonView { running: self@.running, ..before }),
                self.parts_agree(),
                forall|i: int|
                    0 <= i < at ==> #[trigger] self@.running[i] == all[i].all_checked(now),
                forall|i: int| at <= i < all.len() ==> #[trigger] self@.running[i] == all[i],
                outputs_view(notices@) == due_notices(all.take(at as int), now),
            decreases self.running.len() - at,
        {
            let ghost earlier = outputs_view(notices@);
            let ghost views = self@.running;
            assert(self@.running[at as int] == self.running@[at as int]@);
            assert(all[at as int].numbers_left());
            let first = self.running[at].check(OutputStream::Stdout, now);
            let second = self.running[at].check(OutputStream::Stderr, now);
            push_output(&mut notices, first);
            push_output(&mut notices, second);
            proof {
                assert(all.take(at + 1).drop_last() =~= all.take(at as int));
                assert(outputs_view(notices@) =~= earlier + all[at as int].all_check_notices(now));
                assert(self@.running =~= views.update(at as int, all[at as int].all_checked(now)));
            }
            at = at + 1;
        }
        proof {
            assert(all.take(at as int) =~= all);
            assert(self@.running =~= before.after_check(now).running);
            assert(self@ =~= before.after_check(now));
        }
        notices
    }

    /// Ends a job whose command has ended, and hands out what is to be published for it; or leaves
    /// it as it is while one of the processes that were told to end is still there.
    pub fn job_exited(
        &mut self,
        id: JobId,
        success: bool,
        code: Option<i32>,
        processes: &Vec<ProcessStat>,
        now: u64,
    ) -> (exit: Option<JobExit>)
        requires
            old(self).wf(),
            old(self)@.is_live(id) ==> old(self)@.live(id).numbers_left(),
        ensures
            final(self).wf(),
            if old(self)@.is_live(id) && !old(self)@.live(id).lingers(processes@) {
                &&& final(self)@ == old(self)@.after_exit(id)
                &&& exit matches Some(ended)
                &&& outputs_view(ended.outputs@) == old(self)@.live(id).all_flush_notices(now)
                &&& ended.notice@ == old(self)@.live(id).final_notice(success, code, now)
            } else {
                &&& final(self)@ == old(self)@
                &&& exit is None
            },
    {
        let ghost before = self@;
        let place = self.find_live(id);
        if place == self.running.len() {
            return None;
        }
        if self.running[place].is_lingering(processes) {
            return None;
        }
        proof {
            ending_a_command_keeps_order(before, id);
        }
        let mut running = self.running.remove(place);
        let (outputs, notice) = running.end(success, code, now);
        let _ = self.scheduler.finish(id);
        self.terminal.insert(id);
        assert(running_view(self.running@) =~= before.running.remove(place as int));
        assert(self@ =~= before.after_exit(id));
        Some(JobExit { outputs, notice })
    }
}

} // verus!
