//! What the runner promises, whatever documents it reads and whatever its jobs do.

use crate::board::{BoardLineView, ProtocolMessageView};
use crate::capacity::HostCapacity;
use crate::clock::elapsed;
use crate::events::JobEventView;
use crate::ids::JobId;
use crate::laws::running_jobs_share_no_lock;
use crate::output::{payload, OutputNoticeView};
use crate::policy::{
    asks_for_more, directory_name, some_chooses_builder, target_directory, target_lock,
    works_for_some,
};
use crate::protocol::{
    ControlAction, JobProfile, JobState, JobView, OutputEncoding, OutputStream,
};
use crate::scheduling::{Admission, Allocation, SchedulerView};
use crate::supervision::{
    builder_lock, deliveries, lemma_live_place, queued_jobs_are_taken,
    updating_a_command_keeps_order, DaemonView, DeliveryView, JobStepView, RunningView, Setup,
    Signal, TERMINATION_GRACE,
};
use crate::text::decimal;
use vstd::prelude::*;

verus! {

// ---------------------------------------------------------------------------
// Submissions
// ---------------------------------------------------------------------------

/// A job that has ended is never taken again.
pub proof fn ended_jobs_are_never_taken_again(
    daemon: DaemonView,
    submitter: Option<Seq<char>>,
    job: JobView,
    announce: bool,
)
    requires
        daemon.terminal.contains(job.id),
    ensures
        daemon.after_job(submitter, job) == daemon,
        daemon.job_steps(submitter, job, announce) == Seq::<JobStepView>::empty(),
{
}

/// Reading the same submission again changes nothing and is not answered, whatever was made of it
/// the first time.
pub proof fn resubmission_changes_nothing(
    daemon: DaemonView,
    submitter: Option<Seq<char>>,
    job: JobView,
    announce: bool,
)
    ensures
        ({
            let after = daemon.after_job(submitter, job);
            &&& after.after_job(submitter, job) == after
            &&& after.job_steps(submitter, job, announce) == Seq::<JobStepView>::empty()
        }),
{
    let after = daemon.after_job(submitter, job);
    if daemon.reply(submitter, job) is Queued {
        queued_jobs_are_taken(daemon, submitter, job);
        assert(after.scheduler.jobs.contains_key(job.id));
        assert(after.reply(submitter, job) is Known);
    }
}

/// A job for another runner is left alone.
pub proof fn other_runners_jobs_are_left_alone(
    daemon: DaemonView,
    submitter: Option<Seq<char>>,
    job: JobView,
    announce: bool,
)
    requires
        job.runner != daemon.setup.runner,
    ensures
        daemon.after_job(submitter, job) == daemon,
        daemon.job_steps(submitter, job, announce) == Seq::<JobStepView>::empty(),
{
}

/// Replaying a job restores the queue and its group without announcing it again: nothing but a
/// rejection is recorded.
pub proof fn replay_announces_no_job(
    daemon: DaemonView,
    submitter: Option<Seq<char>>,
    job: JobView,
    step: int,
)
    requires
        0 <= step < daemon.job_steps(submitter, job, false).len(),
        daemon.job_steps(submitter, job, false)[step] is Publish,
    ensures
        daemon.job_steps(submitter, job, false)[step]->notice.state == JobState::Rejected,
{
}

/// A job is put in line, and its group joined, whether it is announced or replayed.
pub proof fn accepted_jobs_join_their_group(
    daemon: DaemonView,
    submitter: Option<Seq<char>>,
    job: JobView,
    announce: bool,
)
    requires
        daemon.reply(submitter, job) is Queued,
    ensures
        daemon.after_job(submitter, job).scheduler.jobs.contains_key(job.id),
        daemon.job_steps(submitter, job, announce)[0] == (JobStepView::CreateGroup {
            name: job.group,
        }),
        daemon.job_steps(submitter, job, announce)[1] == (JobStepView::JoinGroup {
            name: job.group,
        }),
{
    queued_jobs_are_taken(daemon, submitter, job);
}

/// A job that asks for the whole host without being allowed to is turned down.
pub proof fn unauthorized_exclusivity_is_rejected(
    daemon: DaemonView,
    submitter: Option<Seq<char>>,
    job: JobView,
)
    requires
        job.runner == daemon.setup.runner,
        !daemon.terminal.contains(job.id),
        job.exclusive is Some,
        submitter is None || !works_for_some(submitter->Some_0, daemon.setup.allowed_projects)
            || !daemon.setup.allowed_profiles.contains(job.profile),
    ensures
        daemon.reply(submitter, job) is Rejected,
{
}

/// No job gets the whole host without asking for it.
pub proof fn exclusivity_is_never_implied(
    daemon: DaemonView,
    submitter: Option<Seq<char>>,
    job: JobView,
)
    requires
        daemon.reply(submitter, job) is Queued,
    ensures
        daemon.reply(submitter, job)->Queued_job.exclusive == job.exclusive,
{
}

/// A job that can never start within the limits is turned down, so that it does not block the
/// queue.
pub proof fn jobs_beyond_the_limits_are_rejected(
    daemon: DaemonView,
    submitter: Option<Seq<char>>,
    job: JobView,
)
    requires
        job.runner == daemon.setup.runner,
        !daemon.terminal.contains(job.id),
        !daemon.scheduler.jobs.contains_key(job.id),
        daemon.setup.limit_fault(daemon.setup.prepared(job)) is Some,
    ensures
        daemon.reply(submitter, job) is Rejected,
{
}

// ---------------------------------------------------------------------------
// What has ended stays ended, what runs goes on
// ---------------------------------------------------------------------------

/// No document and no event makes the runner forget that a job has ended.
pub proof fn ended_jobs_stay_ended(
    daemon: DaemonView,
    id: JobId,
    submitter: Option<Seq<char>>,
    job: JobView,
    other: JobId,
    action: ControlAction,
    event: JobEventView,
    line: BoardLineView,
    admission: Admission,
    now: u64,
)
    requires
        daemon.terminal.contains(id),
    ensures
        daemon.after_job(submitter, job).terminal.contains(id),
        daemon.after_control(other, action).terminal.contains(id),
        daemon.after_event(event).terminal.contains(id),
        daemon.heard(line).terminal.contains(id),
        daemon.after_admission(admission).terminal.contains(id),
        daemon.after_start(job, now).terminal.contains(id),
        daemon.after_check(now).terminal.contains(id),
        daemon.after_exit(other).terminal.contains(id),
{
}

/// No document touches a running job: what runs goes on with what was set aside for it.
pub proof fn documents_leave_running_jobs_alone(
    daemon: DaemonView,
    submitter: Option<Seq<char>>,
    job: JobView,
    id: JobId,
    action: ControlAction,
    event: JobEventView,
)
    ensures
        daemon.after_job(submitter, job).running == daemon.running,
        daemon.after_job(submitter, job).scheduler.running == daemon.scheduler.running,
        daemon.after_control(id, action).running == daemon.running,
        daemon.after_control(id, action).scheduler.running == daemon.scheduler.running,
        daemon.after_event(event).running == daemon.running,
        daemon.after_event(event).scheduler.running == daemon.scheduler.running,
{
}

/// A job that is cancelled while it waits is gone from the queue and has ended.
pub proof fn cancelling_is_final(daemon: DaemonView, id: JobId)
    requires
        daemon.wf(),
        daemon.scheduler.is_queued(id),
    ensures
        !daemon.after_control(id, ControlAction::Cancel).scheduler.jobs.contains_key(id),
        daemon.after_control(id, ControlAction::Cancel).terminal.contains(id),
{
}

/// A job whose command has ended is gone, its locks with it, and has ended.
pub proof fn ending_is_final(daemon: DaemonView, id: JobId)
    requires
        daemon.wf(),
        daemon.is_live(id),
    ensures
        !daemon.after_exit(id).scheduler.jobs.contains_key(id),
        daemon.after_exit(id).terminal.contains(id),
        !daemon.after_exit(id).is_live(id),
{
    let after = daemon.after_exit(id);
    let gone = daemon.live_place(id);
    if after.is_live(id) {
        let at = after.live_place(id);
        assert(after.running[at].job.id == id);
        let from = if at < gone { at } else { at + 1 };
        assert(after.running[at] == daemon.running[from]);
        assert(daemon.running[gone].job.id == id);
    }
}

/// No job's processes are killed that were not told to end ten seconds before.
pub proof fn killing_follows_a_warning(running: RunningView, now: u64)
    requires
        running.signal(now) == Signal::Kill,
    ensures
        running.termination is Some,
        now - running.termination->Some_0.sent_at >= TERMINATION_GRACE,
{
}

/// A job that has not run as long as it may is not told to end for its time.
pub proof fn jobs_get_their_time(running: RunningView, now: u64)
    requires
        running.signal(now) == Signal::Terminate,
    ensures
        running.termination is None,
        elapsed(running.started, now) >= running.job.timeout_seconds * 1_000_000_000,
{
}

// ---------------------------------------------------------------------------
// Shared resources
// ---------------------------------------------------------------------------

/// No two Docker builds run at the same time: each holds the runner's builder.
pub proof fn docker_builds_run_one_at_a_time(daemon: DaemonView, first: JobId, second: JobId)
    requires
        daemon.wf(),
        daemon.scheduler.is_running(first),
        daemon.scheduler.is_running(second),
        daemon.scheduler.jobs[first].job.profile == JobProfile::DockerBuild,
        daemon.scheduler.jobs[second].job.profile == JobProfile::DockerBuild,
    ensures
        first == second,
{
    lemma_running_is_taken(daemon, first);
    lemma_running_is_taken(daemon, second);
    let builder = daemon.setup.docker_builder->Some_0;
    running_jobs_share_no_lock(daemon.scheduler, first, second, builder_lock(builder));
}

proof fn lemma_running_is_taken(daemon: DaemonView, id: JobId)
    requires
        daemon.wf(),
        daemon.scheduler.is_running(id),
    ensures
        daemon.setup.takes(daemon.scheduler.jobs[id].job),
{
    let place = daemon.scheduler.running_place(id);
    assert(daemon.scheduler.running[place].id == id);
    assert(daemon.scheduler.jobs.contains_key(id));
}

/// No two Rust jobs that build into the same directory run at the same time.
pub proof fn target_directories_are_never_shared(daemon: DaemonView, first: JobId, second: JobId)
    requires
        daemon.wf(),
        daemon.scheduler.is_running(first),
        daemon.scheduler.is_running(second),
        daemon.scheduler.jobs[first].job.profile == JobProfile::Rust,
        daemon.scheduler.jobs[second].job.profile == JobProfile::Rust,
        daemon.scheduler.jobs[first].job.env["CARGO_TARGET_DIR"@]
            == daemon.scheduler.jobs[second].job.env["CARGO_TARGET_DIR"@],
    ensures
        first == second,
{
    lemma_running_is_taken(daemon, first);
    lemma_running_is_taken(daemon, second);
    let left = daemon.scheduler.jobs[first].job;
    let right = daemon.scheduler.jobs[second].job;
    let runner = daemon.setup.runner;
    let start = "/home/zcourts/projects/projects/build/"@ + runner + "/"@;
    let one = directory_name(left.cwd)->Some_0;
    let two = directory_name(right.cwd)->Some_0;
    assert(target_directory(runner, one) == start + one);
    assert(target_directory(runner, two) == start + two);
    assert((start + one).skip(start.len() as int) =~= one);
    assert((start + two).skip(start.len() as int) =~= two);
    running_jobs_share_no_lock(daemon.scheduler, first, second, target_lock(runner, one));
}

/// A Docker build is started as a plain `docker buildx build` that names no builder, and with the
/// runner's builder in its environment.
pub proof fn docker_builds_use_the_runners_builder(
    daemon: DaemonView,
    host: HostCapacity,
)
    requires
        daemon.wf(),
        daemon.admitted(daemon.scheduler.admission(daemon.setup.limits, host)) is Launch,
        daemon.admitted(
            daemon.scheduler.admission(daemon.setup.limits, host),
        )->launch.job.profile == JobProfile::DockerBuild,
    ensures
        ({
            let launch = daemon.admitted(
                daemon.scheduler.admission(daemon.setup.limits, host),
            )->launch;
            &&& daemon.setup.docker_builder is Some
            &&& launch.environment["BUILDX_BUILDER"@] == daemon.setup.docker_builder->Some_0
            &&& launch.job.argv.len() >= 3
            &&& launch.job.argv[0] == "docker"@
            &&& launch.job.argv[1] == "buildx"@
            &&& launch.job.argv[2] == "build"@
            &&& !some_chooses_builder(launch.job.argv)
        }),
{
    let admission = daemon.scheduler.admission(daemon.setup.limits, host);
    let place = admission->place;
    assert(daemon.scheduler.first_to_settle(daemon.setup.limits, host, place));
    assert(daemon.scheduler.jobs.contains_key(daemon.scheduler.queue[place]));
}

/// A Rust job is started with its compile slots in its environment, and asks Cargo for no more.
pub proof fn cargo_stays_within_its_slots(daemon: DaemonView, admission: Admission)
    requires
        daemon.admitted(admission) is Launch,
        daemon.admitted(admission)->launch.job.profile == JobProfile::Rust,
    ensures
        ({
            let launch = daemon.admitted(admission)->launch;
            &&& launch.environment["CARGO_BUILD_JOBS"@] == decimal(
                launch.allocation.compile_slots as nat,
            )
            &&& !asks_for_more(launch.job.argv, launch.allocation.compile_slots)
        }),
{
}

/// A Rust job that asks Cargo for more parallel jobs than it is given is turned down: it does not
/// start, and has ended.
pub proof fn greedy_cargo_jobs_are_rejected(
    daemon: DaemonView,
    host: HostCapacity,
    place: int,
    allocation: Allocation,
)
    requires
        daemon.wf(),
        daemon.scheduler.admission(daemon.setup.limits, host) == (Admission::Start {
            place,
            allocation,
        }),
        daemon.scheduler.jobs[daemon.scheduler.queue[place]].job.profile == JobProfile::Rust,
        asks_for_more(
            daemon.scheduler.jobs[daemon.scheduler.queue[place]].job.argv,
            allocation.compile_slots,
        ),
    ensures
        ({
            let admission = Admission::Start { place, allocation };
            let id = daemon.scheduler.queue[place];
            &&& daemon.admitted(admission) is Rejected
            &&& daemon.admitted(admission)->Rejected_notice.job == id
            &&& daemon.admitted(admission)->Rejected_notice.state == JobState::Rejected
            &&& daemon.after_admission(admission).terminal.contains(id)
            &&& !daemon.after_admission(admission).scheduler.jobs.contains_key(id)
        }),
{
    assert(daemon.scheduler.first_to_settle(daemon.setup.limits, host, place));
    assert(daemon.scheduler.jobs.contains_key(daemon.scheduler.queue[place]));
}

// ---------------------------------------------------------------------------
// The history and what comes live
// ---------------------------------------------------------------------------

/// The runner once the board has said all this.
pub open spec fn heard_over(daemon: DaemonView, lines: Seq<BoardLineView>) -> DaemonView
    decreases lines.len(),
{
    if lines.len() == 0 {
        daemon
    } else {
        heard_over(daemon, lines.drop_last()).heard(lines.last())
    }
}

/// The messages that are handled while the board says all this.
pub open spec fn handled_over(daemon: DaemonView, lines: Seq<BoardLineView>) -> Seq<DeliveryView>
    decreases lines.len(),
{
    if lines.len() == 0 {
        Seq::empty()
    } else {
        handled_over(daemon, lines.drop_last()) + heard_over(daemon, lines.drop_last()).handled(
            lines.last(),
        )
    }
}

/// The live messages among what the board says, in the order in which they come.
pub open spec fn live_messages(lines: Seq<BoardLineView>) -> Seq<ProtocolMessageView>
    decreases lines.len(),
{
    if lines.len() == 0 {
        Seq::empty()
    } else {
        match lines.last() {
            BoardLineView::Message(Some(message)) => live_messages(lines.drop_last()).push(message),
            _ => live_messages(lines.drop_last()),
        }
    }
}

proof fn lemma_live_messages_wait(daemon: DaemonView, lines: Seq<BoardLineView>)
    requires
        !daemon.history_replayed,
        forall|i: int| 0 <= i < lines.len() ==> !(#[trigger] lines[i] is History),
    ensures
        handled_over(daemon, lines) == Seq::<DeliveryView>::empty(),
        !heard_over(daemon, lines).history_replayed,
        heard_over(daemon, lines).pending == daemon.pending + live_messages(lines),
    decreases lines.len(),
{
    if lines.len() > 0 {
        assert forall|i: int| 0 <= i < lines.drop_last().len() implies !(
        #[trigger] lines.drop_last()[i] is History) by {
            assert(lines.drop_last()[i] == lines[i]);
        }
        lemma_live_messages_wait(daemon, lines.drop_last());
        assert(!(lines[lines.len() - 1] is History));
        assert(handled_over(daemon, lines) =~= Seq::<DeliveryView>::empty());
        assert(heard_over(daemon, lines).pending =~= daemon.pending + live_messages(lines));
    } else {
        assert(daemon.pending =~= daemon.pending + live_messages(lines));
    }
}

/// Live messages wait for the history: until it has been applied none is handled, and then they
/// follow it in the order in which they came. No new arrival jumps ahead of older work.
pub proof fn live_messages_wait_for_the_history(
    setup: Setup,
    lines: Seq<BoardLineView>,
    history: Seq<ProtocolMessageView>,
)
    requires
        forall|i: int| 0 <= i < lines.len() ==> !(#[trigger] lines[i] is History),
    ensures
        handled_over(DaemonView::initial(setup), lines) == Seq::<DeliveryView>::empty(),
        handled_over(DaemonView::initial(setup), lines.push(BoardLineView::History(history)))
            == deliveries(history, false) + deliveries(live_messages(lines), true),
        heard_over(
            DaemonView::initial(setup),
            lines.push(BoardLineView::History(history)),
        ).history_replayed,
{
    let daemon = DaemonView::initial(setup);
    let all = lines.push(BoardLineView::History(history));
    lemma_live_messages_wait(daemon, lines);
    assert(all.drop_last() =~= lines);
    assert(daemon.pending + live_messages(lines) =~= live_messages(lines));
    assert(handled_over(daemon, all) =~= deliveries(history, false) + deliveries(
        live_messages(lines),
        true,
    ));
}

/// The history is applied once, and what comes live after it is handled at once.
pub proof fn history_is_applied_once(
    daemon: DaemonView,
    history: Seq<ProtocolMessageView>,
    message: ProtocolMessageView,
)
    requires
        daemon.history_replayed,
    ensures
        daemon.handled(BoardLineView::History(history)) == Seq::<DeliveryView>::empty(),
        daemon.heard(BoardLineView::History(history)) == daemon,
        daemon.handled(BoardLineView::Message(Some(message))) == seq![
            DeliveryView { message, announce: true },
        ],
{
    assert(daemon.handled(BoardLineView::Message(Some(message))) =~= seq![
        DeliveryView { message, announce: true },
    ]);
}

/// Nothing but what the board says changes which messages wait.
pub proof fn handling_keeps_what_waits(
    daemon: DaemonView,
    submitter: Option<Seq<char>>,
    job: JobView,
    id: JobId,
    action: ControlAction,
    event: JobEventView,
    line: BoardLineView,
)
    ensures
        daemon.after_job(submitter, job).handled(line) == daemon.handled(line),
        daemon.after_control(id, action).handled(line) == daemon.handled(line),
        daemon.after_event(event).handled(line) == daemon.handled(line),
{
}

// ---------------------------------------------------------------------------
// A restart
// ---------------------------------------------------------------------------

/// A job as it was submitted.
pub struct Submission {
    pub submitter: Option<Seq<char>>,
    pub job: JobView,
}

/// The runner once it has read these records.
pub open spec fn after_events(daemon: DaemonView, events: Seq<JobEventView>) -> DaemonView
    decreases events.len(),
{
    if events.len() == 0 {
        daemon
    } else {
        after_events(daemon, events.drop_last()).after_event(events.last())
    }
}

/// The runner once it has handled these submissions.
pub open spec fn after_jobs(daemon: DaemonView, jobs: Seq<Submission>) -> DaemonView
    decreases jobs.len(),
{
    if jobs.len() == 0 {
        daemon
    } else {
        after_jobs(daemon, jobs.drop_last()).after_job(jobs.last().submitter, jobs.last().job)
    }
}

proof fn lemma_events_end_jobs(setup: Setup, events: Seq<JobEventView>, place: int)
    requires
        0 <= place < events.len(),
        events[place].runner == setup.runner,
        events[place].state.terminal(),
    ensures
        after_events(DaemonView::initial(setup), events).terminal.contains(events[place].job),
    decreases events.len(),
{
    lemma_events_keep_setup(setup, events.drop_last());
    if place < events.len() - 1 {
        lemma_events_end_jobs(setup, events.drop_last(), place);
    }
}

proof fn lemma_events_keep_setup(setup: Setup, events: Seq<JobEventView>)
    ensures
        after_events(DaemonView::initial(setup), events).setup == setup,
        after_events(DaemonView::initial(setup), events).scheduler == SchedulerView::empty(),
    decreases events.len(),
{
    if events.len() > 0 {
        lemma_events_keep_setup(setup, events.drop_last());
    }
}

proof fn lemma_ended_jobs_stay_out(daemon: DaemonView, jobs: Seq<Submission>, id: JobId)
    requires
        daemon.terminal.contains(id),
        !daemon.scheduler.jobs.contains_key(id),
    ensures
        after_jobs(daemon, jobs).terminal.contains(id),
        !after_jobs(daemon, jobs).scheduler.jobs.contains_key(id),
    decreases jobs.len(),
{
    if jobs.len() > 0 {
        lemma_ended_jobs_stay_out(daemon, jobs.drop_last(), id);
        let before = after_jobs(daemon, jobs.drop_last());
        let last = jobs.last();
        if before.reply(last.submitter, last.job) is Queued {
            queued_jobs_are_taken(before, last.submitter, last.job);
        }
    }
}

/// A job whose end is on record does not come back when a restarted runner replays the history,
/// whatever the history holds besides.
pub proof fn ended_jobs_do_not_come_back(
    setup: Setup,
    events: Seq<JobEventView>,
    jobs: Seq<Submission>,
    place: int,
)
    requires
        0 <= place < events.len(),
        events[place].runner == setup.runner,
        events[place].state.terminal(),
    ensures
        !after_jobs(
            after_events(DaemonView::initial(setup), events),
            jobs,
        ).scheduler.jobs.contains_key(events[place].job),
{
    lemma_events_end_jobs(setup, events, place);
    lemma_events_keep_setup(setup, events);
    lemma_ended_jobs_stay_out(
        after_events(DaemonView::initial(setup), events),
        jobs,
        events[place].job,
    );
}

proof fn lemma_known_jobs_stay(daemon: DaemonView, jobs: Seq<Submission>, count: int, id: JobId)
    requires
        0 <= count <= jobs.len(),
        after_jobs(daemon, jobs.take(count)).scheduler.jobs.contains_key(id),
    ensures
        after_jobs(daemon, jobs).scheduler.jobs.contains_key(id),
    decreases jobs.len() - count,
{
    if count < jobs.len() {
        assert(jobs.take(count + 1).drop_last() =~= jobs.take(count));
        lemma_known_jobs_stay(daemon, jobs, count + 1, id);
    } else {
        assert(jobs.take(count) =~= jobs);
    }
}

proof fn lemma_jobs_keep_setup(daemon: DaemonView, jobs: Seq<Submission>)
    ensures
        after_jobs(daemon, jobs).setup == daemon.setup,
    decreases jobs.len(),
{
    if jobs.len() > 0 {
        lemma_jobs_keep_setup(daemon, jobs.drop_last());
    }
}

/// A job that the runner takes and that has not ended when its turn in the replay comes is known
/// once the replay is done: a restart loses no queued job.
pub proof fn waiting_jobs_come_back(daemon: DaemonView, jobs: Seq<Submission>, place: int)
    requires
        0 <= place < jobs.len(),
        jobs[place].job.runner == daemon.setup.runner,
        daemon.setup.refusal(jobs[place].submitter, jobs[place].job) is None,
        daemon.setup.limit_fault(daemon.setup.prepared(jobs[place].job)) is None,
        !after_jobs(daemon, jobs.take(place)).terminal.contains(jobs[place].job.id),
    ensures
        after_jobs(daemon, jobs).scheduler.jobs.contains_key(jobs[place].job.id),
{
    let before = after_jobs(daemon, jobs.take(place));
    let item = jobs[place];
    lemma_jobs_keep_setup(daemon, jobs.take(place));
    assert(jobs.take(place + 1).drop_last() =~= jobs.take(place));
    assert(jobs.take(place + 1).last() == item);
    if before.reply(item.submitter, item.job) is Queued {
        queued_jobs_are_taken(before, item.submitter, item.job);
    }
    lemma_known_jobs_stay(daemon, jobs, place + 1, item.job.id);
}

// ---------------------------------------------------------------------------
// Output
// ---------------------------------------------------------------------------

/// One thing that happens to a running job.
pub enum CommandStep {
    /// The command wrote these bytes to a stream.
    Receive { stream: OutputStream, bytes: Seq<u8>, now: u64 },
    /// Both streams are published if they are due.
    Check { now: u64 },
    /// One of the streams was closed.
    CloseStream,
    /// The job was cancelled, and its processes in these groups were told to end.
    Cancel { process_groups: Set<i32>, now: u64 },
    /// The job ran too long, and its processes in these groups were told to end.
    TimeOut { process_groups: Set<i32>, now: u64 },
    /// Both streams are published, for the command has ended.
    End { now: u64 },
}

impl CommandStep {
    /// The job after this step.
    pub open spec fn apply(self, running: RunningView) -> RunningView {
        match self {
            CommandStep::Receive { stream, bytes, now } => running.received(stream, bytes, now),
            CommandStep::Check { now } => running.all_checked(now),
            CommandStep::CloseStream => running.stream_closed(),
            CommandStep::Cancel { process_groups, now } => running.cancelled(process_groups, now),
            CommandStep::TimeOut { process_groups, now } => running.timed_out(process_groups, now),
            CommandStep::End { now } => running.all_flushed(now),
        }
    }

    /// What is published in this step.
    pub open spec fn notices(self, running: RunningView) -> Seq<OutputNoticeView> {
        match self {
            CommandStep::Receive { stream, bytes, .. } => running.receive_notices(stream, bytes),
            CommandStep::Check { now } => running.all_check_notices(now),
            CommandStep::End { now } => running.all_flush_notices(now),
            _ => Seq::empty(),
        }
    }

    /// What the command wrote to the stream in this step.
    pub open spec fn written(self, to: OutputStream) -> Seq<u8> {
        match self {
            CommandStep::Receive { stream, bytes, .. } => if stream == to {
                bytes
            } else {
                Seq::empty()
            },
            _ => Seq::empty(),
        }
    }

    /// The bytes of the stream that are published in this step, piece by piece.
    pub open spec fn pieces(self, running: RunningView, of: OutputStream) -> Seq<Seq<u8>> {
        match self {
            CommandStep::Receive { stream, bytes, .. } => if stream == of && running.gathered(
                stream,
                bytes,
            ).buffer(stream).full() {
                seq![running.buffer(of).bytes + bytes]
            } else {
                Seq::empty()
            },
            CommandStep::Check { now } => if running.buffer(of).due(now) {
                seq![running.buffer(of).bytes]
            } else {
                Seq::empty()
            },
            CommandStep::End { .. } => if running.buffer(of).bytes.len() > 0 {
                seq![running.buffer(of).bytes]
            } else {
                Seq::empty()
            },
            _ => Seq::empty(),
        }
    }
}

/// The job after the steps.
pub open spec fn run_after(running: RunningView, steps: Seq<CommandStep>) -> RunningView
    decreases steps.len(),
{
    if steps.len() == 0 {
        running
    } else {
        steps.last().apply(run_after(running, steps.drop_last()))
    }
}

/// What is published in the steps.
pub open spec fn run_notices(running: RunningView, steps: Seq<CommandStep>) -> Seq<
    OutputNoticeView,
>
    decreases steps.len(),
{
    if steps.len() == 0 {
        Seq::empty()
    } else {
        run_notices(running, steps.drop_last()) + steps.last().notices(
            run_after(running, steps.drop_last()),
        )
    }
}

/// The bytes of the stream that are published in the steps, piece by piece.
pub open spec fn run_pieces(
    running: RunningView,
    steps: Seq<CommandStep>,
    stream: OutputStream,
) -> Seq<Seq<u8>>
    decreases steps.len(),
{
    if steps.len() == 0 {
        Seq::empty()
    } else {
        run_pieces(running, steps.drop_last(), stream) + steps.last().pieces(
            run_after(running, steps.drop_last()),
            stream,
        )
    }
}

/// What the command wrote to the stream in the steps.
pub open spec fn run_written(steps: Seq<CommandStep>, stream: OutputStream) -> Seq<u8>
    decreases steps.len(),
{
    if steps.len() == 0 {
        Seq::empty()
    } else {
        run_written(steps.drop_last(), stream) + steps.last().written(stream)
    }
}

/// The pieces put together.
pub open spec fn joined(pieces: Seq<Seq<u8>>) -> Seq<u8>
    decreases pieces.len(),
{
    if pieces.len() == 0 {
        Seq::empty()
    } else {
        joined(pieces.drop_last()) + pieces.last()
    }
}

/// How the pieces are written down.
pub open spec fn payloads(pieces: Seq<Seq<u8>>) -> Seq<(OutputEncoding, Seq<char>)> {
    Seq::new(pieces.len(), |i: int| payload(pieces[i]))
}

/// What the pieces of output of one stream say.
pub open spec fn told(notices: Seq<OutputNoticeView>, stream: OutputStream) -> Seq<
    (OutputEncoding, Seq<char>),
>
    decreases notices.len(),
{
    if notices.len() == 0 {
        Seq::empty()
    } else if notices.last().stream == stream {
        told(notices.drop_last(), stream).push((notices.last().encoding, notices.last().data))
    } else {
        told(notices.drop_last(), stream)
    }
}

/// The pieces of output of a job are numbered one after the other, whichever stream they come
/// from, so that a reader sees when one is missing.
pub proof fn outputs_are_numbered_consecutively(running: RunningView, steps: Seq<CommandStep>)
    requires
        running.sequence + 2 * steps.len() <= u64::MAX,
    ensures
        forall|i: int|
            0 <= i < run_notices(running, steps).len() ==> (#[trigger] run_notices(
                running,
                steps,
            )[i]).sequence == running.sequence + 1 + i,
        run_after(running, steps).sequence == running.sequence + run_notices(running, steps).len(),
        run_notices(running, steps).len() <= 2 * steps.len(),
    decreases steps.len(),
{
    if steps.len() > 0 {
        outputs_are_numbered_consecutively(running, steps.drop_last());
        let before = run_after(running, steps.drop_last());
        let earlier = run_notices(running, steps.drop_last());
        let last = steps.last().notices(before);
        assert(run_notices(running, steps) =~= earlier + last);
        assert(last.len() <= 2);
        assert(forall|i: int|
            0 <= i < last.len() ==> (#[trigger] last[i]).sequence == before.sequence + 1 + i);
    }
}

/// The record of a job's end tells the number of its last piece of output: how many there are.
pub proof fn final_record_counts_the_outputs(
    job: JobView,
    started: u64,
    steps: Seq<CommandStep>,
    success: bool,
    code: Option<i32>,
    now: u64,
)
    requires
        2 * steps.len() + 2 <= u64::MAX,
    ensures
        ({
            let fresh = RunningView::fresh(job, started);
            let all = steps.push(CommandStep::End { now });
            run_after(fresh, steps).final_notice(success, code, now).last_sequence == Some(
                run_notices(fresh, all).len() as u64,
            )
        }),
{
    let fresh = RunningView::fresh(job, started);
    let all = steps.push(CommandStep::End { now });
    assert(all.drop_last() =~= steps);
    outputs_are_numbered_consecutively(fresh, all);
}

proof fn lemma_told_apart(
    first: Seq<OutputNoticeView>,
    second: Seq<OutputNoticeView>,
    stream: OutputStream,
)
    ensures
        told(first + second, stream) == told(first, stream) + told(second, stream),
    decreases second.len(),
{
    if second.len() == 0 {
        assert(first + second =~= first);
        assert(told(first, stream) + told(second, stream) =~= told(first, stream));
    } else {
        assert((first + second).drop_last() =~= first + second.drop_last());
        lemma_told_apart(first, second.drop_last(), stream);
        assert(told(first + second, stream) =~= told(first, stream) + told(second, stream));
    }
}

proof fn lemma_joined_apart(first: Seq<Seq<u8>>, second: Seq<Seq<u8>>)
    ensures
        joined(first + second) == joined(first) + joined(second),
    decreases second.len(),
{
    if second.len() == 0 {
        assert(first + second =~= first);
        assert(joined(first) + joined(second) =~= joined(first));
    } else {
        assert((first + second).drop_last() =~= first + second.drop_last());
        lemma_joined_apart(first, second.drop_last());
        assert(joined(first + second) =~= joined(first) + joined(second));
    }
}

proof fn lemma_step_tells(step: CommandStep, running: RunningView, stream: OutputStream)
    ensures
        told(step.notices(running), stream) == payloads(step.pieces(running, stream)),
        joined(step.pieces(running, stream)) + step.apply(running).buffer(stream).bytes
            == running.buffer(stream).bytes + step.written(stream),
{
    reveal_with_fuel(told, 3);
    reveal_with_fuel(joined, 2);
    let notices = step.notices(running);
    let pieces = step.pieces(running, stream);
    assert(told(notices, stream) =~= payloads(pieces));
    assert(joined(pieces) + step.apply(running).buffer(stream).bytes =~= running.buffer(
        stream,
    ).bytes + step.written(stream));
}

/// Each stream is published whole and in order: the pieces of output tell pieces of it which, put
/// together and with what is still gathered behind them, are what the command wrote.
pub proof fn output_is_published_whole(
    running: RunningView,
    steps: Seq<CommandStep>,
    stream: OutputStream,
)
    ensures
        told(run_notices(running, steps), stream) == payloads(run_pieces(running, steps, stream)),
        joined(run_pieces(running, steps, stream)) + run_after(running, steps).buffer(stream).bytes
            == running.buffer(stream).bytes + run_written(steps, stream),
    decreases steps.len(),
{
    if steps.len() == 0 {
        assert(told(run_notices(running, steps), stream) =~= payloads(
            run_pieces(running, steps, stream),
        ));
        assert(joined(run_pieces(running, steps, stream)) + running.buffer(stream).bytes
            =~= running.buffer(stream).bytes + run_written(steps, stream));
    } else {
        let before = run_after(running, steps.drop_last());
        let earlier = run_pieces(running, steps.drop_last(), stream);
        let step = steps.last();
        let now = step.pieces(before, stream);
        output_is_published_whole(running, steps.drop_last(), stream);
        lemma_step_tells(step, before, stream);
        lemma_told_apart(
            run_notices(running, steps.drop_last()),
            step.notices(before),
            stream,
        );
        lemma_joined_apart(earlier, now);
        assert(told(run_notices(running, steps), stream) =~= payloads(
            run_pieces(running, steps, stream),
        ));
        let left = step.apply(before).buffer(stream).bytes;
        assert(joined(earlier) + joined(now) + left =~= joined(earlier) + (joined(now) + left));
        assert(joined(earlier) + (before.buffer(stream).bytes + step.written(stream)) =~= joined(
            earlier,
        ) + before.buffer(stream).bytes + step.written(stream));
        assert(running.buffer(stream).bytes + run_written(steps.drop_last(), stream)
            + step.written(stream) =~= running.buffer(stream).bytes + run_written(steps, stream));
    }
}

/// Once a job has ended, everything that it wrote has been published.
pub proof fn nothing_is_left_at_the_end(running: RunningView, now: u64, stream: OutputStream)
    ensures
        running.all_flushed(now).buffer(stream).bytes.len() == 0,
{
}

// ---------------------------------------------------------------------------
// How a job ends
// ---------------------------------------------------------------------------

/// Whether the job was cancelled in one of the steps.
pub open spec fn was_cancelled(steps: Seq<CommandStep>) -> bool {
    exists|i: int| 0 <= i < steps.len() && #[trigger] steps[i] is Cancel
}

/// Whether the job ran too long in one of the steps.
pub open spec fn was_timed_out(steps: Seq<CommandStep>) -> bool {
    exists|i: int| 0 <= i < steps.len() && #[trigger] steps[i] is TimeOut
}

/// The state that the job was told to end in, if it was told to end.
pub open spec fn told_state(running: RunningView) -> Option<JobState> {
    match running.termination {
        Some(termination) => Some(termination.state),
        None => None,
    }
}

proof fn lemma_told_state(job: JobView, started: u64, steps: Seq<CommandStep>)
    ensures
        told_state(run_after(RunningView::fresh(job, started), steps)) == if was_cancelled(steps) {
            Some(JobState::Cancelled)
        } else if was_timed_out(steps) {
            Some(JobState::Failed)
        } else {
            None
        },
        run_after(RunningView::fresh(job, started), steps).job == job,
    decreases steps.len(),
{
    if steps.len() > 0 {
        let shorter = steps.drop_last();
        lemma_told_state(job, started, shorter);
        assert(steps[steps.len() - 1] == steps.last());
        if was_cancelled(shorter) {
            let i = choose|i: int| 0 <= i < shorter.len() && #[trigger] shorter[i] is Cancel;
            assert(steps[i] is Cancel);
        }
        if was_timed_out(shorter) {
            let i = choose|i: int| 0 <= i < shorter.len() && #[trigger] shorter[i] is TimeOut;
            assert(steps[i] is TimeOut);
        }
        if was_cancelled(steps) && !(steps.last() is Cancel) {
            let i = choose|i: int| 0 <= i < steps.len() && #[trigger] steps[i] is Cancel;
            assert(shorter[i] is Cancel);
        }
        if was_timed_out(steps) && !(steps.last() is TimeOut) {
            let i = choose|i: int| 0 <= i < steps.len() && #[trigger] steps[i] is TimeOut;
            assert(shorter[i] is TimeOut);
        }
    }
}

/// The record of a job's end says how it ended: cancelled where it was cancelled while it ran, else
/// failed where it ran too long, else completed or failed as its command did.
pub proof fn final_record_tells_how_the_job_ended(
    job: JobView,
    started: u64,
    steps: Seq<CommandStep>,
    success: bool,
    code: Option<i32>,
    now: u64,
)
    ensures
        run_after(RunningView::fresh(job, started), steps).final_notice(success, code, now).state
            == if was_cancelled(steps) {
            JobState::Cancelled
        } else if was_timed_out(steps) {
            JobState::Failed
        } else if success {
            JobState::Completed
        } else {
            JobState::Failed
        },
        run_after(RunningView::fresh(job, started), steps).final_notice(success, code, now).job
            == job.id,
        run_after(
            RunningView::fresh(job, started),
            steps,
        ).final_notice(success, code, now).exit_code == code,
{
    lemma_told_state(job, started, steps);
}

/// A running job that is cancelled has yet to end, and ends cancelled, whatever its command's
/// status.
pub proof fn cancelled_jobs_end_cancelled(
    daemon: DaemonView,
    id: JobId,
    process_groups: Set<i32>,
    sent: u64,
    success: bool,
    code: Option<i32>,
    now: u64,
)
    requires
        daemon.wf(),
        daemon.is_live(id),
    ensures
        ({
            let after = daemon.with_live(id, daemon.live(id).cancelled(process_groups, sent));
            &&& after.is_live(id)
            &&& told_state(after.live(id)) == Some(JobState::Cancelled)
            &&& after.live(id).final_notice(success, code, now).state == JobState::Cancelled
        }),
{
    let place = daemon.live_place(id);
    let running = daemon.live(id).cancelled(process_groups, sent);
    let after = daemon.with_live(id, running);
    updating_a_command_keeps_order(daemon, id, running);
    assert(after.running[place] == running);
    lemma_live_place(after, place);
}

/// The record of a job's end is the record of an end.
pub proof fn ends_are_recorded_as_ends(
    daemon: DaemonView,
    id: JobId,
    success: bool,
    code: Option<i32>,
    now: u64,
)
    requires
        daemon.wf(),
        daemon.is_live(id),
    ensures
        daemon.live(id).final_notice(success, code, now).state.terminal(),
{
    assert(daemon.running[daemon.live_place(id)].end_is_settled());
}

} // verus!
