//! What the runner makes of documents and jobs, said of the documents and the jobs themselves.

use crate::admission_laws::beyond_limits;
use crate::board::{BoardLineView, ProtocolMessageView};
use crate::cli::Config;
use crate::daemon::setup_of;
use crate::daemon_laws::{after_events, after_jobs, ended_jobs_do_not_come_back, Submission};
use crate::events::{JobEventView, StateNoticeView};
use crate::ids::{ulid_text, JobId};
use crate::laws::finishing_at_once_is_cancelling;
use crate::output::{output_of, BufferView};
use crate::policy::{docker_fault, exclusive_fault, parallelism_fault, project_of, target_fault};
use crate::policy_laws::{named_projects_bind, unnamed_projects_come_from_the_submitter};
use crate::process::{live_member, ProcessStat};
use crate::protocol::{ControlAction, JobProfile, JobState, JobView, OutputStream};
use crate::scheduling::{
    cancelling_keeps_order, enqueuing_keeps_order, lemma_line_places, Admission, Allocation,
    SchedulerView,
};
use crate::supervision::{
    due_notices, handling_a_job_keeps_order, handling_control_keeps_order, lemma_live_place,
    queued_jobs_are_taken, reading_an_event_keeps_order, setting_up_is_well_formed, started_detail,
    DaemonView, DeliveryView, JobStepView, RunningView, Setup,
};
use crate::text::{decimal, some_empty};
use vstd::prelude::*;

verus! {

// ---------------------------------------------------------------------------
// Submissions
// ---------------------------------------------------------------------------

/// A runner goes by what its configuration says.
pub proof fn the_setup_follows_the_configuration(config: Config)
    ensures
        setup_of(config).runner == config.runner@,
        config.docker_builder is None <==> setup_of(config).docker_builder is None,
        config.docker_builder matches Some(builder) ==> setup_of(config).docker_builder == Some(
            builder@,
        ),
        setup_of(config).allowed_projects.len() == config.exclusive.allowed_projects@.len(),
        forall|i: int|
            0 <= i < config.exclusive.allowed_projects@.len() ==> #[trigger] setup_of(
                config,
            ).allowed_projects[i] == config.exclusive.allowed_projects@[i]@,
        setup_of(config).allowed_profiles == config.exclusive.allowed_profiles@,
{
}

/// The runner adds its builder's lock to a Docker build, behind the job's own locks, and changes
/// nothing else of any job.
pub proof fn the_runner_adds_one_lock(setup: Setup, job: JobView)
    ensures
        ({
            let prepared = setup.prepared(job);
            &&& job.profile is DockerBuild && setup.docker_builder is Some ==> {
                &&& prepared.locks.len() == job.locks.len() + 1
                &&& prepared.locks.drop_last() == job.locks
                &&& prepared.locks.last() == "buildkit:"@ + setup.docker_builder->Some_0
            }
            &&& !(job.profile is DockerBuild) || setup.docker_builder is None ==> prepared.locks
                == job.locks
            &&& (JobView { locks: job.locks, ..prepared }) == job
        }),
{
    let prepared = setup.prepared(job);
    if job.profile is DockerBuild && setup.docker_builder is Some {
        assert(prepared.locks.drop_last() =~= job.locks);
    }
}

proof fn lemma_prepared_faults(setup: Setup, job: JobView)
    ensures
        setup.prepared(job).fault() == job.fault(),
        target_fault(setup.prepared(job)) == target_fault(job),
{
    let prepared = setup.prepared(job);
    the_runner_adds_one_lock(setup, job);
    reveal_strlit("buildkit:");
    if job.profile is DockerBuild && setup.docker_builder is Some {
        let last = job.locks.len() as int;
        assert(prepared.locks[last].len() > 0);
        assert forall|i: int| 0 <= i < job.locks.len() implies #[trigger] prepared.locks[i]
            == job.locks[i] by {
            assert(prepared.locks.drop_last()[i] == job.locks[i]);
        }
        assert(some_empty(prepared.locks) == some_empty(job.locks)) by {
            if some_empty(job.locks) {
                let i = choose|i: int|
                    0 <= i < job.locks.len() && (#[trigger] job.locks[i]).len() == 0;
                assert(prepared.locks[i].len() == 0);
            }
            if some_empty(prepared.locks) {
                let i = choose|i: int|
                    0 <= i < prepared.locks.len() && (#[trigger] prepared.locks[i]).len() == 0;
                assert(i != last);
                assert(job.locks[i].len() == 0);
            }
        }
    }
}

/// A job is refused if and only if it asks for the whole host and may not have it, is a Docker
/// build that the runner has no builder for or that it does not accept, counts for no project, does
/// not build where it should, or is not valid; the first of these is told.
pub proof fn which_jobs_are_refused(setup: Setup, submitter: Option<Seq<char>>, job: JobView)
    ensures
        ({
            let exclusive = exclusive_fault(
                setup.allowed_projects,
                setup.allowed_profiles,
                submitter,
                job,
            );
            let host = exclusive is None;
            let builder = job.profile is DockerBuild ==> setup.docker_builder is Some;
            let docker = job.profile is DockerBuild ==> docker_fault(job.argv) is None;
            let project = project_of(submitter, job) is Ok;
            let target = target_fault(job) is None;
            &&& setup.refusal(submitter, job) is None <==> host && builder && docker && project
                && target && job.valid()
            &&& !host ==> setup.refusal(submitter, job) == exclusive
            &&& host && !builder ==> setup.refusal(submitter, job) == Some(
                "docker-build jobs are disabled on this runner"@,
            )
            &&& host && builder && !docker ==> setup.refusal(submitter, job) == Some(
                "invalid docker-build job: "@ + docker_fault(job.argv)->0,
            )
            &&& host && builder && docker && !project ==> setup.refusal(submitter, job) == Some(
                "invalid job project: "@ + project_of(submitter, job)->Err_0,
            )
            &&& host && builder && docker && project && !target ==> setup.refusal(submitter, job)
                == Some("invalid Rust build target: "@ + target_fault(job)->0)
            &&& host && builder && docker && project && target && !job.valid() ==> setup.refusal(
                submitter,
                job,
            ) == Some("invalid job: "@ + job.fault()->0)
        }),
{
    lemma_prepared_faults(setup, job);
}

/// A valid job of a plain profile that does not ask for the whole host is not refused where its
/// submitter's name is its project, or begins with it and a dash, and neither is one that names no
/// project from a submitter whose name begins with anything but a dash.
pub proof fn plain_jobs_are_not_refused(
    setup: Setup,
    job: JobView,
    project: Seq<char>,
    rest: Seq<char>,
)
    requires
        job.profile is Generic || job.profile is IoHeavy,
        job.exclusive is None,
        job.valid(),
        project.len() > 0,
        job.project == Some(project) || (job.project is None && !project.contains('-')),
    ensures
        setup.refusal(Some(project), job) is None,
        setup.refusal(Some(project + "-"@ + rest), job) is None,
        project_of(Some(project), job) == Ok::<Seq<char>, Seq<char>>(project),
        project_of(Some(project + "-"@ + rest), job) == Ok::<Seq<char>, Seq<char>>(project),
{
    if job.project is None {
        unnamed_projects_come_from_the_submitter(job, project, rest);
    } else {
        named_projects_bind(job, project, project);
        assert(project_of(Some(project + "-"@ + rest), job) == Ok::<Seq<char>, Seq<char>>(
            project,
        ));
    }
    which_jobs_are_refused(setup, Some(project), job);
    which_jobs_are_refused(setup, Some(project + "-"@ + rest), job);
}

proof fn lemma_limit_fault(setup: Setup, job: JobView)
    ensures
        setup.limit_fault(setup.prepared(job)) is Some <==> beyond_limits(job, setup.limits),
{
    the_runner_adds_one_lock(setup, job);
}

/// A job for this runner that has not ended, that is not refused and that is within the limits
/// stands in line afterwards, for its project and with its locks; nothing else changes. Where it is
/// announced, its group is made and joined and two records say that it was accepted and queued;
/// where it is replayed, only the group is made and joined.
pub proof fn what_becomes_of_a_good_job(
    daemon: DaemonView,
    submitter: Option<Seq<char>>,
    job: JobView,
    project: Seq<char>,
)
    requires
        daemon.wf(),
        job.runner == daemon.setup.runner,
        !daemon.terminal.contains(job.id),
        !daemon.scheduler.jobs.contains_key(job.id),
        daemon.setup.refusal(submitter, job) is None,
        !beyond_limits(job, daemon.setup.limits),
        project_of(submitter, job) == Ok::<Seq<char>, Seq<char>>(project),
    ensures
        ({
            let after = daemon.after_job(submitter, job);
            let told = daemon.job_steps(submitter, job, true);
            let quiet = daemon.job_steps(submitter, job, false);
            &&& after.scheduler == daemon.scheduler.enqueued(daemon.setup.prepared(job), project)
            &&& after.scheduler.queue.contains(job.id)
            &&& after.scheduler.jobs[job.id].project == project
            &&& after == (DaemonView { scheduler: after.scheduler, ..daemon })
            &&& told.len() == 4
            &&& quiet.len() == 2
            &&& told[0] == (JobStepView::CreateGroup { name: job.group })
            &&& told[1] == (JobStepView::JoinGroup { name: job.group })
            &&& told[2] == (JobStepView::Publish {
                notice: StateNoticeView {
                    job: job.id,
                    state: JobState::Accepted,
                    detail: None,
                    exit_code: None,
                    last_sequence: None,
                },
            })
            &&& told[3] == (JobStepView::Publish {
                notice: StateNoticeView {
                    job: job.id,
                    state: JobState::Queued,
                    detail: None,
                    exit_code: None,
                    last_sequence: None,
                },
            })
            &&& quiet[0] == (JobStepView::CreateGroup { name: job.group })
            &&& quiet[1] == (JobStepView::JoinGroup { name: job.group })
        }),
{
    lemma_limit_fault(daemon.setup, job);
    lemma_unknown_is_not_live(daemon, job.id);
    assert(daemon.reply(submitter, job) is Queued);
    queued_jobs_are_taken(daemon, submitter, job);
    let prepared = daemon.setup.prepared(job);
    enqueuing_keeps_order(daemon.scheduler, prepared, project);
}

proof fn lemma_unknown_is_not_live(daemon: DaemonView, id: JobId)
    requires
        daemon.wf(),
        !daemon.scheduler.jobs.contains_key(id),
    ensures
        !daemon.is_live(id),
{
    if daemon.is_live(id) {
        let i = daemon.live_place(id);
        assert(daemon.running[i].job.id == id);
        assert(daemon.scheduler.is_running(id));
        let k = daemon.scheduler.running_place(id);
        assert(daemon.scheduler.running[k].id == id);
    }
}

/// A job for this runner that has not ended and is refused, or that is not known and is beyond the
/// limits, has ended afterwards; nothing else changes, and one record, announced or not, says that
/// it was rejected and why.
pub proof fn what_becomes_of_a_bad_job(
    daemon: DaemonView,
    submitter: Option<Seq<char>>,
    job: JobView,
    announce: bool,
)
    requires
        daemon.wf(),
        job.runner == daemon.setup.runner,
        !daemon.terminal.contains(job.id),
        daemon.setup.refusal(submitter, job) is Some || (!daemon.scheduler.jobs.contains_key(
            job.id,
        ) && beyond_limits(job, daemon.setup.limits)),
    ensures
        ({
            let after = daemon.after_job(submitter, job);
            let steps = daemon.job_steps(submitter, job, announce);
            let reason = match daemon.setup.refusal(submitter, job) {
                Some(detail) => detail,
                None => if job.resources.memory_mib > daemon.setup.limits.max_job_memory_mib || 512
                    > daemon.setup.limits.max_job_memory_mib {
                    "job "@ + ulid_text(job.id) + " requests more memory than the host limit"@
                } else {
                    "job "@ + ulid_text(job.id)
                        + " requests more compile slots than the host limit"@
                },
            };
            &&& after.terminal == daemon.terminal.insert(job.id)
            &&& after == (DaemonView { terminal: after.terminal, ..daemon })
            &&& steps.len() == 1
            &&& steps[0] is Publish
            &&& steps[0]->notice.job == job.id
            &&& steps[0]->notice.state is Rejected
            &&& steps[0]->notice.detail == Some(reason)
            &&& steps[0]->notice.exit_code is None
        }),
{
    lemma_limit_fault(daemon.setup, job);
    the_runner_adds_one_lock(daemon.setup, job);
}

/// A job for another runner, one that has ended, and one that is known and not refused leave the
/// runner as it is and unanswered.
pub proof fn what_becomes_of_other_jobs(
    daemon: DaemonView,
    submitter: Option<Seq<char>>,
    job: JobView,
    announce: bool,
)
    requires
        job.runner != daemon.setup.runner || daemon.terminal.contains(job.id) || (
        daemon.scheduler.jobs.contains_key(job.id) && daemon.setup.refusal(submitter, job) is None),
    ensures
        daemon.after_job(submitter, job) == daemon,
        daemon.job_steps(submitter, job, announce).len() == 0,
{
}

/// A record of the runner's holds the job, the state and the words that it is given, no exit
/// status, and the number of the last piece of output where the job's command runs.
pub proof fn what_a_record_holds(
    daemon: DaemonView,
    id: JobId,
    state: JobState,
    detail: Option<Seq<char>>,
)
    requires
        daemon.wf(),
    ensures
        daemon.notice(id, state, detail).job == id,
        daemon.notice(id, state, detail).state == state,
        daemon.notice(id, state, detail).detail == detail,
        daemon.notice(id, state, detail).exit_code is None,
        forall|i: int|
            0 <= i < daemon.running.len() && (#[trigger] daemon.running[i]).job.id == id
                ==> daemon.notice(id, state, detail).last_sequence == Some(
                daemon.running[i].sequence,
            ),
        (forall|i: int|
            0 <= i < daemon.running.len() ==> (#[trigger] daemon.running[i]).job.id != id)
            ==> daemon.notice(id, state, detail).last_sequence is None,
{
    assert forall|i: int|
        0 <= i < daemon.running.len() && (#[trigger] daemon.running[i]).job.id
            == id implies daemon.notice(id, state, detail).last_sequence == Some(
        daemon.running[i].sequence,
    ) by {
        lemma_live_place(daemon, i);
    }
}

// ---------------------------------------------------------------------------
// Control documents and recorded states
// ---------------------------------------------------------------------------

/// A waiting job that is cancelled leaves the line and has ended, and a record says that it was
/// cancelled while it waited; one whose command runs is to be told to end, and stays; any other
/// cancellation is ignored.
pub proof fn what_a_cancellation_does(daemon: DaemonView, id: JobId)
    requires
        daemon.wf(),
    ensures
        ({
            let waits = exists|i: int|
                0 <= i < daemon.scheduler.queue.len() && #[trigger] daemon.scheduler.queue[i] == id;
            let runs = exists|i: int|
                0 <= i < daemon.running.len() && (#[trigger] daemon.running[i]).job.id == id;
            let reply = daemon.control_reply(id, ControlAction::Cancel);
            let after = daemon.after_control(id, ControlAction::Cancel);
            &&& waits ==> {
                &&& reply is Cancelled
                &&& reply->notice.job == id
                &&& reply->notice.state is Cancelled
                &&& reply->notice.detail == Some("cancelled while queued"@)
                &&& reply->notice.exit_code is None
                &&& reply->notice.last_sequence is None
                &&& !after.scheduler.queue.contains(id)
                &&& after.scheduler.jobs == daemon.scheduler.jobs.remove(id)
                &&& after.scheduler.running == daemon.scheduler.running
                &&& after.terminal == daemon.terminal.insert(id)
                &&& after == (DaemonView {
                    scheduler: daemon.scheduler.without_queued(id),
                    terminal: after.terminal,
                    ..daemon
                })
            }
            &&& !waits ==> after == daemon
            &&& !waits && runs ==> reply is Terminate
            &&& !waits && !runs ==> reply is Ignored
        }),
{
    if daemon.scheduler.is_queued(id) {
        let at = daemon.scheduler.queue.index_of(id);
        assert(daemon.scheduler.queue[at] == id);
        lemma_line_places(daemon.scheduler, id);
        cancelling_keeps_order(daemon.scheduler, id);
        let after = daemon.scheduler.without_queued(id);
        if after.queue.contains(id) {
            let i = after.queue.index_of(id);
            assert(after.queue[i] == id);
            assert(after.jobs.contains_key(after.queue[i]));
        }
        if daemon.is_live(id) {
            let i = daemon.live_place(id);
            assert(daemon.running[i].job.id == id);
        }
    }
}

/// A change of priority puts a waiting job in line anew, with that priority, and leaves everything
/// else; any other is ignored. Neither is answered with a record.
pub proof fn what_a_change_of_priority_does(daemon: DaemonView, id: JobId, priority: i32)
    ensures
        ({
            let action = ControlAction::SetPriority { priority };
            let waits = exists|i: int|
                0 <= i < daemon.scheduler.queue.len() && #[trigger] daemon.scheduler.queue[i] == id;
            &&& waits ==> daemon.control_reply(id, action) is Reprioritized && daemon.after_control(
                id,
                action,
            ) == (DaemonView { scheduler: daemon.scheduler.reprioritized(id, priority), ..daemon })
            &&& !waits ==> daemon.control_reply(id, action) is Ignored && daemon.after_control(
                id,
                action,
            ) == daemon
        }),
{
    if daemon.scheduler.is_queued(id) {
        let at = daemon.scheduler.queue.index_of(id);
        assert(daemon.scheduler.queue[at] == id);
    }
}

/// The record of a state that does not end a job leaves the runner as it is, and so does the record
/// of another runner's job.
pub proof fn records_before_the_end_change_nothing(daemon: DaemonView, event: JobEventView)
    requires
        event.state is Accepted || event.state is Queued || event.state is Started
            || event.state is Interrupted || event.runner != daemon.setup.runner,
    ensures
        daemon.after_event(event) == daemon,
{
}

/// The record of the end of one of the runner's jobs, whichever of the four it is, takes that job
/// out of line and keeps it from coming back, and leaves everything else.
pub proof fn records_of_an_end_end_one_job(daemon: DaemonView, event: JobEventView)
    requires
        daemon.wf(),
        event.runner == daemon.setup.runner,
        event.state is Completed || event.state is Failed || event.state is Cancelled
            || event.state is Rejected,
    ensures
        ({
            let after = daemon.after_event(event);
            &&& after.terminal == daemon.terminal.insert(event.job)
            &&& !after.scheduler.queue.contains(event.job)
            &&& after.scheduler.running == daemon.scheduler.running
            &&& forall|id: JobId|
                id != event.job ==> (#[trigger] after.scheduler.jobs.contains_key(id)
                    <==> daemon.scheduler.jobs.contains_key(id))
            &&& forall|id: JobId|
                id != event.job ==> #[trigger] after.scheduler.jobs[id]
                    == daemon.scheduler.jobs[id]
            &&& after == (DaemonView {
                scheduler: after.scheduler,
                terminal: after.terminal,
                ..daemon
            })
        }),
{
    what_a_cancellation_does(daemon, event.job);
    if daemon.scheduler.is_queued(event.job) {
        let at = daemon.scheduler.queue.index_of(event.job);
        assert(daemon.scheduler.queue[at] == event.job);
        assert(daemon.after_event(event).scheduler == daemon.after_control(
            event.job,
            ControlAction::Cancel,
        ).scheduler);
    }
}

// ---------------------------------------------------------------------------
// A restart
// ---------------------------------------------------------------------------

/// A control document.
pub struct Request {
    pub job: JobId,
    pub action: ControlAction,
}

/// The runner once it has handled these control documents.
pub open spec fn after_controls(daemon: DaemonView, controls: Seq<Request>) -> DaemonView
    decreases controls.len(),
{
    if controls.len() == 0 {
        daemon
    } else {
        after_controls(daemon, controls.drop_last()).after_control(
            controls.last().job,
            controls.last().action,
        )
    }
}

/// The priority that the last of the control documents for the job gives it, or the one it had.
pub open spec fn last_priority(controls: Seq<Request>, id: JobId, before: i32) -> i32
    decreases controls.len(),
{
    if controls.len() == 0 {
        before
    } else {
        match controls.last().action {
            ControlAction::SetPriority { priority } => if controls.last().job == id {
                priority
            } else {
                last_priority(controls.drop_last(), id, before)
            },
            _ => last_priority(controls.drop_last(), id, before),
        }
    }
}

/// Whether the record says that a job of the runner has completed, failed, or been cancelled or
/// rejected.
pub open spec fn tells_an_end(event: JobEventView, runner: Seq<char>, id: JobId) -> bool {
    &&& event.runner == runner
    &&& event.job == id
    &&& event.state is Completed || event.state is Failed || event.state is Cancelled
        || event.state is Rejected
}

proof fn lemma_after_events(setup: Setup, events: Seq<JobEventView>, id: JobId)
    ensures
        after_events(DaemonView::initial(setup), events).wf(),
        after_events(DaemonView::initial(setup), events).setup == setup,
        after_events(DaemonView::initial(setup), events).scheduler == SchedulerView::empty(),
        after_events(DaemonView::initial(setup), events).terminal.contains(id) <==> exists|i: int|
            0 <= i < events.len() && tells_an_end(#[trigger] events[i], setup.runner, id),
    decreases events.len(),
{
    setting_up_is_well_formed(setup);
    if events.len() > 0 {
        let shorter = events.drop_last();
        let before = after_events(DaemonView::initial(setup), shorter);
        lemma_after_events(setup, shorter, id);
        reading_an_event_keeps_order(before, events.last());
        let last = events.len() - 1;
        assert(events[last] == events.last());
        if before.terminal.contains(id) {
            let i = choose|i: int|
                0 <= i < shorter.len() && tells_an_end(#[trigger] shorter[i], setup.runner, id);
            assert(tells_an_end(events[i], setup.runner, id));
        }
        if tells_an_end(events.last(), setup.runner, id) {
            assert(tells_an_end(events[last], setup.runner, id));
        }
        if exists|i: int|
            0 <= i < events.len() && tells_an_end(#[trigger] events[i], setup.runner, id) {
            let i = choose|i: int|
                0 <= i < events.len() && tells_an_end(#[trigger] events[i], setup.runner, id);
            if i < last {
                assert(tells_an_end(shorter[i], setup.runner, id));
            }
        }
    }
}

proof fn lemma_after_jobs(daemon: DaemonView, jobs: Seq<Submission>)
    requires
        daemon.wf(),
    ensures
        after_jobs(daemon, jobs).wf(),
        after_jobs(daemon, jobs).setup == daemon.setup,
        after_jobs(daemon, jobs).scheduler.running == daemon.scheduler.running,
    decreases jobs.len(),
{
    if jobs.len() > 0 {
        lemma_after_jobs(daemon, jobs.drop_last());
        handling_a_job_keeps_order(
            after_jobs(daemon, jobs.drop_last()),
            jobs.last().submitter,
            jobs.last().job,
        );
    }
}

proof fn lemma_others_do_not_end_it(daemon: DaemonView, jobs: Seq<Submission>, id: JobId)
    requires
        !daemon.terminal.contains(id),
        !daemon.scheduler.jobs.contains_key(id),
        forall|i: int|
            0 <= i < jobs.len() && (#[trigger] jobs[i]).job.id == id ==> jobs[i].job.runner
                != daemon.setup.runner,
    ensures
        !after_jobs(daemon, jobs).terminal.contains(id),
        !after_jobs(daemon, jobs).scheduler.jobs.contains_key(id),
        after_jobs(daemon, jobs).setup == daemon.setup,
    decreases jobs.len(),
{
    if jobs.len() > 0 {
        let shorter = jobs.drop_last();
        assert forall|i: int|
            0 <= i < shorter.len() && (#[trigger] shorter[i]).job.id
                == id implies shorter[i].job.runner != daemon.setup.runner by {
            assert(shorter[i] == jobs[i]);
        }
        lemma_others_do_not_end_it(daemon, shorter, id);
        let before = after_jobs(daemon, shorter);
        let last = jobs.last();
        assert(jobs[jobs.len() - 1] == last);
        if before.reply(last.submitter, last.job) is Queued {
            queued_jobs_are_taken(before, last.submitter, last.job);
        }
    }
}

proof fn lemma_known_as_it_is(daemon: DaemonView, jobs: Seq<Submission>, count: int, id: JobId)
    requires
        0 <= count <= jobs.len(),
        after_jobs(daemon, jobs.take(count)).scheduler.jobs.contains_key(id),
    ensures
        after_jobs(daemon, jobs).scheduler.jobs.contains_key(id),
        after_jobs(daemon, jobs).scheduler.jobs[id] == after_jobs(
            daemon,
            jobs.take(count),
        ).scheduler.jobs[id],
    decreases jobs.len() - count,
{
    if count < jobs.len() {
        let before = after_jobs(daemon, jobs.take(count));
        let item = jobs[count];
        assert(jobs.take(count + 1).drop_last() =~= jobs.take(count));
        assert(jobs.take(count + 1).last() == item);
        if before.reply(item.submitter, item.job) is Queued {
            queued_jobs_are_taken(before, item.submitter, item.job);
        }
        lemma_known_as_it_is(daemon, jobs, count + 1, id);
    } else {
        assert(jobs.take(count) =~= jobs);
    }
}

proof fn lemma_controls_keep_it(daemon: DaemonView, controls: Seq<Request>, id: JobId)
    requires
        daemon.wf(),
        daemon.scheduler.queue.contains(id),
        forall|i: int|
            0 <= i < controls.len() && (#[trigger] controls[i]).job == id ==> !(
            controls[i].action is Cancel),
    ensures
        ({
            let after = after_controls(daemon, controls);
            &&& after.wf()
            &&& after.scheduler.running == daemon.scheduler.running
            &&& after.scheduler.queue.contains(id)
            &&& after.scheduler.jobs[id].project == daemon.scheduler.jobs[id].project
            &&& after.scheduler.jobs[id].job == (JobView {
                priority: last_priority(controls, id, daemon.scheduler.jobs[id].job.priority),
                ..daemon.scheduler.jobs[id].job
            })
        }),
    decreases controls.len(),
{
    lemma_line_places(daemon.scheduler, id);
    if controls.len() > 0 {
        let shorter = controls.drop_last();
        assert forall|i: int|
            0 <= i < shorter.len() && (#[trigger] shorter[i]).job == id implies !(
        shorter[i].action is Cancel) by {
            assert(shorter[i] == controls[i]);
        }
        lemma_controls_keep_it(daemon, shorter, id);
        let before = after_controls(daemon, shorter);
        let last = controls.last();
        assert(controls[controls.len() - 1] == last);
        handling_control_keeps_order(before, last.job, last.action);
        let after = before.after_control(last.job, last.action);
        lemma_line_places(before.scheduler, id);
        if before.scheduler.is_queued(last.job) {
            lemma_line_places(before.scheduler, last.job);
            assert(before.scheduler.jobs[last.job].job.id == last.job);
        }
        assert(after.scheduler.jobs.contains_key(id));
        if after.scheduler.is_running(id) {
            let k = after.scheduler.running_place(id);
            assert(before.scheduler.running[k].id == id);
        }
    }
}

/// A restart loses no job. A job of this runner that is not refused and is within the limits waits
/// once the history has been replayed to a fresh runner, for its project and as it was submitted
/// but for the priority, which is the last one that it was given, unless the history holds the
/// record of its end, an earlier submission to this runner under its identifier, or its
/// cancellation.
pub proof fn restarts_lose_no_job(
    setup: Setup,
    events: Seq<JobEventView>,
    jobs: Seq<Submission>,
    controls: Seq<Request>,
    place: int,
    project: Seq<char>,
)
    requires
        0 <= place < jobs.len(),
        jobs[place].job.runner == setup.runner,
        setup.refusal(jobs[place].submitter, jobs[place].job) is None,
        !beyond_limits(jobs[place].job, setup.limits),
        project_of(jobs[place].submitter, jobs[place].job) == Ok::<Seq<char>, Seq<char>>(project),
        forall|i: int|
            0 <= i < events.len() && (#[trigger] events[i]).runner == setup.runner && events[i].job
                == jobs[place].job.id ==> events[i].state is Accepted || events[i].state is Queued
                || events[i].state is Started || events[i].state is Interrupted,
        forall|i: int|
            0 <= i < place && (#[trigger] jobs[i]).job.id == jobs[place].job.id
                ==> jobs[i].job.runner != setup.runner,
        forall|i: int|
            0 <= i < controls.len() && (#[trigger] controls[i]).job == jobs[place].job.id ==> !(
            controls[i].action is Cancel),
    ensures
        ({
            let id = jobs[place].job.id;
            let fresh = DaemonView::initial(setup);
            let after = after_controls(after_jobs(after_events(fresh, events), jobs), controls);
            &&& after.scheduler.queue.contains(id)
            &&& after.scheduler.jobs[id].project == project
            &&& after.scheduler.jobs[id].job == (JobView {
                priority: last_priority(controls, id, jobs[place].job.priority),
                ..setup.prepared(jobs[place].job)
            })
        }),
{
    let item = jobs[place];
    let id = item.job.id;
    let read = after_events(DaemonView::initial(setup), events);
    lemma_after_events(setup, events, id);
    if read.terminal.contains(id) {
        let i = choose|i: int|
            0 <= i < events.len() && tells_an_end(#[trigger] events[i], setup.runner, id);
        assert(false);
    }
    let earlier = jobs.take(place);
    assert forall|i: int|
        0 <= i < earlier.len() && (#[trigger] earlier[i]).job.id == id implies earlier[i].job.runner
        != read.setup.runner by {
        assert(earlier[i] == jobs[i]);
    }
    lemma_others_do_not_end_it(read, earlier, id);
    lemma_after_jobs(read, earlier);
    let before = after_jobs(read, earlier);
    what_becomes_of_a_good_job(before, item.submitter, item.job, project);
    the_runner_adds_one_lock(setup, item.job);
    assert(jobs.take(place + 1).drop_last() =~= earlier);
    assert(jobs.take(place + 1).last() == item);
    let then = before.after_job(item.submitter, item.job);
    assert(after_jobs(read, jobs.take(place + 1)) == then);
    assert(then.scheduler.jobs[id].job == setup.prepared(item.job));
    lemma_known_as_it_is(read, jobs, place + 1, id);
    lemma_after_jobs(read, jobs);
    let done = after_jobs(read, jobs);
    if done.scheduler.is_running(id) {
        let k = done.scheduler.running_place(id);
        assert(done.scheduler.running[k].id == id);
        assert(done.scheduler.running.len() == 0);
    }
    assert(done.scheduler.is_queued(id));
    lemma_controls_keep_it(done, controls, id);
}

/// A restart brings no ended job back: one whose end is on record, as completed, failed, cancelled
/// or rejected, is not known once the history has been replayed to a fresh runner.
pub proof fn restarts_bring_no_ended_job_back(
    setup: Setup,
    events: Seq<JobEventView>,
    jobs: Seq<Submission>,
    place: int,
)
    requires
        0 <= place < events.len(),
        events[place].runner == setup.runner,
        events[place].state is Completed || events[place].state is Failed
            || events[place].state is Cancelled || events[place].state is Rejected,
    ensures
        !after_jobs(
            after_events(DaemonView::initial(setup), events),
            jobs,
        ).scheduler.jobs.contains_key(events[place].job),
{
    ended_jobs_do_not_come_back(setup, events, jobs, place);
}

// ---------------------------------------------------------------------------
// Lines from the board
// ---------------------------------------------------------------------------

/// Until the history has come, a live message is put behind those that wait and nothing is handled;
/// once it has, a live message is handled at once and announced. The history is handled once, in
/// its order and unannounced, with what waited behind it. Nothing else that the board says is
/// handled, nor does it change the runner.
pub proof fn what_is_handled_when(
    daemon: DaemonView,
    message: ProtocolMessageView,
    history: Seq<ProtocolMessageView>,
    report: Seq<char>,
)
    ensures
        ({
            let live = BoardLineView::Message(Some(message));
            let past = BoardLineView::History(history);
            let waiting = daemon.pending;
            &&& !daemon.history_replayed ==> {
                &&& daemon.handled(live).len() == 0
                &&& daemon.heard(live).pending == waiting.push(message)
                &&& !daemon.heard(live).history_replayed
                &&& daemon.handled(past).len() == history.len() + waiting.len()
                &&& forall|i: int|
                    0 <= i < history.len() ==> #[trigger] daemon.handled(past)[i] == (
                    DeliveryView { message: history[i], announce: false })
                &&& forall|i: int|
                    0 <= i < waiting.len() ==> daemon.handled(past)[history.len() + i] == (
                    DeliveryView { message: #[trigger] waiting[i], announce: true })
                &&& daemon.heard(past).history_replayed
                &&& daemon.heard(past).pending.len() == 0
                &&& daemon.heard(live) == (DaemonView {
                    pending: daemon.heard(live).pending,
                    ..daemon
                })
                &&& daemon.heard(past) == (DaemonView {
                    pending: Seq::empty(),
                    history_replayed: true,
                    ..daemon
                })
            }
            &&& daemon.history_replayed ==> {
                &&& daemon.handled(live).len() == 1
                &&& daemon.handled(live)[0] == (DeliveryView { message, announce: true })
                &&& daemon.heard(live) == daemon
                &&& daemon.handled(past).len() == 0
                &&& daemon.heard(past) == daemon
            }
            &&& daemon.handled(BoardLineView::Message(None)).len() == 0
            &&& daemon.heard(BoardLineView::Message(None)) == daemon
            &&& daemon.handled(BoardLineView::Error(report)).len() == 0
            &&& daemon.heard(BoardLineView::Error(report)) == daemon
            &&& daemon.handled(BoardLineView::Invalid).len() == 0
            &&& daemon.heard(BoardLineView::Invalid) == daemon
            &&& daemon.handled(BoardLineView::Other).len() == 0
            &&& daemon.heard(BoardLineView::Other) == daemon
        }),
{
}

// ---------------------------------------------------------------------------
// Starting jobs
// ---------------------------------------------------------------------------

/// It is time to look at the queue if and only if a job waits, and nobody has looked yet or five
/// seconds have gone by since.
pub proof fn when_the_queue_is_looked_at(daemon: DaemonView, now: u64)
    ensures
        daemon.admission_due(now) <==> daemon.scheduler.queue.len() > 0 && (
        daemon.last_admission is None || now - daemon.last_admission->0 >= 5_000_000_000),
{
}

/// A command is started with each variable of its job at its value and with nothing else, but for
/// the one variable that the runner sets itself: the number of compile slots for Cargo in a Rust
/// job, and the runner's builder in a Docker build.
pub proof fn what_a_command_finds_in_its_environment(
    setup: Setup,
    job: JobView,
    allocation: Allocation,
    name: Seq<char>,
)
    ensures
        ({
            let environment = setup.command_environment(job, allocation);
            let own = match job.profile {
                JobProfile::Rust => name == "CARGO_BUILD_JOBS"@,
                JobProfile::DockerBuild => name == "BUILDX_BUILDER"@ && setup.docker_builder is Some,
                JobProfile::Generic => false,
                JobProfile::IoHeavy => false,
            };
            &&& !own ==> (environment.contains_key(name) <==> job.env.contains_key(name))
            &&& !own && job.env.contains_key(name) ==> environment[name] == job.env[name]
            &&& own ==> environment.contains_key(name)
            &&& own && job.profile is Rust ==> environment[name] == decimal(
                allocation.compile_slots as nat,
            )
            &&& own && job.profile is DockerBuild ==> environment[name]
                == setup.docker_builder->Some_0
        }),
{
}

/// The job that the queue chooses is started as it stands there, with what was set aside for it and
/// with its environment, unless it asks Cargo for more parallel jobs than it has slots: then it is
/// rejected, has ended, and frees what was set aside. Where the queue chooses nothing, nothing
/// happens.
pub proof fn what_a_look_at_the_queue_does(
    daemon: DaemonView,
    place: int,
    allocation: Allocation,
)
    requires
        daemon.wf(),
        0 <= place < daemon.scheduler.queue.len(),
    ensures
        ({
            let chosen = Admission::Start { place, allocation };
            let id = daemon.scheduler.queue[place];
            let job = daemon.scheduler.jobs[id].job;
            let fault = parallelism_fault(job, allocation.compile_slots);
            let admitted = daemon.admitted(chosen);
            let after = daemon.after_admission(chosen);
            &&& fault is None ==> {
                &&& admitted is Launch
                &&& admitted->launch.job == job
                &&& admitted->launch.allocation == allocation
                &&& admitted->launch.environment == daemon.setup.command_environment(
                    job,
                    allocation,
                )
                &&& after == (DaemonView {
                    scheduler: daemon.scheduler.started(place, allocation),
                    ..daemon
                })
            }
            &&& fault is Some ==> {
                &&& admitted is Rejected
                &&& admitted->Rejected_notice.job == id
                &&& admitted->Rejected_notice.state is Rejected
                &&& admitted->Rejected_notice.detail == fault
                &&& after.terminal == daemon.terminal.insert(id)
                &&& after.scheduler == daemon.scheduler.without_queued(id)
                &&& after == (DaemonView {
                    scheduler: after.scheduler,
                    terminal: after.terminal,
                    ..daemon
                })
            }
            &&& daemon.admitted(Admission::Idle) is Nothing
            &&& daemon.after_admission(Admission::Idle) == daemon
        }),
{
    let id = daemon.scheduler.queue[place];
    assert(daemon.scheduler.is_queued(id));
    lemma_line_places(daemon.scheduler, id);
    assert(daemon.scheduler.jobs[id].job.id == id);
    finishing_at_once_is_cancelling(daemon.scheduler, place, allocation);
}

/// A command that has just started has two open streams, nothing gathered, nothing published and
/// its whole time before it; the others go on as they are. The record of the start says what was
/// set aside and whether the job has the whole host.
pub proof fn what_a_start_does(
    daemon: DaemonView,
    job: JobView,
    allocation: Allocation,
    now: u64,
)
    ensures
        ({
            let after = daemon.after_start(job, now);
            let fresh = after.running.last();
            &&& after.running.len() == daemon.running.len() + 1
            &&& after.running.drop_last() == daemon.running
            &&& after == (DaemonView { running: after.running, ..daemon })
            &&& fresh.job == job
            &&& fresh.started == now
            &&& fresh.sequence == 0
            &&& fresh.streams_open == 2
            &&& fresh.termination is None
            &&& fresh.stdout.bytes.len() == 0 && fresh.stdout.last_flush == now
            &&& fresh.stderr.bytes.len() == 0 && fresh.stderr.last_flush == now
            &&& job.exclusive is Some ==> started_detail(job, allocation) == "compile_slots="@
                + decimal(allocation.compile_slots as nat) + " memory_mib="@ + decimal(
                allocation.memory_mib as nat,
            ) + " exclusive="@ + "true"@
            &&& job.exclusive is None ==> started_detail(job, allocation) == "compile_slots="@
                + decimal(allocation.compile_slots as nat) + " memory_mib="@ + decimal(
                allocation.memory_mib as nat,
            ) + " exclusive="@ + "false"@
        }),
{
    assert(daemon.after_start(job, now).running.drop_last() =~= daemon.running);
}

// ---------------------------------------------------------------------------
// Running jobs
// ---------------------------------------------------------------------------

/// A stream is published at once if and only if 256 KiB have been gathered, and is due if and only
/// if it has gathered something and two seconds have gone by since it was last published.
pub proof fn when_a_stream_is_published(buffer: BufferView, now: u64)
    ensures
        buffer.full() <==> buffer.bytes.len() >= 262144,
        buffer.due(now) <==> buffer.bytes.len() > 0 && now - buffer.last_flush >= 2_000_000_000,
{
}

/// What a command writes to a stream is gathered behind what is there. Where that makes 256 KiB, all
/// of it is published as one piece and the stream is empty from this moment on; else nothing is
/// published. The other stream and everything else stay.
pub proof fn what_happens_to_written_bytes(
    running: RunningView,
    stream: OutputStream,
    bytes: Seq<u8>,
    now: u64,
)
    requires
        running.sequence < u64::MAX,
    ensures
        ({
            let after = running.received(stream, bytes, now);
            let notices = running.receive_notices(stream, bytes);
            let (mine, yours, mine_before, yours_before) = match stream {
                OutputStream::Stdout => (
                    after.stdout,
                    after.stderr,
                    running.stdout,
                    running.stderr,
                ),
                OutputStream::Stderr => (
                    after.stderr,
                    after.stdout,
                    running.stderr,
                    running.stdout,
                ),
            };
            &&& yours == yours_before
            &&& mine_before.bytes.len() + bytes.len() >= 262144 ==> {
                &&& notices.len() == 1
                &&& notices[0] == output_of(
                    running.job,
                    stream,
                    (running.sequence + 1) as u64,
                    mine_before.bytes + bytes,
                )
                &&& mine.bytes.len() == 0
                &&& mine.last_flush == now
                &&& after.sequence == running.sequence + 1
            }
            &&& mine_before.bytes.len() + bytes.len() < 262144 ==> {
                &&& notices.len() == 0
                &&& mine.bytes == mine_before.bytes + bytes
                &&& mine.last_flush == mine_before.last_flush
                &&& after.sequence == running.sequence
            }
            &&& after.job == running.job && after.started == running.started && after.streams_open
                == running.streams_open && after.termination == running.termination
        }),
{
}

/// A look at a running job publishes each stream that is due, and no other: a stream that has
/// gathered something and was last published two seconds ago or earlier is empty from this moment
/// on, any other is as it was, and each piece takes the next number.
pub proof fn what_a_look_at_the_streams_does(running: RunningView, now: u64)
    requires
        running.sequence <= u64::MAX - 2,
    ensures
        ({
            let after = running.all_checked(now);
            let notices = running.all_check_notices(now);
            let out = running.stdout.bytes.len() > 0 && now - running.stdout.last_flush
                >= 2_000_000_000;
            let err = running.stderr.bytes.len() > 0 && now - running.stderr.last_flush
                >= 2_000_000_000;
            &&& !out ==> after.stdout == running.stdout
            &&& !err ==> after.stderr == running.stderr
            &&& out ==> after.stdout.bytes.len() == 0 && after.stdout.last_flush == now
            &&& err ==> after.stderr.bytes.len() == 0 && after.stderr.last_flush == now
            &&& notices.len() == (if out {
                1int
            } else {
                0int
            }) + (if err {
                1int
            } else {
                0int
            })
            &&& out ==> notices[0] == output_of(
                running.job,
                OutputStream::Stdout,
                (running.sequence + 1) as u64,
                running.stdout.bytes,
            )
            &&& err ==> notices.last() == output_of(
                running.job,
                OutputStream::Stderr,
                (running.sequence + notices.len()) as u64,
                running.stderr.bytes,
            )
            &&& after.sequence == running.sequence + notices.len()
            &&& after.job == running.job && after.started == running.started && after.streams_open
                == running.streams_open && after.termination == running.termination
        }),
{
}

/// What a look at several jobs publishes is what it publishes of each, one behind the other.
pub proof fn what_a_look_at_all_jobs_publishes(
    running: Seq<RunningView>,
    more: RunningView,
    now: u64,
)
    ensures
        due_notices(Seq::empty(), now).len() == 0,
        due_notices(running.push(more), now) == due_notices(running, now) + more.all_check_notices(
            now,
        ),
{
    assert(running.push(more).drop_last() =~= running);
}

/// At its end whatever a job has gathered is published, the standard output first.
pub proof fn what_is_published_at_the_end(running: RunningView, now: u64)
    requires
        running.sequence <= u64::MAX - 2,
    ensures
        ({
            let notices = running.all_flush_notices(now);
            let out = running.stdout.bytes.len() > 0;
            let err = running.stderr.bytes.len() > 0;
            &&& notices.len() == (if out {
                1int
            } else {
                0int
            }) + (if err {
                1int
            } else {
                0int
            })
            &&& out ==> notices[0] == output_of(
                running.job,
                OutputStream::Stdout,
                (running.sequence + 1) as u64,
                running.stdout.bytes,
            )
            &&& err ==> notices.last() == output_of(
                running.job,
                OutputStream::Stderr,
                (running.sequence + notices.len()) as u64,
                running.stderr.bytes,
            )
        }),
{
}

/// A closed stream is one stream fewer, and changes nothing else.
pub proof fn what_a_closed_stream_does(running: RunningView)
    ensures
        running.streams_open > 0 ==> running.stream_closed().streams_open == running.streams_open
            - 1,
        running.streams_open == 0 ==> running.stream_closed() == running,
        (RunningView { streams_open: running.streams_open, ..running.stream_closed() }) == running,
{
}

/// A job that was not told to end is told to once it has run for its time, and not before; one that
/// was is killed ten seconds later, and not before.
pub proof fn when_processes_are_signalled(running: RunningView, now: u64)
    ensures
        running.signal(now) is Terminate <==> running.termination is None && (if now
            >= running.started {
            now - running.started
        } else {
            0
        }) >= running.job.timeout_seconds * 1_000_000_000,
        running.signal(now) is Kill <==> running.termination is Some && now
            - running.termination->0.sent_at >= 10_000_000_000,
{
}

/// A cancelled job is on record as told to end, to end cancelled, from this moment and in these
/// groups, whatever it was told before; one that ran too long is, to end failed, unless it was told
/// to end before. Nothing else changes.
pub proof fn what_telling_a_job_to_end_does(
    running: RunningView,
    groups: Set<i32>,
    now: u64,
)
    ensures
        ({
            let cancelled = running.cancelled(groups, now);
            let timed_out = running.timed_out(groups, now);
            &&& cancelled.termination is Some
            &&& cancelled.termination->0.state is Cancelled
            &&& cancelled.termination->0.sent_at == now
            &&& cancelled.termination->0.process_groups == groups
            &&& (RunningView { termination: running.termination, ..cancelled }) == running
            &&& running.termination is Some ==> timed_out == running
            &&& running.termination is None ==> {
                &&& timed_out.termination is Some
                &&& timed_out.termination->0.state is Failed
                &&& timed_out.termination->0.sent_at == now
                &&& timed_out.termination->0.process_groups == groups
                &&& (RunningView { termination: None, ..timed_out }) == running
            }
        }),
{
}

/// A job that was told to end does not end while a process of one of its groups is there that is no
/// zombie, whatever else its state is.
pub proof fn no_end_while_a_process_is_there(
    running: RunningView,
    processes: Seq<ProcessStat>,
    place: int,
)
    requires
        running.termination is Some,
        0 <= place < processes.len(),
        running.termination->0.process_groups.contains(processes[place].group),
        processes[place].state != 'Z',
    ensures
        running.lingers(processes),
{
    assert(live_member(running.termination->0.process_groups, processes));
}

/// A job that was not told to end, and one in whose groups there are zombies only, is not kept from
/// ending.
pub proof fn zombies_do_not_delay_the_end(running: RunningView, processes: Seq<ProcessStat>)
    requires
        running.termination matches Some(termination) ==> (forall|i: int|
            0 <= i < processes.len() && termination.process_groups.contains(
                (#[trigger] processes[i]).group,
            ) ==> processes[i].state == 'Z'),
    ensures
        !running.lingers(processes),
{
}

/// The record of a job's end holds its identifier, the exit status, how long it ran in whole
/// milliseconds, and the number of its last piece of output, what is published at the end counted
/// in.
pub proof fn what_the_last_record_holds(
    running: RunningView,
    success: bool,
    code: Option<i32>,
    now: u64,
)
    requires
        running.sequence <= u64::MAX - 2,
        running.started <= now,
    ensures
        ({
            let notice = running.final_notice(success, code, now);
            &&& notice.job == running.job.id
            &&& notice.exit_code == code
            &&& notice.detail == Some(
                "elapsed_ms="@ + decimal(((now - running.started) / 1_000_000) as nat),
            )
            &&& notice.last_sequence == Some(
                (running.sequence + running.all_flush_notices(now).len()) as u64,
            )
            &&& running.termination is None && success ==> notice.state is Completed
            &&& running.termination is None && !success ==> notice.state is Failed
            &&& running.termination is Some ==> notice.state == running.termination->0.state
        }),
{
}

/// The end of a command takes its job away from those that run and from the queue's books, puts it
/// with those that have ended, and leaves everything else.
pub proof fn what_an_end_does(daemon: DaemonView, place: int)
    requires
        daemon.wf(),
        0 <= place < daemon.running.len(),
    ensures
        ({
            let id = daemon.running[place].job.id;
            let after = daemon.after_exit(id);
            &&& after.running == daemon.running.take(place) + daemon.running.skip(place + 1)
            &&& after.terminal == daemon.terminal.insert(id)
            &&& after.scheduler == daemon.scheduler.finished(id)
            &&& after == (DaemonView {
                running: after.running,
                terminal: after.terminal,
                scheduler: after.scheduler,
                ..daemon
            })
        }),
{
    lemma_live_place(daemon, place);
    let id = daemon.running[place].job.id;
    assert(daemon.after_exit(id).running =~= daemon.running.take(place) + daemon.running.skip(
        place + 1,
    ));
}

/// What is noted of one running job leaves all others, and everything else, as they are.
pub proof fn what_is_noted_of_one_job_concerns_no_other(
    daemon: DaemonView,
    place: int,
    running: RunningView,
    now: u64,
)
    requires
        daemon.wf(),
        0 <= place < daemon.running.len(),
    ensures
        ({
            let id = daemon.running[place].job.id;
            let after = daemon.with_live(id, running);
            &&& daemon.live(id) == daemon.running[place]
            &&& after.running.len() == daemon.running.len()
            &&& after.running[place] == running
            &&& forall|i: int|
                0 <= i < daemon.running.len() && i != place ==> #[trigger] after.running[i]
                    == daemon.running[i]
            &&& after == (DaemonView { running: after.running, ..daemon })
            &&& daemon.after_check(now).running.len() == daemon.running.len()
            &&& daemon.after_check(now).running[place] == daemon.running[place].all_checked(now)
            &&& daemon.after_check(now) == (DaemonView {
                running: daemon.after_check(now).running,
                ..daemon
            })
        }),
{
    lemma_live_place(daemon, place);
}

/// A runner that has just been set up knows no job, has read no history and holds nothing back.
pub proof fn a_new_runner_knows_nothing(setup: Setup)
    ensures
        ({
            let fresh = DaemonView::initial(setup);
            &&& fresh.setup == setup
            &&& fresh.scheduler.jobs.dom() == Set::<JobId>::empty()
            &&& fresh.scheduler.queue.len() == 0
            &&& fresh.scheduler.running.len() == 0
            &&& fresh.running.len() == 0
            &&& fresh.terminal == Set::<JobId>::empty()
            &&& !fresh.history_replayed
            &&& fresh.pending.len() == 0
            &&& fresh.last_admission is None
        }),
{
    assert(DaemonView::initial(setup).scheduler.jobs.dom() =~= Set::<JobId>::empty());
}

} // verus!
