use std::collections::HashSet;
use zrunner::board::{read_line, BoardLine, ProtocolMessage};
use zrunner::capacity::{ConfigLimits, HostCapacity};
use zrunner::cli::Config;
use zrunner::clock::{MILLISECOND, SECOND};
use zrunner::daemon::{Admitted, ControlReply, Daemon, JobStep, Launch};
use zrunner::environment::Environment;
use zrunner::events::StateNotice;
use zrunner::ids::job_group;
use zrunner::policy::ExclusivePolicy;
use zrunner::process::ProcessStat;
use zrunner::protocol::{
    CompileSlots, Control, ControlAction, ExclusivityRequest, Job, JobEvent, JobProfile, JobState,
    OutputEncoding, OutputStream, ResourceRequest, Timestamp, CONTROL_SCHEMA, EVENT_SCHEMA,
    JOB_SCHEMA,
};
use zrunner::supervision::Signal;

fn no_limits() -> ConfigLimits {
    ConfigLimits {
        max_running_jobs: None,
        max_compile_slots: None,
        host_memory_reserve_mib: None,
        max_job_memory_mib: None,
        cpu_pressure_limit: None,
        memory_pressure_limit: None,
        io_pressure_limit: None,
    }
}

fn config(builder: Option<&str>) -> Config {
    Config {
        zboard: "zboard".to_owned(),
        board_root: "/board".to_owned(),
        runner: "debian1".to_owned(),
        docker_builder: builder.map(str::to_owned),
        exclusive: ExclusivePolicy {
            allowed_projects: vec!["infra".to_owned()],
            allowed_profiles: vec![JobProfile::DockerBuild],
        },
        limits: no_limits(),
    }
}

fn job(id: u128) -> Job {
    Job {
        schema: JOB_SCHEMA.to_owned(),
        id,
        runner: "debian1".to_owned(),
        group: job_group(id),
        project: None,
        cwd: "/tmp".to_owned(),
        argv: vec!["true".to_owned()],
        env: Environment::new(),
        priority: 0,
        profile: JobProfile::Generic,
        rust_codegen_backend: None,
        resources: ResourceRequest { compile_slots: CompileSlots::Exact(1), memory_mib: 512 },
        locks: Vec::new(),
        exclusive: None,
        timeout_seconds: 10,
        retry_on_runner_restart: 0,
        output_ttl_seconds: 60,
    }
}

fn docker_job(id: u128) -> Job {
    let mut job = job(id);
    job.profile = JobProfile::DockerBuild;
    job.argv = ["docker", "buildx", "build", "."].iter().map(|word| word.to_string()).collect();
    job
}

fn rust_job(id: u128) -> Job {
    let mut job = job(id);
    job.profile = JobProfile::Rust;
    job.cwd = "/w/worka".to_owned();
    job.argv = vec!["cargo".to_owned(), "test".to_owned()];
    job.env.insert(
        "CARGO_TARGET_DIR".to_owned(),
        "/home/zcourts/projects/projects/build/debian1/worka".to_owned(),
    );
    job.locks = vec!["cargo-target:debian1:worka".to_owned()];
    job
}

fn notice(job: u128, state: JobState, detail: Option<&str>) -> StateNotice {
    StateNotice {
        job,
        state,
        detail: detail.map(str::to_owned),
        exit_code: None,
        last_sequence: None,
    }
}

fn rejection(job: u128, detail: &str) -> Vec<JobStep> {
    vec![JobStep::Publish { notice: notice(job, JobState::Rejected, Some(detail)) }]
}

fn cancel(job: u128) -> Control {
    Control { schema: CONTROL_SCHEMA.to_owned(), job, action: ControlAction::Cancel }
}

fn set_priority(job: u128, priority: i32) -> Control {
    Control {
        schema: CONTROL_SCHEMA.to_owned(),
        job,
        action: ControlAction::SetPriority { priority },
    }
}

fn event(runner: &str, job: u128, state: JobState) -> JobEvent {
    JobEvent {
        schema: EVENT_SCHEMA.to_owned(),
        id: 1000,
        job,
        runner: runner.to_owned(),
        state,
        timestamp: Timestamp { seconds: 0, nanos: 0 },
        detail: None,
        exit_code: None,
        last_sequence: None,
    }
}

fn calm_host() -> HostCapacity {
    HostCapacity { available_memory_mib: 16_000, ..HostCapacity::default() }
}

fn launch(daemon: &mut Daemon) -> Launch {
    match daemon.start_next(&calm_host()) {
        Admitted::Launch { launch } => launch,
        other => panic!("{other:?}"),
    }
}

/// A runner whose job 1 has been running since the given moment.
fn running(since: u64) -> Daemon {
    let mut daemon = Daemon::new(config(None));
    daemon.handle_job(Some("worka-1"), job(1), false);
    let launch = launch(&mut daemon);
    daemon.job_started(launch, since);
    daemon
}

#[test]
fn accepted_jobs_are_announced_in_order() {
    let mut daemon = Daemon::new(config(None));
    assert_eq!(daemon.runner(), "debian1");
    assert_eq!(
        daemon.handle_job(Some("worka-1"), job(1), true),
        vec![
            JobStep::CreateGroup { name: job_group(1) },
            JobStep::JoinGroup { name: job_group(1) },
            JobStep::Publish { notice: notice(1, JobState::Accepted, None) },
            JobStep::Publish { notice: notice(1, JobState::Queued, None) },
        ]
    );
}

#[test]
fn replayed_jobs_are_not_announced() {
    let mut daemon = Daemon::new(config(None));
    assert_eq!(
        daemon.handle_job(Some("worka-1"), job(1), false),
        vec![
            JobStep::CreateGroup { name: job_group(1) },
            JobStep::JoinGroup { name: job_group(1) },
        ]
    );
    assert!(daemon.is_admission_due(0));
}

#[test]
fn resubmissions_are_not_answered() {
    let mut daemon = Daemon::new(config(None));
    daemon.handle_job(Some("worka-1"), job(1), true);
    assert_eq!(daemon.handle_job(Some("worka-1"), job(1), true), vec![]);
    assert_eq!(
        daemon.handle_job(None, job(2), true),
        rejection(2, "invalid job project: jobs require an attributable submitter")
    );
    assert_eq!(daemon.handle_job(None, job(2), true), vec![]);
    assert_eq!(daemon.handle_job(Some("worka-1"), job(2), true), vec![]);
}

#[test]
fn other_runners_jobs_are_ignored() {
    let mut daemon = Daemon::new(config(None));
    let mut foreign = job(1);
    foreign.runner = "mini".to_owned();
    assert_eq!(daemon.handle_job(Some("worka-1"), foreign, true), vec![]);
    assert!(!daemon.is_admission_due(0));
}

#[test]
fn faulty_jobs_are_rejected_in_words() {
    let mut daemon = Daemon::new(config(None));
    let mut exclusive = job(1);
    exclusive.exclusive = Some(ExclusivityRequest { reason: "x".to_owned() });
    assert_eq!(
        daemon.handle_job(Some("worka-1"), exclusive, true),
        rejection(1, "submitter worka-1 is not allowed to request host exclusivity")
    );
    assert_eq!(
        daemon.handle_job(Some("worka-1"), docker_job(2), true),
        rejection(2, "docker-build jobs are disabled on this runner")
    );
    let mut renamed = job(3);
    renamed.project = Some("other".to_owned());
    assert_eq!(
        daemon.handle_job(Some("worka-1"), renamed, true),
        rejection(3, "invalid job project: project does not match the submitter")
    );
    let mut lost = rust_job(4);
    lost.locks.clear();
    assert_eq!(
        daemon.handle_job(Some("worka-1"), lost, true),
        rejection(4, "invalid Rust build target: job must hold cargo-target:debian1:worka")
    );
    let mut endless = job(5);
    endless.timeout_seconds = 0;
    assert_eq!(
        daemon.handle_job(Some("worka-1"), endless, true),
        rejection(5, "invalid job: timeouts must be positive")
    );
    assert!(!daemon.is_admission_due(0));
}

#[test]
fn faulty_docker_builds_are_rejected_in_words() {
    let mut daemon = Daemon::new(config(Some("bounded")));
    let mut choosy = docker_job(1);
    choosy.argv.push("--builder=x".to_owned());
    assert_eq!(
        daemon.handle_job(Some("worka-1"), choosy, true),
        rejection(
            1,
            "invalid docker-build job: the runner selects the bounded BuildKit builder"
        )
    );
}

#[test]
fn jobs_beyond_the_limits_are_rejected_at_once() {
    let mut daemon = Daemon::new(config(None));
    let mut large = job(1);
    large.resources.memory_mib = 12_289;
    assert_eq!(
        daemon.handle_job(Some("worka-1"), large, true),
        rejection(
            1,
            "job 00000000000000000000000001 requests more memory than the host limit"
        )
    );
    let mut wide = job(2);
    wide.resources.compile_slots = CompileSlots::Exact(7);
    assert_eq!(
        daemon.handle_job(Some("worka-1"), wide, true),
        rejection(
            2,
            "job 00000000000000000000000002 requests more compile slots than the host limit"
        )
    );
    let mut brim = job(3);
    brim.resources =
        ResourceRequest { compile_slots: CompileSlots::Exact(6), memory_mib: 12_288 };
    assert_eq!(daemon.handle_job(Some("worka-1"), brim, false).len(), 2);
}

#[test]
fn docker_builds_share_the_builder_lock_and_get_the_builder() {
    let mut daemon = Daemon::new(config(Some("bounded")));
    daemon.handle_job(Some("worka-1"), docker_job(1), false);
    daemon.handle_job(Some("infra-1"), docker_job(2), false);
    daemon.handle_job(Some("infra-1"), job(3), false);
    let first = launch(&mut daemon);
    assert_eq!(first.job.id, 1);
    assert_eq!(first.job.locks, ["buildkit:bounded"]);
    assert_eq!(first.environment.get("BUILDX_BUILDER").map(String::as_str), Some("bounded"));
    daemon.job_started(first, 0);
    let second = launch(&mut daemon);
    assert_eq!(second.job.id, 3);
    assert_eq!(second.environment.variables().len(), 0);
}

#[test]
fn rust_jobs_get_their_slots_and_share_no_target() {
    let mut daemon = Daemon::new(config(None));
    let mut automatic = rust_job(1);
    automatic.resources = ResourceRequest::default();
    daemon.handle_job(Some("worka-1"), automatic, false);
    daemon.handle_job(Some("worka-1"), rust_job(2), false);
    let first = launch(&mut daemon);
    assert_eq!(first.allocation.compile_slots, 4);
    assert_eq!(first.environment.get("CARGO_BUILD_JOBS").map(String::as_str), Some("4"));
    assert_eq!(
        first.environment.get("CARGO_TARGET_DIR").map(String::as_str),
        Some("/home/zcourts/projects/projects/build/debian1/worka")
    );
    assert_eq!(
        daemon.job_started(first, 0),
        notice(1, JobState::Started, Some("compile_slots=4 memory_mib=512 exclusive=false"))
    );
    assert!(matches!(daemon.start_next(&calm_host()), Admitted::Nothing));
}

#[test]
fn greedy_cargo_jobs_are_rejected_at_their_turn() {
    let mut daemon = Daemon::new(config(None));
    let mut greedy = rust_job(1);
    greedy.argv.push("-j2".to_owned());
    daemon.handle_job(Some("worka-1"), greedy, false);
    match daemon.start_next(&calm_host()) {
        Admitted::Rejected { notice: found } => assert_eq!(
            found,
            notice(
                1,
                JobState::Rejected,
                Some("job requests more Cargo jobs than its allocation of 1")
            )
        ),
        other => panic!("{other:?}"),
    }
    assert_eq!(daemon.handle_job(Some("worka-1"), rust_job(1), true), vec![]);
    daemon.handle_job(Some("worka-1"), rust_job(2), false);
    assert_eq!(launch(&mut daemon).job.id, 2);
}

#[test]
fn allowed_exclusive_jobs_say_so_when_they_start() {
    let mut daemon = Daemon::new(config(Some("bounded")));
    let mut exclusive = docker_job(1);
    exclusive.exclusive = Some(ExclusivityRequest { reason: "calibration".to_owned() });
    daemon.handle_job(Some("infra-1"), exclusive, false);
    daemon.handle_job(Some("worka-1"), job(2), false);
    let first = launch(&mut daemon);
    assert_eq!(
        daemon.job_started(first, 0),
        notice(1, JobState::Started, Some("compile_slots=1 memory_mib=512 exclusive=true"))
    );
    assert!(matches!(daemon.start_next(&calm_host()), Admitted::Nothing));
}

#[test]
fn waiting_jobs_are_cancelled_for_good() {
    let mut daemon = Daemon::new(config(None));
    daemon.handle_job(Some("worka-1"), job(1), false);
    assert_eq!(
        daemon.handle_control(&cancel(1)),
        ControlReply::Cancelled {
            notice: notice(1, JobState::Cancelled, Some("cancelled while queued")),
        }
    );
    assert_eq!(daemon.handle_control(&cancel(1)), ControlReply::Ignored);
    assert_eq!(daemon.handle_job(Some("worka-1"), job(1), true), vec![]);
    assert!(!daemon.is_admission_due(0));
}

#[test]
fn running_jobs_are_told_to_end_when_cancelled() {
    let mut daemon = running(0);
    assert_eq!(daemon.handle_control(&cancel(1)), ControlReply::Terminate);
    assert_eq!(daemon.signal_due(1, SECOND), Signal::Leave);
    assert!(daemon.termination_groups(1).is_none());
    daemon.begin_cancellation(1, HashSet::from([71, 72]), SECOND);
    assert_eq!(daemon.termination_groups(1), Some(&HashSet::from([71, 72])));
    assert_eq!(daemon.signal_due(1, 11 * SECOND - 1), Signal::Leave);
    assert_eq!(daemon.signal_due(1, 11 * SECOND), Signal::Kill);
    let alive = vec![ProcessStat { pid: 9, state: 'S', parent: 1, group: 72 }];
    assert_eq!(daemon.job_exited(1, true, Some(0), &alive, 12 * SECOND), None);
    assert_eq!(daemon.running_ids(), [1]);
    let zombie = vec![ProcessStat { pid: 9, state: 'Z', parent: 1, group: 72 }];
    let exit = daemon.job_exited(1, true, Some(0), &zombie, 12 * SECOND).unwrap();
    assert_eq!(exit.notice.state, JobState::Cancelled);
    assert_eq!(exit.notice.exit_code, Some(0));
    assert_eq!(daemon.running_ids(), Vec::<u128>::new());
}

#[test]
fn priorities_change_only_while_a_job_waits() {
    let mut daemon = running(0);
    daemon.handle_job(Some("worka-1"), job(2), false);
    daemon.handle_job(Some("worka-1"), job(3), false);
    assert_eq!(daemon.handle_control(&set_priority(3, 5)), ControlReply::Reprioritized);
    assert_eq!(daemon.handle_control(&set_priority(1, 5)), ControlReply::Ignored);
    assert_eq!(daemon.handle_control(&set_priority(9, 5)), ControlReply::Ignored);
    assert_eq!(launch(&mut daemon).job.id, 3);
}

#[test]
fn recorded_ends_keep_jobs_from_coming_back() {
    let mut daemon = Daemon::new(config(None));
    daemon.handle_lifecycle(&event("debian1", 1, JobState::Completed));
    daemon.handle_lifecycle(&event("debian1", 2, JobState::Started));
    daemon.handle_lifecycle(&event("mini", 3, JobState::Completed));
    assert_eq!(daemon.handle_job(Some("worka-1"), job(1), false), vec![]);
    assert_eq!(daemon.handle_job(Some("worka-1"), job(2), false).len(), 2);
    assert_eq!(daemon.handle_job(Some("worka-1"), job(3), false).len(), 2);
    daemon.handle_lifecycle(&event("debian1", 2, JobState::Cancelled));
    assert_eq!(launch(&mut daemon).job.id, 3);
}

#[test]
fn live_messages_follow_the_history() {
    let mut daemon = Daemon::new(config(None));
    let message = |value: &str| ProtocolMessage { value: value.to_owned(), from: None };
    assert_eq!(daemon.handle_board(BoardLine::Message(Some(message("1")))), vec![]);
    assert_eq!(daemon.handle_board(BoardLine::Message(None)), vec![]);
    assert_eq!(daemon.handle_board(read_line(r#"{"type":"message","message":{"meta":2}}"#)), vec![]);
    let handled = daemon.handle_board(BoardLine::History(vec![message("3"), message("4")]));
    let found: Vec<(&str, bool)> =
        handled.iter().map(|item| (item.message.value.as_str(), item.announce)).collect();
    assert_eq!(found, [("3", false), ("4", false), ("1", true), ("2", true)]);
    assert_eq!(daemon.handle_board(BoardLine::History(vec![message("5")])), vec![]);
    let later = daemon.handle_board(BoardLine::Message(Some(message("6"))));
    assert_eq!(later.len(), 1);
    assert_eq!((later[0].message.value.as_str(), later[0].announce), ("6", true));
    assert_eq!(daemon.handle_board(BoardLine::Invalid), vec![]);
    assert_eq!(daemon.handle_board(BoardLine::Other), vec![]);
    assert_eq!(daemon.handle_board(BoardLine::Error("{}".to_owned())), vec![]);
}

#[test]
fn the_queue_is_looked_at_every_five_seconds() {
    let mut daemon = Daemon::new(config(None));
    assert!(!daemon.is_admission_due(0));
    daemon.handle_job(Some("worka-1"), job(1), false);
    assert!(daemon.is_admission_due(0));
    daemon.admission_made(SECOND);
    assert!(!daemon.is_admission_due(6 * SECOND - 1));
    assert!(daemon.is_admission_due(6 * SECOND));
}

#[test]
fn output_is_numbered_over_both_streams() {
    let mut daemon = running(0);
    assert!(daemon.has_numbers_left());
    assert_eq!(daemon.handle_output(1, OutputStream::Stdout, b"one".to_vec(), 1), Ok(None));
    assert_eq!(daemon.handle_output(1, OutputStream::Stderr, vec![0xff], 2), Ok(None));
    assert_eq!(daemon.flush_due(2 * SECOND - 1), vec![]);
    let due = daemon.flush_due(2 * SECOND);
    assert_eq!(due.len(), 2);
    assert_eq!((due[0].sequence, due[0].stream), (1, OutputStream::Stdout));
    assert_eq!((due[0].encoding, due[0].data.as_str()), (OutputEncoding::Utf8, "one"));
    assert_eq!(due[0].group, job_group(1));
    assert_eq!(due[0].ttl_seconds, 60);
    assert_eq!(due[0].summary, "job 00000000000000000000000001 Stdout output #1");
    assert_eq!((due[1].sequence, due[1].stream), (2, OutputStream::Stderr));
    assert_eq!((due[1].encoding, due[1].data.as_str()), (OutputEncoding::Base64, "/w=="));
    let full = daemon
        .handle_output(1, OutputStream::Stdout, vec![b'x'; 262_144], 3 * SECOND)
        .unwrap()
        .unwrap();
    assert_eq!((full.sequence, full.data.len()), (3, 262_144));
    daemon.handle_output(1, OutputStream::Stderr, b"end".to_vec(), 3 * SECOND).unwrap();
    daemon.stream_closed(1);
    daemon.stream_closed(1);
    daemon.stream_closed(1);
    let exit = daemon.job_exited(1, false, Some(101), &Vec::new(), 3_500 * MILLISECOND).unwrap();
    assert_eq!(exit.outputs.len(), 1);
    assert_eq!((exit.outputs[0].sequence, exit.outputs[0].data.as_str()), (4, "end"));
    assert_eq!(
        exit.notice,
        StateNotice {
            job: 1,
            state: JobState::Failed,
            detail: Some("elapsed_ms=3500".to_owned()),
            exit_code: Some(101),
            last_sequence: Some(4),
        }
    );
}

#[test]
fn output_of_unknown_jobs_is_an_error() {
    let mut daemon = running(0);
    assert_eq!(
        daemon.handle_output(2, OutputStream::Stdout, b"x".to_vec(), 1),
        Err("output for unknown job")
    );
    daemon.stream_closed(2);
    daemon.begin_timeout(2, HashSet::new(), 1);
    daemon.begin_cancellation(2, HashSet::new(), 1);
    assert_eq!(daemon.job_exited(2, true, Some(0), &Vec::new(), 1), None);
    assert_eq!(daemon.signal_due(2, u64::MAX), Signal::Leave);
}

#[test]
fn quiet_jobs_end_with_number_zero() {
    let mut daemon = running(7);
    let exit = daemon.job_exited(1, true, Some(0), &Vec::new(), 7).unwrap();
    assert_eq!(exit.outputs, vec![]);
    assert_eq!(
        exit.notice,
        StateNotice {
            job: 1,
            state: JobState::Completed,
            detail: Some("elapsed_ms=0".to_owned()),
            exit_code: Some(0),
            last_sequence: Some(0),
        }
    );
    assert_eq!(daemon.handle_job(Some("worka-1"), job(1), true), vec![]);
}

#[test]
fn jobs_that_run_too_long_are_told_to_end_once() {
    let mut daemon = running(0);
    assert_eq!(daemon.signal_due(1, 10 * SECOND - 1), Signal::Leave);
    assert_eq!(daemon.signal_due(1, 10 * SECOND), Signal::Terminate);
    daemon.begin_timeout(1, HashSet::from([5]), 10 * SECOND);
    assert_eq!(daemon.signal_due(1, 11 * SECOND), Signal::Leave);
    assert_eq!(daemon.signal_due(1, 20 * SECOND), Signal::Kill);
    let exit = daemon.job_exited(1, true, None, &Vec::new(), 21 * SECOND).unwrap();
    assert_eq!((exit.notice.state, exit.notice.exit_code), (JobState::Failed, None));
}

#[test]
fn rejections_of_a_running_job_tell_its_last_number() {
    let mut daemon = running(0);
    daemon.handle_output(1, OutputStream::Stdout, b"one".to_vec(), 0).unwrap();
    daemon.flush_due(2 * SECOND);
    let steps = daemon.handle_job(None, job(1), true);
    assert_eq!(
        steps,
        vec![JobStep::Publish {
            notice: StateNotice {
                last_sequence: Some(1),
                ..notice(
                    1,
                    JobState::Rejected,
                    Some("invalid job project: jobs require an attributable submitter")
                )
            },
        }]
    );
    assert_eq!(daemon.running_ids(), [1]);
}

#[test]
fn a_cancellation_outweighs_a_timeout_in_either_order() {
    let mut daemon = running(0);
    daemon.begin_cancellation(1, HashSet::from([5]), SECOND);
    daemon.begin_timeout(1, HashSet::from([6]), 2 * SECOND);
    assert_eq!(daemon.termination_groups(1), Some(&HashSet::from([5])));
    let exit = daemon.job_exited(1, true, Some(0), &Vec::new(), 3 * SECOND).unwrap();
    assert_eq!(exit.notice.state, JobState::Cancelled);

    let mut daemon = running(0);
    daemon.begin_timeout(1, HashSet::from([6]), 10 * SECOND);
    daemon.begin_cancellation(1, HashSet::from([5]), 11 * SECOND);
    assert_eq!(daemon.termination_groups(1), Some(&HashSet::from([5])));
    assert_eq!(daemon.signal_due(1, 20 * SECOND), Signal::Leave);
    assert_eq!(daemon.signal_due(1, 21 * SECOND), Signal::Kill);
    let exit = daemon.job_exited(1, false, Some(1), &Vec::new(), 21 * SECOND).unwrap();
    assert_eq!((exit.notice.state, exit.notice.exit_code), (JobState::Cancelled, Some(1)));
}
