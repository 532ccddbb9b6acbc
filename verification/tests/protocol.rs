use ulid::Ulid;
use zrunner::environment::Environment;
use zrunner::ids::job_group;
use zrunner::protocol::{
    default_output_ttl, default_timeout, CompileSlots, Control, ControlAction, ExclusivityRequest,
    Job, JobEvent, JobOutput, JobProfile, JobState, OutputEncoding, OutputStream, ResourceRequest,
    RustCodegenBackend, Timestamp, JOB_SCHEMA,
};

#[test]
fn rejects_empty_command() {
    let id = Ulid::new();
    let job = Job {
        schema: JOB_SCHEMA.to_owned(),
        id: id.0,
        runner: "debian1".to_owned(),
        group: format!("job-{}", id.to_string().to_ascii_lowercase()),
        project: None,
        cwd: "/tmp".to_owned(),
        argv: Vec::new(),
        env: Environment::new(),
        priority: 0,
        profile: JobProfile::Rust,
        rust_codegen_backend: None,
        resources: ResourceRequest::default(),
        locks: Vec::new(),
        exclusive: None,
        timeout_seconds: 1,
        retry_on_runner_restart: 0,
        output_ttl_seconds: 1,
    };
    assert_eq!(job.validate(), Err("argv must contain a program"));
}

#[test]
fn rejects_a_group_that_does_not_match_the_job_id() {
    let mut job = Job {
        schema: JOB_SCHEMA.to_owned(),
        id: Ulid::new().0,
        runner: "debian1".to_owned(),
        group: "job-wrong".to_owned(),
        project: None,
        cwd: "/tmp".to_owned(),
        argv: vec!["true".to_owned()],
        env: Environment::new(),
        priority: 0,
        profile: JobProfile::Generic,
        rust_codegen_backend: None,
        resources: ResourceRequest::default(),
        locks: Vec::new(),
        exclusive: None,
        timeout_seconds: 1,
        retry_on_runner_restart: 0,
        output_ttl_seconds: 1,
    };
    let expected = format!("job-{}", Ulid(job.id).to_string().to_ascii_lowercase());
    assert_eq!(job.validate(), Err("group must be job-<lowercase job ULID>"));
    job.group = expected;
    assert_eq!(job.validate(), Ok(()));
}

#[test]
fn rust_codegen_override_requires_the_rust_profile() {
    let id = Ulid::new();
    let job = Job {
        schema: JOB_SCHEMA.to_owned(),
        id: id.0,
        runner: "debian1".to_owned(),
        group: format!("job-{}", id.to_string().to_ascii_lowercase()),
        project: None,
        cwd: "/tmp".to_owned(),
        argv: vec!["true".to_owned()],
        env: Environment::new(),
        priority: 0,
        profile: JobProfile::Generic,
        rust_codegen_backend: Some(RustCodegenBackend::Llvm),
        resources: ResourceRequest::default(),
        locks: Vec::new(),
        exclusive: None,
        timeout_seconds: 1,
        retry_on_runner_restart: 0,
        output_ttl_seconds: 1,
    };
    assert_eq!(job.validate(), Err("rust_codegen_backend requires the rust profile"));
}

fn valid_job() -> Job {
    Job {
        schema: JOB_SCHEMA.to_owned(),
        id: 7,
        runner: "debian1".to_owned(),
        group: job_group(7),
        project: Some("worka".to_owned()),
        cwd: "/tmp".to_owned(),
        argv: vec!["true".to_owned()],
        env: Environment::new(),
        priority: 0,
        profile: JobProfile::Rust,
        rust_codegen_backend: Some(RustCodegenBackend::Cranelift),
        resources: ResourceRequest::default(),
        locks: vec!["device".to_owned()],
        exclusive: Some(ExclusivityRequest { reason: "calibration".to_owned() }),
        timeout_seconds: 1,
        retry_on_runner_restart: 0,
        output_ttl_seconds: 1,
    }
}

#[test]
fn every_fault_is_named() {
    assert_eq!(valid_job().validate(), Ok(()));
    let mut job = valid_job();
    job.schema = "zrunner.job.v2".to_owned();
    assert_eq!(job.validate(), Err("unsupported job schema"));
    let mut job = valid_job();
    job.runner = String::new();
    assert_eq!(job.validate(), Err("runner, group, and cwd are required"));
    let mut job = valid_job();
    job.group = String::new();
    assert_eq!(job.validate(), Err("runner, group, and cwd are required"));
    let mut job = valid_job();
    job.cwd = String::new();
    assert_eq!(job.validate(), Err("runner, group, and cwd are required"));
    let mut job = valid_job();
    job.project = Some(" \u{2003}\t".to_owned());
    assert_eq!(job.validate(), Err("project must not be empty"));
    let mut job = valid_job();
    job.argv = vec![String::new(), "x".to_owned()];
    assert_eq!(job.validate(), Err("argv must contain a program"));
    let mut job = valid_job();
    job.timeout_seconds = 0;
    assert_eq!(job.validate(), Err("timeouts must be positive"));
    let mut job = valid_job();
    job.output_ttl_seconds = 0;
    assert_eq!(job.validate(), Err("timeouts must be positive"));
    let mut job = valid_job();
    job.resources.compile_slots = CompileSlots::Auto("many".to_owned());
    assert_eq!(job.validate(), Err("compile_slots string must be auto"));
    let mut job = valid_job();
    job.locks.push(String::new());
    assert_eq!(job.validate(), Err("locks must not be empty"));
    let mut job = valid_job();
    job.exclusive = Some(ExclusivityRequest { reason: "  ".to_owned() });
    assert_eq!(job.validate(), Err("exclusive jobs require a reason"));
}

#[test]
fn the_first_of_several_faults_is_named() {
    let mut job = valid_job();
    job.argv.clear();
    job.timeout_seconds = 0;
    job.group = "job-other".to_owned();
    assert_eq!(job.validate(), Err("group must be job-<lowercase job ULID>"));
}

#[test]
fn ended_states_are_terminal() {
    for state in [JobState::Completed, JobState::Failed, JobState::Cancelled, JobState::Rejected] {
        assert!(state.is_terminal());
    }
    for state in [JobState::Accepted, JobState::Queued, JobState::Started, JobState::Interrupted] {
        assert!(!state.is_terminal());
    }
}

#[test]
fn defaults_of_a_job() {
    assert_eq!(default_timeout(), 3600);
    assert_eq!(default_output_ttl(), 86400);
    assert_eq!(
        ResourceRequest::default(),
        ResourceRequest { compile_slots: CompileSlots::Auto("auto".to_owned()), memory_mib: 0 }
    );
}

#[test]
fn groups_are_named_by_the_small_letters_of_the_ulid() {
    assert_eq!(
        job_group(0x41414141414141414141414141414141),
        "job-21850m2ga1850m2ga1850m2ga1"
    );
    assert_eq!(job_group(0), "job-00000000000000000000000000");
    assert_eq!(job_group(u128::MAX), "job-7zzzzzzzzzzzzzzzzzzzzzzzzz");
    assert_ne!(job_group(1), job_group(2));
}

#[test]
fn later_values_of_a_variable_replace_earlier_ones() {
    let mut env = Environment::new();
    env.insert("A".to_owned(), "1".to_owned());
    env.insert("B".to_owned(), "2".to_owned());
    env.insert("A".to_owned(), "3".to_owned());
    assert_eq!(env.get("A").map(String::as_str), Some("3"));
    assert_eq!(env.get("B").map(String::as_str), Some("2"));
    assert_eq!(env.get("C"), None);
    assert_eq!(env.variables().len(), 2);
    let copy = env.clone();
    assert_eq!(copy.get("A").map(String::as_str), Some("3"));
}

#[test]
fn environments_are_equal_whatever_the_order() {
    let mut first = Environment::new();
    first.insert("A".to_owned(), "1".to_owned());
    first.insert("B".to_owned(), "2".to_owned());
    let mut second = Environment::new();
    second.insert("B".to_owned(), "0".to_owned());
    second.insert("A".to_owned(), "1".to_owned());
    assert_ne!(first, second);
    second.insert("B".to_owned(), "2".to_owned());
    assert_eq!(first, second);
    second.insert("C".to_owned(), "3".to_owned());
    assert_ne!(first, second);
    assert_ne!(second, first);
    assert_eq!(Environment::new(), Environment::new());
}

#[test]
fn jobs_are_equal_where_they_hold_the_same() {
    let mut first = valid_job();
    first.env.insert("A".to_owned(), "1".to_owned());
    first.env.insert("B".to_owned(), "2".to_owned());
    let mut second = valid_job();
    second.env.insert("B".to_owned(), "2".to_owned());
    second.env.insert("A".to_owned(), "1".to_owned());
    assert_eq!(first, second);
    assert_eq!(first.clone(), first);

    let changed = |change: fn(&mut Job)| {
        let mut job = first.clone();
        change(&mut job);
        job
    };
    assert_ne!(changed(|job| job.schema.push('x')), first);
    assert_ne!(changed(|job| job.id = 8), first);
    assert_ne!(changed(|job| job.runner.push('x')), first);
    assert_ne!(changed(|job| job.group.push('x')), first);
    assert_ne!(changed(|job| job.project = None), first);
    assert_ne!(changed(|job| job.cwd.push('x')), first);
    assert_ne!(changed(|job| job.argv.push("x".to_owned())), first);
    assert_ne!(changed(|job| job.argv[0] = "false".to_owned()), first);
    assert_ne!(changed(|job| job.env.insert("A".to_owned(), "9".to_owned())), first);
    assert_ne!(changed(|job| job.priority = 1), first);
    assert_ne!(changed(|job| job.profile = JobProfile::Generic), first);
    assert_ne!(changed(|job| job.rust_codegen_backend = None), first);
    assert_ne!(changed(|job| job.resources.compile_slots = CompileSlots::Exact(1)), first);
    assert_ne!(changed(|job| job.resources.memory_mib = 1), first);
    assert_ne!(changed(|job| job.locks.clear()), first);
    assert_ne!(changed(|job| job.exclusive = None), first);
    assert_ne!(changed(|job| job.timeout_seconds = 2), first);
    assert_ne!(changed(|job| job.retry_on_runner_restart = 2), first);
    assert_ne!(changed(|job| job.output_ttl_seconds = 2), first);
}

#[test]
fn documents_can_be_copied() {
    let control = Control {
        schema: "zrunner.control.v1".to_owned(),
        job: 1,
        action: ControlAction::SetPriority { priority: 5 },
    };
    assert_eq!(control.clone(), control);
    let moment = Timestamp { seconds: 1, nanos: 2 };
    let event = JobEvent {
        schema: "zrunner.event.v1".to_owned(),
        id: 1,
        job: 2,
        runner: "mini".to_owned(),
        state: JobState::Queued,
        timestamp: moment,
        detail: Some("x".to_owned()),
        exit_code: Some(3),
        last_sequence: Some(4),
    };
    assert_eq!(event.clone(), event);
    let output = JobOutput {
        schema: "zrunner.output.v1".to_owned(),
        job: 2,
        sequence: 1,
        stream: OutputStream::Stdout,
        encoding: OutputEncoding::Utf8,
        data: "x".to_owned(),
        timestamp: moment,
    };
    assert_eq!(output.clone(), output);
}
