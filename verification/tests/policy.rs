use ulid::Ulid;
use zrunner::environment::Environment;
use zrunner::policy::{
    example_job, example_job_for, exclusive_rejection, final_directory, job_project, validate_docker_build,
    validate_parallelism, validate_rust_target, ExclusivePolicy,
};
use zrunner::protocol::{
    ExclusivityRequest, Job, JobProfile, ResourceRequest, JOB_SCHEMA,
};

fn base_job(profile: JobProfile, cwd: &str, argv: &[&str]) -> Job {
    let id = Ulid::new();
    Job {
        schema: JOB_SCHEMA.to_owned(),
        id: id.0,
        runner: "debian1".to_owned(),
        group: format!("job-{}", id.to_string().to_ascii_lowercase()),
        project: None,
        cwd: cwd.to_owned(),
        argv: argv.iter().map(|argument| argument.to_string()).collect(),
        env: Environment::new(),
        priority: 0,
        profile,
        rust_codegen_backend: None,
        resources: ResourceRequest::default(),
        locks: Vec::new(),
        exclusive: None,
        timeout_seconds: 60,
        retry_on_runner_restart: 0,
        output_ttl_seconds: 60,
    }
}

#[test]
fn example_job_uses_a_project_specific_target_and_lock() {
    let job = example_job("/home/zcourts/projects/projects/worka/zrunner", "debian1");
    assert_eq!(
        job.env.get("CARGO_TARGET_DIR").map(String::as_str),
        Some("/home/zcourts/projects/projects/build/debian1/zrunner")
    );
    assert_eq!(job.locks, ["cargo-target:debian1:zrunner"]);
}

#[test]
fn docker_build_requires_the_runner_selected_buildx_builder() {
    let mut job =
        base_job(JobProfile::DockerBuild, "/tmp", &["docker", "buildx", "build", "."]);
    assert!(validate_docker_build(&job).is_ok());
    job.argv.push("--builder=unbounded".to_owned());
    assert!(validate_docker_build(&job).is_err());
}

#[test]
fn rust_jobs_require_the_project_target_and_lock() {
    let mut job = base_job(
        JobProfile::Rust,
        "/home/zcourts/projects/projects/worka/worka",
        &["cargo", "check"],
    );

    assert!(validate_rust_target(&job).is_err());
    job.env.insert(
        "CARGO_TARGET_DIR".to_owned(),
        "/home/zcourts/projects/projects/build/debian1/worka".to_owned(),
    );
    assert!(validate_rust_target(&job).is_err());
    job.locks.push("cargo-target:debian1:worka".to_owned());
    assert!(validate_rust_target(&job).is_ok());

    job.locks.push("cargo-target:debian1".to_owned());
    assert!(validate_rust_target(&job).is_err());
    job.locks.pop();
    job.env.insert(
        "CARGO_TARGET_DIR".to_owned(),
        "/home/zcourts/projects/projects/build/debian1".to_owned(),
    );
    assert!(validate_rust_target(&job).is_err());
}

#[test]
fn rust_target_follows_the_working_repository_not_the_submitter() {
    let job = example_job("/home/zcourts/projects/projects/worka/zrunner", "debian1");
    assert!(validate_rust_target(&job).is_ok());
}

#[test]
fn exclusivity_requires_an_allowed_project_profile_and_reason() {
    let mut job = base_job(JobProfile::DockerBuild, "/tmp", &["true"]);
    job.exclusive = Some(ExclusivityRequest { reason: "qualify BuildKit isolation".to_owned() });
    let policy = ExclusivePolicy {
        allowed_projects: vec!["infra".to_owned()],
        allowed_profiles: vec![JobProfile::DockerBuild],
    };
    assert_eq!(exclusive_rejection(&policy, Some("infra-session"), &job), None);
    assert!(exclusive_rejection(&policy, Some("worka-session"), &job).is_some());
    job.profile = JobProfile::Rust;
    assert!(exclusive_rejection(&policy, Some("infra-session"), &job).is_some());
}

#[test]
fn job_project_is_bound_to_the_submitter() {
    let mut job = base_job(JobProfile::Generic, "/tmp", &["true"]);
    assert_eq!(job_project(Some("fission-session"), &job), Ok("fission".to_owned()));
    job.project = Some("fission".to_owned());
    assert_eq!(job_project(Some("fission-session"), &job), Ok("fission".to_owned()));
    job.project = Some("worka".to_owned());
    assert!(job_project(Some("fission-session"), &job).is_err());
}

#[test]
fn the_example_is_a_valid_job_of_its_runner() {
    let job = example_job("/srv/work/tool/", "mini");
    assert_eq!(job.validate(), Ok(()));
    assert_eq!(validate_rust_target(&job), Ok(()));
    assert_eq!(job.runner, "mini");
    assert_eq!(job.cwd, "/srv/work/tool/");
    assert_eq!(job.argv, ["cargo", "check", "--locked"]);
    assert_eq!(job.locks, ["cargo-target:mini:tool"]);
    assert_eq!(job.timeout_seconds, 3600);
    assert_eq!(job.retry_on_runner_restart, 1);
    assert_eq!(job.output_ttl_seconds, 86400);
    assert_eq!(job.group, format!("job-{}", Ulid(job.id).to_string().to_ascii_lowercase()));
}

#[test]
fn examples_have_identifiers_of_their_own() {
    let first = example_job("/a", "mini");
    let second = example_job("/a", "mini");
    assert_ne!(first.id, second.id);
}

#[test]
fn an_example_outside_any_directory_is_called_project() {
    let job = example_job("/", "mini");
    assert_eq!(job.locks, ["cargo-target:mini:project"]);
}

#[test]
fn final_directories_follow_path_rules() {
    assert_eq!(final_directory("/a/b"), Some("b".to_owned()));
    assert_eq!(final_directory("/a/b/"), Some("b".to_owned()));
    assert_eq!(final_directory("/a/b/."), Some("b".to_owned()));
    assert_eq!(final_directory("b"), Some("b".to_owned()));
    assert_eq!(final_directory("/a/.."), None);
    assert_eq!(final_directory("/"), None);
    assert_eq!(final_directory(""), None);
    assert_eq!(final_directory("//a//b//"), Some("b".to_owned()));
}

#[test]
fn final_directories_are_those_of_std() {
    for path in
        ["/a/b", "/a/b/", "/a/b/.", "b", ".", "./", "..", "/a/..", "/", "", "//a//b//", "/a/./", "a/../c", ".a", "/ "]
    {
        let expected =
            std::path::Path::new(path).file_name().and_then(|name| name.to_str()).map(str::to_owned);
        assert_eq!(final_directory(path), expected, "{path:?}");
    }
}

#[test]
fn rust_target_faults_are_told_in_words() {
    let mut job = base_job(JobProfile::Rust, "/", &["cargo"]);
    assert_eq!(
        validate_rust_target(&job),
        Err("cwd must end with a UTF-8 project directory name".to_owned())
    );
    job.cwd = "/w/tool".to_owned();
    assert_eq!(
        validate_rust_target(&job),
        Err("CARGO_TARGET_DIR must be set to /home/zcourts/projects/projects/build/debian1/tool"
            .to_owned())
    );
    job.env.insert("CARGO_TARGET_DIR".to_owned(), "/x".to_owned());
    assert_eq!(
        validate_rust_target(&job),
        Err("CARGO_TARGET_DIR must be /home/zcourts/projects/projects/build/debian1/tool, not /x"
            .to_owned())
    );
    job.env.insert(
        "CARGO_TARGET_DIR".to_owned(),
        "/home/zcourts/projects/projects/build/debian1/tool".to_owned(),
    );
    assert_eq!(
        validate_rust_target(&job),
        Err("job must hold cargo-target:debian1:tool".to_owned())
    );
    job.locks = vec!["cargo-target:debian1".to_owned(), "cargo-target:debian1:tool".to_owned()];
    assert_eq!(
        validate_rust_target(&job),
        Err("job must not hold the cross-project cargo-target:debian1 lock".to_owned())
    );
    job.profile = JobProfile::Generic;
    assert_eq!(validate_rust_target(&job), Ok(()));
}

#[test]
fn exclusivity_rejections_are_told_in_words() {
    let policy = ExclusivePolicy {
        allowed_projects: vec!["infra".to_owned()],
        allowed_profiles: vec![JobProfile::DockerBuild],
    };
    let mut job = base_job(JobProfile::IoHeavy, "/tmp", &["true"]);
    assert_eq!(exclusive_rejection(&policy, None, &job), None);
    job.exclusive = Some(ExclusivityRequest { reason: "x".to_owned() });
    assert_eq!(
        exclusive_rejection(&policy, None, &job),
        Some("exclusive jobs require an attributable submitter".to_owned())
    );
    assert_eq!(
        exclusive_rejection(&policy, Some("infra"), &job),
        Some("submitter infra is not allowed to request host exclusivity".to_owned())
    );
    assert_eq!(
        exclusive_rejection(&policy, Some("infra-1"), &job),
        Some("profile IoHeavy is not allowed to request host exclusivity".to_owned())
    );
}

#[test]
fn project_faults_are_told_in_words() {
    let mut job = base_job(JobProfile::Generic, "/tmp", &["true"]);
    assert_eq!(job_project(None, &job), Err("jobs require an attributable submitter"));
    assert_eq!(job_project(Some("-session"), &job), Err("project is empty"));
    assert_eq!(job_project(Some("solo"), &job), Ok("solo".to_owned()));
    assert_eq!(job_project(Some("a-b-c"), &job), Ok("a".to_owned()));
    job.project = Some("a-b".to_owned());
    assert_eq!(job_project(Some("a-b-c"), &job), Ok("a-b".to_owned()));
    job.project = Some("a-b-c".to_owned());
    assert_eq!(job_project(Some("a-b-c"), &job), Ok("a-b-c".to_owned()));
    job.project = Some("a-".to_owned());
    assert_eq!(job_project(Some("a-b-c"), &job), Err("project does not match the submitter"));
}

#[test]
fn cargo_may_not_ask_for_more_jobs_than_allocated() {
    let message = "job requests more Cargo jobs than its allocation of 4";
    for argv in [
        &["cargo", "-j5"][..],
        &["cargo", "-j", "5"][..],
        &["cargo", "--jobs", "5"][..],
        &["cargo", "-j", "1", "-j99999999999999999999"][..],
        &["cargo", "-j+5"][..],
        &["cargo", "-j=5"][..],
        &["cargo", "--jobs=5"][..],
        &["cargo", "build", "--jobs=99999999999999999999"][..],
    ] {
        let job = base_job(JobProfile::Rust, "/tmp", argv);
        assert_eq!(validate_parallelism(&job, 4), Err(message.to_owned()), "{argv:?}");
        let other = base_job(JobProfile::Generic, "/tmp", argv);
        assert_eq!(validate_parallelism(&other, 4), Ok(()));
    }
    for argv in [
        &["cargo", "-j4"][..],
        &["cargo", "-j", "4"][..],
        &["cargo", "-j"][..],
        &["cargo", "-jobs"][..],
        &["cargo", "-j=4"][..],
        &["cargo", "--jobs=4"][..],
        &["cargo", "--jobs=", "5"][..],
        &["cargo", "--jobs5"][..],
        &["cargo", "-j=-5"][..],
        &["cargo", "-j", "-5"][..],
        &["cargo", "5"][..],
    ] {
        let job = base_job(JobProfile::Rust, "/tmp", argv);
        assert_eq!(validate_parallelism(&job, 4), Ok(()), "{argv:?}");
    }
}

#[test]
fn docker_faults_are_told_in_words() {
    for argv in [
        &["docker", "buildx"][..],
        &["docker", "build", "build"][..],
        &["podman", "buildx", "build"][..],
        &[][..],
    ] {
        let job = base_job(JobProfile::DockerBuild, "/tmp", argv);
        assert_eq!(validate_docker_build(&job), Err("argv must begin with docker buildx build"));
    }
    for argv in [
        &["docker", "buildx", "build", "--builder", "x"][..],
        &["docker", "buildx", "build", ".", "--builder=x"][..],
    ] {
        let job = base_job(JobProfile::DockerBuild, "/tmp", argv);
        assert_eq!(
            validate_docker_build(&job),
            Err("the runner selects the bounded BuildKit builder")
        );
    }
    let job = base_job(
        JobProfile::DockerBuild,
        "/tmp",
        &["docker", "buildx", "build", "--builders"],
    );
    assert_eq!(validate_docker_build(&job), Ok(()));
}

#[test]
fn an_example_can_name_its_project() {
    let job = example_job_for(7, "/w/caf\u{fffd}", "project", "mini");
    assert_eq!(job.id, 7);
    assert_eq!(job.cwd, "/w/caf\u{fffd}");
    assert_eq!(job.locks, ["cargo-target:mini:project"]);
    assert_eq!(
        job.env.get("CARGO_TARGET_DIR").map(String::as_str),
        Some("/home/zcourts/projects/projects/build/mini/project")
    );
}
