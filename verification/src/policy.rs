//! The rules that a submitted job has to meet on this runner.

use crate::environment::Environment;
use crate::ids::{group_name, job_group, new_ulid, JobId};
use crate::protocol::{
    CompileSlotsView, Job, JobProfile, JobView, ResourceRequest, ResourceRequestView, JOB_SCHEMA,
};
use crate::text::{
    before_first, behind_prefix, decimal, decimal_of, has_prefix, holds_text, lemma_place_of,
    optional_text, parts, same_text, slice_text, split_at_char, starts_with, strip_prefix,
    take_before, texts, unsigned_number, writes_more_than,
};
use vstd::prelude::*;
use vstd::string::StringExecFns;

verus! {

// ---------------------------------------------------------------------------
// Who may have the whole host
// ---------------------------------------------------------------------------

/// Who may ask for the whole host: these projects, with jobs of these profiles.
#[derive(Debug)]
pub struct ExclusivePolicy {
    pub allowed_projects: Vec<String>,
    pub allowed_profiles: Vec<JobProfile>,
}

/// Whether the submitter's name says that it works for the project.
pub open spec fn works_for(submitter: Seq<char>, project: Seq<char>) -> bool {
    has_prefix(submitter, project + "-"@)
}

fn submitter_works_for(submitter: &str, project: &str) -> (res: bool)
    ensures
        res == works_for(submitter@, project@),
{
    let mut prefix = project.to_owned();
    prefix.append("-");
    starts_with(submitter, prefix.as_str())
}

/// Whether the submitter works for one of the projects.
pub open spec fn works_for_some(submitter: Seq<char>, projects: Seq<Seq<char>>) -> bool {
    exists|i: int| 0 <= i < projects.len() && works_for(submitter, #[trigger] projects[i])
}

fn submitter_works_for_some(submitter: &str, projects: &Vec<String>) -> (res: bool)
    ensures
        res == works_for_some(submitter@, texts(projects@)),
{
    let mut at: usize = 0;
    while at < projects.len()
        invariant
            at <= projects@.len(),
            forall|i: int|
                0 <= i < at ==> !works_for(submitter@, #[trigger] texts(projects@)[i]),
        decreases projects.len() - at,
    {
        assert(texts(projects@)[at as int] == projects@[at as int]@);
        if submitter_works_for(submitter, projects[at].as_str()) {
            return true;
        }
        at = at + 1;
    }
    false
}

fn profile_is_among(profile: JobProfile, profiles: &Vec<JobProfile>) -> (res: bool)
    ensures
        res == profiles@.contains(profile),
{
    let mut at: usize = 0;
    while at < profiles.len()
        invariant
            at <= profiles@.len(),
            forall|i: int| 0 <= i < at ==> profiles@[i] != profile,
        decreases profiles.len() - at,
    {
        if profiles[at] == profile {
            return true;
        }
        at = at + 1;
    }
    false
}

/// The name of a profile.
pub open spec fn profile_text(profile: JobProfile) -> Seq<char> {
    match profile {
        JobProfile::Rust => "Rust"@,
        JobProfile::DockerBuild => "DockerBuild"@,
        JobProfile::Generic => "Generic"@,
        JobProfile::IoHeavy => "IoHeavy"@,
    }
}

/// The name of a profile.
pub fn profile_name(profile: JobProfile) -> (name: &'static str)
    ensures
        name@ == profile_text(profile),
{
    match profile {
        JobProfile::Rust => "Rust",
        JobProfile::DockerBuild => "DockerBuild",
        JobProfile::Generic => "Generic",
        JobProfile::IoHeavy => "IoHeavy",
    }
}

/// Why the job may not have the whole host, where it asks for it and may not.
pub open spec fn exclusive_fault(
    projects: Seq<Seq<char>>,
    profiles: Seq<JobProfile>,
    submitter: Option<Seq<char>>,
    job: JobView,
) -> Option<Seq<char>> {
    if job.exclusive is None {
        None
    } else {
        match submitter {
            None => Some("exclusive jobs require an attributable submitter"@),
            Some(name) => if !works_for_some(name, projects) {
                Some(
                    "submitter "@ + name + " is not allowed to request host exclusivity"@,
                )
            } else if !profiles.contains(job.profile) {
                Some(
                    "profile "@ + profile_text(job.profile)
                        + " is not allowed to request host exclusivity"@,
                )
            } else {
                None
            },
        }
    }
}

/// Says why the job may not have the whole host, where it asks for it and may not.
pub fn exclusive_rejection(
    policy: &ExclusivePolicy,
    submitter: Option<&str>,
    job: &Job,
) -> (rejection: Option<String>)
    ensures
        optional_text(rejection) == exclusive_fault(
            texts(policy.allowed_projects@),
            policy.allowed_profiles@,
            slice_text(submitter),
            job@,
        ),
{
    if job.exclusive.is_none() {
        return None;
    }
    let name = match submitter {
        Some(name) => name,
        None => {
            return Some("exclusive jobs require an attributable submitter".to_owned());
        },
    };
    if !submitter_works_for_some(name, &policy.allowed_projects) {
        let mut rejection = "submitter ".to_owned();
        rejection.append(name);
        rejection.append(" is not allowed to request host exclusivity");
        return Some(rejection);
    }
    if !profile_is_among(job.profile, &policy.allowed_profiles) {
        let mut rejection = "profile ".to_owned();
        rejection.append(profile_name(job.profile));
        rejection.append(" is not allowed to request host exclusivity");
        return Some(rejection);
    }
    None
}

// ---------------------------------------------------------------------------
// Which project a job counts for
// ---------------------------------------------------------------------------

/// The project that a job counts for: the one it names, else the one in its submitter's name; or
/// why it counts for none.
pub open spec fn project_of(submitter: Option<Seq<char>>, job: JobView) -> Result<
    Seq<char>,
    Seq<char>,
> {
    match submitter {
        None => Err("jobs require an attributable submitter"@),
        Some(name) => {
            let project = match job.project {
                Some(project) => project,
                None => before_first(name, '-'),
            };
            if project.len() == 0 {
                Err("project is empty"@)
            } else if name != project && !works_for(name, project) {
                Err("project does not match the submitter"@)
            } else {
                Ok(project)
            }
        },
    }
}

/// The project that the job counts for.
pub fn job_project(submitter: Option<&str>, job: &Job) -> (res: Result<String, &'static str>)
    ensures
        match project_of(slice_text(submitter), job@) {
            Ok(project) => res matches Ok(name) && name@ == project,
            Err(fault) => res matches Err(message) && message@ == fault,
        },
{
    let name = match submitter {
        Some(name) => name,
        None => {
            return Err("jobs require an attributable submitter");
        },
    };
    let project = match &job.project {
        Some(project) => project.clone(),
        None => take_before(name, '-'),
    };
    if project.as_str().is_empty() {
        return Err("project is empty");
    }
    if !same_text(name, project.as_str()) && !submitter_works_for(name, project.as_str()) {
        return Err("project does not match the submitter");
    }
    Ok(project)
}

/// A job that names no project counts for the one in its submitter's name.
pub proof fn unnamed_project_is_the_submitters(submitter: Seq<char>, job: JobView)
    requires
        job.project is None,
        before_first(submitter, '-').len() > 0,
    ensures
        project_of(Some(submitter), job) == Ok::<Seq<char>, Seq<char>>(
            before_first(submitter, '-'),
        ),
{
    let project = before_first(submitter, '-');
    lemma_place_of(submitter, '-', 0);
    reveal_strlit("-");
    if project.len() < submitter.len() {
        assert(submitter.take(project.len() as int + 1) =~= project + "-"@);
    } else {
        assert(project =~= submitter);
    }
}

/// A job never counts for a project that its submitter's name does not begin with.
pub proof fn project_is_bound_to_the_submitter(
    submitter: Seq<char>,
    job: JobView,
    project: Seq<char>,
)
    requires
        project_of(Some(submitter), job) == Ok::<Seq<char>, Seq<char>>(project),
    ensures
        project.len() > 0,
        submitter == project || works_for(submitter, project),
{
}

// ---------------------------------------------------------------------------
// Cargo's own parallelism
// ---------------------------------------------------------------------------

/// What an option writes behind `--jobs=`, `-j=` or `-j`, where it begins with one of them.
pub open spec fn jobs_text(argument: Seq<char>) -> Option<Seq<char>> {
    if has_prefix(argument, "--jobs="@) {
        behind_prefix(argument, "--jobs="@)
    } else if has_prefix(argument, "-j="@) {
        behind_prefix(argument, "-j="@)
    } else {
        behind_prefix(argument, "-j"@)
    }
}

/// What the option writes behind `--jobs=`, `-j=` or `-j`.
fn jobs_text_of(argument: &str) -> (text: Option<String>)
    ensures
        optional_text(text) == jobs_text(argument@),
{
    if starts_with(argument, "--jobs=") {
        strip_prefix(argument, "--jobs=")
    } else if starts_with(argument, "-j=") {
        strip_prefix(argument, "-j=")
    } else {
        strip_prefix(argument, "-j")
    }
}

/// The number of parallel jobs that the argument at this place asks Cargo for, with the number in
/// the next argument or in this one.
pub open spec fn cargo_jobs_at(argv: Seq<Seq<char>>, place: int) -> Option<nat> {
    if argv[place] == "-j"@ || argv[place] == "--jobs"@ {
        if place + 1 < argv.len() {
            unsigned_number(argv[place + 1])
        } else {
            None
        }
    } else {
        match jobs_text(argv[place]) {
            Some(rest) => unsigned_number(rest),
            None => None,
        }
    }
}

/// Whether an argument asks Cargo for more parallel jobs than the allocation.
pub open spec fn asks_for_more(argv: Seq<Seq<char>>, allocation: u16) -> bool {
    exists|i: int|
        0 <= i < argv.len() && (#[trigger] cargo_jobs_at(argv, i) matches Some(jobs) && jobs
            > allocation)
}

/// Why the job may not start with this allocation: a Rust job may not ask Cargo for more.
pub open spec fn parallelism_fault(job: JobView, allocation: u16) -> Option<Seq<char>> {
    if job.profile == JobProfile::Rust && asks_for_more(job.argv, allocation) {
        Some(
            "job requests more Cargo jobs than its allocation of "@ + decimal(allocation as nat),
        )
    } else {
        None
    }
}

/// Says why the job may not start with this allocation, where it may not.
pub fn validate_parallelism(job: &Job, allocation: u16) -> (res: Result<(), String>)
    ensures
        match parallelism_fault(job@, allocation) {
            Some(fault) => res matches Err(message) && message@ == fault,
            None => res is Ok,
        },
{
    if job.profile != JobProfile::Rust {
        return Ok(());
    }
    let mut at: usize = 0;
    while at < job.argv.len()
        invariant
            at <= job.argv@.len(),
            job.profile == JobProfile::Rust,
            forall|i: int|
                0 <= i < at ==> !(#[trigger] cargo_jobs_at(job@.argv, i) matches Some(jobs) && jobs
                    > allocation),
        decreases job.argv.len() - at,
    {
        let argument = job.argv[at].as_str();
        assert(job@.argv[at as int] == argument@);
        let more = if same_text(argument, "-j") || same_text(argument, "--jobs") {
            if at + 1 < job.argv.len() {
                assert(job@.argv[at + 1] == job.argv@[at + 1]@);
                writes_more_than(job.argv[at + 1].as_str(), allocation as u64)
            } else {
                false
            }
        } else {
            match jobs_text_of(argument) {
                Some(rest) => writes_more_than(rest.as_str(), allocation as u64),
                None => false,
            }
        };
        if more {
            assert(cargo_jobs_at(job@.argv, at as int) matches Some(jobs) && jobs > allocation);
            let mut message = "job requests more Cargo jobs than its allocation of ".to_owned();
            message.append(decimal_of(allocation as u64).as_str());
            return Err(message);
        }
        at = at + 1;
    }
    Ok(())
}

// ---------------------------------------------------------------------------
// Docker builds
// ---------------------------------------------------------------------------

/// Whether the argument chooses a builder.
pub open spec fn chooses_builder(argument: Seq<char>) -> bool {
    argument == "--builder"@ || has_prefix(argument, "--builder="@)
}

/// Whether one of the arguments chooses a builder.
pub open spec fn some_chooses_builder(argv: Seq<Seq<char>>) -> bool {
    exists|i: int| 0 <= i < argv.len() && chooses_builder(#[trigger] argv[i])
}

/// Why the command is no Docker build that the runner accepts.
pub open spec fn docker_fault(argv: Seq<Seq<char>>) -> Option<Seq<char>> {
    if !(argv.len() >= 3 && argv[0] == "docker"@ && argv[1] == "buildx"@ && argv[2] == "build"@) {
        Some("argv must begin with docker buildx build"@)
    } else if some_chooses_builder(argv) {
        Some("the runner selects the bounded BuildKit builder"@)
    } else {
        None
    }
}

/// Says why the command is no Docker build that the runner accepts, where it is none.
pub fn validate_docker_build(job: &Job) -> (res: Result<(), &'static str>)
    ensures
        match docker_fault(job@.argv) {
            Some(fault) => res matches Err(message) && message@ == fault,
            None => res is Ok,
        },
{
    if job.argv.len() < 3 {
        return Err("argv must begin with docker buildx build");
    }
    assert(job@.argv[0] == job.argv@[0]@);
    assert(job@.argv[1] == job.argv@[1]@);
    assert(job@.argv[2] == job.argv@[2]@);
    if !same_text(job.argv[0].as_str(), "docker") || !same_text(job.argv[1].as_str(), "buildx")
        || !same_text(job.argv[2].as_str(), "build") {
        return Err("argv must begin with docker buildx build");
    }
    if holds_builder_choice(&job.argv) {
        return Err("the runner selects the bounded BuildKit builder");
    }
    Ok(())
}

fn holds_builder_choice(argv: &Vec<String>) -> (res: bool)
    ensures
        res == some_chooses_builder(texts(argv@)),
{
    let mut at: usize = 0;
    while at < argv.len()
        invariant
            at <= argv@.len(),
            forall|i: int| 0 <= i < at ==> !chooses_builder(#[trigger] texts(argv@)[i]),
        decreases argv.len() - at,
    {
        let argument = argv[at].as_str();
        assert(texts(argv@)[at as int] == argument@);
        if same_text(argument, "--builder") || starts_with(argument, "--builder=") {
            return true;
        }
        at = at + 1;
    }
    false
}

// ---------------------------------------------------------------------------
// Rust targets
// ---------------------------------------------------------------------------

/// The last of the path's parts that is neither empty nor a dot.
pub open spec fn last_step(steps: Seq<Seq<char>>) -> Option<Seq<char>>
    decreases steps.len(),
{
    if steps.len() == 0 {
        None
    } else if steps.last().len() == 0 || steps.last() == "."@ {
        last_step(steps.drop_last())
    } else {
        Some(steps.last())
    }
}

/// The name of the directory that a path leads to. A path that ends with `..`, or that names no
/// directory, gives none.
pub open spec fn directory_name(path: Seq<char>) -> Option<Seq<char>> {
    match last_step(parts(path, '/')) {
        Some(name) => if name == ".."@ {
            None
        } else {
            Some(name)
        },
        None => None,
    }
}

/// The name of the directory that the path leads to.
pub fn final_directory(path: &str) -> (name: Option<String>)
    ensures
        optional_text(name) == directory_name(path@),
{
    let steps = split_at_char(path, '/');
    let mut count: usize = steps.len();
    assert(texts(steps@).take(count as int) =~= texts(steps@));
    while count > 0
        invariant
            count <= steps@.len(),
            last_step(texts(steps@).take(count as int)) == last_step(parts(path@, '/')),
        decreases count,
    {
        let step = steps[count - 1].as_str();
        proof {
            let seen = texts(steps@).take(count as int);
            assert(seen.last() == step@);
            assert(seen.drop_last() =~= texts(steps@).take(count - 1));
        }
        if !(step.is_empty() || same_text(step, ".")) {
            return if same_text(step, "..") {
                None
            } else {
                Some(step.to_owned())
            };
        }
        count = count - 1;
    }
    None
}

/// The directory that the runner keeps a project's build results in.
pub open spec fn target_directory(runner: Seq<char>, project: Seq<char>) -> Seq<char> {
    "/home/zcourts/projects/projects/build/"@ + runner + "/"@ + project
}

/// The directory that the runner keeps the project's build results in.
pub fn target_directory_of(runner: &str, project: &str) -> (path: String)
    ensures
        path@ == target_directory(runner@, project@),
{
    let mut path = "/home/zcourts/projects/projects/build/".to_owned();
    path.append(runner);
    path.append("/");
    path.append(project);
    path
}

/// The lock on all of a runner's build results.
pub open spec fn runner_lock(runner: Seq<char>) -> Seq<char> {
    "cargo-target:"@ + runner
}

fn runner_lock_of(runner: &str) -> (lock: String)
    ensures
        lock@ == runner_lock(runner@),
{
    let mut lock = "cargo-target:".to_owned();
    lock.append(runner);
    lock
}

/// The lock on a project's build results.
pub open spec fn target_lock(runner: Seq<char>, project: Seq<char>) -> Seq<char> {
    "cargo-target:"@ + runner + ":"@ + project
}

/// The lock on the project's build results.
pub fn target_lock_of(runner: &str, project: &str) -> (lock: String)
    ensures
        lock@ == target_lock(runner@, project@),
{
    let mut lock = runner_lock_of(runner);
    lock.append(":");
    lock.append(project);
    lock
}

/// Why a Rust job does not build into its own project's directory under its own project's lock.
pub open spec fn target_fault(job: JobView) -> Option<Seq<char>> {
    if job.profile != JobProfile::Rust {
        None
    } else {
        match directory_name(job.cwd) {
            None => Some("cwd must end with a UTF-8 project directory name"@),
            Some(project) => {
                let expected = target_directory(job.runner, project);
                let name = "CARGO_TARGET_DIR"@;
                if !job.env.contains_key(name) {
                    Some("CARGO_TARGET_DIR must be set to "@ + expected)
                } else if job.env[name] != expected {
                    Some(
                        "CARGO_TARGET_DIR must be "@ + expected + ", not "@ + job.env[name],
                    )
                } else if !job.locks.contains(target_lock(job.runner, project)) {
                    Some("job must hold "@ + target_lock(job.runner, project))
                } else if job.locks.contains(runner_lock(job.runner)) {
                    Some(
                        "job must not hold the cross-project "@ + runner_lock(job.runner)
                            + " lock"@,
                    )
                } else {
                    None
                }
            },
        }
    }
}

/// Says why a Rust job does not build into its own project's directory under its own project's
/// lock, where it does not.
pub fn validate_rust_target(job: &Job) -> (res: Result<(), String>)
    ensures
        match target_fault(job@) {
            Some(fault) => res matches Err(message) && message@ == fault,
            None => res is Ok,
        },
{
    if job.profile != JobProfile::Rust {
        return Ok(());
    }
    let project = match final_directory(job.cwd.as_str()) {
        Some(project) => project,
        None => {
            return Err("cwd must end with a UTF-8 project directory name".to_owned());
        },
    };
    let runner = job.runner.as_str();
    let expected = target_directory_of(runner, project.as_str());
    match job.env.get("CARGO_TARGET_DIR") {
        None => {
            let mut message = "CARGO_TARGET_DIR must be set to ".to_owned();
            message.append(expected.as_str());
            return Err(message);
        },
        Some(target) => {
            if !same_text(target.as_str(), expected.as_str()) {
                let mut message = "CARGO_TARGET_DIR must be ".to_owned();
                message.append(expected.as_str());
                message.append(", not ");
                message.append(target.as_str());
                return Err(message);
            }
        },
    }
    let lock = target_lock_of(runner, project.as_str());
    if !holds_text(&job.locks, lock.as_str()) {
        let mut message = "job must hold ".to_owned();
        message.append(lock.as_str());
        return Err(message);
    }
    let wide = runner_lock_of(runner);
    if holds_text(&job.locks, wide.as_str()) {
        let mut message = "job must not hold the cross-project ".to_owned();
        message.append(wide.as_str());
        message.append(" lock");
        return Err(message);
    }
    Ok(())
}

// ---------------------------------------------------------------------------
// An example
// ---------------------------------------------------------------------------

/// The project that a working directory stands for.
pub open spec fn example_project(cwd: Seq<char>) -> Seq<char> {
    match directory_name(cwd) {
        Some(name) => name,
        None => "project"@,
    }
}

/// A job that checks the crate in a directory.
pub open spec fn example(id: JobId, cwd: Seq<char>, runner: Seq<char>) -> JobView {
    example_for(id, cwd, example_project(cwd), runner)
}

/// A job that checks a project's crate in a directory.
pub open spec fn example_for(
    id: JobId,
    cwd: Seq<char>,
    project: Seq<char>,
    runner: Seq<char>,
) -> JobView {
    JobView {
        schema: JOB_SCHEMA@,
        id,
        runner,
        group: group_name(id),
        project: None,
        cwd,
        argv: seq!["cargo"@, "check"@, "--locked"@],
        env: Map::empty().insert("CARGO_TARGET_DIR"@, target_directory(runner, project)),
        priority: 0,
        profile: JobProfile::Rust,
        rust_codegen_backend: None,
        resources: ResourceRequestView {
            compile_slots: CompileSlotsView::Auto("auto"@),
            memory_mib: 0,
        },
        locks: seq![target_lock(runner, project)],
        exclusive: None,
        timeout_seconds: 3600,
        retry_on_runner_restart: 1,
        output_ttl_seconds: 86400,
    }
}

/// The job of this identifier that checks the crate in the directory.
pub fn example_job_of(id: JobId, cwd: &str, runner: &str) -> (job: Job)
    ensures
        job@ == example(id, cwd@, runner@),
{
    match final_directory(cwd) {
        Some(name) => example_job_for(id, cwd, name.as_str(), runner),
        None => example_job_for(id, cwd, "project", runner),
    }
}

/// The job of this identifier that checks the project's crate in the directory.
pub fn example_job_for(id: JobId, cwd: &str, project: &str, runner: &str) -> (job: Job)
    ensures
        job@ == example_for(id, cwd@, project@, runner@),
{
    let mut env = Environment::new();
    env.insert("CARGO_TARGET_DIR".to_owned(), target_directory_of(runner, project));
    let mut argv: Vec<String> = Vec::new();
    argv.push("cargo".to_owned());
    argv.push("check".to_owned());
    argv.push("--locked".to_owned());
    let mut locks: Vec<String> = Vec::new();
    locks.push(target_lock_of(runner, project));
    let job = Job {
        schema: JOB_SCHEMA.to_owned(),
        id,
        runner: runner.to_owned(),
        group: job_group(id),
        project: None,
        cwd: cwd.to_owned(),
        argv,
        env,
        priority: 0,
        profile: JobProfile::Rust,
        rust_codegen_backend: None,
        resources: ResourceRequest::default(),
        locks,
        exclusive: None,
        timeout_seconds: 3600,
        retry_on_runner_restart: 1,
        output_ttl_seconds: 86400,
    };
    assert(job@ =~= example_for(id, cwd@, project@, runner@));
    job
}

/// A job with a fresh identifier that checks the crate in the directory.
pub fn example_job(cwd: &str, runner: &str) -> (job: Job)
    ensures
        job@ == example(job@.id, cwd@, runner@),
{
    example_job_of(new_ulid(), cwd, runner)
}

/// The example is a job that its runner accepts: it is valid and builds into the directory of the
/// project that it works in, under that project's lock.
pub proof fn example_is_accepted(id: JobId, cwd: Seq<char>, runner: Seq<char>)
    requires
        runner.len() > 0,
        directory_name(cwd) is Some,
    ensures
        example(id, cwd, runner).valid(),
        target_fault(example(id, cwd, runner)) is None,
{
    let job = example(id, cwd, runner);
    let project = example_project(cwd);
    reveal_strlit("job-");
    reveal_strlit("cargo");
    reveal_strlit(":");
    reveal_strlit("cargo-target:");
    assert(cwd.len() > 0) by {
        if cwd.len() == 0 {
            assert(parts(cwd, '/') =~= seq![cwd.subrange(0, 0)]);
            assert(parts(cwd, '/').drop_last() =~= Seq::<Seq<char>>::empty());
            assert(last_step(parts(cwd, '/').drop_last()) is None);
        }
    }
    assert(job.locks[0] == target_lock(runner, project));
    assert(job.locks.contains(target_lock(runner, project)));
    assert(target_lock(runner, project).len() > runner_lock(runner).len());
}

} // verus!
