//! Which jobs are refused and which are not, said of what is written in them.

use crate::ids::{ulid_text, JobId};
use crate::policy::{
    asks_for_more, cargo_jobs_at, chooses_builder, directory_name, docker_fault, example,
    exclusive_fault, jobs_text, last_step, parallelism_fault, project_of, some_chooses_builder,
    target_fault, works_for, works_for_some,
};
use crate::protocol::{CompileSlotsView, JobProfile, JobState, JobView};
use crate::text::{
    decimal, has_prefix, is_digit, is_white_space, lemma_place_of, lower, parts,
    parts_from, place_of, unsigned_number,
};
use crate::text_laws::{prefixes_come_first, the_front_part_ends_at_the_first};
use vstd::prelude::*;

verus! {

/// A job is valid if and only if it follows the schema, names its runner and directory, names the
/// group of its identifier, has a program and positive times, leaves its compile slots to the
/// runner with no word but `auto`, has no nameless lock, asks for a code generator only as a Rust
/// job, and gives more than white space for a project or a reason.
pub proof fn what_makes_a_job_valid(job: JobView)
    ensures
        job.valid() <==> {
            &&& job.schema == "zrunner.job.v1"@
            &&& job.runner.len() > 0
            &&& job.cwd.len() > 0
            &&& job.group == "job-"@ + lower(ulid_text(job.id))
            &&& job.argv.len() > 0
            &&& job.argv[0].len() > 0
            &&& job.timeout_seconds > 0
            &&& job.output_ttl_seconds > 0
            &&& job.resources.compile_slots matches CompileSlotsView::Auto(word) ==> (word
                == "auto"@)
            &&& forall|i: int| 0 <= i < job.locks.len() ==> (#[trigger] job.locks[i]).len() > 0
            &&& job.rust_codegen_backend is Some ==> job.profile is Rust
            &&& job.project matches Some(project) ==> (exists|i: int|
                0 <= i < project.len() && !is_white_space(#[trigger] project[i]))
            &&& job.exclusive matches Some(reason) ==> (exists|i: int|
                0 <= i < reason.len() && !is_white_space(#[trigger] reason[i]))
        },
{
    reveal_strlit("job-");
}

/// Of several faults the first in a fixed order is told, and each in its own words.
pub proof fn faults_are_told_in_order(job: JobView)
    ensures
        ({
            let schema = job.schema == "zrunner.job.v1"@;
            let named = job.runner.len() > 0 && job.group.len() > 0 && job.cwd.len() > 0;
            let project = job.project matches Some(project) ==> (exists|i: int|
                0 <= i < project.len() && !is_white_space(#[trigger] project[i]));
            let group = job.group == "job-"@ + lower(ulid_text(job.id));
            let program = job.argv.len() > 0 && job.argv[0].len() > 0;
            let times = job.timeout_seconds > 0 && job.output_ttl_seconds > 0;
            let slots = job.resources.compile_slots matches CompileSlotsView::Auto(word) ==> (word
                == "auto"@);
            let locks = forall|i: int|
                0 <= i < job.locks.len() ==> (#[trigger] job.locks[i]).len() > 0;
            let backend = job.rust_codegen_backend is Some ==> job.profile is Rust;
            let upto_group = schema && named && project && group;
            let upto_slots = upto_group && program && times && slots;
            &&& !schema ==> job.fault() == Some("unsupported job schema"@)
            &&& schema && !named ==> job.fault() == Some("runner, group, and cwd are required"@)
            &&& schema && named && !project ==> job.fault() == Some("project must not be empty"@)
            &&& schema && named && project && !group ==> job.fault() == Some(
                "group must be job-<lowercase job ULID>"@,
            )
            &&& upto_group && !program ==> job.fault() == Some("argv must contain a program"@)
            &&& upto_group && program && !times ==> job.fault() == Some(
                "timeouts must be positive"@,
            )
            &&& upto_group && program && times && !slots ==> job.fault() == Some(
                "compile_slots string must be auto"@,
            )
            &&& upto_slots && !locks ==> job.fault() == Some("locks must not be empty"@)
            &&& upto_slots && locks && !backend ==> job.fault() == Some(
                "rust_codegen_backend requires the rust profile"@,
            )
            &&& upto_slots && locks && backend && !job.valid() ==> job.fault() == Some(
                "exclusive jobs require a reason"@,
            )
        }),
{
    what_makes_a_job_valid(job);
}

/// A job's life ends with completion, failure, cancellation or rejection, and with nothing else.
pub proof fn four_states_end_a_job(state: JobState)
    ensures
        state.terminal() <==> match state {
            JobState::Completed => true,
            JobState::Failed => true,
            JobState::Cancelled => true,
            JobState::Rejected => true,
            JobState::Accepted => false,
            JobState::Queued => false,
            JobState::Started => false,
            JobState::Interrupted => false,
        },
{
}

// ---------------------------------------------------------------------------
// The whole host
// ---------------------------------------------------------------------------

/// A job may have the whole host where its submitter's name begins with an allowed project and a
/// dash, wherever that project stands among the allowed ones, and its profile is allowed, wherever
/// that stands.
pub proof fn any_allowed_project_may_have_the_host(
    projects: Seq<Seq<char>>,
    profiles: Seq<JobProfile>,
    job: JobView,
    project: int,
    rest: Seq<char>,
    profile: int,
)
    requires
        0 <= project < projects.len(),
        0 <= profile < profiles.len(),
        profiles[profile] == job.profile,
    ensures
        exclusive_fault(projects, profiles, Some(projects[project] + "-"@ + rest), job) is None,
{
    let name = projects[project] + "-"@ + rest;
    prefixes_come_first(name, projects[project] + "-"@);
    assert(works_for(name, projects[project]));
    assert(works_for_some(name, projects));
    assert(profiles.contains(job.profile));
}

/// A job that does not ask for the whole host is not refused for it; one that asks is refused where
/// nobody answers for it, where its submitter's name begins with no allowed project and a dash, and
/// where its profile is not allowed.
pub proof fn others_may_not_have_the_host(
    projects: Seq<Seq<char>>,
    profiles: Seq<JobProfile>,
    submitter: Seq<char>,
    job: JobView,
)
    ensures
        job.exclusive is None ==> exclusive_fault(projects, profiles, None, job) is None
            && exclusive_fault(projects, profiles, Some(submitter), job) is None,
        job.exclusive is Some ==> exclusive_fault(projects, profiles, None, job) == Some(
            "exclusive jobs require an attributable submitter"@,
        ),
        job.exclusive is Some && (forall|i: int, rest: Seq<char>|
            0 <= i < projects.len() ==> submitter != #[trigger] (projects[i] + "-"@ + rest))
            ==> exclusive_fault(projects, profiles, Some(submitter), job) == Some(
            "submitter "@ + submitter + " is not allowed to request host exclusivity"@,
        ),
        job.exclusive is Some && (forall|j: int|
            0 <= j < profiles.len() ==> #[trigger] profiles[j] != job.profile) ==> exclusive_fault(
            projects,
            profiles,
            Some(submitter),
            job,
        ) is Some,
{
    if job.exclusive is Some && works_for_some(submitter, projects) {
        let i = choose|i: int|
            0 <= i < projects.len() && works_for(submitter, #[trigger] projects[i]);
        prefixes_come_first(submitter, projects[i] + "-"@);
        let rest = choose|rest: Seq<char>| submitter == #[trigger] (projects[i] + "-"@ + rest);
        assert(submitter == projects[i] + "-"@ + rest);
    }
}

/// A job whose profile is not allowed, from a submitter that is, is refused for its profile, which
/// is named.
pub proof fn profiles_may_be_kept_from_the_host(
    projects: Seq<Seq<char>>,
    profiles: Seq<JobProfile>,
    job: JobView,
    project: int,
    rest: Seq<char>,
)
    requires
        job.exclusive is Some,
        0 <= project < projects.len(),
        forall|j: int| 0 <= j < profiles.len() ==> #[trigger] profiles[j] != job.profile,
    ensures
        ({
            let name = match job.profile {
                JobProfile::Rust => "Rust"@,
                JobProfile::DockerBuild => "DockerBuild"@,
                JobProfile::Generic => "Generic"@,
                JobProfile::IoHeavy => "IoHeavy"@,
            };
            exclusive_fault(projects, profiles, Some(projects[project] + "-"@ + rest), job) == Some(
                "profile "@ + name + " is not allowed to request host exclusivity"@,
            )
        }),
{
    let name = projects[project] + "-"@ + rest;
    prefixes_come_first(name, projects[project] + "-"@);
    assert(works_for(name, projects[project]));
    assert(works_for_some(name, projects));
}

// ---------------------------------------------------------------------------
// Projects
// ---------------------------------------------------------------------------

/// A job counts for the project that it names if its submitter's name is that project, or that
/// project and a dash with something behind, and for no project if not.
pub proof fn named_projects_bind(job: JobView, project: Seq<char>, submitter: Seq<char>)
    requires
        job.project == Some(project),
        project.len() > 0,
    ensures
        project_of(Some(project), job) == Ok::<Seq<char>, Seq<char>>(project),
        forall|rest: Seq<char>|
            project_of(Some(#[trigger] (project + "-"@ + rest)), job) == Ok::<
                Seq<char>,
                Seq<char>,
            >(project),
        submitter != project && (forall|rest: Seq<char>|
            submitter != #[trigger] (project + "-"@ + rest)) ==> project_of(Some(submitter), job)
            == Err::<Seq<char>, Seq<char>>("project does not match the submitter"@),
        project_of(None, job) == Err::<Seq<char>, Seq<char>>(
            "jobs require an attributable submitter"@,
        ),
{
    assert forall|rest: Seq<char>|
        project_of(Some(#[trigger] (project + "-"@ + rest)), job) == Ok::<Seq<char>, Seq<char>>(
            project,
        ) by {
        prefixes_come_first(project + "-"@ + rest, project + "-"@);
    }
    prefixes_come_first(submitter, project + "-"@);
}

/// A job that names no project counts for what its submitter's name begins with: all of it where it
/// has no dash, and what stands before the first dash where it has.
pub proof fn unnamed_projects_come_from_the_submitter(
    job: JobView,
    front: Seq<char>,
    rest: Seq<char>,
)
    requires
        job.project is None,
        !front.contains('-'),
    ensures
        front.len() > 0 ==> project_of(Some(front), job) == Ok::<Seq<char>, Seq<char>>(front),
        front.len() > 0 ==> project_of(Some(front + "-"@ + rest), job) == Ok::<
            Seq<char>,
            Seq<char>,
        >(front),
        front.len() == 0 ==> project_of(Some(front), job) == Err::<Seq<char>, Seq<char>>(
            "project is empty"@,
        ),
        front.len() == 0 ==> project_of(Some(front + "-"@ + rest), job) == Err::<
            Seq<char>,
            Seq<char>,
        >("project is empty"@),
        project_of(None, job) == Err::<Seq<char>, Seq<char>>(
            "jobs require an attributable submitter"@,
        ),
{
    reveal_strlit("-");
    assert(front + "-"@ + rest =~= front.push('-') + rest);
    the_front_part_ends_at_the_first(front, '-', rest);
    prefixes_come_first(front + "-"@ + rest, front + "-"@);
}

// ---------------------------------------------------------------------------
// Cargo's parallel jobs
// ---------------------------------------------------------------------------

/// Whether the argument at this place, with the one behind it, writes this as the number of
/// parallel jobs.
pub open spec fn writes_jobs(argv: Seq<Seq<char>>, place: int, number: Seq<char>) -> bool {
    ||| argv[place] == "-j"@ && place + 1 < argv.len() && argv[place + 1] == number
    ||| argv[place] == "--jobs"@ && place + 1 < argv.len() && argv[place + 1] == number
    ||| argv[place] == "-j"@ + number
    ||| argv[place] == "-j="@ + number
    ||| argv[place] == "--jobs="@ + number
}

proof fn lemma_written_jobs(argv: Seq<Seq<char>>, place: int, number: Seq<char>)
    requires
        0 <= place < argv.len(),
        writes_jobs(argv, place, number),
        unsigned_number(number) is Some,
    ensures
        cargo_jobs_at(argv, place) == unsigned_number(number),
{
    reveal_strlit("-j");
    reveal_strlit("-j=");
    reveal_strlit("--jobs");
    reveal_strlit("--jobs=");
    let argument = argv[place];
    assert(number.len() > 0);
    assert(is_digit(number[0]) || number[0] == '+');
    assert("-j"@[1] == 'j' && "--jobs"@[1] == '-');
    prefixes_come_first(argument, "-j"@);
    prefixes_come_first(argument, "-j="@);
    prefixes_come_first(argument, "--jobs="@);
    if argument == "-j"@ + number {
        assert(argument[1] == 'j');
        assert(argument[2] == number[0]);
        assert(argument.len() > 2);
        assert(!has_prefix(argument, "--jobs="@)) by {
            if has_prefix(argument, "--jobs="@) {
                assert(argument.take(7)[1] == '-');
            }
        }
        assert(!has_prefix(argument, "-j="@)) by {
            if has_prefix(argument, "-j="@) {
                assert(argument.take(3)[2] == '=');
            }
        }
    } else if argument == "-j="@ + number {
        assert(argument[1] == 'j');
        assert(argument.len() > 3);
        assert(!has_prefix(argument, "--jobs="@)) by {
            if has_prefix(argument, "--jobs="@) {
                assert(argument.take(7)[1] == '-');
            }
        }
    } else if argument == "--jobs="@ + number {
        assert(argument[1] == '-');
        assert(argument.len() > 7);
    }
}

/// A Rust job may not start where any of its arguments asks Cargo, in any of the five ways to write
/// it, for more parallel jobs than it has compile slots.
pub proof fn cargo_may_not_exceed_the_allocation(
    job: JobView,
    allocation: u16,
    place: int,
    number: Seq<char>,
)
    requires
        job.profile is Rust,
        0 <= place < job.argv.len(),
        writes_jobs(job.argv, place, number),
        unsigned_number(number) matches Some(count) && count > allocation,
    ensures
        parallelism_fault(job, allocation) == Some(
            "job requests more Cargo jobs than its allocation of "@ + decimal(allocation as nat),
        ),
{
    lemma_written_jobs(job.argv, place, number);
    assert(asks_for_more(job.argv, allocation));
}

/// A job is not kept from starting for its parallel jobs where it is no Rust job, nor where no
/// argument asks for more of them than it has compile slots.
pub proof fn cargo_may_use_the_allocation(job: JobView, allocation: u16)
    requires
        job.profile is Rust ==> forall|place: int, number: Seq<char>|
            0 <= place < job.argv.len() && #[trigger] writes_jobs(job.argv, place, number) ==> (
            unsigned_number(number) matches Some(count) ==> count <= allocation),
    ensures
        parallelism_fault(job, allocation) is None,
{
    if job.profile is Rust && asks_for_more(job.argv, allocation) {
        let argv = job.argv;
        let i = choose|i: int|
            0 <= i < argv.len() && (#[trigger] cargo_jobs_at(argv, i) matches Some(jobs) && jobs
                > allocation);
        let argument = argv[i];
        if argument == "-j"@ || argument == "--jobs"@ {
            assert(writes_jobs(argv, i, argv[i + 1]));
        } else {
            let number = jobs_text(argument)->0;
            if has_prefix(argument, "--jobs="@) {
                assert(argument =~= "--jobs="@ + number);
            } else if has_prefix(argument, "-j="@) {
                assert(argument =~= "-j="@ + number);
            } else {
                assert(argument =~= "-j"@ + number);
            }
            assert(writes_jobs(argv, i, number));
        }
    }
}

// ---------------------------------------------------------------------------
// Docker builds
// ---------------------------------------------------------------------------

/// A command is a Docker build that the runner accepts if and only if it begins with
/// `docker buildx build` and no argument, wherever it stands, chooses a builder.
pub proof fn which_docker_builds_are_accepted(argv: Seq<Seq<char>>)
    ensures
        ({
            let begins = argv.len() >= 3 && argv[0] == "docker"@ && argv[1] == "buildx"@ && argv[2]
                == "build"@;
            let chooses = exists|i: int|
                #![trigger argv[i]]
                0 <= i < argv.len() && (argv[i] == "--builder"@ || exists|name: Seq<char>|
                    argv[i] == #[trigger] ("--builder="@ + name));
            &&& docker_fault(argv) is None <==> begins && !chooses
            &&& !begins ==> docker_fault(argv) == Some("argv must begin with docker buildx build"@)
            &&& begins && chooses ==> docker_fault(argv) == Some(
                "the runner selects the bounded BuildKit builder"@,
            )
        }),
{
    assert forall|i: int| 0 <= i < argv.len() implies (chooses_builder(#[trigger] argv[i]) <==> (
    argv[i] == "--builder"@ || exists|name: Seq<char>|
        argv[i] == #[trigger] ("--builder="@ + name))) by {
        prefixes_come_first(argv[i], "--builder="@);
    }
    if some_chooses_builder(argv) {
        let i = choose|i: int| 0 <= i < argv.len() && chooses_builder(#[trigger] argv[i]);
        assert(0 <= i < argv.len());
    }
}

// ---------------------------------------------------------------------------
// Rust targets
// ---------------------------------------------------------------------------

proof fn lemma_last_part(path: Seq<char>, ch: char, name: Seq<char>, from: int)
    requires
        0 <= from <= path.len(),
        !name.contains(ch),
    ensures
        parts_from(path.push(ch) + name, ch, from) == parts_from(path, ch, from).push(name),
    decreases path.len() - from,
{
    let text = path.push(ch) + name;
    let place = place_of(path, ch, from);
    lemma_place_of(path, ch, from);
    lemma_place_of(text, ch, from);
    assert forall|i: int| from <= i < place implies #[trigger] text[i] != ch by {
        assert(text[i] == path[i]);
    }
    assert(text[place] == ch);
    let found = place_of(text, ch, from);
    assert(found == place);
    assert(text.subrange(from, place) =~= path.subrange(from, place));
    if place < path.len() {
        lemma_last_part(path, ch, name, place + 1);
        assert(parts_from(text, ch, from) =~= parts_from(path, ch, from).push(name));
    } else {
        lemma_place_of(text, ch, place + 1);
        let next = place_of(text, ch, place + 1);
        if next < text.len() {
            assert(text[next] == name[next - place - 1]);
            assert(name.contains(ch));
        }
        assert(text.subrange(place + 1, text.len() as int) =~= name);
        assert(parts_from(text, ch, place + 1) =~= seq![name]);
        assert(parts_from(text, ch, from) =~= parts_from(path, ch, from).push(name));
    }
}

proof fn lemma_whole_part(name: Seq<char>, ch: char)
    requires
        !name.contains(ch),
    ensures
        parts(name, ch) == seq![name],
{
    lemma_place_of(name, ch, 0);
    let place = place_of(name, ch, 0);
    if place < name.len() {
        assert(name.contains(name[place]));
    }
    assert(name.subrange(0, name.len() as int) =~= name);
}

/// A path leads to the directory behind its last slash; a slash, or a slash and a dot, at its end
/// changes nothing; one that ends with two dots names no directory, nor does the empty path or a
/// lone dot.
pub proof fn where_a_path_leads(path: Seq<char>, name: Seq<char>)
    requires
        !name.contains('/'),
    ensures
        name.len() > 0 && name != "."@ && name != ".."@ ==> {
            &&& directory_name(path.push('/') + name) == Some(name)
            &&& directory_name(name) == Some(name)
        },
        name.len() == 0 || name == "."@ ==> {
            &&& directory_name(path.push('/') + name) == directory_name(path)
            &&& directory_name(name) is None
        },
        name == ".."@ ==> {
            &&& directory_name(path.push('/') + name) is None
            &&& directory_name(name) is None
        },
{
    lemma_last_part(path, '/', name, 0);
    lemma_whole_part(name, '/');
    assert(parts(path, '/').push(name).drop_last() =~= parts(path, '/'));
    assert(seq![name].drop_last() =~= Seq::<Seq<char>>::empty());
    assert(last_step(Seq::<Seq<char>>::empty()) is None);
    reveal_strlit(".");
    reveal_strlit("..");
    assert("."@.len() != ".."@.len());
}

/// A Rust job builds as it should if and only if the directory that it works in has a name, its
/// target directory is the one that its runner keeps for that name, and among its locks is the one
/// on that directory and not the one on all of them. Other jobs build where they like.
pub proof fn which_rust_targets_are_accepted(job: JobView, project: Seq<char>)
    ensures
        !(job.profile is Rust) ==> target_fault(job) is None,
        job.profile is Rust && directory_name(job.cwd) is None ==> target_fault(job) == Some(
            "cwd must end with a UTF-8 project directory name"@,
        ),
        job.profile is Rust && directory_name(job.cwd) == Some(project) ==> ({
            let expected = "/home/zcourts/projects/projects/build/"@ + job.runner + "/"@ + project;
            let lock = "cargo-target:"@ + job.runner + ":"@ + project;
            let wide = "cargo-target:"@ + job.runner;
            let set = job.env.contains_key("CARGO_TARGET_DIR"@);
            let right = set && job.env["CARGO_TARGET_DIR"@] == expected;
            let locked = exists|i: int| 0 <= i < job.locks.len() && #[trigger] job.locks[i] == lock;
            let crossed = exists|i: int|
                0 <= i < job.locks.len() && #[trigger] job.locks[i] == wide;
            &&& target_fault(job) is None <==> right && locked && !crossed
            &&& !set ==> target_fault(job) == Some("CARGO_TARGET_DIR must be set to "@ + expected)
            &&& set && !right ==> target_fault(job) == Some(
                "CARGO_TARGET_DIR must be "@ + expected + ", not "@
                    + job.env["CARGO_TARGET_DIR"@],
            )
            &&& right && !locked ==> target_fault(job) == Some("job must hold "@ + lock)
            &&& right && locked && crossed ==> target_fault(job) == Some(
                "job must not hold the cross-project "@ + wide + " lock"@,
            )
        }),
{
}

/// The example checks the crate in the directory that it is given, on the runner that it is given,
/// with nothing set but the target directory, nothing locked but that directory, and an hour's time.
pub proof fn what_the_example_does(
    id: JobId,
    cwd: Seq<char>,
    runner: Seq<char>,
    project: Seq<char>,
)
    requires
        directory_name(cwd) == Some(project) || (directory_name(cwd) is None && project
            == "project"@),
    ensures
        ({
            let job = example(id, cwd, runner);
            &&& job.id == id && job.cwd == cwd && job.runner == runner
            &&& job.argv.len() == 3 && job.argv[0] == "cargo"@ && job.argv[1] == "check"@
                && job.argv[2] == "--locked"@
            &&& job.profile is Rust && job.priority == 0
            &&& job.project is None && job.exclusive is None && job.rust_codegen_backend is None
            &&& job.env.dom() == set!["CARGO_TARGET_DIR"@]
            &&& job.env["CARGO_TARGET_DIR"@] == "/home/zcourts/projects/projects/build/"@ + runner
                + "/"@ + project
            &&& job.locks.len() == 1 && job.locks[0] == "cargo-target:"@ + runner + ":"@ + project
            &&& job.resources.compile_slots is Auto && job.resources.memory_mib == 0
            &&& job.timeout_seconds == 3600 && job.output_ttl_seconds == 86400
            &&& job.retry_on_runner_restart == 1
        }),
{
    assert(example(id, cwd, runner).env.dom() =~= set!["CARGO_TARGET_DIR"@]);
}

} // verus!
