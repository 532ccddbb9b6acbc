//! The documents that agents and runners exchange.

use crate::environment::Environment;
use crate::ids::{group_name, job_group, JobId};
use crate::text::{
    blank, copy_optional, copy_strings, holds_empty, is_blank, optional_text, same_optional,
    same_strings, same_text, some_empty, texts,
};
use vstd::prelude::*;

verus! {

pub const JOB_SCHEMA: &'static str = "zrunner.job.v1";

pub const CONTROL_SCHEMA: &'static str = "zrunner.control.v1";

pub const EVENT_SCHEMA: &'static str = "zrunner.event.v1";

pub const OUTPUT_SCHEMA: &'static str = "zrunner.output.v1";

/// What kind of work a job is.
#[derive(Clone, Copy, Debug, PartialEq, Eq, Structural)]
pub enum JobProfile {
    Rust,
    DockerBuild,
    Generic,
    IoHeavy,
}

/// A code generator that a Rust job may ask for.
#[derive(Clone, Copy, Debug, PartialEq, Eq, Structural)]
pub enum RustCodegenBackend {
    Cranelift,
    Llvm,
}

/// How many compile slots a job asks for: a word that leaves it to the runner, or a number.
#[derive(Debug, PartialEq, Eq)]
pub enum CompileSlots {
    Auto(String),
    Exact(u16),
}

/// What a [`CompileSlots`] holds.
pub enum CompileSlotsView {
    Auto(Seq<char>),
    Exact(u16),
}

impl View for CompileSlots {
    type V = CompileSlotsView;

    open spec fn view(&self) -> CompileSlotsView {
        match self {
            CompileSlots::Auto(word) => CompileSlotsView::Auto(word@),
            CompileSlots::Exact(count) => CompileSlotsView::Exact(*count),
        }
    }
}

impl Clone for CompileSlots {
    fn clone(&self) -> (copy: Self)
        ensures
            copy@ == self@,
    {
        match self {
            CompileSlots::Auto(word) => CompileSlots::Auto(word.clone()),
            CompileSlots::Exact(count) => CompileSlots::Exact(*count),
        }
    }
}

impl Default for CompileSlots {
    fn default() -> (slots: Self)
        ensures
            slots@ == CompileSlotsView::Auto("auto"@),
    {
        CompileSlots::Auto("auto".to_owned())
    }
}

/// The resources that a job asks to have set aside.
#[derive(Debug, PartialEq, Eq)]
pub struct ResourceRequest {
    pub compile_slots: CompileSlots,
    pub memory_mib: u64,
}

/// What a [`ResourceRequest`] holds.
pub struct ResourceRequestView {
    pub compile_slots: CompileSlotsView,
    pub memory_mib: u64,
}

impl View for ResourceRequest {
    type V = ResourceRequestView;

    open spec fn view(&self) -> ResourceRequestView {
        ResourceRequestView { compile_slots: self.compile_slots@, memory_mib: self.memory_mib }
    }
}

impl Clone for ResourceRequest {
    fn clone(&self) -> (copy: Self)
        ensures
            copy@ == self@,
    {
        ResourceRequest { compile_slots: self.compile_slots.clone(), memory_mib: self.memory_mib }
    }
}

impl Default for ResourceRequest {
    fn default() -> (request: Self)
        ensures
            request@.compile_slots == CompileSlotsView::Auto("auto"@),
            request@.memory_mib == 0,
    {
        ResourceRequest { compile_slots: CompileSlots::default(), memory_mib: 0 }
    }
}

/// A request to have the whole host, with the reason for it.
#[derive(Debug, PartialEq, Eq)]
pub struct ExclusivityRequest {
    pub reason: String,
}

impl View for ExclusivityRequest {
    type V = Seq<char>;

    open spec fn view(&self) -> Seq<char> {
        self.reason@
    }
}

impl Clone for ExclusivityRequest {
    fn clone(&self) -> (copy: Self)
        ensures
            copy@ == self@,
    {
        ExclusivityRequest { reason: self.reason.clone() }
    }
}

/// A command to run, with what it needs.
#[derive(Debug)]
pub struct Job {
    pub schema: String,
    pub id: JobId,
    pub runner: String,
    pub group: String,
    pub project: Option<String>,
    pub cwd: String,
    pub argv: Vec<String>,
    pub env: Environment,
    pub priority: i32,
    pub profile: JobProfile,
    pub rust_codegen_backend: Option<RustCodegenBackend>,
    pub resources: ResourceRequest,
    pub locks: Vec<String>,
    pub exclusive: Option<ExclusivityRequest>,
    pub timeout_seconds: u64,
    pub retry_on_runner_restart: u16,
    pub output_ttl_seconds: u64,
}

/// What a [`Job`] holds.
#[verifier::ext_equal]
pub struct JobView {
    pub schema: Seq<char>,
    pub id: JobId,
    pub runner: Seq<char>,
    pub group: Seq<char>,
    pub project: Option<Seq<char>>,
    pub cwd: Seq<char>,
    pub argv: Seq<Seq<char>>,
    pub env: Map<Seq<char>, Seq<char>>,
    pub priority: i32,
    pub profile: JobProfile,
    pub rust_codegen_backend: Option<RustCodegenBackend>,
    pub resources: ResourceRequestView,
    pub locks: Seq<Seq<char>>,
    pub exclusive: Option<Seq<char>>,
    pub timeout_seconds: u64,
    pub retry_on_runner_restart: u16,
    pub output_ttl_seconds: u64,
}

/// The reason of an optional request for the whole host.
pub open spec fn exclusive_reason(request: Option<ExclusivityRequest>) -> Option<Seq<char>> {
    match request {
        Some(inner) => Some(inner@),
        None => None,
    }
}

impl View for Job {
    type V = JobView;

    open spec fn view(&self) -> JobView {
        JobView {
            schema: self.schema@,
            id: self.id,
            runner: self.runner@,
            group: self.group@,
            project: optional_text(self.project),
            cwd: self.cwd@,
            argv: texts(self.argv@),
            env: self.env@,
            priority: self.priority,
            profile: self.profile,
            rust_codegen_backend: self.rust_codegen_backend,
            resources: self.resources@,
            locks: texts(self.locks@),
            exclusive: exclusive_reason(self.exclusive),
            timeout_seconds: self.timeout_seconds,
            retry_on_runner_restart: self.retry_on_runner_restart,
            output_ttl_seconds: self.output_ttl_seconds,
        }
    }
}

impl JobView {
    /// What is wrong with the job, if anything; of several faults, the one that is reported.
    pub open spec fn fault(self) -> Option<Seq<char>> {
        if self.schema != JOB_SCHEMA@ {
            Some("unsupported job schema"@)
        } else if self.runner.len() == 0 || self.group.len() == 0 || self.cwd.len() == 0 {
            Some("runner, group, and cwd are required"@)
        } else if self.project matches Some(project) && is_blank(project) {
            Some("project must not be empty"@)
        } else if self.group != group_name(self.id) {
            Some("group must be job-<lowercase job ULID>"@)
        } else if self.argv.len() == 0 || self.argv[0].len() == 0 {
            Some("argv must contain a program"@)
        } else if self.timeout_seconds == 0 || self.output_ttl_seconds == 0 {
            Some("timeouts must be positive"@)
        } else if self.resources.compile_slots matches CompileSlotsView::Auto(word) && word
            != "auto"@ {
            Some("compile_slots string must be auto"@)
        } else if some_empty(self.locks) {
            Some("locks must not be empty"@)
        } else if self.rust_codegen_backend is Some && self.profile != JobProfile::Rust {
            Some("rust_codegen_backend requires the rust profile"@)
        } else if self.exclusive matches Some(reason) && is_blank(reason) {
            Some("exclusive jobs require a reason"@)
        } else {
            None
        }
    }

    /// Whether nothing is wrong with the job.
    pub open spec fn valid(self) -> bool {
        self.fault() is None
    }
}

impl Job {
    /// Says what is wrong with the job, if anything.
    pub fn validate(&self) -> (res: Result<(), &'static str>)
        ensures
            match self@.fault() {
                Some(fault) => res matches Err(message) && message@ == fault,
                None => res is Ok,
            },
    {
        if !same_text(self.schema.as_str(), JOB_SCHEMA) {
            return Err("unsupported job schema");
        }
        if self.runner.as_str().is_empty() || self.group.as_str().is_empty()
            || self.cwd.as_str().is_empty() {
            return Err("runner, group, and cwd are required");
        }
        if let Some(project) = &self.project {
            if blank(project.as_str()) {
                return Err("project must not be empty");
            }
        }
        if !same_text(self.group.as_str(), job_group(self.id).as_str()) {
            return Err("group must be job-<lowercase job ULID>");
        }
        if self.argv.len() == 0 || self.argv[0].as_str().is_empty() {
            return Err("argv must contain a program");
        }
        if self.timeout_seconds == 0 || self.output_ttl_seconds == 0 {
            return Err("timeouts must be positive");
        }
        if let CompileSlots::Auto(word) = &self.resources.compile_slots {
            if !same_text(word.as_str(), "auto") {
                return Err("compile_slots string must be auto");
            }
        }
        if holds_empty(&self.locks) {
            return Err("locks must not be empty");
        }
        if self.rust_codegen_backend.is_some() && self.profile != JobProfile::Rust {
            return Err("rust_codegen_backend requires the rust profile");
        }
        if let Some(request) = &self.exclusive {
            if blank(request.reason.as_str()) {
                return Err("exclusive jobs require a reason");
            }
        }
        Ok(())
    }
}

impl Clone for Job {
    fn clone(&self) -> (copy: Self)
        ensures
            copy@ == self@,
    {
        let exclusive = match &self.exclusive {
            Some(request) => Some(request.clone()),
            None => None,
        };
        Job {
            schema: self.schema.clone(),
            id: self.id,
            runner: self.runner.clone(),
            group: self.group.clone(),
            project: copy_optional(&self.project),
            cwd: self.cwd.clone(),
            argv: copy_strings(&self.argv),
            env: self.env.clone(),
            priority: self.priority,
            profile: self.profile,
            rust_codegen_backend: self.rust_codegen_backend,
            resources: self.resources.clone(),
            locks: copy_strings(&self.locks),
            exclusive,
            timeout_seconds: self.timeout_seconds,
            retry_on_runner_restart: self.retry_on_runner_restart,
            output_ttl_seconds: self.output_ttl_seconds,
        }
    }
}

/// Whether the requests ask for the same.
fn same_slots(left: &CompileSlots, right: &CompileSlots) -> (same: bool)
    ensures
        same == (left@ == right@),
{
    match (left, right) {
        (CompileSlots::Auto(word), CompileSlots::Auto(other)) => same_text(
            word.as_str(),
            other.as_str(),
        ),
        (CompileSlots::Exact(count), CompileSlots::Exact(other)) => *count == *other,
        _ => false,
    }
}

/// Whether the requests for the whole host are the same.
fn same_exclusive(
    left: &Option<ExclusivityRequest>,
    right: &Option<ExclusivityRequest>,
) -> (same: bool)
    ensures
        same == (exclusive_reason(*left) == exclusive_reason(*right)),
{
    match (left, right) {
        (Some(request), Some(other)) => same_text(request.reason.as_str(), other.reason.as_str()),
        (None, None) => true,
        _ => false,
    }
}

/// Two jobs are equal where they hold the same; the order in which environment variables were set
/// does not matter.
impl PartialEq for Job {
    fn eq(&self, other: &Self) -> (equal: bool) {
        let equal = same_text(self.schema.as_str(), other.schema.as_str()) && self.id == other.id
            && same_text(self.runner.as_str(), other.runner.as_str()) && same_text(
            self.group.as_str(),
            other.group.as_str(),
        ) && same_optional(&self.project, &other.project) && same_text(
            self.cwd.as_str(),
            other.cwd.as_str(),
        ) && same_strings(&self.argv, &other.argv) && self.env == other.env && self.priority
            == other.priority && self.profile == other.profile && self.rust_codegen_backend
            == other.rust_codegen_backend && same_slots(
            &self.resources.compile_slots,
            &other.resources.compile_slots,
        ) && self.resources.memory_mib == other.resources.memory_mib && same_strings(
            &self.locks,
            &other.locks,
        ) && same_exclusive(&self.exclusive, &other.exclusive) && self.timeout_seconds
            == other.timeout_seconds && self.retry_on_runner_restart
            == other.retry_on_runner_restart && self.output_ttl_seconds
            == other.output_ttl_seconds;
        equal
    }
}

impl vstd::std_specs::cmp::PartialEqSpecImpl for Job {
    open spec fn obeys_eq_spec() -> bool {
        true
    }

    open spec fn eq_spec(&self, other: &Self) -> bool {
        self@ == other@
    }
}

impl Eq for Job {

}

/// What a control document asks to be done with a job.
#[derive(Clone, Copy, Debug, PartialEq, Eq, Structural)]
pub enum ControlAction {
    Cancel,
    SetPriority { priority: i32 },
}

/// A request to change a job that was submitted before.
#[derive(Clone, Debug, PartialEq, Eq)]
pub struct Control {
    pub schema: String,
    pub job: JobId,
    pub action: ControlAction,
}

/// A stage of a job's life.
#[derive(Clone, Copy, Debug, PartialEq, Eq, Structural)]
pub enum JobState {
    Accepted,
    Queued,
    Started,
    Interrupted,
    Completed,
    Failed,
    Cancelled,
    Rejected,
}

impl JobState {
    /// The states that a job never leaves.
    pub open spec fn terminal(self) -> bool {
        self is Completed || self is Failed || self is Cancelled || self is Rejected
    }

    /// Whether a job never leaves this state.
    pub fn is_terminal(self) -> (res: bool)
        ensures
            res == self.terminal(),
    {
        matches!(
            self,
            JobState::Completed | JobState::Failed | JobState::Cancelled | JobState::Rejected
        )
    }
}

/// A moment in UTC: whole seconds since 1970 and the nanoseconds behind them.
#[derive(Clone, Copy, Debug, PartialEq, Eq, Structural)]
pub struct Timestamp {
    pub seconds: i64,
    pub nanos: u32,
}

/// A durable record of a job's change of state.
#[derive(Clone, Debug, PartialEq, Eq)]
pub struct JobEvent {
    pub schema: String,
    pub id: JobId,
    pub job: JobId,
    pub runner: String,
    pub state: JobState,
    pub timestamp: Timestamp,
    pub detail: Option<String>,
    pub exit_code: Option<i32>,
    pub last_sequence: Option<u64>,
}

/// One of the two streams that a command writes.
#[derive(Clone, Copy, Debug, PartialEq, Eq, Structural)]
pub enum OutputStream {
    Stdout,
    Stderr,
}

/// How the bytes of an output document are written as text.
#[derive(Clone, Copy, Debug, PartialEq, Eq, Structural)]
pub enum OutputEncoding {
    Utf8,
    Base64,
}

/// A piece of a command's output.
#[derive(Clone, Debug, PartialEq, Eq)]
pub struct JobOutput {
    pub schema: String,
    pub job: JobId,
    pub sequence: u64,
    pub stream: OutputStream,
    pub encoding: OutputEncoding,
    pub data: String,
    pub timestamp: Timestamp,
}

/// The timeout of a job that names none, in seconds.
pub fn default_timeout() -> (seconds: u64)
    ensures
        seconds == 3600,
{
    3600
}

/// How long the output of a job that does not say is kept, in seconds.
pub fn default_output_ttl() -> (seconds: u64)
    ensures
        seconds == 86400,
{
    86400
}

} // verus!
