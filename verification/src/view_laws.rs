//! What stands for a value in contracts holds every part of the value.

use crate::board::{
    kinded_view, messages_view, optional_message, KindedMessage, ProtocolMessage,
};
use crate::cli::Invocation;
use crate::daemon::{
    deliveries_view, running_view, steps_view, Admitted, ControlReply, Delivery,
    JobStep, Launch,
};
use crate::environment::Environment;
use crate::events::StateNotice;
use crate::output::{OutputBuffer, OutputNotice};
use crate::protocol::{
    exclusive_reason, CompileSlots, CompileSlotsView, Job, JobEvent, JobOutput, ResourceRequest,
};
use crate::running::{optional_output, outputs_view, RunningJob, Termination};
use crate::text::{optional_text, slice_text, texts};
use crate::transport::{commands_view, BoardCommand};
use vstd::prelude::*;
use vstd::std_specs::cmp::PartialEqSpec;

verus! {

/// The texts of strings are those of each of them, in order.
pub proof fn texts_are_those_of_the_strings(
    strings: Seq<String>,
    string: Option<String>,
    slice: Option<&str>,
)
    ensures
        texts(strings).len() == strings.len(),
        forall|i: int| 0 <= i < strings.len() ==> #[trigger] texts(strings)[i] == strings[i]@,
        string matches Some(inner) ==> optional_text(string) == Some(inner@),
        string is None ==> optional_text(string) is None,
        slice matches Some(inner) ==> slice_text(slice) == Some(inner@),
        slice is None ==> slice_text(slice) is None,
{
}

/// A request for compile slots stands for the word or the number that it holds, and one for
/// resources for both of its parts.
pub proof fn requests_hold_their_parts(slots: CompileSlots, request: ResourceRequest)
    ensures
        slots matches CompileSlots::Auto(word) ==> slots@ == CompileSlotsView::Auto(word@),
        slots matches CompileSlots::Exact(count) ==> slots@ == CompileSlotsView::Exact(count),
        request@.compile_slots == request.compile_slots@,
        request@.memory_mib == request.memory_mib,
{
}

/// What stands for a job holds every field of it.
pub proof fn jobs_hold_their_parts(job: Job)
    ensures
        job@.schema == job.schema@,
        job@.id == job.id,
        job@.runner == job.runner@,
        job@.group == job.group@,
        job.project matches Some(project) ==> job@.project == Some(project@),
        job.project is None ==> job@.project is None,
        job@.cwd == job.cwd@,
        job@.argv.len() == job.argv@.len(),
        forall|i: int| 0 <= i < job.argv@.len() ==> #[trigger] job@.argv[i] == job.argv@[i]@,
        job@.env == job.env@,
        job@.priority == job.priority,
        job@.profile == job.profile,
        job@.rust_codegen_backend == job.rust_codegen_backend,
        job@.resources == job.resources@,
        job@.locks.len() == job.locks@.len(),
        forall|i: int| 0 <= i < job.locks@.len() ==> #[trigger] job@.locks[i] == job.locks@[i]@,
        job.exclusive matches Some(request) ==> job@.exclusive == Some(request.reason@),
        job.exclusive is None ==> job@.exclusive is None,
        job@.timeout_seconds == job.timeout_seconds,
        job@.retry_on_runner_restart == job.retry_on_runner_restart,
        job@.output_ttl_seconds == job.output_ttl_seconds,
{
}

/// What stands for a notice or a document of the runner's holds every field of it.
pub proof fn documents_hold_their_parts(
    notice: StateNotice,
    event: JobEvent,
    piece: OutputNotice,
    output: JobOutput,
)
    ensures
        notice@.job == notice.job,
        notice@.state == notice.state,
        notice@.detail == optional_text(notice.detail),
        notice@.exit_code == notice.exit_code,
        notice@.last_sequence == notice.last_sequence,
        event@.schema == event.schema@,
        event@.id == event.id,
        event@.job == event.job,
        event@.runner == event.runner@,
        event@.state == event.state,
        event@.timestamp == event.timestamp,
        event@.detail == optional_text(event.detail),
        event@.exit_code == event.exit_code,
        event@.last_sequence == event.last_sequence,
        piece@.group == piece.group@,
        piece@.summary == piece.summary@,
        piece@.job == piece.job,
        piece@.sequence == piece.sequence,
        piece@.stream == piece.stream,
        piece@.encoding == piece.encoding,
        piece@.data == piece.data@,
        piece@.ttl_seconds == piece.ttl_seconds,
        output@.schema == output.schema@,
        output@.job == output.job,
        output@.sequence == output.sequence,
        output@.stream == output.stream,
        output@.encoding == output.encoding,
        output@.data == output.data@,
        output@.timestamp == output.timestamp,
{
}

/// What stands for a running job holds every field of it.
pub proof fn running_jobs_hold_their_parts(
    running: RunningJob,
    buffer: OutputBuffer,
    termination: Termination,
)
    ensures
        running@.job == running.job@,
        running@.started == running.started,
        running@.sequence == running.sequence,
        running@.stdout == running.stdout@,
        running@.stderr == running.stderr@,
        running@.streams_open == running.streams_open,
        running.termination matches Some(told) ==> running@.termination == Some(told@),
        running.termination is None ==> running@.termination is None,
        buffer@.bytes == buffer.bytes@,
        buffer@.last_flush == buffer.last_flush,
        termination@.sent_at == termination.sent_at,
        termination@.state == termination.state,
        termination@.process_groups == termination.process_groups@,
{
}

/// What stands for a message of the board, or for several, holds every part of each, in order.
pub proof fn messages_hold_their_parts(
    message: ProtocolMessage,
    messages: Seq<ProtocolMessage>,
    kinded: Seq<KindedMessage>,
    deliveries: Seq<Delivery>,
)
    ensures
        message@.value == message.value@,
        message@.from == optional_text(message.from),
        optional_message(Some(message)) == Some(message@),
        optional_message(None) is None,
        messages_view(messages).len() == messages.len(),
        forall|i: int|
            0 <= i < messages.len() ==> #[trigger] messages_view(messages)[i] == messages[i]@,
        kinded_view(kinded).len() == kinded.len(),
        forall|i: int|
            0 <= i < kinded.len() ==> (#[trigger] kinded_view(kinded)[i]).kind == kinded[i].kind
                && kinded_view(kinded)[i].message == kinded[i].message@,
        deliveries_view(deliveries).len() == deliveries.len(),
        forall|i: int|
            0 <= i < deliveries.len() ==> (#[trigger] deliveries_view(deliveries)[i]).message
                == deliveries[i].message@ && deliveries_view(deliveries)[i].announce
                == deliveries[i].announce,
{
}

/// What stands for the runner's answers holds every part of them, in order.
pub proof fn answers_hold_their_parts(
    steps: Seq<JobStep>,
    launch: Launch,
    pieces: Seq<OutputNotice>,
    running: Seq<RunningJob>,
)
    ensures
        steps_view(steps).len() == steps.len(),
        forall|i: int| 0 <= i < steps.len() ==> #[trigger] steps_view(steps)[i] == steps[i]@,
        launch@.job == launch.job@,
        launch@.allocation == launch.allocation,
        launch@.environment == launch.environment@,
        outputs_view(pieces).len() == pieces.len(),
        forall|i: int| 0 <= i < pieces.len() ==> #[trigger] outputs_view(pieces)[i] == pieces[i]@,
        optional_output(None).len() == 0,
        forall|piece: OutputNotice| #[trigger]
            optional_output(Some(piece)).len() == 1 && optional_output(Some(piece))[0] == piece@,
        running_view(running).len() == running.len(),
        forall|i: int|
            0 <= i < running.len() ==> #[trigger] running_view(running)[i] == running[i]@,
{
}

/// What stands for one of the runner's answers is of the same kind and holds the same.
pub proof fn answers_stand_for_themselves(step: JobStep, reply: ControlReply, admitted: Admitted)
    ensures
        match step {
            JobStep::CreateGroup { name } => step@ is CreateGroup && step@->CreateGroup_name
                == name@,
            JobStep::JoinGroup { name } => step@ is JoinGroup && step@->JoinGroup_name == name@,
            JobStep::Publish { notice } => step@ is Publish && step@->notice == notice@,
        },
        match reply {
            ControlReply::Cancelled { notice } => reply@ is Cancelled && reply@->notice == notice@,
            ControlReply::Terminate => reply@ is Terminate,
            ControlReply::Reprioritized => reply@ is Reprioritized,
            ControlReply::Ignored => reply@ is Ignored,
        },
        match admitted {
            Admitted::Nothing => admitted@ is Nothing,
            Admitted::Rejected { notice } => admitted@ is Rejected && admitted@->Rejected_notice
                == notice@,
            Admitted::Launch { launch } => admitted@ is Launch && admitted@->launch == launch@,
        },
{
}

/// What stands for a command to the board, or for what the program was asked to do, is of the same
/// kind and holds the same.
pub proof fn commands_stand_for_themselves(
    command: BoardCommand,
    commands: Seq<BoardCommand>,
    asked: Invocation,
)
    ensures
        match command {
            BoardCommand::CreateGroup { name } => command@ is CreateGroup
                && command@->CreateGroup_name == name@,
            BoardCommand::JoinGroup { name } => command@ is JoinGroup && command@->JoinGroup_name
                == name@,
            BoardCommand::History { group, limit } => command@ is History
                && command@->History_group == group@ && command@->limit == limit,
            BoardCommand::SendEvent { group, message, event } => command@ is SendEvent
                && command@->SendEvent_group == group@ && command@->SendEvent_message == message@
                && command@->event == event@,
            BoardCommand::SendOutput { group, message, output, ttl_seconds } =>
            command@ is SendOutput && command@->SendOutput_group == group@
                && command@->SendOutput_message == message@ && command@->output == output@
                && command@->ttl_seconds == ttl_seconds,
        },
        commands_view(commands).len() == commands.len(),
        forall|i: int|
            0 <= i < commands.len() ==> #[trigger] commands_view(commands)[i] == commands[i]@,
        match asked {
            Invocation::Help => asked@ is Help,
            Invocation::ExampleJob => asked@ is ExampleJob,
            Invocation::Daemon { config } => asked@ is Daemon && asked@->config == optional_text(
                config,
            ),
        },
{
}

/// Equal jobs hold the same in every field, and jobs that do are equal; environments are equal if
/// and only if they set the same variables to the same values.
pub proof fn equal_jobs_hold_the_same(
    left: Job,
    right: Job,
    mine: Environment,
    yours: Environment,
)
    ensures
        left.eq_spec(&right) <==> {
            &&& left.schema@ == right.schema@
            &&& left.id == right.id
            &&& left.runner@ == right.runner@
            &&& left.group@ == right.group@
            &&& optional_text(left.project) == optional_text(right.project)
            &&& left.cwd@ == right.cwd@
            &&& texts(left.argv@) == texts(right.argv@)
            &&& left.env@ == right.env@
            &&& left.priority == right.priority
            &&& left.profile == right.profile
            &&& left.rust_codegen_backend == right.rust_codegen_backend
            &&& left.resources@ == right.resources@
            &&& texts(left.locks@) == texts(right.locks@)
            &&& exclusive_reason(left.exclusive) == exclusive_reason(right.exclusive)
            &&& left.timeout_seconds == right.timeout_seconds
            &&& left.retry_on_runner_restart == right.retry_on_runner_restart
            &&& left.output_ttl_seconds == right.output_ttl_seconds
        },
        mine.eq_spec(&yours) <==> {
            &&& forall|name: Seq<char>|
                mine@.contains_key(name) <==> #[trigger] yours@.contains_key(name)
            &&& forall|name: Seq<char>| #[trigger]
                yours@.contains_key(name) ==> mine@[name] == yours@[name]
        },
{
    if forall|name: Seq<char>| mine@.contains_key(name) <==> #[trigger] yours@.contains_key(name) {
        if forall|name: Seq<char>| #[trigger]
            yours@.contains_key(name) ==> mine@[name] == yours@[name] {
            assert(mine@ =~= yours@);
        }
    }
}

} // verus!
