//! What the runner tells the board.

use crate::cli::Config;
use crate::clock::utc_now;
use crate::events::{
    event_of, lifecycle_event_at, state_summary, summarize_state, JobEventView, StateNotice,
    StateNoticeView,
};
use crate::ids::{new_ulid, JobId};
use crate::output::{
    document_of, output_document_at, JobOutputView, OutputNotice, OutputNoticeView,
};
use crate::protocol::{JobEvent, JobOutput, Timestamp};
use crate::text::texts;
use vstd::prelude::*;
use vstd::string::StringExecFns;

verus! {

/// The group that jobs are submitted to and that their states are recorded in.
pub const RUNNER_GROUP: &'static str = "zrunner";

/// How many messages of the group's history are asked for.
pub const HISTORY_LIMIT: u64 = 1000;

/// Something that the board is told to do.
#[derive(Debug, PartialEq, Eq)]
pub enum BoardCommand {
    CreateGroup { name: String },
    JoinGroup { name: String },
    History { group: String, limit: u64 },
    SendEvent { group: String, message: String, event: JobEvent },
    SendOutput { group: String, message: String, output: JobOutput, ttl_seconds: u64 },
}

/// What a [`BoardCommand`] holds.
pub enum BoardCommandView {
    CreateGroup { name: Seq<char> },
    JoinGroup { name: Seq<char> },
    History { group: Seq<char>, limit: u64 },
    SendEvent { group: Seq<char>, message: Seq<char>, event: JobEventView },
    SendOutput { group: Seq<char>, message: Seq<char>, output: JobOutputView, ttl_seconds: u64 },
}

impl View for BoardCommand {
    type V = BoardCommandView;

    open spec fn view(&self) -> BoardCommandView {
        match self {
            BoardCommand::CreateGroup { name } => BoardCommandView::CreateGroup { name: name@ },
            BoardCommand::JoinGroup { name } => BoardCommandView::JoinGroup { name: name@ },
            BoardCommand::History { group, limit } => BoardCommandView::History {
                group: group@,
                limit: *limit,
            },
            BoardCommand::SendEvent { group, message, event } => BoardCommandView::SendEvent {
                group: group@,
                message: message@,
                event: event@,
            },
            BoardCommand::SendOutput { group, message, output, ttl_seconds } =>
            BoardCommandView::SendOutput {
                group: group@,
                message: message@,
                output: output@,
                ttl_seconds: *ttl_seconds,
            },
        }
    }
}

/// What the commands hold.
pub open spec fn commands_view(commands: Seq<BoardCommand>) -> Seq<BoardCommandView> {
    Seq::new(commands.len(), |i: int| commands[i]@)
}

/// What the runner tells the board first: it makes and joins its group, and asks for the history of
/// that group alone, which no job's output fills.
pub fn opening_commands() -> (commands: Vec<BoardCommand>)
    ensures
        commands_view(commands@) == seq![
            BoardCommandView::CreateGroup { name: RUNNER_GROUP@ },
            BoardCommandView::JoinGroup { name: RUNNER_GROUP@ },
            BoardCommandView::History { group: RUNNER_GROUP@, limit: HISTORY_LIMIT },
        ],
{
    let mut commands: Vec<BoardCommand> = Vec::new();
    commands.push(BoardCommand::CreateGroup { name: RUNNER_GROUP.to_owned() });
    commands.push(BoardCommand::JoinGroup { name: RUNNER_GROUP.to_owned() });
    commands.push(BoardCommand::History { group: RUNNER_GROUP.to_owned(), limit: HISTORY_LIMIT });
    commands
}

/// The command that records the notice under this identifier and at this moment.
pub open spec fn recording(
    runner: Seq<char>,
    notice: StateNoticeView,
    id: JobId,
    timestamp: Timestamp,
) -> BoardCommandView {
    BoardCommandView::SendEvent {
        group: RUNNER_GROUP@,
        message: state_summary(notice.job, notice.state),
        event: event_of(runner, notice, id, timestamp),
    }
}

/// The command that records the notice under this identifier and at this moment.
pub fn event_command_at(
    runner: &str,
    notice: &StateNotice,
    id: JobId,
    timestamp: Timestamp,
) -> (command: BoardCommand)
    ensures
        command@ == recording(runner@, notice@, id, timestamp),
{
    BoardCommand::SendEvent {
        group: RUNNER_GROUP.to_owned(),
        message: summarize_state(notice.job, notice.state),
        event: lifecycle_event_at(runner, notice, id, timestamp),
    }
}

/// The command that records the notice under a fresh identifier and at the present moment.
pub fn event_command(runner: &str, notice: &StateNotice) -> (command: BoardCommand)
    ensures
        exists|id: JobId, timestamp: Timestamp| #[trigger]
            recording(runner@, notice@, id, timestamp) == command@ && timestamp.seconds >= 0
                && timestamp.nanos < 1_000_000_000,
{
    event_command_at(runner, notice, new_ulid(), utc_now())
}

/// The command that publishes the piece of output at this moment.
pub open spec fn publication(notice: OutputNoticeView, timestamp: Timestamp) -> BoardCommandView {
    BoardCommandView::SendOutput {
        group: notice.group,
        message: notice.summary,
        output: document_of(notice, timestamp),
        ttl_seconds: notice.ttl_seconds,
    }
}

/// The command that publishes the piece of output at this moment.
pub fn output_command_at(notice: &OutputNotice, timestamp: Timestamp) -> (command: BoardCommand)
    ensures
        command@ == publication(notice@, timestamp),
{
    BoardCommand::SendOutput {
        group: notice.group.clone(),
        message: notice.summary.clone(),
        output: output_document_at(notice, timestamp),
        ttl_seconds: notice.ttl_seconds,
    }
}

/// The command that publishes the piece of output at the present moment.
pub fn output_command(notice: &OutputNotice) -> (command: BoardCommand)
    ensures
        exists|timestamp: Timestamp| #[trigger]
            publication(notice@, timestamp) == command@ && timestamp.seconds >= 0
                && timestamp.nanos < 1_000_000_000,
{
    output_command_at(notice, utc_now())
}

/// The name of the file that a runner locks while it runs.
pub fn lock_name(runner: &str) -> (name: String)
    ensures
        name@ == "zrunner-"@ + runner@ + ".lock"@,
{
    let mut name = "zrunner-".to_owned();
    name.append(runner);
    name.append(".lock");
    name
}

/// The arguments that the board's program is started with.
pub fn board_arguments(config: &Config, path: &str) -> (arguments: Vec<String>)
    ensures
        texts(arguments@) == seq![
            "run"@,
            "--root"@,
            config.board_root@,
            "--project"@,
            "zrunner"@,
            "--session"@,
            config.runner@,
            "--path"@,
            path@,
        ],
{
    let mut arguments: Vec<String> = Vec::new();
    arguments.push("run".to_owned());
    arguments.push("--root".to_owned());
    arguments.push(config.board_root.clone());
    arguments.push("--project".to_owned());
    arguments.push("zrunner".to_owned());
    arguments.push("--session".to_owned());
    arguments.push(config.runner.clone());
    arguments.push("--path".to_owned());
    arguments.push(path.to_owned());
    arguments
}

} // verus!
