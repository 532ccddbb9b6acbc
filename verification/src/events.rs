//! The durable record of a job's life.

use crate::ids::{ulid_string, ulid_text, JobId};
use crate::protocol::{JobEvent, JobState, Timestamp, EVENT_SCHEMA};
use crate::text::{copy_optional, lower, lowercase, optional_text};
use vstd::prelude::*;
use vstd::string::StringExecFns;

verus! {

/// A change of a job's state that is to be recorded.
#[derive(Debug, PartialEq, Eq)]
pub struct StateNotice {
    pub job: JobId,
    pub state: JobState,
    pub detail: Option<String>,
    pub exit_code: Option<i32>,
    pub last_sequence: Option<u64>,
}

/// What a [`StateNotice`] holds.
#[verifier::ext_equal]
pub struct StateNoticeView {
    pub job: JobId,
    pub state: JobState,
    pub detail: Option<Seq<char>>,
    pub exit_code: Option<i32>,
    pub last_sequence: Option<u64>,
}

impl View for StateNotice {
    type V = StateNoticeView;

    open spec fn view(&self) -> StateNoticeView {
        StateNoticeView {
            job: self.job,
            state: self.state,
            detail: optional_text(self.detail),
            exit_code: self.exit_code,
            last_sequence: self.last_sequence,
        }
    }
}

/// What a [`JobEvent`] holds.
#[verifier::ext_equal]
pub struct JobEventView {
    pub schema: Seq<char>,
    pub id: JobId,
    pub job: JobId,
    pub runner: Seq<char>,
    pub state: JobState,
    pub timestamp: Timestamp,
    pub detail: Option<Seq<char>>,
    pub exit_code: Option<i32>,
    pub last_sequence: Option<u64>,
}

impl View for JobEvent {
    type V = JobEventView;

    open spec fn view(&self) -> JobEventView {
        JobEventView {
            schema: self.schema@,
            id: self.id,
            job: self.job,
            runner: self.runner@,
            state: self.state,
            timestamp: self.timestamp,
            detail: optional_text(self.detail),
            exit_code: self.exit_code,
            last_sequence: self.last_sequence,
        }
    }
}

/// The name of a state.
pub open spec fn state_text(state: JobState) -> Seq<char> {
    match state {
        JobState::Accepted => "Accepted"@,
        JobState::Queued => "Queued"@,
        JobState::Started => "Started"@,
        JobState::Interrupted => "Interrupted"@,
        JobState::Completed => "Completed"@,
        JobState::Failed => "Failed"@,
        JobState::Cancelled => "Cancelled"@,
        JobState::Rejected => "Rejected"@,
    }
}

/// The name of a state.
pub fn state_name(state: JobState) -> (name: &'static str)
    ensures
        name@ == state_text(state),
{
    match state {
        JobState::Accepted => "Accepted",
        JobState::Queued => "Queued",
        JobState::Started => "Started",
        JobState::Interrupted => "Interrupted",
        JobState::Completed => "Completed",
        JobState::Failed => "Failed",
        JobState::Cancelled => "Cancelled",
        JobState::Rejected => "Rejected",
    }
}

/// The words that accompany the record of a state, in small letters.
pub open spec fn state_summary(job: JobId, state: JobState) -> Seq<char> {
    lower("job "@ + ulid_text(job) + " "@ + state_text(state))
}

/// The words that accompany the record of a state.
pub fn summarize_state(job: JobId, state: JobState) -> (summary: String)
    ensures
        summary@ == state_summary(job, state),
{
    let mut summary = "job ".to_owned();
    summary.append(ulid_string(job).as_str());
    summary.append(" ");
    summary.append(state_name(state));
    lowercase(summary.as_str())
}

/// The record of the notice under this identifier and at this moment.
pub open spec fn event_of(
    runner: Seq<char>,
    notice: StateNoticeView,
    id: JobId,
    timestamp: Timestamp,
) -> JobEventView {
    JobEventView {
        schema: EVENT_SCHEMA@,
        id,
        job: notice.job,
        runner,
        state: notice.state,
        timestamp,
        detail: notice.detail,
        exit_code: notice.exit_code,
        last_sequence: notice.last_sequence,
    }
}

/// Records the notice under this identifier and at this moment.
pub fn lifecycle_event_at(
    runner: &str,
    notice: &StateNotice,
    id: JobId,
    timestamp: Timestamp,
) -> (event: JobEvent)
    ensures
        event@ == event_of(runner@, notice@, id, timestamp),
{
    JobEvent {
        schema: EVENT_SCHEMA.to_owned(),
        id,
        job: notice.job,
        runner: runner.to_owned(),
        state: notice.state,
        timestamp,
        detail: copy_optional(&notice.detail),
        exit_code: notice.exit_code,
        last_sequence: notice.last_sequence,
    }
}

} // verus!
