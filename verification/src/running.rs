//! A job whose command runs.

use crate::clock::{elapsed_between, MILLISECOND, SECOND};
use crate::events::StateNotice;
use crate::output::{output_notice, OutputBuffer, OutputNotice, OutputNoticeView};
use crate::process::{process_groups_have_live_members, ProcessStat};
use crate::protocol::{Job, JobState, OutputStream};
use crate::supervision::{RunningView, Signal, TerminationView, TERMINATION_GRACE};
use crate::text::decimal_of;
use std::collections::HashSet;
use vstd::prelude::*;
use vstd::string::StringExecFns;

verus! {

broadcast use vstd::std_specs::hash::group_hash_axioms;

/// How a running job was told to end.
#[derive(Debug)]
pub struct Termination {
    pub sent_at: u64,
    pub state: JobState,
    pub process_groups: HashSet<i32>,
}

impl View for Termination {
    type V = TerminationView;

    open spec fn view(&self) -> TerminationView {
        TerminationView {
            sent_at: self.sent_at,
            state: self.state,
            process_groups: self.process_groups@,
        }
    }
}

/// What an optional [`Termination`] holds.
pub open spec fn optional_termination(termination: Option<Termination>) -> Option<
    TerminationView,
> {
    match termination {
        Some(inner) => Some(inner@),
        None => None,
    }
}

/// A job whose command runs.
#[derive(Debug)]
pub struct RunningJob {
    pub job: Job,
    pub started: u64,
    pub sequence: u64,
    pub stdout: OutputBuffer,
    pub stderr: OutputBuffer,
    pub streams_open: usize,
    pub termination: Option<Termination>,
}

impl View for RunningJob {
    type V = RunningView;

    open spec fn view(&self) -> RunningView {
        RunningView {
            job: self.job@,
            started: self.started,
            sequence: self.sequence,
            stdout: self.stdout@,
            stderr: self.stderr@,
            streams_open: self.streams_open,
            termination: optional_termination(self.termination),
        }
    }
}

/// The piece of output that is published, if any.
pub open spec fn optional_output(notice: Option<OutputNotice>) -> Seq<OutputNoticeView> {
    match notice {
        Some(inner) => seq![inner@],
        None => Seq::empty(),
    }
}

/// What the pieces of output hold.
pub open spec fn outputs_view(notices: Seq<OutputNotice>) -> Seq<OutputNoticeView> {
    Seq::new(notices.len(), |i: int| notices[i]@)
}

/// Appends the piece of output, if any.
pub(crate) fn push_output(notices: &mut Vec<OutputNotice>, notice: Option<OutputNotice>)
    ensures
        outputs_view(final(notices)@) == outputs_view(old(notices)@) + optional_output(notice),
{
    let ghost before = outputs_view(notices@);
    match notice {
        Some(inner) => {
            let ghost view = inner@;
            notices.push(inner);
            assert(outputs_view(notices@) =~= before + seq![view]);
        },
        None => {
            assert(outputs_view(notices@) =~= before + Seq::<OutputNoticeView>::empty());
        },
    }
}

impl RunningJob {
    /// A job whose command has just started.
    pub fn new(job: Job, now: u64) -> (running: Self)
        ensures
            running@ == RunningView::fresh(job@, now),
    {
        RunningJob {
            job,
            started: now,
            sequence: 0,
            stdout: OutputBuffer::new(now),
            stderr: OutputBuffer::new(now),
            streams_open: 2,
            termination: None,
        }
    }

    /// Publishes what the stream gathered under the next number.
    pub fn flush(&mut self, stream: OutputStream, now: u64) -> (notice: Option<OutputNotice>)
        requires
            old(self)@.sequence < u64::MAX,
            old(self)@.buffer(stream).bytes.len() <= isize::MAX / 2,
        ensures
            final(self)@ == old(self)@.flushed(stream, now),
            optional_output(notice) == old(self)@.flush_notices(stream),
    {
        let taken = match stream {
            OutputStream::Stdout => self.stdout.take(now),
            OutputStream::Stderr => self.stderr.take(now),
        };
        match taken {
            None => None,
            Some(bytes) => {
                self.sequence = self.sequence + 1;
                Some(output_notice(&self.job, stream, self.sequence, &bytes))
            },
        }
    }

    /// Gathers what the command wrote, and publishes the stream once it holds enough.
    pub fn receive(&mut self, stream: OutputStream, bytes: Vec<u8>, now: u64) -> (notice: Option<
        OutputNotice,
    >)
        requires
            old(self)@.sequence < u64::MAX,
            old(self)@.buffer(stream).bytes.len() + bytes@.len() <= isize::MAX / 2,
        ensures
            final(self)@ == old(self)@.received(stream, bytes@, now),
            optional_output(notice) == old(self)@.receive_notices(stream, bytes@),
    {
        let full = match stream {
            OutputStream::Stdout => {
                self.stdout.gather(bytes);
                self.stdout.is_full()
            },
            OutputStream::Stderr => {
                self.stderr.gather(bytes);
                self.stderr.is_full()
            },
        };
        if full {
            self.flush(stream, now)
        } else {
            None
        }
    }

    /// Publishes the stream if it is due.
    pub fn check(&mut self, stream: OutputStream, now: u64) -> (notice: Option<OutputNotice>)
        requires
            old(self)@.sequence < u64::MAX,
            old(self)@.buffer(stream).bytes.len() <= isize::MAX / 2,
        ensures
            final(self)@ == old(self)@.checked(stream, now),
            optional_output(notice) == old(self)@.check_notices(stream, now),
    {
        let due = match stream {
            OutputStream::Stdout => self.stdout.is_due(now),
            OutputStream::Stderr => self.stderr.is_due(now),
        };
        if due {
            self.flush(stream, now)
        } else {
            None
        }
    }

    /// Counts a stream that has been closed.
    pub fn close_stream(&mut self)
        ensures
            final(self)@ == old(self)@.stream_closed(),
    {
        self.streams_open = self.streams_open.saturating_sub(1);
    }

    /// Notes that the job's processes in these groups were told to end, for it was cancelled.
    pub fn cancel(&mut self, process_groups: HashSet<i32>, now: u64)
        ensures
            final(self)@ == old(self)@.cancelled(process_groups@, now),
    {
        self.termination = Some(
            Termination { sent_at: now, state: JobState::Cancelled, process_groups },
        );
    }

    /// Notes that the job's processes in these groups were told to end, for it ran too long. A job
    /// that was told to end before is left as it is.
    pub fn time_out(&mut self, process_groups: HashSet<i32>, now: u64)
        ensures
            final(self)@ == old(self)@.timed_out(process_groups@, now),
    {
        if self.termination.is_none() {
            self.termination = Some(
                Termination { sent_at: now, state: JobState::Failed, process_groups },
            );
        }
    }

    /// What is to be done to the job's processes.
    pub fn signal(&self, now: u64) -> (signal: Signal)
        ensures
            signal == self@.signal(now),
    {
        match &self.termination {
            None => if elapsed_between(self.started, now) / SECOND >= self.job.timeout_seconds {
                Signal::Terminate
            } else {
                Signal::Leave
            },
            Some(termination) => if elapsed_between(termination.sent_at, now)
                >= TERMINATION_GRACE {
                Signal::Kill
            } else {
                Signal::Leave
            },
        }
    }

    /// Whether a process that was told to end is still there.
    pub fn is_lingering(&self, processes: &Vec<ProcessStat>) -> (lingers: bool)
        ensures
            lingers == self@.lingers(processes@),
    {
        match &self.termination {
            Some(termination) => process_groups_have_live_members(
                &termination.process_groups,
                processes,
            ),
            None => false,
        }
    }

    /// Publishes both streams and says how the job ended.
    pub fn end(&mut self, success: bool, code: Option<i32>, now: u64) -> (ended: (
        Vec<OutputNotice>,
        StateNotice,
    ))
        requires
            old(self)@.numbers_left(),
            !old(self)@.stdout.full(),
            !old(self)@.stderr.full(),
        ensures
            final(self)@ == old(self)@.all_flushed(now),
            outputs_view(ended.0@) == old(self)@.all_flush_notices(now),
            ended.1@ == old(self)@.final_notice(success, code, now),
    {
        let ghost before = self@;
        let mut outputs: Vec<OutputNotice> = Vec::new();
        let first = self.flush(OutputStream::Stdout, now);
        push_output(&mut outputs, first);
        let second = self.flush(OutputStream::Stderr, now);
        push_output(&mut outputs, second);
        assert(outputs_view(outputs@) =~= before.all_flush_notices(now));
        let state = match &self.termination {
            Some(termination) => termination.state,
            None => if success {
                JobState::Completed
            } else {
                JobState::Failed
            },
        };
        let mut detail = "elapsed_ms=".to_owned();
        detail.append(decimal_of(elapsed_between(self.started, now) / MILLISECOND).as_str());
        let notice = StateNotice {
            job: self.job.id,
            state,
            detail: Some(detail),
            exit_code: code,
            last_sequence: Some(self.sequence),
        };
        (outputs, notice)
    }
}

} // verus!
