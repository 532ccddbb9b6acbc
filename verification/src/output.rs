//! What a command writes: how it is gathered, numbered and written down as text.

use crate::clock::{elapsed, elapsed_between};
use crate::ids::{ulid_string, ulid_text, JobId};
use crate::protocol::{
    Job, JobOutput, JobView, OutputEncoding, OutputStream, Timestamp, OUTPUT_SCHEMA,
};
use crate::text::{decimal, decimal_of};
use vstd::prelude::*;
use vstd::string::StringExecFns;
use vstd::utf8::{decode_utf8, encode_utf8, valid_utf8};

verus! {

/// A stream that has gathered this many bytes is published at once.
pub const FLUSH_BYTES: usize = 262144;

/// Bytes that have waited for this many nanoseconds since the stream was last published are due.
pub const FLUSH_AFTER: u64 = 2_000_000_000;

// ---------------------------------------------------------------------------
// Bytes as text
// ---------------------------------------------------------------------------

/// A digit of the standard Base64 alphabet: the capital letters, the small letters, the decimal
/// digits, `+` and `/`.
pub open spec fn base64_digit(digit: int) -> char {
    if digit < 26 {
        (65 + digit) as char
    } else if digit < 52 {
        (71 + digit) as char
    } else if digit < 62 {
        (digit - 4) as char
    } else if digit == 62 {
        '+'
    } else {
        '/'
    }
}

/// The standard Base64 text of the bytes: four digits for every three bytes, and `=` for the
/// digits that a last group of one or two bytes lacks.
pub open spec fn base64_text(bytes: Seq<u8>) -> Seq<char>
    decreases bytes.len(),
{
    if bytes.len() == 0 {
        Seq::empty()
    } else if bytes.len() == 1 {
        let group = bytes[0] * 0x10000;
        seq![base64_digit(group / 0x40000), base64_digit(group / 0x1000 % 64), '=', '=']
    } else if bytes.len() == 2 {
        let group = bytes[0] * 0x10000 + bytes[1] * 0x100;
        seq![
            base64_digit(group / 0x40000),
            base64_digit(group / 0x1000 % 64),
            base64_digit(group / 64 % 64),
            '=',
        ]
    } else {
        let group = bytes[0] * 0x10000 + bytes[1] * 0x100 + bytes[2];
        seq![
            base64_digit(group / 0x40000),
            base64_digit(group / 0x1000 % 64),
            base64_digit(group / 64 % 64),
            base64_digit(group % 64),
        ] + base64_text(bytes.skip(3))
    }
}

/// `base64::Engine::encode`, on the engine `base64::engine::general_purpose::STANDARD`, writes the
/// bytes in the standard alphabet with padding. The bound leaves out inputs whose text would not
/// fit in memory.
#[verifier::external_body]
pub(crate) fn base64_encode(bytes: &[u8]) -> (text: String)
    requires
        bytes@.len() <= isize::MAX / 2,
    ensures
        text@ == base64_text(bytes@),
{
    base64::Engine::encode(&base64::engine::general_purpose::STANDARD, bytes)
}

/// `std::str::from_utf8` reads the bytes as UTF-8, where they are UTF-8.
#[verifier::external_body]
pub(crate) fn utf8_text(bytes: &[u8]) -> (text: Option<String>)
    ensures
        match text {
            Some(string) => valid_utf8(bytes@) && string@ == decode_utf8(bytes@),
            None => !valid_utf8(bytes@),
        },
{
    match std::str::from_utf8(bytes) {
        Ok(text) => Some(text.to_owned()),
        Err(_) => None,
    }
}

/// How the bytes are written down: as they are where they are UTF-8, and in Base64 otherwise.
pub open spec fn payload(bytes: Seq<u8>) -> (OutputEncoding, Seq<char>) {
    if valid_utf8(bytes) {
        (OutputEncoding::Utf8, decode_utf8(bytes))
    } else {
        (OutputEncoding::Base64, base64_text(bytes))
    }
}

/// Writes the bytes down.
pub fn encode_output(bytes: &Vec<u8>) -> (written: (OutputEncoding, String))
    requires
        bytes@.len() <= isize::MAX / 2,
    ensures
        (written.0, written.1@) == payload(bytes@),
{
    match utf8_text(bytes.as_slice()) {
        Some(text) => (OutputEncoding::Utf8, text),
        None => (OutputEncoding::Base64, base64_encode(bytes.as_slice())),
    }
}

proof fn lemma_digits_differ(left: int, right: int)
    requires
        0 <= left < 64,
        0 <= right < 64,
        base64_digit(left) == base64_digit(right),
    ensures
        left == right,
        base64_digit(left) != '=',
{
}

/// The first, second and third byte of a group, zero where it has none.
spec fn group_byte(bytes: Seq<u8>, place: int) -> int {
    if place < bytes.len() {
        bytes[place] as int
    } else {
        0
    }
}

/// The 24 bits of a text's first group.
spec fn first_group(bytes: Seq<u8>) -> int {
    group_byte(bytes, 0) * 0x10000 + group_byte(bytes, 1) * 0x100 + group_byte(bytes, 2)
}

proof fn lemma_group_digits(left: int, right: int)
    requires
        0 <= left < 0x1000000,
        0 <= right < 0x1000000,
        left / 0x40000 == right / 0x40000,
        left / 0x1000 % 64 == right / 0x1000 % 64,
        left / 64 % 64 == right / 64 % 64,
        left % 64 == right % 64,
    ensures
        left == right,
{
}

proof fn lemma_group_bytes(left: Seq<u8>, right: Seq<u8>)
    requires
        first_group(left) == first_group(right),
    ensures
        forall|place: int| 0 <= place < 3 ==> group_byte(left, place) == group_byte(right, place),
{
}

proof fn lemma_short_groups(bytes: Seq<u8>)
    ensures
        0 <= first_group(bytes) < 0x1000000,
        bytes.len() < 3 ==> first_group(bytes) % 64 == 0,
        bytes.len() < 2 ==> first_group(bytes) / 64 % 64 == 0,
{
}

proof fn lemma_base64_starts(bytes: Seq<u8>)
    requires
        bytes.len() > 0,
    ensures
        base64_text(bytes).len() >= 4,
        base64_text(bytes)[0] == base64_digit(first_group(bytes) / 0x40000),
        base64_text(bytes)[1] == base64_digit(first_group(bytes) / 0x1000 % 64),
        base64_text(bytes)[2] == if bytes.len() > 1 {
            base64_digit(first_group(bytes) / 64 % 64)
        } else {
            '='
        },
        base64_text(bytes)[3] == if bytes.len() > 2 {
            base64_digit(first_group(bytes) % 64)
        } else {
            '='
        },
        bytes.len() > 2 ==> base64_text(bytes).skip(4) == base64_text(bytes.skip(3)),
        bytes.len() <= 2 ==> base64_text(bytes).len() == 4,
{
    if bytes.len() > 2 {
        assert(base64_text(bytes).skip(4) =~= base64_text(bytes.skip(3)));
    }
}

/// The first groups of equal texts are equal, and equally long where they are short.
proof fn lemma_first_groups(left: Seq<u8>, right: Seq<u8>)
    requires
        left.len() > 0,
        right.len() > 0,
        base64_text(left) == base64_text(right),
    ensures
        first_group(left) == first_group(right),
        left.len() == 1 <==> right.len() == 1,
        left.len() == 2 <==> right.len() == 2,
{
    lemma_base64_starts(left);
    lemma_base64_starts(right);
    lemma_short_groups(left);
    lemma_short_groups(right);
    let l = first_group(left);
    let r = first_group(right);
    lemma_digits_differ(l / 64 % 64, l / 64 % 64);
    lemma_digits_differ(r / 64 % 64, r / 64 % 64);
    lemma_digits_differ(l % 64, l % 64);
    lemma_digits_differ(r % 64, r % 64);
    lemma_digits_differ(l / 0x40000, r / 0x40000);
    lemma_digits_differ(l / 0x1000 % 64, r / 0x1000 % 64);
    if left.len() > 1 {
        lemma_digits_differ(l / 64 % 64, r / 64 % 64);
    }
    if left.len() > 2 {
        lemma_digits_differ(l % 64, r % 64);
    }
    lemma_group_digits(l, r);
}

/// Different bytes have different Base64 texts: nothing is lost in the text.
pub proof fn base64_text_determines_the_bytes(left: Seq<u8>, right: Seq<u8>)
    requires
        base64_text(left) == base64_text(right),
    ensures
        left == right,
    decreases left.len(),
{
    if left.len() > 0 {
        lemma_base64_starts(left);
    }
    if right.len() > 0 {
        lemma_base64_starts(right);
    }
    if left.len() > 0 && right.len() > 0 {
        lemma_first_groups(left, right);
        lemma_group_bytes(left, right);
        if left.len() > 2 {
            base64_text_determines_the_bytes(left.skip(3), right.skip(3));
            assert(left.len() == right.len());
            assert forall|i: int| 0 <= i < left.len() implies left[i] == right[i] by {
                if i < 3 {
                    assert(group_byte(left, i) == group_byte(right, i));
                } else {
                    assert(left.skip(3)[i - 3] == right.skip(3)[i - 3]);
                }
            }
        } else {
            assert(group_byte(left, 0) == group_byte(right, 0));
            assert(group_byte(left, 1) == group_byte(right, 1));
        }
    }
    assert(left =~= right);
}

/// What is written down determines the bytes: readers get back exactly what the command wrote.
pub proof fn payload_determines_the_bytes(left: Seq<u8>, right: Seq<u8>)
    requires
        payload(left) == payload(right),
    ensures
        left == right,
{
    if valid_utf8(left) {
        vstd::utf8::decode_utf8_encode_utf8(left);
        vstd::utf8::decode_utf8_encode_utf8(right);
        assert(encode_utf8(decode_utf8(left)) == encode_utf8(decode_utf8(right)));
    } else {
        base64_text_determines_the_bytes(left, right);
    }
}

// ---------------------------------------------------------------------------
// Gathering
// ---------------------------------------------------------------------------

/// The bytes of a stream that are not published yet.
#[derive(Debug, PartialEq, Eq)]
pub struct OutputBuffer {
    pub bytes: Vec<u8>,
    pub last_flush: u64,
}

/// What an [`OutputBuffer`] holds.
#[verifier::ext_equal]
pub struct BufferView {
    pub bytes: Seq<u8>,
    pub last_flush: u64,
}

impl View for OutputBuffer {
    type V = BufferView;

    open spec fn view(&self) -> BufferView {
        BufferView { bytes: self.bytes@, last_flush: self.last_flush }
    }
}

impl BufferView {
    /// A buffer that has gathered nothing.
    pub open spec fn empty(now: u64) -> BufferView {
        BufferView { bytes: Seq::empty(), last_flush: now }
    }

    /// The buffer with more bytes behind its own.
    pub open spec fn gathered(self, bytes: Seq<u8>) -> BufferView {
        BufferView { bytes: self.bytes + bytes, last_flush: self.last_flush }
    }

    /// The buffer once it is published; one that holds nothing is left as it is.
    pub open spec fn flushed(self, now: u64) -> BufferView {
        if self.bytes.len() == 0 {
            self
        } else {
            BufferView::empty(now)
        }
    }

    /// Whether the buffer holds so much that it is published at once.
    pub open spec fn full(self) -> bool {
        self.bytes.len() >= FLUSH_BYTES
    }

    /// Whether the buffer holds something and has not been published for a while.
    pub open spec fn due(self, now: u64) -> bool {
        self.bytes.len() > 0 && elapsed(self.last_flush, now) >= FLUSH_AFTER
    }
}

impl OutputBuffer {
    /// A buffer that has gathered nothing.
    pub fn new(now: u64) -> (buffer: Self)
        ensures
            buffer@ == BufferView::empty(now),
    {
        OutputBuffer { bytes: Vec::new(), last_flush: now }
    }

    /// Adds bytes behind those that are there.
    pub fn gather(&mut self, bytes: Vec<u8>)
        ensures
            final(self)@ == old(self)@.gathered(bytes@),
    {
        let mut more = bytes;
        self.bytes.append(&mut more);
    }

    /// Whether the buffer holds so much that it is published at once.
    pub fn is_full(&self) -> (full: bool)
        ensures
            full == self@.full(),
    {
        self.bytes.len() >= FLUSH_BYTES
    }

    /// Whether the buffer holds something and has not been published for a while.
    pub fn is_due(&self, now: u64) -> (due: bool)
        ensures
            due == self@.due(now),
    {
        self.bytes.len() > 0 && elapsed_between(self.last_flush, now) >= FLUSH_AFTER
    }

    /// Empties the buffer and hands out what it held, where it held anything.
    pub fn take(&mut self, now: u64) -> (bytes: Option<Vec<u8>>)
        ensures
            final(self)@ == old(self)@.flushed(now),
            match bytes {
                Some(taken) => taken@ == old(self)@.bytes && taken@.len() > 0,
                None => old(self)@.bytes.len() == 0,
            },
    {
        if self.bytes.len() == 0 {
            return None;
        }
        let mut taken: Vec<u8> = Vec::new();
        std::mem::swap(&mut taken, &mut self.bytes);
        self.last_flush = now;
        assert(self@ =~= BufferView::empty(now));
        Some(taken)
    }
}

// ---------------------------------------------------------------------------
// Publishing
// ---------------------------------------------------------------------------

/// A piece of output that is to be published.
#[derive(Debug, PartialEq, Eq)]
pub struct OutputNotice {
    pub group: String,
    pub summary: String,
    pub job: JobId,
    pub sequence: u64,
    pub stream: OutputStream,
    pub encoding: OutputEncoding,
    pub data: String,
    pub ttl_seconds: u64,
}

/// What an [`OutputNotice`] holds.
#[verifier::ext_equal]
pub struct OutputNoticeView {
    pub group: Seq<char>,
    pub summary: Seq<char>,
    pub job: JobId,
    pub sequence: u64,
    pub stream: OutputStream,
    pub encoding: OutputEncoding,
    pub data: Seq<char>,
    pub ttl_seconds: u64,
}

impl View for OutputNotice {
    type V = OutputNoticeView;

    open spec fn view(&self) -> OutputNoticeView {
        OutputNoticeView {
            group: self.group@,
            summary: self.summary@,
            job: self.job,
            sequence: self.sequence,
            stream: self.stream,
            encoding: self.encoding,
            data: self.data@,
            ttl_seconds: self.ttl_seconds,
        }
    }
}

/// The name of a stream.
pub open spec fn stream_text(stream: OutputStream) -> Seq<char> {
    match stream {
        OutputStream::Stdout => "Stdout"@,
        OutputStream::Stderr => "Stderr"@,
    }
}

/// The name of a stream.
pub fn stream_name(stream: OutputStream) -> (name: &'static str)
    ensures
        name@ == stream_text(stream),
{
    match stream {
        OutputStream::Stdout => "Stdout",
        OutputStream::Stderr => "Stderr",
    }
}

/// The words that accompany a piece of output.
pub open spec fn output_summary(job: JobId, stream: OutputStream, sequence: u64) -> Seq<char> {
    "job "@ + ulid_text(job) + " "@ + stream_text(stream) + " output #"@ + decimal(sequence as nat)
}

/// The words that accompany a piece of output.
pub fn summarize_output(job: JobId, stream: OutputStream, sequence: u64) -> (summary: String)
    ensures
        summary@ == output_summary(job, stream, sequence),
{
    let mut summary = "job ".to_owned();
    summary.append(ulid_string(job).as_str());
    summary.append(" ");
    summary.append(stream_name(stream));
    summary.append(" output #");
    summary.append(decimal_of(sequence).as_str());
    summary
}

/// The piece of output of this number that says what the job wrote.
pub open spec fn output_of(
    job: JobView,
    stream: OutputStream,
    sequence: u64,
    bytes: Seq<u8>,
) -> OutputNoticeView {
    OutputNoticeView {
        group: job.group,
        summary: output_summary(job.id, stream, sequence),
        job: job.id,
        sequence,
        stream,
        encoding: payload(bytes).0,
        data: payload(bytes).1,
        ttl_seconds: job.output_ttl_seconds,
    }
}

/// The piece of output of this number that says what the job wrote.
pub fn output_notice(
    job: &Job,
    stream: OutputStream,
    sequence: u64,
    bytes: &Vec<u8>,
) -> (notice: OutputNotice)
    requires
        bytes@.len() <= isize::MAX / 2,
    ensures
        notice@ == output_of(job@, stream, sequence, bytes@),
{
    let (encoding, data) = encode_output(bytes);
    OutputNotice {
        group: job.group.clone(),
        summary: summarize_output(job.id, stream, sequence),
        job: job.id,
        sequence,
        stream,
        encoding,
        data,
        ttl_seconds: job.output_ttl_seconds,
    }
}

/// What a [`JobOutput`] holds.
#[verifier::ext_equal]
pub struct JobOutputView {
    pub schema: Seq<char>,
    pub job: JobId,
    pub sequence: u64,
    pub stream: OutputStream,
    pub encoding: OutputEncoding,
    pub data: Seq<char>,
    pub timestamp: Timestamp,
}

impl View for JobOutput {
    type V = JobOutputView;

    open spec fn view(&self) -> JobOutputView {
        JobOutputView {
            schema: self.schema@,
            job: self.job,
            sequence: self.sequence,
            stream: self.stream,
            encoding: self.encoding,
            data: self.data@,
            timestamp: self.timestamp,
        }
    }
}

/// The document of a piece of output at this moment.
pub open spec fn document_of(notice: OutputNoticeView, timestamp: Timestamp) -> JobOutputView {
    JobOutputView {
        schema: OUTPUT_SCHEMA@,
        job: notice.job,
        sequence: notice.sequence,
        stream: notice.stream,
        encoding: notice.encoding,
        data: notice.data,
        timestamp,
    }
}

/// The document of the piece of output at this moment.
pub fn output_document_at(notice: &OutputNotice, timestamp: Timestamp) -> (document: JobOutput)
    ensures
        document@ == document_of(notice@, timestamp),
{
    JobOutput {
        schema: OUTPUT_SCHEMA.to_owned(),
        job: notice.job,
        sequence: notice.sequence,
        stream: notice.stream,
        encoding: notice.encoding,
        data: notice.data.clone(),
        timestamp,
    }
}

} // verus!
