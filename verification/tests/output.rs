use base64::Engine;
use zrunner::events::{summarize_state, StateNotice};
use zrunner::output::{
    encode_output, output_document_at, summarize_output, OutputBuffer, OutputNotice, FLUSH_AFTER,
    FLUSH_BYTES,
};
use zrunner::protocol::{JobState, OutputEncoding, OutputStream, Timestamp};
use zrunner::transport::{
    event_command, event_command_at, lock_name, opening_commands, output_command,
    output_command_at, BoardCommand,
};

#[test]
fn utf8_output_is_written_as_it_is() {
    let bytes = "warning: \u{201c}unused\u{201d}\n".as_bytes().to_vec();
    assert_eq!(
        encode_output(&bytes),
        (OutputEncoding::Utf8, "warning: \u{201c}unused\u{201d}\n".to_owned())
    );
    assert_eq!(encode_output(&Vec::new()), (OutputEncoding::Utf8, String::new()));
}

#[test]
fn other_output_is_written_in_base64() {
    assert_eq!(encode_output(&vec![0xff]), (OutputEncoding::Base64, "/w==".to_owned()));
    assert_eq!(encode_output(&vec![0xff, 0xfe]), (OutputEncoding::Base64, "//4=".to_owned()));
    assert_eq!(
        encode_output(&vec![0xff, 0x00, 0x10]),
        (OutputEncoding::Base64, "/wAQ".to_owned())
    );
    assert_eq!(
        encode_output(&vec![0xfb, 0xef, 0xbe, 0x41]),
        (OutputEncoding::Base64, "++++QQ==".to_owned())
    );
}

#[test]
fn base64_gives_back_every_byte() {
    for length in 1..70usize {
        let bytes: Vec<u8> = (0..length).map(|i| (255 - i * 7 % 256) as u8).collect();
        let (encoding, data) = encode_output(&bytes);
        assert_eq!(encoding, OutputEncoding::Base64);
        let decoded = base64::engine::general_purpose::STANDARD.decode(data).unwrap();
        assert_eq!(decoded, bytes);
    }
}

#[test]
fn a_cut_character_is_not_utf8() {
    let bytes = vec![b'a', 0xe2, 0x80];
    assert_eq!(encode_output(&bytes).0, OutputEncoding::Base64);
}

#[test]
fn buffers_are_due_after_two_seconds_and_full_at_256_kib() {
    let mut buffer = OutputBuffer::new(5);
    assert!(!buffer.is_due(5 + FLUSH_AFTER));
    buffer.gather(vec![1, 2]);
    assert!(!buffer.is_due(4 + FLUSH_AFTER));
    assert!(buffer.is_due(5 + FLUSH_AFTER));
    assert!(!buffer.is_due(0));
    assert!(!buffer.is_full());
    buffer.gather(vec![0; FLUSH_BYTES - 3]);
    assert!(!buffer.is_full());
    buffer.gather(vec![3]);
    assert!(buffer.is_full());
    let taken = buffer.take(9).unwrap();
    assert_eq!(taken.len(), 262_144);
    assert_eq!((taken[0], taken[1], taken[262_143]), (1, 2, 3));
    assert_eq!(buffer, OutputBuffer { bytes: Vec::new(), last_flush: 9 });
    assert_eq!(buffer.take(11), None);
    assert_eq!(buffer.last_flush, 9);
}

#[test]
fn summaries_name_the_job() {
    let job = 0x41414141414141414141414141414141;
    assert_eq!(
        summarize_output(job, OutputStream::Stderr, 12),
        "job 21850M2GA1850M2GA1850M2GA1 Stderr output #12"
    );
    assert_eq!(
        summarize_output(0, OutputStream::Stdout, 1),
        "job 00000000000000000000000000 Stdout output #1"
    );
    assert_eq!(
        summarize_state(job, JobState::Accepted),
        "job 21850m2ga1850m2ga1850m2ga1 accepted"
    );
    let words = [
        (JobState::Queued, "queued"),
        (JobState::Started, "started"),
        (JobState::Interrupted, "interrupted"),
        (JobState::Completed, "completed"),
        (JobState::Failed, "failed"),
        (JobState::Cancelled, "cancelled"),
        (JobState::Rejected, "rejected"),
    ];
    for (state, word) in words {
        assert_eq!(
            summarize_state(0, state),
            format!("job 00000000000000000000000000 {word}")
        );
    }
}

fn piece() -> OutputNotice {
    OutputNotice {
        group: "job-x".to_owned(),
        summary: "words".to_owned(),
        job: 5,
        sequence: 3,
        stream: OutputStream::Stderr,
        encoding: OutputEncoding::Utf8,
        data: "text".to_owned(),
        ttl_seconds: 60,
    }
}

#[test]
fn output_documents_hold_the_piece_and_the_moment() {
    let moment = Timestamp { seconds: 1_700_000_000, nanos: 7 };
    let document = output_document_at(&piece(), moment);
    assert_eq!(document.schema, "zrunner.output.v1");
    assert_eq!(document.job, 5);
    assert_eq!(document.sequence, 3);
    assert_eq!(document.stream, OutputStream::Stderr);
    assert_eq!(document.encoding, OutputEncoding::Utf8);
    assert_eq!(document.data, "text");
    assert_eq!(document.timestamp, moment);
    assert_eq!(
        output_command_at(&piece(), moment),
        BoardCommand::SendOutput {
            group: "job-x".to_owned(),
            message: "words".to_owned(),
            output: document,
            ttl_seconds: 60,
        }
    );
}

#[test]
fn commands_carry_the_present_moment_and_a_fresh_identifier() {
    let before = chrono::Utc::now().timestamp();
    let notice = StateNotice {
        job: 9,
        state: JobState::Failed,
        detail: Some("elapsed_ms=3".to_owned()),
        exit_code: Some(101),
        last_sequence: Some(4),
    };
    let first = event_command("debian1", &notice);
    let second = event_command("debian1", &notice);
    let after = chrono::Utc::now().timestamp();
    match (first, second) {
        (
            BoardCommand::SendEvent { group, message, event },
            BoardCommand::SendEvent { event: other, .. },
        ) => {
            assert_eq!(group, "zrunner");
            assert_eq!(message, "job 00000000000000000000000009 failed");
            assert_eq!(event.schema, "zrunner.event.v1");
            assert_eq!(event.job, 9);
            assert_eq!(event.runner, "debian1");
            assert_eq!(event.state, JobState::Failed);
            assert_eq!(event.detail.as_deref(), Some("elapsed_ms=3"));
            assert_eq!(event.exit_code, Some(101));
            assert_eq!(event.last_sequence, Some(4));
            assert!(before <= event.timestamp.seconds && event.timestamp.seconds <= after);
            assert!(event.timestamp.nanos < 1_000_000_000);
            assert_ne!(event.id, other.id);
            let made = ulid::Ulid(event.id).timestamp_ms() / 1000;
            assert!(before as u64 <= made && made <= after as u64);
        },
        _ => panic!("not an event"),
    }
    match output_command(&piece()) {
        BoardCommand::SendOutput { output, .. } => {
            assert!(before <= output.timestamp.seconds);
        },
        _ => panic!("not an output"),
    }
}

#[test]
fn event_commands_are_exact_at_a_given_moment() {
    let notice = StateNotice {
        job: 0,
        state: JobState::Queued,
        detail: None,
        exit_code: None,
        last_sequence: None,
    };
    let moment = Timestamp { seconds: 1, nanos: 2 };
    match event_command_at("mini", &notice, 77, moment) {
        BoardCommand::SendEvent { group, message, event } => {
            assert_eq!(group, "zrunner");
            assert_eq!(message, "job 00000000000000000000000000 queued");
            assert_eq!((event.id, event.timestamp), (77, moment));
            assert_eq!((event.detail, event.exit_code, event.last_sequence), (None, None, None));
        },
        _ => panic!("not an event"),
    }
}

#[test]
fn the_board_is_asked_for_the_runners_own_history() {
    assert_eq!(
        opening_commands(),
        [
            BoardCommand::CreateGroup { name: "zrunner".to_owned() },
            BoardCommand::JoinGroup { name: "zrunner".to_owned() },
            BoardCommand::History { group: "zrunner".to_owned(), limit: 1000 },
        ]
    );
    assert_eq!(lock_name("debian1"), "zrunner-debian1.lock");
}

#[test]
fn overlong_and_surrogate_bytes_are_not_utf8() {
    for bytes in [
        vec![0xc0, 0x80],
        vec![0xed, 0xa0, 0x80],
        vec![0xf4, 0x90, 0x80, 0x80],
        vec![0xe0, 0x80, 0x80],
        vec![0x80],
    ] {
        assert_eq!(encode_output(&bytes).0, OutputEncoding::Base64, "{bytes:?}");
    }
    let edge = "\u{80}\u{7ff}\u{800}\u{d7ff}\u{e000}\u{ffff}\u{10000}\u{10ffff}";
    assert_eq!(
        encode_output(&edge.as_bytes().to_vec()),
        (OutputEncoding::Utf8, edge.to_owned())
    );
}
