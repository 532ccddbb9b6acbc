use zrunner::board::{
    history_replay_order, protocol_kind, protocol_message, read_line, sorted_history_protocols,
    BoardLine, ProtocolKind, ProtocolMessage,
};
use zrunner::protocol::{CONTROL_SCHEMA, EVENT_SCHEMA, JOB_SCHEMA};

fn value(text: &str) -> serde_json::Value {
    serde_json::from_str(text).unwrap()
}

#[test]
fn structured_meta_is_the_protocol_payload() {
    let message = r#"{
        "message":"queue job",
        "meta":{"schema":"zrunner.job.v1","id":"01M1WKTEST"}
    }"#;
    assert_eq!(
        protocol_message(message).map(|protocol| value(&protocol.value)),
        Some(value(r#"{"schema":"zrunner.job.v1","id":"01M1WKTEST"}"#))
    );
}

#[test]
fn legacy_json_string_remains_readable() {
    let message =
        r#"{"message":"{\"schema\":\"zrunner.control.v1\",\"action\":\"cancel\"}"}"#;
    assert_eq!(
        protocol_message(message).map(|protocol| value(&protocol.value)),
        Some(value(r#"{"schema":"zrunner.control.v1","action":"cancel"}"#))
    );
}

#[test]
fn history_replays_terminal_events_before_job_submissions() {
    let protocol = |schema: &str| ProtocolMessage {
        value: format!("{{\"schema\":\"{schema}\"}}"),
        from: None,
    };
    assert_eq!(history_replay_order(&protocol(EVENT_SCHEMA)), 0);
    assert_eq!(history_replay_order(&protocol(JOB_SCHEMA)), 1);
    assert_eq!(history_replay_order(&protocol(CONTROL_SCHEMA)), 2);
}

#[test]
fn live_protocols_wait_behind_complete_history_replay() {
    let history = vec![format!(
        "{{\"message\":\"old durable job\",\"meta\":{{\"schema\":\"{JOB_SCHEMA}\",\"id\":\"old-job\"}}}}"
    )];
    let pending = [ProtocolMessage {
        value: format!("{{\"schema\":\"{JOB_SCHEMA}\",\"id\":\"new-job\"}}"),
        from: Some("worka-test".to_owned()),
    }];
    let mut protocols = sorted_history_protocols(&history);
    protocols.extend(pending);

    assert_eq!(value(&protocols[0].value)["id"], "old-job");
    assert_eq!(value(&protocols[1].value)["id"], "new-job");
}

#[test]
fn senders_are_kept() {
    let message = r#"{"from":"worka-1","meta":{"schema":"x"},"message":"{\"schema\":\"y\"}"}"#;
    assert_eq!(
        protocol_message(message),
        Some(ProtocolMessage {
            value: r#"{"schema":"x"}"#.to_owned(),
            from: Some("worka-1".to_owned()),
        })
    );
    assert_eq!(
        protocol_message(r#"{"from":7,"meta":[1, 2]}"#),
        Some(ProtocolMessage { value: "[1,2]".to_owned(), from: None })
    );
}

#[test]
fn null_meta_gives_way_to_the_body() {
    assert_eq!(
        protocol_message(r#"{"meta":null,"message":" {\"schema\" : \"y\"} "}"#),
        Some(ProtocolMessage { value: r#"{"schema":"y"}"#.to_owned(), from: None })
    );
}

#[test]
fn messages_without_a_document_are_none() {
    for message in [
        r#"{"message":"plain words"}"#,
        r#"{"message":7}"#,
        r#"{"meta":null}"#,
        r#"{}"#,
        r#"[]"#,
        "no json",
    ] {
        assert_eq!(protocol_message(message), None, "{message}");
    }
}

#[test]
fn kinds_follow_the_schema() {
    let kind = |text: &str| {
        protocol_kind(&ProtocolMessage { value: text.to_owned(), from: None })
    };
    assert_eq!(kind(r#"{"schema":"zrunner.event.v1"}"#), ProtocolKind::Event);
    assert_eq!(kind(r#"{"schema":"zrunner.job.v1"}"#), ProtocolKind::Job);
    assert_eq!(kind(r#"{"schema":"zrunner.control.v1"}"#), ProtocolKind::Control);
    assert_eq!(kind(r#"{"schema":"zrunner.output.v1"}"#), ProtocolKind::Other);
    assert_eq!(kind(r#"{"schema":1}"#), ProtocolKind::Other);
    assert_eq!(kind("7"), ProtocolKind::Other);
    let other = ProtocolMessage { value: "7".to_owned(), from: None };
    assert_eq!(history_replay_order(&other), 3);
}

#[test]
fn replay_sorts_by_kind_and_keeps_the_order_of_equals() {
    let message = |schema: &str, id: u32| format!("{{\"meta\":{{\"schema\":\"{schema}\",\"id\":{id}}}}}");
    let history = vec![
        message(CONTROL_SCHEMA, 1),
        message("other", 2),
        message(JOB_SCHEMA, 3),
        message(EVENT_SCHEMA, 4),
        "{\"message\":\"words\"}".to_owned(),
        message(JOB_SCHEMA, 5),
        message(EVENT_SCHEMA, 6),
        message("other", 7),
        message(CONTROL_SCHEMA, 8),
    ];
    let ids: Vec<u64> = sorted_history_protocols(&history)
        .iter()
        .map(|protocol| value(&protocol.value)["id"].as_u64().unwrap())
        .collect();
    assert_eq!(ids, [4, 6, 3, 5, 1, 8, 2, 7]);
}

#[test]
fn lines_are_told_apart_by_their_type() {
    assert_eq!(read_line("no json"), BoardLine::Invalid);
    assert_eq!(read_line(r#"{"type":"ready"}"#), BoardLine::Other);
    assert_eq!(read_line(r#"{"kind":"message"}"#), BoardLine::Other);
    assert_eq!(
        read_line(r#"{"type":"error", "why": "x"}"#),
        BoardLine::Error(r#"{"type":"error","why":"x"}"#.to_owned())
    );
    assert_eq!(read_line(r#"{"type":"message"}"#), BoardLine::Message(None));
    assert_eq!(
        read_line(r#"{"type":"message","message":{"from":"a-1","meta":{"k":1}}}"#),
        BoardLine::Message(Some(ProtocolMessage {
            value: r#"{"k":1}"#.to_owned(),
            from: Some("a-1".to_owned()),
        }))
    );
    assert_eq!(read_line(r#"{"type":"history"}"#), BoardLine::History(Vec::new()));
    assert_eq!(read_line(r#"{"type":"history","messages":3}"#), BoardLine::History(Vec::new()));
    assert_eq!(
        read_line(r#"{"type":"history","messages":[{"meta":1},{"message":"x"},{"meta":{"schema":"zrunner.job.v1"}}]}"#),
        BoardLine::History(vec![
            ProtocolMessage { value: r#"{"schema":"zrunner.job.v1"}"#.to_owned(), from: None },
            ProtocolMessage { value: "1".to_owned(), from: None },
        ])
    );
}
