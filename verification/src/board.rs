//! What the message board hands the runner.

use crate::json::{
    get_items, get_member, get_string_member, json_items, json_member, json_value, parse_json,
    string_member,
};
use crate::protocol::{CONTROL_SCHEMA, EVENT_SCHEMA, JOB_SCHEMA};
use crate::text::{copy_optional, optional_text, same_text, slice_text, texts};
use vstd::prelude::*;

verus! {

/// A protocol document as the board delivers it: its JSON text, and who sent it.
#[derive(Debug, PartialEq, Eq)]
pub struct ProtocolMessage {
    pub value: String,
    pub from: Option<String>,
}

/// What a [`ProtocolMessage`] holds.
#[verifier::ext_equal]
pub struct ProtocolMessageView {
    pub value: Seq<char>,
    pub from: Option<Seq<char>>,
}

impl View for ProtocolMessage {
    type V = ProtocolMessageView;

    open spec fn view(&self) -> ProtocolMessageView {
        ProtocolMessageView { value: self.value@, from: optional_text(self.from) }
    }
}

impl Clone for ProtocolMessage {
    fn clone(&self) -> (copy: Self)
        ensures
            copy@ == self@,
    {
        ProtocolMessage { value: self.value.clone(), from: copy_optional(&self.from) }
    }
}

/// What the messages hold.
pub open spec fn messages_view(messages: Seq<ProtocolMessage>) -> Seq<ProtocolMessageView> {
    Seq::new(messages.len(), |i: int| messages[i]@)
}

/// What an optional message holds.
pub open spec fn optional_message(message: Option<ProtocolMessage>) -> Option<ProtocolMessageView> {
    match message {
        Some(inner) => Some(inner@),
        None => None,
    }
}

// ---------------------------------------------------------------------------
// From a board message to a protocol document
// ---------------------------------------------------------------------------

/// The protocol document of a board message: its structured part where there is one that is not
/// null, else the document that its body writes.
pub open spec fn document_of(
    meta: Option<Seq<char>>,
    body: Option<Seq<char>>,
    from: Option<Seq<char>>,
) -> Option<ProtocolMessageView> {
    if meta is Some && meta != Some("null"@) {
        Some(ProtocolMessageView { value: meta->0, from })
    } else {
        match body {
            Some(value) => Some(ProtocolMessageView { value, from }),
            None => None,
        }
    }
}

/// The protocol document of a board message with this structured part, this document in its body,
/// and this sender.
pub fn assemble_message(
    meta: Option<String>,
    body: Option<String>,
    from: Option<String>,
) -> (message: Option<ProtocolMessage>)
    ensures
        optional_message(message) == document_of(
            optional_text(meta),
            optional_text(body),
            optional_text(from),
        ),
{
    if let Some(value) = meta {
        if !same_text(value.as_str(), "null") {
            return Some(ProtocolMessage { value, from });
        }
    }
    match body {
        Some(value) => Some(ProtocolMessage { value, from }),
        None => None,
    }
}

/// The document that the body of a board message writes.
pub open spec fn body_document(message: Seq<char>) -> Option<Seq<char>> {
    match string_member(message, "message"@) {
        Some(body) => json_value(body),
        None => None,
    }
}

/// The protocol document that the JSON text of a board message holds.
pub open spec fn protocol_of(message: Seq<char>) -> Option<ProtocolMessageView> {
    document_of(
        json_member(message, "meta"@),
        body_document(message),
        string_member(message, "from"@),
    )
}

/// The protocol document that the JSON text of a board message holds.
pub fn protocol_message(message: &str) -> (protocol: Option<ProtocolMessage>)
    ensures
        optional_message(protocol) == protocol_of(message@),
{
    let meta = get_member(message, "meta");
    let body = match get_string_member(message, "message") {
        Some(body) => parse_json(body.as_str()),
        None => None,
    };
    let from = get_string_member(message, "from");
    assemble_message(meta, body, from)
}

/// A message's structured part is its document, whatever its body says.
pub proof fn structured_part_is_the_document(message: Seq<char>, meta: Seq<char>)
    requires
        json_member(message, "meta"@) == Some(meta),
        meta != "null"@,
    ensures
        protocol_of(message) == Some(
            ProtocolMessageView { value: meta, from: string_member(message, "from"@) },
        ),
{
}

/// A message without a structured part whose body writes a document remains readable.
pub proof fn documents_in_bodies_remain_readable(
    message: Seq<char>,
    body: Seq<char>,
    document: Seq<char>,
)
    requires
        json_member(message, "meta"@) is None || json_member(message, "meta"@) == Some("null"@),
        string_member(message, "message"@) == Some(body),
        json_value(body) == Some(document),
    ensures
        protocol_of(message) == Some(
            ProtocolMessageView { value: document, from: string_member(message, "from"@) },
        ),
{
}

// ---------------------------------------------------------------------------
// Kinds of documents, and the order in which history is replayed
// ---------------------------------------------------------------------------

/// The kinds of protocol documents that a runner reads.
#[derive(Clone, Copy, Debug, PartialEq, Eq, Structural)]
pub enum ProtocolKind {
    Event,
    Job,
    Control,
    Other,
}

/// The kind of the documents with this schema.
pub open spec fn kind_with(schema: Option<Seq<char>>) -> ProtocolKind {
    if schema == Some(EVENT_SCHEMA@) {
        ProtocolKind::Event
    } else if schema == Some(JOB_SCHEMA@) {
        ProtocolKind::Job
    } else if schema == Some(CONTROL_SCHEMA@) {
        ProtocolKind::Control
    } else {
        ProtocolKind::Other
    }
}

/// The kind of the documents with this schema.
pub fn schema_kind(schema: Option<&str>) -> (kind: ProtocolKind)
    ensures
        kind == kind_with(slice_text(schema)),
{
    match schema {
        None => ProtocolKind::Other,
        Some(name) => if same_text(name, EVENT_SCHEMA) {
            ProtocolKind::Event
        } else if same_text(name, JOB_SCHEMA) {
            ProtocolKind::Job
        } else if same_text(name, CONTROL_SCHEMA) {
            ProtocolKind::Control
        } else {
            ProtocolKind::Other
        },
    }
}

/// The kind of a document, by its JSON text.
pub open spec fn kind_of(value: Seq<char>) -> ProtocolKind {
    kind_with(string_member(value, "schema"@))
}

/// The kind of the document.
pub fn protocol_kind(protocol: &ProtocolMessage) -> (kind: ProtocolKind)
    ensures
        kind == kind_of(protocol@.value),
{
    match get_string_member(protocol.value.as_str(), "schema") {
        Some(schema) => schema_kind(Some(schema.as_str())),
        None => schema_kind(None),
    }
}

/// The rank of a kind in a replay: what became of jobs, then jobs, then changes to them, then the
/// rest.
pub open spec fn replay_rank(kind: ProtocolKind) -> u8 {
    match kind {
        ProtocolKind::Event => 0,
        ProtocolKind::Job => 1,
        ProtocolKind::Control => 2,
        ProtocolKind::Other => 3,
    }
}

/// The rank of documents of this kind in a replay.
pub fn kind_replay_order(kind: ProtocolKind) -> (rank: u8)
    ensures
        rank == replay_rank(kind),
{
    match kind {
        ProtocolKind::Event => 0,
        ProtocolKind::Job => 1,
        ProtocolKind::Control => 2,
        ProtocolKind::Other => 3,
    }
}

/// The rank of the document in a replay.
pub fn history_replay_order(protocol: &ProtocolMessage) -> (rank: u8)
    ensures
        rank == replay_rank(kind_of(protocol@.value)),
{
    kind_replay_order(protocol_kind(protocol))
}

/// A document with its kind.
#[derive(Debug, PartialEq, Eq)]
pub struct KindedMessage {
    pub kind: ProtocolKind,
    pub message: ProtocolMessage,
}

/// What a [`KindedMessage`] holds.
#[verifier::ext_equal]
pub struct KindedMessageView {
    pub kind: ProtocolKind,
    pub message: ProtocolMessageView,
}

impl View for KindedMessage {
    type V = KindedMessageView;

    open spec fn view(&self) -> KindedMessageView {
        KindedMessageView { kind: self.kind, message: self.message@ }
    }
}

/// What the documents with their kinds hold.
pub open spec fn kinded_view(messages: Seq<KindedMessage>) -> Seq<KindedMessageView> {
    Seq::new(messages.len(), |i: int| messages[i]@)
}

/// The documents of one kind, in the order in which they stand.
pub open spec fn of_kind(messages: Seq<KindedMessageView>, kind: ProtocolKind) -> Seq<
    ProtocolMessageView,
>
    decreases messages.len(),
{
    if messages.len() == 0 {
        Seq::empty()
    } else if messages.last().kind == kind {
        of_kind(messages.drop_last(), kind).push(messages.last().message)
    } else {
        of_kind(messages.drop_last(), kind)
    }
}

/// The documents in the order of a replay: by the rank of their kind, and among equals as they
/// stand.
pub open spec fn replay(messages: Seq<KindedMessageView>) -> Seq<ProtocolMessageView> {
    of_kind(messages, ProtocolKind::Event) + of_kind(messages, ProtocolKind::Job) + of_kind(
        messages,
        ProtocolKind::Control,
    ) + of_kind(messages, ProtocolKind::Other)
}

/// Appends the documents of one kind.
fn append_kind(
    target: &mut Vec<ProtocolMessage>,
    messages: &Vec<KindedMessage>,
    kind: ProtocolKind,
)
    ensures
        messages_view(final(target)@) == messages_view(old(target)@) + of_kind(
            kinded_view(messages@),
            kind,
        ),
{
    let ghost all = kinded_view(messages@);
    let ghost before = messages_view(target@);
    let mut at: usize = 0;
    assert(before =~= before + of_kind(all.take(0), kind));
    while at < messages.len()
        invariant
            at <= messages@.len(),
            all == kinded_view(messages@),
            messages_view(target@) == before + of_kind(all.take(at as int), kind),
        decreases messages.len() - at,
    {
        let ghost seen = messages_view(target@);
        let item = &messages[at];
        proof {
            assert(all.take(at + 1).drop_last() =~= all.take(at as int));
            assert(all.take(at + 1).last() == item@);
        }
        if item.kind == kind {
            target.push(item.message.clone());
            assert(messages_view(target@) =~= seen.push(item@.message));
            assert(messages_view(target@) =~= before + of_kind(all.take(at + 1), kind));
        }
        at = at + 1;
    }
    assert(all.take(at as int) =~= all);
}

/// The documents in the order of a replay.
pub fn in_replay_order(messages: &Vec<KindedMessage>) -> (ordered: Vec<ProtocolMessage>)
    ensures
        messages_view(ordered@) == replay(kinded_view(messages@)),
{
    let mut ordered: Vec<ProtocolMessage> = Vec::new();
    append_kind(&mut ordered, messages, ProtocolKind::Event);
    append_kind(&mut ordered, messages, ProtocolKind::Job);
    append_kind(&mut ordered, messages, ProtocolKind::Control);
    append_kind(&mut ordered, messages, ProtocolKind::Other);
    assert(messages_view(ordered@) =~= replay(kinded_view(messages@)));
    ordered
}

/// The protocol documents among board messages, each with its kind.
pub open spec fn documents_in(history: Seq<Seq<char>>) -> Seq<KindedMessageView>
    decreases history.len(),
{
    if history.len() == 0 {
        Seq::empty()
    } else {
        match protocol_of(history.last()) {
            Some(message) => documents_in(history.drop_last()).push(
                KindedMessageView { kind: kind_of(message.value), message },
            ),
            None => documents_in(history.drop_last()),
        }
    }
}

/// The protocol documents of a history of board messages, in the order of a replay.
pub fn sorted_history_protocols(history: &Vec<String>) -> (protocols: Vec<ProtocolMessage>)
    ensures
        messages_view(protocols@) == replay(documents_in(texts(history@))),
{
    let ghost all = texts(history@);
    let mut found: Vec<KindedMessage> = Vec::new();
    let mut at: usize = 0;
    assert(kinded_view(found@) =~= documents_in(all.take(0)));
    while at < history.len()
        invariant
            at <= history@.len(),
            all == texts(history@),
            kinded_view(found@) == documents_in(all.take(at as int)),
        decreases history.len() - at,
    {
        let ghost before = kinded_view(found@);
        proof {
            assert(all.take(at + 1).drop_last() =~= all.take(at as int));
            assert(all.take(at + 1).last() == history@[at as int]@);
        }
        if let Some(message) = protocol_message(history[at].as_str()) {
            let kind = protocol_kind(&message);
            let item = KindedMessage { kind, message };
            let ghost view = item@;
            found.push(item);
            assert(kinded_view(found@) =~= before.push(view));
        }
        at = at + 1;
    }
    assert(all.take(at as int) =~= all);
    in_replay_order(&found)
}

// ---------------------------------------------------------------------------
// Lines from the board
// ---------------------------------------------------------------------------

/// The kinds of lines that the board writes.
#[derive(Clone, Copy, Debug, PartialEq, Eq, Structural)]
pub enum LineKind {
    Message,
    History,
    Error,
    Other,
}

/// The kind of the lines with this type.
pub open spec fn line_kind_with(name: Option<Seq<char>>) -> LineKind {
    if name == Some("message"@) {
        LineKind::Message
    } else if name == Some("history"@) {
        LineKind::History
    } else if name == Some("error"@) {
        LineKind::Error
    } else {
        LineKind::Other
    }
}

/// The kind of the lines with this type.
pub fn line_kind(name: Option<&str>) -> (kind: LineKind)
    ensures
        kind == line_kind_with(slice_text(name)),
{
    match name {
        None => LineKind::Other,
        Some(text) => if same_text(text, "message") {
            LineKind::Message
        } else if same_text(text, "history") {
            LineKind::History
        } else if same_text(text, "error") {
            LineKind::Error
        } else {
            LineKind::Other
        },
    }
}

/// What a line from the board says.
#[derive(Debug, PartialEq, Eq)]
pub enum BoardLine {
    /// The line is no JSON.
    Invalid,
    /// A message arrived; the document that it holds, if any.
    Message(Option<ProtocolMessage>),
    /// The history that was asked for; its documents in the order of a replay.
    History(Vec<ProtocolMessage>),
    /// The board reports an error; the report's JSON text.
    Error(String),
    /// Something that the runner does not read.
    Other,
}

/// What a [`BoardLine`] holds.
pub enum BoardLineView {
    Invalid,
    Message(Option<ProtocolMessageView>),
    History(Seq<ProtocolMessageView>),
    Error(Seq<char>),
    Other,
}

impl View for BoardLine {
    type V = BoardLineView;

    open spec fn view(&self) -> BoardLineView {
        match self {
            BoardLine::Invalid => BoardLineView::Invalid,
            BoardLine::Message(message) => BoardLineView::Message(optional_message(*message)),
            BoardLine::History(messages) => BoardLineView::History(messages_view(messages@)),
            BoardLine::Error(report) => BoardLineView::Error(report@),
            BoardLine::Other => BoardLineView::Other,
        }
    }
}

/// The items of a history line, or none where it holds no array of messages.
pub open spec fn history_items(document: Seq<char>) -> Seq<Seq<char>> {
    match json_member(document, "messages"@) {
        Some(messages) => match json_items(messages) {
            Some(items) => items,
            None => Seq::empty(),
        },
        None => Seq::empty(),
    }
}

/// What a line from the board says, by its text.
pub open spec fn line_of(line: Seq<char>) -> BoardLineView {
    match json_value(line) {
        None => BoardLineView::Invalid,
        Some(document) => match line_kind_with(string_member(document, "type"@)) {
            LineKind::Message => BoardLineView::Message(
                match json_member(document, "message"@) {
                    Some(message) => protocol_of(message),
                    None => None,
                },
            ),
            LineKind::History => BoardLineView::History(
                replay(documents_in(history_items(document))),
            ),
            LineKind::Error => BoardLineView::Error(document),
            LineKind::Other => BoardLineView::Other,
        },
    }
}

/// Reads a line from the board.
pub fn read_line(line: &str) -> (read: BoardLine)
    ensures
        read@ == line_of(line@),
{
    let document = match parse_json(line) {
        Some(document) => document,
        None => {
            return BoardLine::Invalid;
        },
    };
    let kind = match get_string_member(document.as_str(), "type") {
        Some(name) => line_kind(Some(name.as_str())),
        None => line_kind(None),
    };
    match kind {
        LineKind::Message => match get_member(document.as_str(), "message") {
            Some(message) => BoardLine::Message(protocol_message(message.as_str())),
            None => BoardLine::Message(None),
        },
        LineKind::History => {
            let items = match get_member(document.as_str(), "messages") {
                Some(messages) => get_items(messages.as_str()),
                None => None,
            };
            let history = match items {
                Some(items) => items,
                None => Vec::new(),
            };
            assert(texts(history@) =~= history_items(document@));
            BoardLine::History(sorted_history_protocols(&history))
        },
        LineKind::Error => BoardLine::Error(document),
        LineKind::Other => BoardLine::Other,
    }
}

// ---------------------------------------------------------------------------
// What a replay promises
// ---------------------------------------------------------------------------

/// A replay loses no document and invents none: each kind comes out as it went in.
pub proof fn replay_keeps_each_kind(messages: Seq<KindedMessageView>, kind: ProtocolKind)
    ensures
        ({
            let events = of_kind(messages, ProtocolKind::Event).len();
            let jobs = of_kind(messages, ProtocolKind::Job).len();
            let controls = of_kind(messages, ProtocolKind::Control).len();
            let start = match kind {
                ProtocolKind::Event => 0,
                ProtocolKind::Job => events,
                ProtocolKind::Control => events + jobs,
                ProtocolKind::Other => events + jobs + controls,
            };
            replay(messages).subrange(start as int, (start + of_kind(messages, kind).len()) as int)
                == of_kind(messages, kind)
        }),
        replay(messages).len() == messages.len(),
{
    lemma_kinds_add_up(messages);
    let events = of_kind(messages, ProtocolKind::Event);
    let jobs = of_kind(messages, ProtocolKind::Job);
    let controls = of_kind(messages, ProtocolKind::Control);
    let others = of_kind(messages, ProtocolKind::Other);
    let all = replay(messages);
    let e = events.len() as int;
    let j = e + jobs.len();
    let c = j + controls.len();
    assert(all.subrange(0, e) =~= events);
    assert(all.subrange(e, j) =~= jobs);
    assert(all.subrange(j, c) =~= controls);
    assert(all.subrange(c, c + others.len()) =~= others);
}

proof fn lemma_kinds_add_up(messages: Seq<KindedMessageView>)
    ensures
        of_kind(messages, ProtocolKind::Event).len() + of_kind(messages, ProtocolKind::Job).len()
            + of_kind(messages, ProtocolKind::Control).len() + of_kind(
            messages,
            ProtocolKind::Other,
        ).len() == messages.len(),
    decreases messages.len(),
{
    if messages.len() > 0 {
        lemma_kinds_add_up(messages.drop_last());
    }
}

} // verus!
