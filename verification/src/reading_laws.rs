//! What reading the board, the kernel's reports and the command line gives, and what the runner's
//! own documents hold.

use crate::board::{
    document_of, documents_in, history_items, kind_of, kind_with, line_kind_with, line_of, of_kind,
    protocol_of, replay, replay_rank, BoardLineView, KindedMessageView, ProtocolKind,
    ProtocolMessageView,
};
use crate::capacity::{
    available_text, cpu_pressures, default_limits, first_behind, first_with, io_pressures, least,
    memories, memory_pressures, sum, ConfigLimits, HostCapacity, Limits, MeanCapacity,
};
use crate::cli::{config_option, invocation, runner_name, InvocationView};
use crate::clock::elapsed;
use crate::environment::{names_differ, variables_map, EnvVar};
use crate::events::{state_text, StateNoticeView};
use crate::ids::{group_name, ulid_text, JobId};
use crate::json::{json_items, json_member, json_string, json_value, string_member};
use crate::output::{base64_text, output_of, payload, stream_text};
use crate::policy::profile_text;
use crate::process::{
    children_belong_to_the_tree, descends, in_tree, live_member, process_of, tree_groups,
    ProcessStat,
};
use crate::protocol::{JobProfile, JobState, JobView, OutputStream, Timestamp};
use crate::text::{
    decimal, has_prefix, is_white_space, lines, lower, signed_number, trimmed, unsigned_number,
    words,
};
use crate::text_laws::{
    ascii_white_space, blank_texts_have_no_words, prefixes_come_first, the_last_occurrence_counts,
    trimming_takes_both_ends, without_an_occurrence_nothing_is_behind, words_come_one_by_one,
};
use crate::transport::{publication, recording};
use vstd::prelude::*;
use vstd::utf8::{decode_utf8_encode_utf8, encode_utf8, valid_utf8};

verus! {

// ---------------------------------------------------------------------------
// The board
// ---------------------------------------------------------------------------

/// A board message holds a document where its structured part is not null, and then that, or else
/// where its body is JSON, and then that; the sender is the message's.
pub proof fn where_a_document_stands(message: Seq<char>)
    ensures
        ({
            let meta = json_member(message, "meta"@);
            let body = json_member(message, "message"@);
            let text = json_string(body->0);
            let from = match json_member(message, "from"@) {
                Some(sender) => json_string(sender),
                None => None,
            };
            let structured = meta is Some && meta->0 != "null"@;
            let written = body is Some && text is Some && json_value(text->0) is Some;
            let found = protocol_of(message);
            &&& found is Some <==> structured || written
            &&& structured ==> found->0.value == meta->0
            &&& !structured && written ==> found->0.value == json_value(text->0)->0
            &&& found is Some ==> found->0.from == from
        }),
{
}

/// The schema of a document tells its kind.
pub proof fn schemas_tell_the_kinds(schema: Seq<char>)
    ensures
        kind_with(Some("zrunner.event.v1"@)) is Event,
        kind_with(Some("zrunner.job.v1"@)) is Job,
        kind_with(Some("zrunner.control.v1"@)) is Control,
        kind_with(None) is Other,
        schema != "zrunner.event.v1"@ && schema != "zrunner.job.v1"@ && schema
            != "zrunner.control.v1"@ ==> kind_with(Some(schema)) is Other,
        forall|document: Seq<char>|
            json_member(document, "schema"@) matches Some(member) ==> #[trigger] kind_of(document)
                == kind_with(json_string(member)),
        forall|document: Seq<char>|
            json_member(document, "schema"@) is None ==> #[trigger] kind_of(document) is Other,
{
    reveal_strlit("zrunner.event.v1");
    reveal_strlit("zrunner.job.v1");
    reveal_strlit("zrunner.control.v1");
    assert("zrunner.event.v1"@[8] == 'e');
    assert("zrunner.job.v1"@[8] == 'j');
    assert("zrunner.control.v1"@[8] == 'c');
}

/// What became of jobs ranks before jobs, jobs before changes to them, and these before the rest.
pub proof fn ranks_follow_the_kinds()
    ensures
        replay_rank(ProtocolKind::Event) < replay_rank(ProtocolKind::Job),
        replay_rank(ProtocolKind::Job) < replay_rank(ProtocolKind::Control),
        replay_rank(ProtocolKind::Control) < replay_rank(ProtocolKind::Other),
{
}

/// A document more at the end of a history stands in the replay behind every other that ranks no
/// higher, in front of the rest, and leaves the others in their order.
pub proof fn one_document_more_in_a_replay(
    messages: Seq<KindedMessageView>,
    more: KindedMessageView,
) -> (place: int)
    ensures
        0 <= place <= replay(messages).len(),
        replay(messages).len() == messages.len(),
        replay(messages.push(more)) == replay(messages).take(place).push(more.message) + replay(
            messages,
        ).skip(place),
        forall|i: int|
            #![trigger messages[i]]
            0 <= i < messages.len() && replay_rank(messages[i].kind) <= replay_rank(more.kind)
                ==> replay(messages).take(place).contains(messages[i].message),
        place == count_up_to(messages, replay_rank(more.kind)),
{
    let events = of_kind(messages, ProtocolKind::Event);
    let jobs = of_kind(messages, ProtocolKind::Job);
    let controls = of_kind(messages, ProtocolKind::Control);
    let others = of_kind(messages, ProtocolKind::Other);
    let longer = messages.push(more);
    assert(longer.drop_last() =~= messages);
    assert(longer.last() == more);
    lemma_counts(messages);
    let place = count_up_to(messages, replay_rank(more.kind)) as int;
    assert(replay(longer) =~= replay(messages).take(place).push(more.message) + replay(
        messages,
    ).skip(place));
    assert forall|i: int|
        #![trigger messages[i]]
        0 <= i < messages.len() && replay_rank(messages[i].kind) <= replay_rank(
            more.kind,
        ) implies replay(messages).take(place).contains(messages[i].message) by {
        lemma_found_among_its_kind(messages, i);
        let kind = messages[i].kind;
        let at = of_kind(messages, kind).index_of(messages[i].message);
        assert(of_kind(messages, kind)[at] == messages[i].message);
        let start: nat = match kind {
            ProtocolKind::Event => 0,
            ProtocolKind::Job => events.len(),
            ProtocolKind::Control => events.len() + jobs.len(),
            ProtocolKind::Other => events.len() + jobs.len() + controls.len(),
        };
        assert(replay(messages)[start + at] == messages[i].message);
        assert(replay(messages).take(place)[start + at] == messages[i].message);
    }
    place
}

/// How many of the documents rank no higher.
pub open spec fn count_up_to(messages: Seq<KindedMessageView>, rank: u8) -> nat
    decreases messages.len(),
{
    if messages.len() == 0 {
        0
    } else {
        count_up_to(messages.drop_last(), rank) + if replay_rank(messages.last().kind) <= rank {
            1nat
        } else {
            0nat
        }
    }
}

proof fn lemma_counts(messages: Seq<KindedMessageView>)
    ensures
        ({
            let events = of_kind(messages, ProtocolKind::Event).len();
            let jobs = of_kind(messages, ProtocolKind::Job).len();
            let controls = of_kind(messages, ProtocolKind::Control).len();
            let others = of_kind(messages, ProtocolKind::Other).len();
            &&& count_up_to(messages, 0) == events
            &&& count_up_to(messages, 1) == events + jobs
            &&& count_up_to(messages, 2) == events + jobs + controls
            &&& count_up_to(messages, 3) == events + jobs + controls + others
            &&& messages.len() == events + jobs + controls + others
        }),
    decreases messages.len(),
{
    if messages.len() > 0 {
        lemma_counts(messages.drop_last());
    }
}

proof fn lemma_found_among_its_kind(messages: Seq<KindedMessageView>, place: int)
    requires
        0 <= place < messages.len(),
    ensures
        of_kind(messages, messages[place].kind).contains(messages[place].message),
    decreases messages.len(),
{
    let kind = messages[place].kind;
    let found = of_kind(messages, kind);
    if place == messages.len() - 1 {
        assert(found[found.len() - 1] == messages[place].message);
    } else {
        lemma_found_among_its_kind(messages.drop_last(), place);
        let before = of_kind(messages.drop_last(), kind);
        let at = before.index_of(messages[place].message);
        assert(before[at] == messages[place].message);
        assert(found[at] == messages[place].message);
    }
}

/// A board message more in a history adds its document behind the others, with its kind, where it
/// holds one, and nothing where it holds none.
pub proof fn one_message_more_in_a_history(history: Seq<Seq<char>>, message: Seq<char>)
    ensures
        documents_in(Seq::empty()).len() == 0,
        protocol_of(message) is None ==> documents_in(history.push(message)) == documents_in(
            history,
        ),
        protocol_of(message) matches Some(document) ==> documents_in(history.push(message))
            == documents_in(history).push(
            KindedMessageView { kind: kind_of(document.value), message: document },
        ),
{
    assert(history.push(message).drop_last() =~= history);
}

/// A document is taken from the structured part of a message where that is there and not null, else
/// from its body, and is its sender's.
pub proof fn which_part_holds_the_document(
    meta: Seq<char>,
    body: Option<Seq<char>>,
    from: Option<Seq<char>>,
)
    ensures
        meta != "null"@ ==> document_of(Some(meta), body, from) == Some(
            ProtocolMessageView { value: meta, from },
        ),
        document_of(Some("null"@), body, from) == document_of(None, body, from),
        document_of(None, None, from) is None,
        body matches Some(text) ==> document_of(None, body, from) == Some(
            ProtocolMessageView { value: text, from },
        ),
{
}

/// The type of a line tells its kind.
pub proof fn types_tell_the_lines(name: Seq<char>)
    ensures
        line_kind_with(Some("message"@)) is Message,
        line_kind_with(Some("history"@)) is History,
        line_kind_with(Some("error"@)) is Error,
        line_kind_with(None) is Other,
        name != "message"@ && name != "history"@ && name != "error"@ ==> line_kind_with(
            Some(name),
        ) is Other,
{
    reveal_strlit("message");
    reveal_strlit("history");
    reveal_strlit("error");
    assert("message"@[0] == 'm');
    assert("history"@[0] == 'h');
    assert("error"@[0] == 'e');
}

/// A line of the board that is no JSON is invalid; the type of any other says what it is: a message
/// with its document, the history with its documents in the order of a replay, an error with its
/// report, or something else.
pub proof fn what_a_line_says(line: Seq<char>, document: Seq<char>, name: Seq<char>)
    ensures
        json_value(line) is None ==> line_of(line) is Invalid,
        json_value(line) == Some(document) && string_member(document, "type"@) == Some(name) ==> {
            &&& name == "message"@ ==> line_of(line) is Message && (json_member(
                document,
                "message"@,
            ) matches Some(message) ==> line_of(line) == BoardLineView::Message(
                protocol_of(message),
            )) && (json_member(document, "message"@) is None ==> line_of(line)
                == BoardLineView::Message(None))
            &&& name == "history"@ ==> line_of(line) == BoardLineView::History(
                replay(documents_in(history_items(document))),
            )
            &&& name == "error"@ ==> line_of(line) == BoardLineView::Error(document)
            &&& name != "message"@ && name != "history"@ && name != "error"@ ==> line_of(
                line,
            ) is Other
        },
        json_value(line) == Some(document) && string_member(document, "type"@) is None ==> line_of(
            line,
        ) is Other,
        json_member(document, "messages"@) matches Some(messages) ==> (json_items(messages) matches
            Some(items) ==> history_items(document) == items),
        json_member(document, "messages"@) is None ==> history_items(document).len() == 0,
        json_member(document, "messages"@) matches Some(messages) ==> (json_items(messages) is None
            ==> history_items(document).len() == 0),
{
    types_tell_the_lines(name);
}

/// A member is a string member where it is there and is a string, and has that string's characters.
pub proof fn what_a_string_member_holds(document: Seq<char>, key: Seq<char>, text: Seq<char>)
    ensures
        string_member(document, key) == Some(text) <==> exists|member: Seq<char>|
            json_member(document, key) == Some(member) && #[trigger] json_string(member) == Some(
                text,
            ),
{
    if string_member(document, key) == Some(text) {
        assert(json_string(json_member(document, key)->0) == Some(text));
    }
}

// ---------------------------------------------------------------------------
// The host's capacity
// ---------------------------------------------------------------------------

/// A limit that the configuration sets is that limit, and one that it does not set is the default.
pub proof fn limits_follow_the_configuration(config: ConfigLimits)
    ensures
        ({
            let limits = config.effective();
            &&& config.max_running_jobs matches Some(jobs) ==> limits.max_running_jobs == jobs
            &&& config.max_running_jobs is None ==> limits.max_running_jobs == 2
            &&& config.max_compile_slots matches Some(slots) ==> limits.max_compile_slots == slots
            &&& config.max_compile_slots is None ==> limits.max_compile_slots == 6
            &&& config.host_memory_reserve_mib matches Some(memory) ==> (
            limits.host_memory_reserve_mib == memory)
            &&& config.host_memory_reserve_mib is None ==> limits.host_memory_reserve_mib == 4096
            &&& config.max_job_memory_mib matches Some(memory) ==> (limits.max_job_memory_mib
                == memory)
            &&& config.max_job_memory_mib is None ==> limits.max_job_memory_mib == 12288
            &&& config.cpu_pressure_limit matches Some(limit) ==> (limits.cpu_pressure_limit
                == limit)
            &&& config.cpu_pressure_limit is None ==> limits.cpu_pressure_limit == 2500
            &&& config.memory_pressure_limit matches Some(limit) ==> (limits.memory_pressure_limit
                == limit)
            &&& config.memory_pressure_limit is None ==> limits.memory_pressure_limit == 200
            &&& config.io_pressure_limit matches Some(limit) ==> (limits.io_pressure_limit == limit)
            &&& config.io_pressure_limit is None ==> limits.io_pressure_limit == 800
        }),
        default_limits() == (Limits {
            max_running_jobs: 2,
            max_compile_slots: 6,
            host_memory_reserve_mib: 4096,
            max_job_memory_mib: 12288,
            cpu_pressure_limit: 2500,
            memory_pressure_limit: 200,
            io_pressure_limit: 800,
        }),
{
}

/// A host is calm if and only if none of its three pressures is above its own limit; so it is for
/// the means of several samples, each taken as its sum against as many times the limit.
pub proof fn each_pressure_has_its_limit(host: HostCapacity, mean: MeanCapacity, limits: Limits)
    ensures
        host.calm(limits) <==> !(host.cpu_pressure_some_avg10 > limits.cpu_pressure_limit) && !(
        host.memory_pressure_full_avg10 > limits.memory_pressure_limit) && !(
        host.io_pressure_full_avg10 > limits.io_pressure_limit),
        mean.calm(limits) <==> !(mean.cpu_pressure_total > mean.samples
            * limits.cpu_pressure_limit) && !(mean.memory_pressure_total > mean.samples
            * limits.memory_pressure_limit) && !(mean.io_pressure_total > mean.samples
            * limits.io_pressure_limit),
{
    assert(limits.cpu_pressure_limit * mean.samples == mean.samples * limits.cpu_pressure_limit)
        by (nonlinear_arith);
    assert(limits.memory_pressure_limit * mean.samples == mean.samples
        * limits.memory_pressure_limit) by (nonlinear_arith);
    assert(limits.io_pressure_limit * mean.samples == mean.samples * limits.io_pressure_limit)
        by (nonlinear_arith);
}

/// Of several samples, the combined memory is that of one of them, and no sample has less.
pub proof fn the_least_memory_counts(samples: Seq<HostCapacity>)
    ensures
        samples.len() == 0 ==> least(memories(samples)) == 0,
        samples.len() > 0 ==> exists|i: int|
            0 <= i < samples.len() && (#[trigger] samples[i]).available_memory_mib == least(
                memories(samples),
            ),
        forall|i: int|
            0 <= i < samples.len() ==> least(memories(samples)) <= (
            #[trigger] samples[i]).available_memory_mib,
    decreases samples.len(),
{
    if samples.len() > 0 {
        let shorter = samples.drop_last();
        let last = samples.len() - 1;
        the_least_memory_counts(shorter);
        assert(memories(samples).drop_last() =~= memories(shorter));
        assert(samples[last] == samples.last());
        if samples.len() > 1 {
            let i = choose|i: int|
                0 <= i < shorter.len() && (#[trigger] shorter[i]).available_memory_mib == least(
                    memories(shorter),
                );
            assert(samples[i] == shorter[i]);
        }
        assert forall|i: int| 0 <= i < samples.len() implies least(memories(samples)) <= (
        #[trigger] samples[i]).available_memory_mib by {
            if i < last {
                assert(samples[i] == shorter[i]);
            }
        }
        if least(memories(samples)) == samples.last().available_memory_mib {
            assert(samples[last].available_memory_mib == least(memories(samples)));
        }
    }
}

/// Each sum of pressures grows by the pressure of that kind in one sample more, from nothing.
pub proof fn pressures_add_up(samples: Seq<HostCapacity>, more: HostCapacity)
    ensures
        sum(cpu_pressures(Seq::empty())) == 0,
        sum(memory_pressures(Seq::empty())) == 0,
        sum(io_pressures(Seq::empty())) == 0,
        sum(cpu_pressures(samples.push(more))) == sum(cpu_pressures(samples))
            + more.cpu_pressure_some_avg10,
        sum(memory_pressures(samples.push(more))) == sum(memory_pressures(samples))
            + more.memory_pressure_full_avg10,
        sum(io_pressures(samples.push(more))) == sum(io_pressures(samples))
            + more.io_pressure_full_avg10,
{
    let longer = samples.push(more);
    assert(cpu_pressures(longer).drop_last() =~= cpu_pressures(samples));
    assert(memory_pressures(longer).drop_last() =~= memory_pressures(samples));
    assert(io_pressures(longer).drop_last() =~= io_pressures(samples));
}

proof fn lemma_first(all: Seq<Seq<char>>, prefix: Seq<char>, from: int, place: int)
    requires
        0 <= from <= place <= all.len(),
        forall|i: int| from <= i < place ==> !has_prefix(#[trigger] all[i], prefix),
        place < all.len() ==> has_prefix(all[place], prefix),
    ensures
        place == all.len() ==> first_with(all, prefix, from) is None && first_behind(
            all,
            prefix,
            from,
        ) is None,
        place < all.len() ==> first_with(all, prefix, from) == Some(all[place]) && first_behind(
            all,
            prefix,
            from,
        ) == Some(all[place].skip(prefix.len() as int)),
    decreases place - from,
{
    if from < place {
        assert(!has_prefix(all[from], prefix));
        lemma_first(all, prefix, from + 1, place);
    }
}

/// The first of several texts that begins with the prefix counts, wherever it stands; where none
/// does, there is none.
pub proof fn the_first_with_the_prefix_counts(
    all: Seq<Seq<char>>,
    prefix: Seq<char>,
    place: int,
    rest: Seq<char>,
)
    requires
        0 <= place <= all.len(),
        forall|i: int, other: Seq<char>|
            0 <= i < place ==> #[trigger] all[i] != #[trigger] (prefix + other),
        place < all.len() ==> all[place] == prefix + rest,
    ensures
        place == all.len() ==> first_with(all, prefix, 0) is None && first_behind(
            all,
            prefix,
            0,
        ) is None,
        place < all.len() ==> first_with(all, prefix, 0) == Some(prefix + rest) && first_behind(
            all,
            prefix,
            0,
        ) == Some(rest),
{
    assert forall|i: int| 0 <= i < place implies !has_prefix(#[trigger] all[i], prefix) by {
        prefixes_come_first(all[i], prefix);
    }
    if place < all.len() {
        prefixes_come_first(all[place], prefix);
        assert((prefix + rest).skip(prefix.len() as int) =~= rest);
    }
    lemma_first(all, prefix, 0, place);
}

/// The available memory is the first word behind `MemAvailable:` in the first line of the report
/// that begins so.
pub proof fn where_the_available_memory_stands(
    report: Seq<char>,
    place: int,
    lead: Seq<char>,
    number: Seq<char>,
    rest: Seq<char>,
)
    requires
        0 <= place < lines(report).len(),
        forall|i: int, other: Seq<char>|
            0 <= i < place ==> #[trigger] lines(report)[i] != #[trigger] ("MemAvailable:"@
                + other),
        lines(report)[place] == "MemAvailable:"@ + (lead + number + rest),
        forall|i: int| 0 <= i < lead.len() ==> is_white_space(#[trigger] lead[i]),
        number.len() > 0,
        forall|i: int| 0 <= i < number.len() ==> !is_white_space(#[trigger] number[i]),
        rest.len() > 0 ==> is_white_space(rest[0]),
    ensures
        available_text(report) == Some(number),
{
    the_first_with_the_prefix_counts(
        lines(report),
        "MemAvailable:"@,
        place,
        lead + number + rest,
    );
    words_come_one_by_one(lead, number, rest);
    assert((seq![number] + words(rest))[0] == number);
}

/// No available memory is found where no line begins with `MemAvailable:`, nor where only white
/// space stands behind it in the first that does.
pub proof fn where_no_available_memory_stands(report: Seq<char>, place: int, rest: Seq<char>)
    requires
        0 <= place <= lines(report).len(),
        forall|i: int, other: Seq<char>|
            0 <= i < place ==> #[trigger] lines(report)[i] != #[trigger] ("MemAvailable:"@
                + other),
        place < lines(report).len() ==> lines(report)[place] == "MemAvailable:"@ + rest,
        forall|i: int| 0 <= i < rest.len() ==> is_white_space(#[trigger] rest[i]),
    ensures
        available_text(report) is None,
{
    the_first_with_the_prefix_counts(lines(report), "MemAvailable:"@, place, rest);
    blank_texts_have_no_words(rest);
}

/// Time goes by as the clock says, and none has gone by where the second moment is the earlier.
pub proof fn time_goes_by(since: u64, now: u64)
    ensures
        since + elapsed(since, now) == now || (now < since && elapsed(since, now) == 0),
{
}

// ---------------------------------------------------------------------------
// Processes
// ---------------------------------------------------------------------------

/// What the kernel says of a process is read behind the last bracket and space, whatever the
/// command's name holds: the first word's first character is the state, the second word the parent,
/// the third the group.
pub proof fn what_the_kernel_says_of_a_process(
    pid: u32,
    front: Seq<char>,
    state: Seq<char>,
    parent: Seq<char>,
    group: Seq<char>,
    rest: Seq<char>,
)
    requires
        ({
            let fields = state + (" "@ + parent + (" "@ + group + rest));
            forall|before: Seq<char>, behind: Seq<char>|
                front + ") "@ + fields == #[trigger] (before + ") "@ + behind) ==> before.len()
                    <= front.len()
        }),
        state.len() > 0,
        parent.len() > 0,
        group.len() > 0,
        forall|i: int| 0 <= i < state.len() ==> !is_white_space(#[trigger] state[i]),
        forall|i: int| 0 <= i < parent.len() ==> !is_white_space(#[trigger] parent[i]),
        forall|i: int| 0 <= i < group.len() ==> !is_white_space(#[trigger] group[i]),
        rest.len() > 0 ==> is_white_space(rest[0]),
    ensures
        ({
            let fields = state + (" "@ + parent + (" "@ + group + rest));
            let found = process_of(pid, front + ") "@ + fields);
            let known = unsigned_number(parent) is Some && signed_number(group) is Some
                && unsigned_number(parent)->0 <= u32::MAX && i32::MIN <= signed_number(group)->0
                <= i32::MAX;
            &&& found is Some <==> known
            &&& known ==> {
                &&& found->0.pid == pid
                &&& found->0.state == state[0]
                &&& found->0.parent == unsigned_number(parent)->0
                &&& found->0.group == signed_number(group)->0
            }
        }),
{
    let third = " "@ + group + rest;
    let second = " "@ + parent + third;
    let fields = state + second;
    the_last_occurrence_counts(front, ") "@, fields);
    reveal_strlit(" ");
    ascii_white_space(' ');
    let none = Seq::<char>::empty();
    assert(none + state + second =~= fields);
    words_come_one_by_one(none, state, second);
    assert(second =~= " "@ + parent + third);
    words_come_one_by_one(" "@, parent, third);
    words_come_one_by_one(" "@, group, rest);
    assert(words(fields)[0] == state);
    assert(words(fields)[1] == words(second)[0]);
    assert(words(fields)[2] == words(second)[1]);
    assert(words(second)[1] == words(third)[0]);
}

/// Nothing is read of a process whose text has no bracket and space, or fewer than three words
/// behind the last of them.
pub proof fn what_says_nothing_of_a_process(
    pid: u32,
    text: Seq<char>,
    front: Seq<char>,
    rest: Seq<char>,
)
    ensures
        (forall|before: Seq<char>, behind: Seq<char>|
            text != #[trigger] (before + ") "@ + behind)) ==> process_of(pid, text) is None,
        text == front + ") "@ + rest && (forall|before: Seq<char>, behind: Seq<char>|
            text == #[trigger] (before + ") "@ + behind) ==> before.len() <= front.len()) && words(
            rest,
        ).len() < 3 ==> process_of(pid, text) is None,
{
    if forall|before: Seq<char>, behind: Seq<char>|
        text != #[trigger] (before + ") "@ + behind) {
        without_an_occurrence_nothing_is_behind(text, ") "@);
    }
    if text == front + ") "@ + rest && (forall|before: Seq<char>, behind: Seq<char>|
        text == #[trigger] (before + ") "@ + behind) ==> before.len() <= front.len()) {
        the_last_occurrence_counts(front, ") "@, rest);
    }
}

/// A tree holds its root and the children of its members, and nothing that a closed set with the
/// root does not hold.
pub proof fn what_a_tree_holds(processes: Seq<ProcessStat>, root: u32, closed: Set<u32>)
    requires
        closed.contains(root),
        forall|i: int|
            0 <= i < processes.len() && closed.contains((#[trigger] processes[i]).parent)
                ==> closed.contains(processes[i].pid),
    ensures
        in_tree(processes, root, root),
        forall|i: int|
            0 <= i < processes.len() && in_tree(processes, root, (#[trigger] processes[i]).parent)
                ==> in_tree(processes, root, processes[i].pid),
        forall|pid: u32| #[trigger] in_tree(processes, root, pid) ==> closed.contains(pid),
{
    assert(descends(processes, root, root, 0));
    assert forall|i: int|
        0 <= i < processes.len() && in_tree(
            processes,
            root,
            (#[trigger] processes[i]).parent,
        ) implies in_tree(processes, root, processes[i].pid) by {
        children_belong_to_the_tree(processes, root, i);
    }
    assert forall|pid: u32| #[trigger] in_tree(processes, root, pid) implies closed.contains(
        pid,
    ) by {
        let steps = choose|steps: nat| #[trigger] descends(processes, root, pid, steps);
        lemma_closed(processes, root, closed, pid, steps);
    }
}

proof fn lemma_closed(
    processes: Seq<ProcessStat>,
    root: u32,
    closed: Set<u32>,
    pid: u32,
    steps: nat,
)
    requires
        closed.contains(root),
        forall|i: int|
            0 <= i < processes.len() && closed.contains((#[trigger] processes[i]).parent)
                ==> closed.contains(processes[i].pid),
        descends(processes, root, pid, steps),
    ensures
        closed.contains(pid),
    decreases steps,
{
    if pid != root {
        let i = choose|i: int|
            0 <= i < processes.len() && (#[trigger] processes[i]).pid == pid && descends(
                processes,
                root,
                processes[i].parent,
                (steps - 1) as nat,
            );
        lemma_closed(processes, root, closed, processes[i].parent, (steps - 1) as nat);
    }
}

/// The groups of a tree are the root's own number and the groups of all members of the tree, and no
/// others.
pub proof fn which_groups_a_tree_has(processes: Seq<ProcessStat>, root: u32, group: i32)
    ensures
        tree_groups(processes, root).contains(group) <==> group == root as i32 || exists|i: int|
            0 <= i < processes.len() && (#[trigger] processes[i]).group == group && in_tree(
                processes,
                root,
                processes[i].pid,
            ),
{
    if exists|i: int|
        0 <= i < processes.len() && (#[trigger] processes[i]).group == group && in_tree(
            processes,
            root,
            processes[i].pid,
        ) {
        let i = choose|i: int|
            0 <= i < processes.len() && (#[trigger] processes[i]).group == group && in_tree(
                processes,
                root,
                processes[i].pid,
            );
        assert(in_tree(processes, root, processes[i].pid) && processes[i].group == group);
    }
}

/// Groups have a live member if and only if a process stands in one of them whose state is anything
/// but `Z`.
pub proof fn only_zombies_are_not_alive(groups: Set<i32>, processes: Seq<ProcessStat>)
    ensures
        live_member(groups, processes) <==> !(forall|i: int|
            0 <= i < processes.len() && groups.contains((#[trigger] processes[i]).group)
                ==> processes[i].state == 'Z'),
{
}

// ---------------------------------------------------------------------------
// The environment
// ---------------------------------------------------------------------------

/// Variables of different names are read by their names: each has its value, and no other is there.
pub proof fn variables_are_read_by_name(variables: Seq<EnvVar>, name: Seq<char>)
    requires
        names_differ(variables),
    ensures
        forall|i: int|
            0 <= i < variables.len() ==> variables_map(variables).contains_key(
                (#[trigger] variables[i]).name@,
            ) && variables_map(variables)[variables[i].name@] == variables[i].value@,
        variables_map(variables).contains_key(name) ==> exists|i: int|
            0 <= i < variables.len() && (#[trigger] variables[i]).name@ == name,
        forall|i: int, j: int|
            0 <= i < variables.len() && 0 <= j < variables.len() && i != j ==> (
            #[trigger] variables[i]).name@ != (#[trigger] variables[j]).name@,
{
    assert forall|i: int, j: int|
        0 <= i < variables.len() && 0 <= j < variables.len() && i != j implies (
    #[trigger] variables[i]).name@ != (#[trigger] variables[j]).name@ by {
        if i < j {
            assert(variables[i].name@ != variables[j].name@);
        } else {
            assert(variables[j].name@ != variables[i].name@);
        }
    }
    assert forall|i: int| 0 <= i < variables.len() implies variables_map(variables).contains_key(
        (#[trigger] variables[i]).name@,
    ) && variables_map(variables)[variables[i].name@] == variables[i].value@ by {
        let wanted = variables[i].name@;
        let at = choose|k: int|
            0 <= k < variables.len() && (#[trigger] variables[k]).name@ == wanted;
        assert(variables[at].name@ == wanted);
        assert(at == i);
    }
}

// ---------------------------------------------------------------------------
// The command line
// ---------------------------------------------------------------------------

/// No argument, or `help`, `--help` or `-h` first, asks for help; `example-job` for an example;
/// `daemon` runs, and anything else is unknown.
pub proof fn what_the_first_argument_asks_for(arguments: Seq<Seq<char>>)
    ensures
        arguments.len() == 0 ==> invocation(arguments) == Ok::<InvocationView, Seq<char>>(
            InvocationView::Help,
        ),
        arguments.len() > 0 && (arguments[0] == "help"@ || arguments[0] == "--help"@ || arguments[0]
            == "-h"@) ==> invocation(arguments) == Ok::<InvocationView, Seq<char>>(
            InvocationView::Help,
        ),
        arguments.len() > 0 && arguments[0] == "example-job"@ ==> invocation(arguments) == Ok::<
            InvocationView,
            Seq<char>,
        >(InvocationView::ExampleJob),
        arguments.len() == 1 && arguments[0] == "daemon"@ ==> invocation(arguments) == Ok::<
            InvocationView,
            Seq<char>,
        >(InvocationView::Daemon { config: None }),
        arguments.len() > 0 && arguments[0] != "help"@ && arguments[0] != "--help"@ && arguments[0]
            != "-h"@ && arguments[0] != "example-job"@ && arguments[0] != "daemon"@ ==> invocation(
            arguments,
        ) == Err::<InvocationView, Seq<char>>("unknown command '"@ + arguments[0] + "'"@),
{
    lemma_commands_differ();
}

proof fn lemma_commands_differ()
    ensures
        "example-job"@ != "help"@,
        "example-job"@ != "--help"@,
        "example-job"@ != "-h"@,
        "daemon"@ != "help"@,
        "daemon"@ != "--help"@,
        "daemon"@ != "-h"@,
        "daemon"@ != "example-job"@,
{
    reveal_strlit("help");
    reveal_strlit("--help");
    reveal_strlit("-h");
    reveal_strlit("example-job");
    reveal_strlit("daemon");
    assert("example-job"@.len() == 11);
    assert("daemon"@.len() == 6 && "--help"@.len() == 6);
    assert("daemon"@[0] == 'd' && "--help"@[0] == '-');
}

proof fn lemma_pairs(
    arguments: Seq<Seq<char>>,
    pairs: int,
    done: int,
    config: Option<Seq<char>>,
)
    requires
        0 <= done <= pairs,
        1 + 2 * pairs <= arguments.len(),
        forall|k: int|
            #![trigger arguments[1 + 2 * k]]
            done <= k < pairs ==> arguments[1 + 2 * k] == "--config"@,
    ensures
        done < pairs ==> config_option(arguments, 1 + 2 * done, config) == config_option(
            arguments,
            1 + 2 * pairs,
            Some(arguments[2 * pairs]),
        ),
    decreases pairs - done,
{
    if done < pairs {
        assert(arguments[1 + 2 * done] == "--config"@);
        lemma_pairs(arguments, pairs, done + 1, Some(arguments[2 + 2 * done]));
    }
}

/// Behind `daemon` stand any number of `--config` options, each with a path, and the last path
/// counts; one more without a path, or anything else, is told as what is wrong.
pub proof fn the_last_configuration_counts(arguments: Seq<Seq<char>>, pairs: int)
    requires
        0 <= pairs,
        1 + 2 * pairs <= arguments.len(),
        arguments[0] == "daemon"@,
        forall|k: int|
            #![trigger arguments[1 + 2 * k]]
            0 <= k < pairs ==> arguments[1 + 2 * k] == "--config"@,
    ensures
        arguments.len() == 1 + 2 * pairs && pairs > 0 ==> invocation(arguments) == Ok::<
            InvocationView,
            Seq<char>,
        >(InvocationView::Daemon { config: Some(arguments.last()) }),
        arguments.len() > 1 + 2 * pairs && arguments[1 + 2 * pairs] != "--config"@ ==> invocation(
            arguments,
        ) == Err::<InvocationView, Seq<char>>(
            "unknown option '"@ + arguments[1 + 2 * pairs] + "'"@,
        ),
        arguments.len() == 2 + 2 * pairs && arguments[1 + 2 * pairs] == "--config"@ ==> invocation(
            arguments,
        ) == Err::<InvocationView, Seq<char>>("--config requires a path"@),
{
    lemma_commands_differ();
    lemma_pairs(arguments, pairs, 0, None);
}

/// A runner without a configured name has the host's, without the white space around it, and a name
/// of its own where the host has none.
pub proof fn the_host_gives_the_name(name: Seq<char>)
    ensures
        runner_name(Some(name)) == trimmed(name),
        runner_name(None) == "debian1"@,
{
    reveal_strlit("debian1");
    let text = "debian1"@;
    ascii_white_space('d');
    ascii_white_space('1');
    let none = Seq::<char>::empty();
    assert(none + text + none =~= text);
    trimming_takes_both_ends(none, text, none);
}

// ---------------------------------------------------------------------------
// The runner's documents
// ---------------------------------------------------------------------------

/// Output that is UTF-8 is written as the characters that it encodes; other output is written in
/// Base64, four characters for every three bytes or what is left of them.
pub proof fn how_output_is_written(bytes: Seq<u8>)
    ensures
        payload(bytes).0 is Utf8 <==> valid_utf8(bytes),
        payload(bytes).0 is Utf8 ==> encode_utf8(payload(bytes).1) == bytes,
        payload(bytes).0 is Base64 ==> payload(bytes).1 == base64_text(bytes),
        base64_text(bytes).len() == (bytes.len() + 2) / 3 * 4,
{
    lemma_base64_length(bytes);
    if valid_utf8(bytes) {
        decode_utf8_encode_utf8(bytes);
    }
}

proof fn lemma_base64_length(bytes: Seq<u8>)
    ensures
        base64_text(bytes).len() == (bytes.len() + 2) / 3 * 4,
    decreases bytes.len(),
{
    if bytes.len() >= 3 {
        lemma_base64_length(bytes.skip(3));
    }
}

/// A piece of output goes to its job's group, under its job, number and stream, for as long as the
/// job says, and its words name all three.
pub proof fn what_a_piece_of_output_holds(
    job: JobView,
    stream: OutputStream,
    sequence: u64,
    bytes: Seq<u8>,
    timestamp: Timestamp,
)
    ensures
        ({
            let notice = output_of(job, stream, sequence, bytes);
            let command = publication(notice, timestamp);
            let name = if stream is Stdout {
                "Stdout"@
            } else {
                "Stderr"@
            };
            &&& command is SendOutput
            &&& command->SendOutput_group == job.group
            &&& command->SendOutput_message == "job "@ + ulid_text(job.id) + " "@ + name
                + " output #"@ + decimal(sequence as nat)
            &&& command->ttl_seconds == job.output_ttl_seconds
            &&& command->output.schema == "zrunner.output.v1"@
            &&& command->output.job == job.id
            &&& command->output.sequence == sequence
            &&& command->output.stream == stream
            &&& command->output.timestamp == timestamp
            &&& (command->output.encoding, command->output.data) == payload(bytes)
            &&& notice.group == job.group && notice.job == job.id && notice.sequence == sequence
                && notice.stream == stream && notice.ttl_seconds == job.output_ttl_seconds
        }),
{
}

/// The name of a state as it is recorded.
pub open spec fn name_of_state(state: JobState) -> Seq<char> {
    if state is Accepted {
        "Accepted"@
    } else if state is Queued {
        "Queued"@
    } else if state is Started {
        "Started"@
    } else if state is Interrupted {
        "Interrupted"@
    } else if state is Completed {
        "Completed"@
    } else if state is Failed {
        "Failed"@
    } else if state is Cancelled {
        "Cancelled"@
    } else {
        "Rejected"@
    }
}

/// States and streams have the names that they are told by.
pub proof fn states_and_streams_have_their_names(state: JobState)
    ensures
        state_text(state) == name_of_state(state),
        stream_text(OutputStream::Stdout) == "Stdout"@,
        stream_text(OutputStream::Stderr) == "Stderr"@,
{
}

/// The record of a state goes to the runners' group and holds all that its notice holds, under the
/// runner's name and at its moment; its words, in small letters, name the job and the state.
pub proof fn what_the_record_of_a_state_holds(
    runner: Seq<char>,
    notice: StateNoticeView,
    id: JobId,
    timestamp: Timestamp,
)
    ensures
        ({
            let command = recording(runner, notice, id, timestamp);
            &&& command is SendEvent
            &&& command->SendEvent_group == "zrunner"@
            &&& command->SendEvent_message == lower(
                "job "@ + ulid_text(notice.job) + " "@ + name_of_state(notice.state),
            )
            &&& command->event.schema == "zrunner.event.v1"@
            &&& command->event.id == id
            &&& command->event.job == notice.job
            &&& command->event.runner == runner
            &&& command->event.state == notice.state
            &&& command->event.timestamp == timestamp
            &&& command->event.detail == notice.detail
            &&& command->event.exit_code == notice.exit_code
            &&& command->event.last_sequence == notice.last_sequence
        }),
{
}

/// Each profile has its own name.
pub proof fn profiles_have_their_names()
    ensures
        profile_text(JobProfile::Rust) == "Rust"@,
        profile_text(JobProfile::DockerBuild) == "DockerBuild"@,
        profile_text(JobProfile::Generic) == "Generic"@,
        profile_text(JobProfile::IoHeavy) == "IoHeavy"@,
{
}

/// A job's group is named by its identifier: `job-` and the 26 characters of the identifier in
/// small letters.
pub proof fn groups_are_named_by_their_jobs(id: JobId)
    ensures
        group_name(id).len() == 30,
        group_name(id).take(4) == "job-"@,
        group_name(id).skip(4) == lower(ulid_text(id)),
{
    reveal_strlit("job-");
    assert(group_name(id).take(4) =~= "job-"@);
    assert(group_name(id).skip(4) =~= lower(ulid_text(id)));
}

} // verus!
