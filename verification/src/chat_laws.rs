//! What a chat reports, told by the entries of the messages and by the fields of
//! the events.
use vstd::prelude::*;

use crate::bytes;
use crate::chat;
use crate::chat::{ChatEvent, EventView, ExitReport, OptionsView};
use crate::json;
use crate::json::{JsonView, NumberView};
use crate::number;
use crate::text;

verus! {

/// The string at `event.delta.text` of a message of type `stream_event` whose
/// event is a `content_block_delta` with a `text_delta`.
pub open spec fn chunk_in(message: JsonView) -> Option<Seq<char>> {
    if let JsonView::Object(m) = message {
        if m.contains_key("type"@) && m["type"@] == JsonView::Str("stream_event"@)
            && m.contains_key("event"@) {
            if let JsonView::Object(event) = m["event"@] {
                if event.contains_key("type"@) && event["type"@] == JsonView::Str(
                    "content_block_delta"@,
                ) && event.contains_key("delta"@) {
                    if let JsonView::Object(delta) = event["delta"@] {
                        if delta.contains_key("type"@) && delta["type"@] == JsonView::Str(
                            "text_delta"@,
                        ) && delta.contains_key("text"@) && delta["text"@] is Str {
                            Some(delta["text"@]->Str_0)
                        } else {
                            None
                        }
                    } else {
                        None
                    }
                } else {
                    None
                }
            } else {
                None
            }
        } else {
            None
        }
    } else {
        None
    }
}

/// Whether a message is of type `result`.
pub open spec fn is_result(message: JsonView) -> bool {
    message matches JsonView::Object(m) && m.contains_key("type"@) && m["type"@] == JsonView::Str(
        "result"@,
    )
}

/// The message that a line holds.
pub open spec fn message_of(line: Seq<char>) -> Option<JsonView> {
    json::json_of_text(text::trim(line))
}

/// The chunk of text that a line holds.
pub open spec fn chunk_of(line: Seq<char>) -> Option<Seq<char>> {
    match message_of(line) {
        Some(message) => chunk_in(message),
        None => None,
    }
}

/// Whether a line holds a result.
pub open spec fn holds_result(line: Seq<char>) -> bool {
    match message_of(line) {
        Some(message) => is_result(message),
        None => false,
    }
}

/// The text of an event that is a chunk.
pub open spec fn chunk_text(event: EventView) -> Option<Seq<char>> {
    match event {
        EventView::TextDelta(s) => Some(s),
        _ => None,
    }
}

proof fn lemma_kinds_differ()
    ensures
        "stream_event"@ != "result"@,
{
    reveal_strlit("stream_event");
    reveal_strlit("result");
    assert("stream_event"@.len() != "result"@.len());
}

/// A message is a chunk of text exactly where it has a string at
/// `event.delta.text`, in the types around it, and the event carries that string
/// char for char.
pub proof fn chunks_are_reported_as_they_are(message: JsonView, s: Seq<char>)
    ensures
        chunk_in(message) == Some(s) ==> chat::event_of(message) == Some(EventView::TextDelta(s)),
        chat::event_of(message) == Some(EventView::TextDelta(s)) ==> chunk_in(message) == Some(s),
{
}

/// A message with these entries is a chunk of text, white space included,
/// whatever other entries it has.
pub proof fn text_deltas_are_chunks(
    message: Map<Seq<char>, JsonView>,
    event: Map<Seq<char>, JsonView>,
    delta: Map<Seq<char>, JsonView>,
    s: Seq<char>,
)
    requires
        message.contains_key("type"@) && message["type"@] == JsonView::Str("stream_event"@),
        message.contains_key("event"@) && message["event"@] == JsonView::Object(event),
        event.contains_key("type"@) && event["type"@] == JsonView::Str("content_block_delta"@),
        event.contains_key("delta"@) && event["delta"@] == JsonView::Object(delta),
        delta.contains_key("type"@) && delta["type"@] == JsonView::Str("text_delta"@),
        delta.contains_key("text"@) && delta["text"@] == JsonView::Str(s),
    ensures
        chat::event_of(JsonView::Object(message)) == Some(EventView::TextDelta(s)),
{
}

/// A message of type `result` reports the session, the cost, the error flag and
/// the text that it has, and in place of what it lacks an empty text, zero and
/// no error.
pub proof fn results_are_reported_entry_by_entry(message: Map<Seq<char>, JsonView>)
    requires
        message.contains_key("type"@) && message["type"@] == JsonView::Str("result"@),
    ensures
        chat::event_of(JsonView::Object(message)) is Some,
        ({
            let event = chat::event_of(JsonView::Object(message))->0;
            &&& event is Completed
            &&& event->session_id == (if message.contains_key("session_id"@)
                && message["session_id"@] is Str {
                message["session_id"@]->Str_0
            } else {
                Seq::empty()
            })
            &&& event->cost_usd == (if message.contains_key("total_cost_usd"@)
                && message["total_cost_usd"@] is Number {
                message["total_cost_usd"@]->Number_0
            } else {
                NumberView::Unsigned(0)
            })
            &&& event->is_error <==> message.contains_key("is_error"@) && message["is_error"@]
                == JsonView::Bool(true)
            &&& event->text == (if message.contains_key("result"@) && message["result"@] is Str {
                message["result"@]->Str_0
            } else {
                Seq::empty()
            })
        }),
{
    lemma_kinds_differ();
}

/// A message that is neither a chunk of text nor a result reports nothing, and
/// no message reports a failure.
pub proof fn other_messages_report_nothing(message: JsonView)
    ensures
        chunk_in(message) is None && !is_result(message) ==> chat::event_of(message) is None,
        chat::event_of(message) matches Some(event) ==> (event is Completed <==> is_result(message))
            && !(event is Failed),
{
    lemma_kinds_differ();
}

/// A line is read as the message that it holds between white space.
pub proof fn lines_are_read_as_messages(line: Seq<char>)
    ensures
        chat::line_event(line) == match json::json_of_text(text::trim(line)) {
            Some(message) => chat::event_of(message),
            None => None,
        },
{
}

proof fn lemma_line(line: Seq<char>)
    ensures
        match chat::line_event(line) {
            Some(event) => {
                &&& chunk_text(event) == chunk_of(line)
                &&& event is Completed <==> holds_result(line)
                &&& event is TextDelta <==> chunk_of(line) is Some
                &&& !(event is Failed)
            },
            None => chunk_of(line) is None && !holds_result(line),
        },
{
    lemma_kinds_differ();
    if let Some(message) = message_of(line) {
        other_messages_report_nothing(message);
        if let Some(s) = chunk_in(message) {
            chunks_are_reported_as_they_are(message, s);
        }
        if let Some(EventView::TextDelta(s)) = chat::event_of(message) {
            chunks_are_reported_as_they_are(message, s);
        }
        if is_result(message) {
            results_are_reported_entry_by_entry(message->Object_0);
        }
    }
}

/// The chunks that some lines report are those that the lines hold, in order,
/// and concatenate to the concatenation of those.
pub proof fn chunks_concatenate(lines: Seq<Seq<char>>)
    ensures
        chat::line_events(lines).filter_map(|event: EventView| chunk_text(event))
            == lines.filter_map(|line: Seq<char>| chunk_of(line)),
        chat::line_events(lines).filter_map(|event: EventView| chunk_text(event)).flatten()
            == lines.filter_map(|line: Seq<char>| chunk_of(line)).flatten(),
    decreases lines.len(),
{
    let f = |event: EventView| chunk_text(event);
    let g = |line: Seq<char>| chunk_of(line);
    if lines.len() > 0 {
        let front = lines.drop_last();
        chunks_concatenate(front);
        lemma_line(lines.last());
        let before = chat::line_events(front);
        if let Some(event) = chat::line_event(lines.last()) {
            assert(before.push(event).drop_last() =~= before);
            assert(before.push(event).last() == event);
        }
        assert(chat::line_events(lines).filter_map(f) =~= lines.filter_map(g));
    }
}

proof fn lemma_deltas(events: Seq<EventView>, chunks: Seq<Seq<char>>)
    ensures
        (events + chat::deltas(chunks)).filter_map(|event: EventView| chunk_text(event))
            == events.filter_map(|event: EventView| chunk_text(event)) + chunks,
    decreases chunks.len(),
{
    let f = |event: EventView| chunk_text(event);
    if chunks.len() == 0 {
        assert(events + chat::deltas(chunks) =~= events);
        assert(events.filter_map(f) + chunks =~= events.filter_map(f));
    } else {
        let front = chunks.drop_last();
        lemma_deltas(events, front);
        let all = events + chat::deltas(chunks);
        assert(all.drop_last() =~= events + chat::deltas(front));
        assert(all.last() == EventView::TextDelta(chunks.last()));
        assert(all.filter_map(f) =~= events.filter_map(f) + chunks);
    }
}

/// What a run reports as text is what its lines hold as text, char for char and
/// in order, up to what is still held back when the run ends well.
pub proof fn runs_report_their_text(
    program: Seq<char>,
    lines: Seq<Seq<char>>,
    exit: ExitReport,
    stderr: Seq<char>,
)
    ensures
        ({
            let reported = chat::run_events(program, lines, exit, stderr).filter_map(
                |event: EventView| chunk_text(event),
            );
            let held = lines.filter_map(|line: Seq<char>| chunk_of(line));
            if exit == ExitReport::Code(0) && (exists|i: int|
                0 <= i < lines.len() && holds_result(#[trigger] lines[i])) {
                reported + chat::held_after(lines) == held
            } else {
                reported == held
            }
        }),
{
    let f = |event: EventView| chunk_text(event);
    let events = chat::run_events(program, lines, exit, stderr);
    chat::runs_report_their_lines(program, lines, exit, stderr);
    chunks_concatenate(lines);
    results_complete_runs(lines);
    if chat::completed_after(lines) && exit == ExitReport::Code(0) {
        lemma_deltas(events, chat::held_after(lines));
    } else {
        let before = chat::line_events(lines);
        assert(events.drop_last() =~= before);
        assert(events.filter_map(f) =~= before.filter_map(f));
    }
}

/// A run is completed exactly where one of its lines holds a result.
pub proof fn results_complete_runs(lines: Seq<Seq<char>>)
    ensures
        chat::completed_after(lines) <==> exists|i: int|
            0 <= i < lines.len() && holds_result(#[trigger] lines[i]),
    decreases lines.len(),
{
    if lines.len() > 0 {
        let front = lines.drop_last();
        results_complete_runs(front);
        lemma_line(lines.last());
        if chat::completed_after(front) {
            let i = choose|i: int| 0 <= i < front.len() && holds_result(#[trigger] front[i]);
            assert(holds_result(lines[i]));
        }
        if holds_result(lines.last()) {
            assert(holds_result(lines[lines.len() - 1]));
        }
        if exists|i: int| 0 <= i < lines.len() && holds_result(#[trigger] lines[i]) {
            let i = choose|i: int| 0 <= i < lines.len() && holds_result(#[trigger] lines[i]);
            if i < front.len() {
                assert(holds_result(front[i]));
            }
        }
    }
}

/// Before a result nothing is held back: every event is reported at once.
pub proof fn nothing_is_held_before_a_result(lines: Seq<Seq<char>>)
    requires
        forall|i: int| 0 <= i < lines.len() ==> !holds_result(#[trigger] lines[i]),
    ensures
        chat::held_after(lines).len() == 0,
        chat::stream_events(lines) == chat::line_events(lines),
    decreases lines.len(),
{
    results_complete_runs(lines);
    chat::nothing_is_lost(lines);
    if lines.len() > 0 {
        let front = lines.drop_last();
        assert forall|i: int| 0 <= i < front.len() implies !holds_result(#[trigger] front[i]) by {
            assert(front[i] == lines[i]);
        }
        nothing_is_held_before_a_result(front);
        results_complete_runs(front);
    }
    assert(chat::deltas(chat::held_after(lines)) =~= Seq::<EventView>::empty());
    assert(chat::stream_events(lines) + Seq::<EventView>::empty() =~= chat::stream_events(lines));
}

/// Behind a result, text is held back until another event comes: while the
/// lines behind it hold no other result, what is held back is their text, and
/// nothing more is reported.
pub proof fn text_behind_a_result_is_held(front: Seq<Seq<char>>, tail: Seq<Seq<char>>)
    requires
        front.len() > 0,
        holds_result(front.last()),
        forall|i: int| 0 <= i < tail.len() ==> !holds_result(#[trigger] tail[i]),
    ensures
        chat::held_after(front + tail) == tail.filter_map(|line: Seq<char>| chunk_of(line)),
        chat::stream_events(front + tail) == chat::stream_events(front),
        chat::stream_events(front) == chat::line_events(front),
    decreases tail.len(),
{
    let g = |line: Seq<char>| chunk_of(line);
    let lines = front + tail;
    lemma_line(front.last());
    chat::nothing_is_lost(front);
    if tail.len() == 0 {
        assert(lines =~= front);
        assert(chat::held_after(front) =~= tail.filter_map(g));
    } else {
        let less = tail.drop_last();
        assert forall|i: int| 0 <= i < less.len() implies !holds_result(#[trigger] less[i]) by {
            assert(less[i] == tail[i]);
        }
        text_behind_a_result_is_held(front, less);
        assert(lines.drop_last() =~= front + less);
        assert(lines.last() == tail.last());
        assert(!holds_result(tail[tail.len() - 1]));
        lemma_line(tail.last());
        results_complete_runs(front + less);
        assert(holds_result((front + less)[front.len() - 1]));
        assert(chat::held_after(lines) =~= tail.filter_map(g));
    }
    assert(chat::held_after(front) =~= Seq::<Seq<char>>::empty());
    assert(chat::deltas(chat::held_after(front)) =~= Seq::<EventView>::empty());
    assert(chat::stream_events(front) + Seq::<EventView>::empty() =~= chat::stream_events(front));
}

/// A run reports no failure exactly where a line holds a result and the process
/// exits with 0. A failure says, in its last event, what the process wrote to
/// its error output, trimmed and at most its last 2000 bytes, and without that
/// how the process ended.
pub proof fn failures_tell_why(
    program: Seq<char>,
    lines: Seq<Seq<char>>,
    exit: ExitReport,
    stderr: Seq<char>,
)
    ensures
        ({
            let events = chat::run_events(program, lines, exit, stderr);
            let said = bytes::suffix_within(text::trim(stderr), 2000);
            if exit == ExitReport::Code(0) && (exists|i: int|
                0 <= i < lines.len() && holds_result(#[trigger] lines[i])) {
                forall|i: int| 0 <= i < events.len() ==> !(#[trigger] events[i] is Failed)
            } else {
                &&& events.len() > 0
                &&& events.last() == EventView::Failed(
                    if said.len() > 0 {
                        said
                    } else {
                        match exit {
                            ExitReport::Code(code) => if code == 0 {
                                program + " stream ended without a result event"@
                            } else {
                                program + " exited with Ok(Some("@ + number::decimal_int(
                                    code as int,
                                ) + "))"@
                            },
                            ExitReport::Signal => program + " exited with Ok(None)"@,
                            ExitReport::WaitFailed(err) => program + " exited with Err("@ + err@
                                + ")"@,
                        }
                    },
                )
            }
        }),
{
    results_complete_runs(lines);
    chat::runs_end_with_a_terminal_event(program, lines, exit, stderr);
    reveal_strlit(" exited with ");
    reveal_strlit("Ok(Some(");
    reveal_strlit(" exited with Ok(Some(");
    reveal_strlit("Ok(None)");
    reveal_strlit(" exited with Ok(None)");
    reveal_strlit("Err(");
    reveal_strlit(" exited with Err(");
    assert(" exited with "@ + "Ok(Some("@ =~= " exited with Ok(Some("@);
    assert(" exited with "@ + "Ok(None)"@ =~= " exited with Ok(None)"@);
    assert(" exited with "@ + "Err("@ =~= " exited with Err("@);
    let front = program + " exited with "@;
    match exit {
        ExitReport::Code(code) => {
            let digits = number::decimal_int(code as int);
            assert(front + ("Ok(Some("@ + digits + "))"@) =~= program + (" exited with "@
                + "Ok(Some("@) + digits + "))"@);
        },
        ExitReport::Signal => {
            assert(front + "Ok(None)"@ =~= program + (" exited with "@ + "Ok(None)"@));
        },
        ExitReport::WaitFailed(err) => {
            assert(front + ("Err("@ + err@ + ")"@) =~= program + (" exited with "@ + "Err("@) + err@
                + ")"@);
        },
    }
}

/// The arguments of a chat: the prompt, the stream of messages in JSON with
/// partial ones, no questions for permission, no tool that changes or reaches
/// anything; then the session and the system prompt where there are such, and
/// the tools that read a directory where one is given, else none.
pub proof fn chats_are_started_with(prompt: Seq<char>, opts: OptionsView)
    ensures
        chat::chat_args(prompt, opts) == seq![
            "-p"@,
            prompt,
            "--output-format"@,
            "stream-json"@,
            "--verbose"@,
            "--include-partial-messages"@,
            "--permission-mode"@,
            "dontAsk"@,
            "--disallowed-tools"@,
            "Bash"@,
            "Edit"@,
            "Write"@,
            "WebFetch"@,
            "WebSearch"@,
            "Task"@,
        ] + (match opts.session {
            Some(session) => seq!["--resume"@, session],
            None => seq![],
        }) + (match opts.system_prompt {
            Some(system_prompt) => seq!["--append-system-prompt"@, system_prompt],
            None => seq![],
        }) + (match opts.explore_dir {
            Some(dir) => seq!["--add-dir"@, dir, "--allowed-tools"@, "Read"@, "Glob"@, "Grep"@],
            None => seq!["--tools"@, Seq::empty()],
        }),
{
}

/// The models of events hold every field of them unchanged.
pub proof fn event_models_hold_every_field(event: ChatEvent)
    ensures
        event matches ChatEvent::TextDelta(s) ==> event@ == EventView::TextDelta(s@),
        event matches ChatEvent::Failed(s) ==> event@ == EventView::Failed(s@),
        event matches ChatEvent::Completed { session_id, cost_usd, is_error, text } ==> event@
            == (EventView::Completed {
            session_id: session_id@,
            cost_usd: cost_usd@,
            is_error,
            text: text@,
        }),
{
}

} // verus!
