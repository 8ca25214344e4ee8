//! Headless questions to an assistant's command: its arguments, the events of
//! its output stream, and how a run ends.
//!
//! The tool policy is locked down: Bash, Edit, Write, WebFetch, WebSearch and
//! Task are never allowed. With an exploration directory the model may read and
//! search inside it; without one it gets no tools at all.
use crate::bytes;
use crate::bytes::tail;
use crate::json;
use crate::json::{clone_number, read_text, Json, JsonNumber, JsonView, NumberView};
use crate::number;
use crate::number::decimal_int_text;
use crate::text;
use crate::text::{same_text, trimmed};
use vstd::prelude::*;
use vstd::string::*;

verus! {

#[derive(Debug, Clone)]
pub struct ChatOptions {
    /// Resume this session (`--resume`); None starts a fresh one.
    pub session: Option<String>,
    /// Appended to the default system prompt (`--append-system-prompt`).
    pub system_prompt: Option<String>,
    /// Directory the model may explore read-only (Read/Glob/Grep). None
    /// disables all tools.
    pub explore_dir: Option<String>,
}

/// The model of [`ChatOptions`].
pub struct OptionsView {
    pub session: Option<Seq<char>>,
    pub system_prompt: Option<Seq<char>>,
    pub explore_dir: Option<Seq<char>>,
}

impl View for ChatOptions {
    type V = OptionsView;

    open spec fn view(&self) -> OptionsView {
        OptionsView {
            session: text::opt_text(self.session),
            system_prompt: text::opt_text(self.system_prompt),
            explore_dir: text::opt_text(self.explore_dir),
        }
    }
}

impl Default for ChatOptions {
    /// A fresh session without tools.
    fn default() -> (r: Self)
        ensures
            r@ == (OptionsView { session: None, system_prompt: None, explore_dir: None }),
    {
        ChatOptions { session: None, system_prompt: None, explore_dir: None }
    }
}

#[derive(Debug, Clone, PartialEq)]
pub enum ChatEvent {
    /// One streamed chunk of assistant text.
    TextDelta(String),
    /// The final `result` event of a run.
    Completed {
        session_id: String,
        /// The cost in dollars.
        cost_usd: JsonNumber,
        is_error: bool,
        /// The complete response text (authoritative; deltas may be a strict
        /// prefix if the stream was interrupted).
        text: String,
    },
    /// The subprocess failed: nonzero exit, or the stream ended without a
    /// result event. Carries the stderr tail (or a description).
    Failed(String),
}

/// The model of a [`ChatEvent`].
pub enum EventView {
    TextDelta(Seq<char>),
    Completed { session_id: Seq<char>, cost_usd: NumberView, is_error: bool, text: Seq<char> },
    Failed(Seq<char>),
}

impl View for ChatEvent {
    type V = EventView;

    open spec fn view(&self) -> EventView {
        match *self {
            ChatEvent::TextDelta(s) => EventView::TextDelta(s@),
            ChatEvent::Completed { session_id, cost_usd, is_error, text } => EventView::Completed {
                session_id: session_id@,
                cost_usd: cost_usd@,
                is_error,
                text: text@,
            },
            ChatEvent::Failed(s) => EventView::Failed(s@),
        }
    }
}

/// The model of an event that may be missing.
pub open spec fn opt_event(event: Option<ChatEvent>) -> Option<EventView> {
    match event {
        Some(e) => Some(e@),
        None => None,
    }
}

/// What every invocation is given.
pub open spec fn base_args(prompt: Seq<char>) -> Seq<Seq<char>> {
    seq![
        "-p"@,
        prompt,
        "--output-format"@,
        "stream-json"@,
        "--verbose"@,
        "--include-partial-messages"@,
        "--permission-mode"@,
        "dontAsk"@,
        "--disallowed-tools"@,
        "Bash"@,
        "Edit"@,
        "Write"@,
        "WebFetch"@,
        "WebSearch"@,
        "Task"@,
    ]
}

/// A flag and its value, where there is one.
pub open spec fn flag(name: Seq<char>, value: Option<Seq<char>>) -> Seq<Seq<char>> {
    match value {
        Some(v) => seq![name, v],
        None => Seq::empty(),
    }
}

/// Which tools are allowed: reading and searching in a directory, or none.
pub open spec fn tool_args(explore_dir: Option<Seq<char>>) -> Seq<Seq<char>> {
    match explore_dir {
        Some(dir) => seq!["--add-dir"@, dir, "--allowed-tools"@, "Read"@, "Glob"@, "Grep"@],
        None => seq!["--tools"@, Seq::empty()],
    }
}

/// The arguments of one invocation.
pub open spec fn chat_args(prompt: Seq<char>, opts: OptionsView) -> Seq<Seq<char>> {
    base_args(prompt) + flag("--resume"@, opts.session) + flag(
        "--append-system-prompt"@,
        opts.system_prompt,
    ) + tool_args(opts.explore_dir)
}

/// The exact arguments (after the program name) for one invocation.
pub fn build_args(prompt: &str, opts: &ChatOptions) -> (r: Vec<String>)
    ensures
        text::texts(r@) == chat_args(prompt@, opts@),
{
    let mut args: Vec<String> = Vec::new();
    args.push("-p".to_owned());
    args.push(prompt.to_owned());
    args.push("--output-format".to_owned());
    args.push("stream-json".to_owned());
    args.push("--verbose".to_owned());
    args.push("--include-partial-messages".to_owned());
    args.push("--permission-mode".to_owned());
    args.push("dontAsk".to_owned());
    args.push("--disallowed-tools".to_owned());
    args.push("Bash".to_owned());
    args.push("Edit".to_owned());
    args.push("Write".to_owned());
    args.push("WebFetch".to_owned());
    args.push("WebSearch".to_owned());
    args.push("Task".to_owned());
    proof {
        assert(text::texts(args@) =~= base_args(prompt@));
    }
    push_flag(&mut args, "--resume", &opts.session);
    push_flag(&mut args, "--append-system-prompt", &opts.system_prompt);
    let ghost before = args@;
    match &opts.explore_dir {
        Some(dir) => {
            args.push("--add-dir".to_owned());
            args.push(dir.clone());
            args.push("--allowed-tools".to_owned());
            args.push("Read".to_owned());
            args.push("Glob".to_owned());
            args.push("Grep".to_owned());
        },
        None => {
            args.push("--tools".to_owned());
            args.push(String::new());
        },
    }
    proof {
        assert(text::texts(args@) =~= text::texts(before) + tool_args(opts@.explore_dir));
    }
    args
}

fn push_flag(args: &mut Vec<String>, name: &str, value: &Option<String>)
    ensures
        text::texts(final(args)@) == text::texts(old(args)@) + flag(name@, text::opt_text(*value)),
{
    let ghost before = args@;
    if let Some(v) = value {
        args.push(name.to_owned());
        args.push(v.clone());
    }
    proof {
        assert(text::texts(args@) =~= text::texts(before) + flag(name@, text::opt_text(*value)));
    }
}

/// The event that a message of the stream stands for; nothing for messages that
/// are skipped: other types, and deltas that are no text.
pub open spec fn event_of(message: JsonView) -> Option<EventView> {
    match json::str_at(message, "type"@) {
        Some(kind) => if kind == "stream_event"@ {
            match json::field(message, "event"@) {
                Some(event) => if json::str_at(event, "type"@) == Some("content_block_delta"@) {
                    match json::field(event, "delta"@) {
                        Some(delta) => if json::str_at(delta, "type"@) == Some("text_delta"@) {
                            match json::str_at(delta, "text"@) {
                                Some(chunk) => Some(EventView::TextDelta(chunk)),
                                None => None,
                            }
                        } else {
                            None
                        },
                        None => None,
                    }
                } else {
                    None
                },
                None => None,
            }
        } else if kind == "result"@ {
            Some(
                EventView::Completed {
                    session_id: text_or_empty(json::str_at(message, "session_id"@)),
                    cost_usd: match json::field(message, "total_cost_usd"@) {
                        Some(JsonView::Number(n)) => n,
                        _ => NumberView::Unsigned(0),
                    },
                    is_error: match json::bool_at(message, "is_error"@) {
                        Some(b) => b,
                        None => false,
                    },
                    text: text_or_empty(json::str_at(message, "result"@)),
                },
            )
        } else {
            None
        },
        None => None,
    }
}

pub open spec fn text_or_empty(value: Option<Seq<char>>) -> Seq<char> {
    match value {
        Some(s) => s,
        None => Seq::empty(),
    }
}

fn string_at(message: &Json, key: &str) -> (r: String)
    ensures
        r@ == text_or_empty(json::str_at(message@, key@)),
{
    match message.str_at(key) {
        Some(s) => s.to_owned(),
        None => String::new(),
    }
}

fn is_at(message: &Json, key: &str, expected: &str) -> (r: bool)
    ensures
        r == (json::str_at(message@, key@) == Some(expected@)),
{
    match message.str_at(key) {
        Some(s) => same_text(s, expected),
        None => false,
    }
}

/// The event that a message of the stream stands for.
pub fn event_from(message: &Json) -> (r: Option<ChatEvent>)
    ensures
        opt_event(r) == event_of(message@),
{
    let kind = match message.str_at("type") {
        Some(kind) => kind,
        None => {
            return None;
        },
    };
    if same_text(kind, "stream_event") {
        let event = match message.get("event") {
            Some(event) => event,
            None => {
                return None;
            },
        };
        if !is_at(event, "type", "content_block_delta") {
            return None;
        }
        let delta = match event.get("delta") {
            Some(delta) => delta,
            None => {
                return None;
            },
        };
        if !is_at(delta, "type", "text_delta") {
            return None;
        }
        match delta.str_at("text") {
            Some(chunk) => Some(ChatEvent::TextDelta(chunk.to_owned())),
            None => None,
        }
    } else if same_text(kind, "result") {
        let cost_usd = match message.get("total_cost_usd") {
            Some(Json::Number(n)) => clone_number(n),
            _ => JsonNumber::Unsigned(0),
        };
        let is_error = match message.bool_at("is_error") {
            Some(b) => b,
            None => false,
        };
        Some(
            ChatEvent::Completed {
                session_id: string_at(message, "session_id"),
                cost_usd,
                is_error,
                text: string_at(message, "result"),
            },
        )
    } else {
        None
    }
}

/// The event that a line of the stream stands for.
pub open spec fn line_event(line: Seq<char>) -> Option<EventView> {
    match json::json_of_text(text::trim(line)) {
        Some(message) => event_of(message),
        None => None,
    }
}

/// Parse one line of the stream into an event. Nothing comes of what is
/// skipped: messages of other types, deltas that are no text (thinking, tool
/// input), and lines that are no JSON.
pub fn parse_line(line: &str) -> (r: Option<ChatEvent>)
    ensures
        opt_event(r) == line_event(line@),
{
    let text = trimmed(line);
    match read_text(text.as_str()) {
        Some(message) => event_from(&message),
        None => None,
    }
}

/// How the process ended.
pub enum ExitReport {
    /// It exited with this code.
    Code(i32),
    /// It was ended by a signal.
    Signal,
    /// Waiting for it failed; carries what the system said.
    WaitFailed(String),
}

/// How an end of the process reads in an error message.
pub open spec fn exit_text(exit: ExitReport) -> Seq<char> {
    match exit {
        ExitReport::Code(code) => "Ok(Some("@ + number::decimal_int(code as int) + "))"@,
        ExitReport::Signal => "Ok(None)"@,
        ExitReport::WaitFailed(err) => "Err("@ + err@ + ")"@,
    }
}

fn exit_string(exit: &ExitReport) -> (r: String)
    ensures
        r@ == exit_text(*exit),
{
    let mut out = String::new();
    match exit {
        ExitReport::Code(code) => {
            out.append("Ok(Some(");
            out.append(decimal_int_text(*code).as_str());
            out.append("))");
        },
        ExitReport::Signal => {
            out.append("Ok(None)");
        },
        ExitReport::WaitFailed(err) => {
            out.append("Err(");
            out.append(err.as_str());
            out.append(")");
        },
    }
    assert(out@ =~= exit_text(*exit));
    out
}

/// What a failed run reports: the end of its error output, or how it ended.
pub open spec fn failure_text(program: Seq<char>, exit: ExitReport, stderr: Seq<char>) -> Seq<char> {
    let detail = bytes::suffix_within(text::trim(stderr), 2000);
    if detail.len() > 0 {
        detail
    } else if exit == ExitReport::Code(0) {
        program + " stream ended without a result event"@
    } else {
        program + " exited with "@ + exit_text(exit)
    }
}

/// The models of a list of events.
pub open spec fn event_views(events: Seq<ChatEvent>) -> Seq<EventView> {
    Seq::new(events.len(), |i: int| events[i]@)
}

/// Chunks of text as events.
pub open spec fn deltas(chunks: Seq<Seq<char>>) -> Seq<EventView> {
    Seq::new(chunks.len(), |i: int| EventView::TextDelta(chunks[i]))
}

/// What to do with a line of the stream.
pub enum LineStep {
    /// The run was canceled: report these events, and kill the process.
    Kill(Vec<ChatEvent>),
    /// The stream cannot be read any further.
    Stop,
    /// Nothing to report.
    Skip,
    /// Report these events.
    Emit(Vec<ChatEvent>),
}

/// A run whose stream is being read.
///
/// Text that comes behind a result is held back until another event shows that
/// the result was not the last one, so that no text follows the terminal event.
pub struct ChatRun {
    /// Whether a result event has come.
    pub completed: bool,
    /// The chunks of text behind the last result.
    pub held: Vec<String>,
}

/// The chunks as events, and an event behind them.
fn with_event(chunks: Vec<String>, event: Option<ChatEvent>) -> (r: Vec<ChatEvent>)
    ensures
        event_views(r@) == match event {
            Some(e) => deltas(text::texts(chunks@)).push(e@),
            None => deltas(text::texts(chunks@)),
        },
{
    let ghost all = text::texts(chunks@);
    let mut out: Vec<ChatEvent> = Vec::new();
    let mut i: usize = 0;
    while i < chunks.len()
        invariant
            i <= chunks@.len(),
            all == text::texts(chunks@),
            event_views(out@) == deltas(all.take(i as int)),
        decreases chunks@.len() - i,
    {
        let ghost before = out@;
        let chunk = chunks[i].clone();
        out.push(ChatEvent::TextDelta(chunk));
        i = i + 1;
        proof {
            let last = EventView::TextDelta(chunk@);
            assert(event_views(out@) =~= event_views(before).push(last));
            assert(deltas(all.take(i as int)) =~= deltas(all.take(i - 1)).push(last));
        }
    }
    assert(all.take(i as int) =~= all);
    if let Some(e) = event {
        let ghost before = out@;
        out.push(e);
        assert(event_views(out@) =~= event_views(before).push(e@));
    }
    out
}

impl ChatRun {
    /// The run stands where these lines have brought it.
    pub open spec fn stands_after(self, lines: Seq<Seq<char>>) -> bool {
        self.completed == completed_after(lines) && text::texts(self.held@) == held_after(lines)
    }

    /// A run that has just begun.
    pub fn new() -> (r: Self)
        ensures
            !r.completed,
            r.held@.len() == 0,
            r.stands_after(Seq::empty()),
    {
        let r = ChatRun { completed: false, held: Vec::new() };
        assert(text::texts(r.held@) =~= held_after(Seq::empty()));
        r
    }

    /// What is held back, which is then held no more.
    fn release(&mut self) -> (r: Vec<String>)
        ensures
            r == old(self).held,
            final(self).held@.len() == 0,
            final(self).completed == old(self).completed,
    {
        let mut held: Vec<String> = Vec::new();
        std::mem::swap(&mut held, &mut self.held);
        held
    }

    /// Take in one line; None is a line that could not be read.
    pub fn on_line(&mut self, canceled: bool, line: Option<&str>) -> (r: LineStep)
        ensures
            canceled ==> {
                &&& r matches LineStep::Kill(events) && event_views(events@) == deltas(
                    text::texts(old(self).held@),
                )
                &&& final(self).held@.len() == 0
                &&& final(self).completed == old(self).completed
            },
            !canceled && line is None ==> r is Stop && *final(self) == *old(self),
            !canceled && line is Some ==> match line_event(line->0@) {
                Some(event) => if old(self).completed && event is TextDelta {
                    &&& r is Skip
                    &&& text::texts(final(self).held@) == text::texts(old(self).held@).push(
                        event->TextDelta_0,
                    )
                    &&& final(self).completed
                } else {
                    &&& r matches LineStep::Emit(events) && event_views(events@) == deltas(
                        text::texts(old(self).held@),
                    ).push(event)
                    &&& final(self).held@.len() == 0
                    &&& final(self).completed == (old(self).completed || event is Completed)
                },
                None => r is Skip && *final(self) == *old(self),
            },
            !canceled && line is Some ==> forall|lines: Seq<Seq<char>>| #[trigger]
                old(self).stands_after(lines) ==> {
                    &&& final(self).stands_after(lines.push(line->0@))
                    &&& stream_events(lines.push(line->0@)) == match r {
                        LineStep::Emit(events) => stream_events(lines) + event_views(events@),
                        _ => stream_events(lines),
                    }
                },
    {
        proof {
            if let Some(line) = line {
                lemma_one_more(line@);
            }
        }
        if canceled {
            let held = self.release();
            return LineStep::Kill(with_event(held, None));
        }
        let event = match line {
            None => {
                return LineStep::Stop;
            },
            Some(line) => match parse_line(line) {
                Some(event) => event,
                None => {
                    return LineStep::Skip;
                },
            },
        };
        if self.completed {
            if let ChatEvent::TextDelta(chunk) = &event {
                let ghost before = self.held@;
                let kept = chunk.clone();
                self.held.push(kept);
                proof {
                    text::lemma_texts_push(before, kept);
                }
                return LineStep::Skip;
            }
        }
        match &event {
            ChatEvent::Completed { session_id: _, cost_usd: _, is_error: _, text: _ } => {
                self.completed = true;
            },
            _ => {},
        }
        let held = self.release();
        assert(text::texts(self.held@) =~= Seq::empty());
        LineStep::Emit(with_event(held, Some(event)))
    }

    /// The events that end the run once the process is gone. A run that was not
    /// canceled has failed unless its result has come and the process ended
    /// well; the text that was held back stands before the failure, and is
    /// dropped where there is none. A run that was canceled reports what was
    /// held back and no terminal event. `program` is what was run.
    pub fn finish(self, program: &str, canceled: bool, exit: &ExitReport, stderr: &str) -> (r: Vec<
        ChatEvent,
    >)
        ensures
            event_views(r@) == if canceled {
                deltas(text::texts(self.held@))
            } else if self.completed && *exit == ExitReport::Code(0) {
                Seq::empty()
            } else {
                deltas(text::texts(self.held@)).push(
                    EventView::Failed(failure_text(program@, *exit, stderr@)),
                )
            },
            !canceled ==> forall|lines: Seq<Seq<char>>| #[trigger]
                self.stands_after(lines) ==> run_events(program@, lines, *exit, stderr@)
                    == stream_events(lines) + event_views(r@),
    {
        if canceled {
            return with_event(self.held, None);
        }
        let ok = match exit {
            ExitReport::Code(code) => *code == 0,
            _ => false,
        };
        if self.completed && ok {
            let none: Vec<ChatEvent> = Vec::new();
            assert(event_views(none@) =~= Seq::empty());
            return none;
        }
        let text = trimmed(stderr);
        let detail = tail(text.as_str(), 2000);
        let message = if detail.is_empty() {
            let mut out = program.to_owned();
            if ok {
                out.append(" stream ended without a result event");
            } else {
                out.append(" exited with ");
                out.append(exit_string(exit).as_str());
            }
            out
        } else {
            detail.to_owned()
        };
        with_event(self.held, Some(ChatEvent::Failed(message)))
    }
}

/// The events that the lines of a stream stand for, in their order.
pub open spec fn line_events(lines: Seq<Seq<char>>) -> Seq<EventView>
    decreases lines.len(),
{
    if lines.len() == 0 {
        Seq::empty()
    } else {
        let before = line_events(lines.drop_last());
        match line_event(lines.last()) {
            Some(event) => before.push(event),
            None => before,
        }
    }
}

/// Whether a run has its result once it has taken in some lines.
pub open spec fn completed_after(lines: Seq<Seq<char>>) -> bool
    decreases lines.len(),
{
    if lines.len() == 0 {
        false
    } else {
        completed_after(lines.drop_last()) || match line_event(lines.last()) {
            Some(event) => event is Completed,
            None => false,
        }
    }
}

/// The text that a run holds back once it has taken in some lines.
pub open spec fn held_after(lines: Seq<Seq<char>>) -> Seq<Seq<char>>
    decreases lines.len(),
{
    if lines.len() == 0 {
        Seq::empty()
    } else {
        let front = lines.drop_last();
        match line_event(lines.last()) {
            Some(EventView::TextDelta(chunk)) => if completed_after(front) {
                held_after(front).push(chunk)
            } else {
                Seq::empty()
            },
            Some(_) => Seq::empty(),
            None => held_after(front),
        }
    }
}

/// The events that a run has reported once it has taken in some lines.
pub open spec fn stream_events(lines: Seq<Seq<char>>) -> Seq<EventView>
    decreases lines.len(),
{
    if lines.len() == 0 {
        Seq::empty()
    } else {
        let front = lines.drop_last();
        let before = stream_events(front);
        match line_event(lines.last()) {
            Some(event) => if completed_after(front) && event is TextDelta {
                before
            } else {
                before + deltas(held_after(front)).push(event)
            },
            None => before,
        }
    }
}

/// Whether an event ends a run.
pub open spec fn is_terminal(event: EventView) -> bool {
    event is Completed || event is Failed
}

/// Everything that a run reports which is not canceled.
pub open spec fn run_events(
    program: Seq<char>,
    lines: Seq<Seq<char>>,
    exit: ExitReport,
    stderr: Seq<char>,
) -> Seq<EventView> {
    stream_events(lines) + if completed_after(lines) && exit == ExitReport::Code(0) {
        Seq::empty()
    } else {
        deltas(held_after(lines)).push(EventView::Failed(failure_text(program, exit, stderr)))
    }
}

/// What a run has reported and what it holds back are together the events of its
/// lines, in their order. So a canceled run reports all of them.
pub proof fn nothing_is_lost(lines: Seq<Seq<char>>)
    ensures
        stream_events(lines) + deltas(held_after(lines)) == line_events(lines),
    decreases lines.len(),
{
    if lines.len() == 0 {
        assert(stream_events(lines) + deltas(held_after(lines)) =~= line_events(lines));
    } else {
        let front = lines.drop_last();
        nothing_is_lost(front);
        let all = stream_events(lines) + deltas(held_after(lines));
        let before = stream_events(front) + deltas(held_after(front));
        match line_event(lines.last()) {
            Some(event) => {
                lemma_held(front);
                assert(all =~= before.push(event));
            },
            None => {},
        }
    }
}

proof fn lemma_one_more(line: Seq<char>)
    ensures
        forall|lines: Seq<Seq<char>>|
            #![trigger lines.push(line)]
            {
                &&& completed_after(lines.push(line)) == (completed_after(lines)
                    || match line_event(line) {
                    Some(event) => event is Completed,
                    None => false,
                })
                &&& held_after(lines.push(line)) == match line_event(line) {
                    Some(EventView::TextDelta(chunk)) => if completed_after(lines) {
                        held_after(lines).push(chunk)
                    } else {
                        Seq::empty()
                    },
                    Some(_) => Seq::empty(),
                    None => held_after(lines),
                }
                &&& stream_events(lines.push(line)) == match line_event(line) {
                    Some(event) => if completed_after(lines) && event is TextDelta {
                        stream_events(lines)
                    } else {
                        stream_events(lines) + deltas(held_after(lines)).push(event)
                    },
                    None => stream_events(lines),
                }
            },
{
    assert forall|lines: Seq<Seq<char>>| #![trigger lines.push(line)]
        lines.push(line).drop_last() == lines && lines.push(line).last() == line by {
        assert(lines.push(line).drop_last() =~= lines);
    }
}

/// A run that is not canceled reports the events of its lines in their order,
/// and a failure behind them if it has failed. Otherwise it leaves out nothing
/// but text that comes behind the last result.
pub proof fn runs_report_their_lines(
    program: Seq<char>,
    lines: Seq<Seq<char>>,
    exit: ExitReport,
    stderr: Seq<char>,
)
    ensures
        ({
            let events = run_events(program, lines, exit, stderr);
            if completed_after(lines) && exit == ExitReport::Code(0) {
                line_events(lines) == events + deltas(held_after(lines))
            } else {
                events == line_events(lines).push(
                    EventView::Failed(failure_text(program, exit, stderr)),
                )
            }
        }),
{
    nothing_is_lost(lines);
    let events = run_events(program, lines, exit, stderr);
    let failure = EventView::Failed(failure_text(program, exit, stderr));
    if completed_after(lines) && exit == ExitReport::Code(0) {
        assert(events =~= stream_events(lines));
    } else {
        assert(events =~= line_events(lines).push(failure));
    }
}

/// A run that is not canceled ends with a terminal event, and nothing but the
/// last event is a failure. The last event is a failure if and only if the
/// process did not end well or no result came; otherwise it is a result.
pub proof fn runs_end_with_a_terminal_event(
    program: Seq<char>,
    lines: Seq<Seq<char>>,
    exit: ExitReport,
    stderr: Seq<char>,
)
    ensures
        ({
            let events = run_events(program, lines, exit, stderr);
            let failed = exit != ExitReport::Code(0) || !completed_after(lines);
            &&& events.len() > 0
            &&& is_terminal(events.last())
            &&& events.last() is Failed <==> failed
            &&& events.last() is Completed <==> !failed
            &&& forall|i: int| 0 <= i < events.len() - 1 ==> !(#[trigger] events[i] is Failed)
        }),
{
    let events = run_events(program, lines, exit, stderr);
    lemma_held(lines);
    lemma_lines_report_no_failure(lines);
    runs_report_their_lines(program, lines, exit, stderr);
    if completed_after(lines) && exit == ExitReport::Code(0) {
        assert(events =~= stream_events(lines));
        assert forall|i: int| 0 <= i < events.len() - 1 implies !(
        #[trigger] events[i] is Failed) by {
            assert(events[i] == line_events(lines)[i]);
        }
    }
}

/// A run has its result exactly if one of its lines stands for one.
pub proof fn results_are_reported(lines: Seq<Seq<char>>)
    ensures
        completed_after(lines) == exists|i: int|
            0 <= i < line_events(lines).len() && line_events(lines)[i] is Completed,
    decreases lines.len(),
{
    if lines.len() > 0 {
        let front = lines.drop_last();
        results_are_reported(front);
        let before = line_events(front);
        let all = line_events(lines);
        if completed_after(front) {
            let i = choose|i: int| 0 <= i < before.len() && before[i] is Completed;
            assert(all[i] is Completed);
        } else if completed_after(lines) {
            assert(all[before.len() as int] is Completed);
        } else if exists|i: int| 0 <= i < all.len() && all[i] is Completed {
            let i = choose|i: int| 0 <= i < all.len() && all[i] is Completed;
            assert(i < before.len());
            assert(before[i] is Completed);
        }
    }
}

/// Text is held back only behind a result, which is then the last event that
/// was reported.
proof fn lemma_held(lines: Seq<Seq<char>>)
    ensures
        !completed_after(lines) ==> held_after(lines).len() == 0,
        completed_after(lines) ==> stream_events(lines).len() > 0 && stream_events(
            lines,
        ).last() is Completed,
    decreases lines.len(),
{
    if lines.len() > 0 {
        let front = lines.drop_last();
        lemma_held(front);
        if let Some(event) = line_event(lines.last()) {
            if !(completed_after(front) && event is TextDelta) {
                assert(stream_events(lines).last() == event);
            }
        }
    }
}

proof fn lemma_lines_report_no_failure(lines: Seq<Seq<char>>)
    ensures
        forall|i: int|
            0 <= i < line_events(lines).len() ==> !(#[trigger] line_events(lines)[i] is Failed),
    decreases lines.len(),
{
    if lines.len() > 0 {
        lemma_lines_report_no_failure(lines.drop_last());
    }
}

/// The tool policy holds for every invocation: nothing that would prompt is
/// permitted, the writing and network tools are named as forbidden, and the
/// last arguments either allow reading and searching in the given directory
/// or take all tools away.
pub proof fn tools_are_locked_down(prompt: Seq<char>, opts: OptionsView)
    ensures
        chat_args(prompt, opts).subrange(6, 8) == seq!["--permission-mode"@, "dontAsk"@],
        chat_args(prompt, opts).subrange(8, 15) == seq![
            "--disallowed-tools"@,
            "Bash"@,
            "Edit"@,
            "Write"@,
            "WebFetch"@,
            "WebSearch"@,
            "Task"@,
        ],
        match opts.explore_dir {
            Some(dir) => chat_args(prompt, opts).skip(chat_args(prompt, opts).len() - 6) == seq![
                "--add-dir"@,
                dir,
                "--allowed-tools"@,
                "Read"@,
                "Glob"@,
                "Grep"@,
            ],
            None => chat_args(prompt, opts).skip(chat_args(prompt, opts).len() - 2) == seq![
                "--tools"@,
                Seq::empty(),
            ],
        },
{
    let args = chat_args(prompt, opts);
    assert(args.subrange(6, 8) =~= seq!["--permission-mode"@, "dontAsk"@]);
    assert(args.subrange(8, 15) =~= seq![
        "--disallowed-tools"@,
        "Bash"@,
        "Edit"@,
        "Write"@,
        "WebFetch"@,
        "WebSearch"@,
        "Task"@,
    ]);
    match opts.explore_dir {
        Some(dir) => {
            assert(args.skip(args.len() - 6) =~= tool_args(opts.explore_dir));
        },
        None => {
            assert(args.skip(args.len() - 2) =~= tool_args(opts.explore_dir));
        },
    }
}

} // verus!
