use patchview::chat::{
    build_args, event_from, parse_line, ChatEvent, ChatOptions, ChatRun, ExitReport, LineStep,
};
use patchview::json::{read_text, Json, JsonNumber};

#[test]
fn parses_text_deltas() {
    let line = r#"{"type":"stream_event","event":{"type":"content_block_delta","index":0,"delta":{"type":"text_delta","text":"Hello"}},"session_id":"s1"}"#;
    assert_eq!(parse_line(line), Some(ChatEvent::TextDelta("Hello".into())));
}

#[test]
fn skips_non_text_deltas_and_other_stream_events() {
    let thinking = r#"{"type":"stream_event","event":{"type":"content_block_delta","index":0,"delta":{"type":"thinking_delta","thinking":"hmm"}}}"#;
    assert_eq!(parse_line(thinking), None);
    let start = r#"{"type":"stream_event","event":{"type":"content_block_start","index":0,"content_block":{"type":"text","text":""}}}"#;
    assert_eq!(parse_line(start), None);
    let input_json = r#"{"type":"stream_event","event":{"type":"content_block_delta","index":0,"delta":{"type":"input_json_delta","partial_json":"{"}}}"#;
    assert_eq!(parse_line(input_json), None);
}

#[test]
fn parses_result_events() {
    let line = r#"{"type":"result","subtype":"success","is_error":false,"duration_ms":1200,"result":"final text","session_id":"abc-123","total_cost_usd":0.0123}"#;
    assert_eq!(
        parse_line(line),
        Some(ChatEvent::Completed {
            session_id: "abc-123".into(),
            cost_usd: JsonNumber::Parsed(serde_json::Number::from_f64(0.0123).unwrap()),
            is_error: false,
            text: "final text".into(),
        })
    );
    // Error result: is_error true still parses as Completed.
    let line = r#"{"type":"result","subtype":"error_during_execution","is_error":true,"result":"boom","session_id":"x","total_cost_usd":0}"#;
    assert!(matches!(
        parse_line(line),
        Some(ChatEvent::Completed { is_error: true, .. })
    ));
}

#[test]
fn skips_other_message_types_and_garbage() {
    for line in [
        r#"{"type":"system","subtype":"init","session_id":"s","tools":[]}"#,
        r#"{"type":"assistant","message":{"content":[{"type":"text","text":"hi"}]}}"#,
        r#"{"type":"user","message":{"content":[]}}"#,
        r#"{"type":"rate_limit_event","rate_limit":{}}"#,
        "not json at all",
        "",
        r#"{"no_type_field":1}"#,
    ] {
        assert_eq!(parse_line(line), None, "line: {line}");
    }
}

#[test]
fn args_plain_qa_has_no_tools_and_no_resume() {
    let args = build_args("what changed?", &ChatOptions::default());
    assert_eq!(args[0..2], ["-p".to_string(), "what changed?".to_string()]);
    let joined = args.join(" ");
    assert!(joined.contains("--output-format stream-json"));
    assert!(joined.contains("--verbose"));
    assert!(joined.contains("--include-partial-messages"));
    assert!(joined.contains("--permission-mode dontAsk"));
    assert!(joined.contains("--disallowed-tools Bash Edit Write WebFetch WebSearch Task"));
    // No tools at all: --tools with an empty value, and no explore flags.
    let tools_ix = args.iter().position(|a| a == "--tools").unwrap();
    assert_eq!(args[tools_ix + 1], "");
    assert!(!args.contains(&"--resume".to_string()));
    assert!(!args.contains(&"--append-system-prompt".to_string()));
    assert!(!args.contains(&"--add-dir".to_string()));
    assert!(!args.contains(&"--allowed-tools".to_string()));
}

#[test]
fn args_explore_mode_allows_read_only_tools() {
    let opts = ChatOptions {
        session: Some("sess-1".into()),
        system_prompt: Some("be brief".into()),
        explore_dir: Some("/tmp/scratch".into()),
    };
    let args = build_args("q", &opts);
    let joined = args.join(" ");
    assert!(joined.contains("--resume sess-1"));
    assert!(joined.contains("--append-system-prompt be brief"));
    assert!(joined.contains("--add-dir /tmp/scratch"));
    assert!(joined.contains("--allowed-tools Read Glob Grep"));
    assert!(joined.contains("--disallowed-tools Bash Edit Write WebFetch WebSearch Task"));
    // Explore mode must not disable the toolset wholesale.
    assert!(!args.contains(&"--tools".to_string()));
}

#[test]
fn the_last_arguments_are_the_tools() {
    let args = build_args("q", &ChatOptions::default());
    assert_eq!(args.len(), 17);
    assert_eq!(args[15..], ["--tools".to_string(), String::new()]);
    let opts = ChatOptions {
        session: None,
        system_prompt: None,
        explore_dir: Some("/d".into()),
    };
    let args = build_args("q", &opts);
    assert_eq!(args[15..].join(" "), "--add-dir /d --allowed-tools Read Glob Grep");
}

#[test]
fn a_result_without_fields_has_defaults() {
    assert_eq!(
        parse_line("  {\"type\":\"result\",\"total_cost_usd\":\"x\",\"is_error\":1}\n"),
        Some(ChatEvent::Completed {
            session_id: String::new(),
            cost_usd: JsonNumber::Unsigned(0),
            is_error: false,
            text: String::new(),
        })
    );
}

#[test]
fn a_message_that_was_built_is_understood() {
    let message = Json::Object(vec![
        ("type".into(), Json::Str("stream_event".into())),
        (
            "event".into(),
            Json::Object(vec![
                ("type".into(), Json::Str("content_block_delta".into())),
                (
                    "delta".into(),
                    Json::Object(vec![
                        ("type".into(), Json::Str("text_delta".into())),
                        ("text".into(), Json::Str("Hi".into())),
                    ]),
                ),
            ]),
        ),
    ]);
    assert_eq!(event_from(&message), Some(ChatEvent::TextDelta("Hi".into())));
    assert_eq!(event_from(&Json::Null), None);
}

#[test]
fn the_last_entry_of_a_key_counts() {
    let json = read_text(r#"{"a":1,"a":2}"#).unwrap();
    assert_eq!(json.u64_at("a"), Some(2));
    let built = Json::Object(vec![
        ("a".into(), Json::Bool(true)),
        ("a".into(), Json::Bool(false)),
    ]);
    assert_eq!(built.bool_at("a"), Some(false));
    assert_eq!(built.str_at("a"), None);
    assert_eq!(built.get("b"), None);
}

const RESULT: &str = r#"{"type":"result","result":"done","session_id":"s"}"#;
const DELTA: &str = r#"{"type":"stream_event","event":{"type":"content_block_delta","delta":{"type":"text_delta","text":"x"}}}"#;

fn emitted(step: LineStep) -> Vec<ChatEvent> {
    match step {
        LineStep::Emit(events) => events,
        _ => panic!("expected events"),
    }
}

/// A run that has taken in some lines, and what it has reported.
fn run_of(lines: &[&str]) -> (ChatRun, Vec<ChatEvent>) {
    let mut run = ChatRun::new();
    let mut events = Vec::new();
    for line in lines {
        if let LineStep::Emit(more) = run.on_line(false, Some(line)) {
            events.extend(more);
        }
    }
    (run, events)
}

fn chunk() -> ChatEvent {
    ChatEvent::TextDelta("x".into())
}

fn result() -> ChatEvent {
    parse_line(RESULT).unwrap()
}

#[test]
fn a_run_with_a_result_ends_without_a_failure() {
    let mut run = ChatRun::new();
    assert_eq!(emitted(run.on_line(false, Some(DELTA))), vec![chunk()]);
    assert!(matches!(run.on_line(false, Some("noise")), LineStep::Skip));
    assert!(!run.completed);
    assert_eq!(emitted(run.on_line(false, Some(RESULT))), vec![result()]);
    assert!(run.completed);
    assert_eq!(run.finish("helper", false, &ExitReport::Code(0), "boom"), vec![]);
}

#[test]
fn a_result_before_a_bad_exit_is_followed_by_a_failure() {
    let cases = vec![
        (ExitReport::Code(1), "boom", "boom"),
        (ExitReport::Code(1), "", "helper exited with Ok(Some(1))"),
        (ExitReport::Signal, "", "helper exited with Ok(None)"),
        (ExitReport::WaitFailed("gone".into()), "", "helper exited with Err(gone)"),
    ];
    for (exit, stderr, expected) in cases {
        let (run, events) = run_of(&[RESULT]);
        assert_eq!(events, vec![result()]);
        assert_eq!(
            run.finish("helper", false, &exit, stderr),
            vec![ChatEvent::Failed(expected.to_string())]
        );
        let (run, _) = run_of(&[RESULT]);
        assert_eq!(run.finish("helper", true, &exit, stderr), vec![]);
    }
}

#[test]
fn text_behind_the_last_result_is_not_reported() {
    let (run, events) = run_of(&[DELTA, RESULT, DELTA, DELTA]);
    assert_eq!(events, vec![chunk(), result()]);
    assert_eq!(run.held, vec!["x", "x"]);
    assert_eq!(run.finish("helper", false, &ExitReport::Code(0), ""), vec![]);
}

#[test]
fn text_before_another_terminal_event_is_reported() {
    let (run, events) = run_of(&[RESULT, DELTA, "noise", RESULT]);
    assert_eq!(events, vec![result(), chunk(), result()]);
    assert!(run.held.is_empty());
    let (run, events) = run_of(&[RESULT, DELTA]);
    assert_eq!(events, vec![result()]);
    assert_eq!(
        run.finish("helper", false, &ExitReport::Code(1), "boom"),
        vec![chunk(), ChatEvent::Failed("boom".into())]
    );
}

#[test]
fn a_run_without_a_result_fails() {
    let mut run = ChatRun::new();
    assert!(matches!(run.on_line(false, None), LineStep::Stop));
    let cases = vec![
        (ExitReport::Code(0), "", "helper stream ended without a result event"),
        (ExitReport::Code(3), " \n", "helper exited with Ok(Some(3))"),
        (ExitReport::Code(-1), "", "helper exited with Ok(Some(-1))"),
        (ExitReport::Signal, "", "helper exited with Ok(None)"),
        (ExitReport::WaitFailed("gone".into()), "", "helper exited with Err(gone)"),
        (ExitReport::Code(0), "  not logged in\n", "not logged in"),
    ];
    for (exit, stderr, expected) in cases {
        let (run, events) = run_of(&[DELTA]);
        assert_eq!(events, vec![chunk()]);
        assert_eq!(
            run.finish("helper", false, &exit, stderr),
            vec![ChatEvent::Failed(expected.to_string())]
        );
    }
    let long = "e".repeat(3000);
    assert_eq!(
        run.finish("helper", false, &ExitReport::Code(1), &long),
        vec![ChatEvent::Failed("e".repeat(2000))]
    );
}

#[test]
fn a_canceled_run_reports_no_terminal_event() {
    let mut run = ChatRun::new();
    assert!(matches!(
        run.on_line(true, Some(RESULT)),
        LineStep::Kill(events) if events.is_empty()
    ));
    assert!(!run.completed);
    assert_eq!(run.finish("helper", true, &ExitReport::Signal, "killed"), vec![]);
    // What was held back has come before the cancellation.
    let (mut run, _) = run_of(&[RESULT, DELTA]);
    assert!(matches!(
        run.on_line(true, Some(RESULT)),
        LineStep::Kill(events) if events == vec![chunk()]
    ));
    let (run, _) = run_of(&[RESULT, DELTA]);
    assert_eq!(
        run.finish("helper", true, &ExitReport::Signal, "killed"),
        vec![chunk()]
    );
}
