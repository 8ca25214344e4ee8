use patchview::json::{copy_json, encode, read_text, Json, JsonNumber};
use patchview::lsp::{
    bifrost_server_command, LspClient, LspError, LspProgress, ResponseStep, ServerStep,
};
use patchview::rpc::{decode_message, frame, HeaderReader, HeaderStep};
use patchview::symbols::{
    definition_from_location, definitions_from, hover_from, strip_markdown_fences,
    target_contains_position, DefinitionTarget, HoverLookup, HoverStep, LspPosition,
};
use patchview::uri::{
    document_path, file_uri, hex, percent_decode, percent_encode, rel_path_from_uri, relative_path,
};
use std::path::Path;

fn json(text: &str) -> Json {
    read_text(text).unwrap()
}

fn at(path: &str, line: u32, character: u32) -> LspPosition {
    LspPosition {
        path: path.into(),
        line,
        character,
    }
}

#[test]
fn frames_can_be_read_back() {
    let bytes = frame(&b"{\"a\":1}".to_vec());
    assert_eq!(bytes, b"Content-Length: 7\r\n\r\n{\"a\":1}");
    let mut reader = HeaderReader::new();
    assert!(matches!(reader.line(Some("Content-Length: 7\r\n")), HeaderStep::More));
    assert!(matches!(reader.line(Some("\r\n")), HeaderStep::Body(7)));
    let message = decode_message(&bytes[21..].to_vec()).unwrap();
    assert_eq!(message.u64_at("a"), Some(1));
}

#[test]
fn headers_can_be_wrong() {
    let mut reader = HeaderReader::new();
    assert!(matches!(reader.line(Some("Content-Type: x\r\n")), HeaderStep::More));
    assert!(matches!(reader.line(Some("\n")), HeaderStep::MissingLength));
    assert!(matches!(
        reader.line(Some("Content-Length: many\r\n")),
        HeaderStep::BadLength(text) if text == "many"
    ));
    assert!(matches!(reader.line(None), HeaderStep::Exited));
    assert!(matches!(reader.line(Some("Content-Length:+12\n")), HeaderStep::More));
    assert!(matches!(reader.line(Some("Content-Length: 3\n")), HeaderStep::More));
    assert!(matches!(reader.line(Some("\r\n")), HeaderStep::Body(3)));
    assert!(decode_message(&b"{".to_vec()).is_err());
}

#[test]
fn json_is_written_as_serde_json_writes_it() {
    let text = r#"{"b":[1,-2,2.5,null,true,"x\n\"é"],"a":{}}"#;
    let value: serde_json::Value = serde_json::from_str(text).unwrap();
    assert_eq!(encode(&json(text)), serde_json::to_vec(&value).unwrap());
    assert_eq!(copy_json(&json(text)), json(text));
    let built = Json::Array(vec![
        Json::Number(JsonNumber::Unsigned(u64::MAX)),
        Json::Number(JsonNumber::Signed(-5)),
    ]);
    assert_eq!(encode(&built), b"[18446744073709551615,-5]");
}

#[test]
fn numbers_are_natural_or_not() {
    assert_eq!(json("7").as_u64(), Some(7));
    assert_eq!(json("-7").as_u64(), None);
    assert_eq!(json("7.0").as_u64(), None);
    assert_eq!(Json::Number(JsonNumber::Signed(7)).as_u64(), Some(7));
    assert_eq!(Json::Number(JsonNumber::Signed(-7)).as_u64(), None);
    assert_eq!(json("\"7\"").as_str(), Some("7"));
    assert_eq!(json("true").as_bool(), Some(true));
}

fn body(bytes: &[u8]) -> String {
    let text = String::from_utf8(bytes.to_vec()).unwrap();
    let (header, body) = text.split_once("\r\n\r\n").unwrap();
    assert_eq!(header, format!("Content-Length: {}", body.len()));
    body.to_string()
}

#[test]
fn requests_have_ids_of_their_own() {
    let mut client = LspClient::new("/root".into());
    let (first, bytes) = client.hover_request("file:///a.rs", &at("a.rs", 3, 4));
    assert_eq!(first, 1);
    assert_eq!(
        body(&bytes),
        r#"{"id":1,"jsonrpc":"2.0","method":"textDocument/hover","params":{"position":{"character":4,"line":3},"textDocument":{"uri":"file:///a.rs"}}}"#
    );
    let (second, bytes) = client.definition_request("file:///a.rs", &at("a.rs", 0, 0));
    assert_eq!(second, 2);
    assert!(body(&bytes).contains("\"method\":\"textDocument/definition\""));
    let (_, bytes) = client.initialize(42, "file:///root", "viewer");
    assert_eq!(
        body(&bytes),
        r#"{"id":3,"jsonrpc":"2.0","method":"initialize","params":{"capabilities":{"window":{"workDoneProgress":true}},"processId":42,"rootUri":"file:///root","workspaceFolders":[{"name":"viewer","uri":"file:///root"}]}}"#
    );
    assert_eq!(
        body(&client.notify("initialized")),
        r#"{"jsonrpc":"2.0","method":"initialized","params":{}}"#
    );
}

#[test]
fn warming_up_asks_for_a_definition_or_all_symbols() {
    let mut client = LspClient::new("/root".into());
    let position = at("a.rs", 1, 2);
    let (_, bytes) = client.warm_up(Some(("file:///root/a.rs", &position)));
    assert!(body(&bytes).contains("textDocument/definition"));
    assert_eq!(client.progress.message.as_deref(), Some("Warming LSP queries"));
    assert_eq!(client.progress.percentage, Some(99));
    assert!(!client.progress.done);
    let (_, bytes) = client.warm_up(None);
    assert_eq!(
        body(&bytes),
        r#"{"id":2,"jsonrpc":"2.0","method":"workspace/symbol","params":{"query":""}}"#
    );
    client.progress.ready();
    assert_eq!(client.progress.message.as_deref(), Some("Ready"));
    assert_eq!(client.progress.percentage, Some(100));
    assert!(client.progress.done);
}

#[test]
fn the_server_gets_its_answers() {
    let mut client = LspClient::new("/root".into());
    let create = json(r#"{"id":"t1","method":"window/workDoneProgress/create","params":{}}"#);
    match client.handle_server_message(&create) {
        Ok(ServerStep::Reply(bytes)) => {
            assert_eq!(body(&bytes), r#"{"id":"t1","jsonrpc":"2.0","result":null}"#)
        }
        _ => panic!("expected a reply"),
    }
    let missing = json(r#"{"method":"window/workDoneProgress/create"}"#);
    match client.handle_server_message(&missing) {
        Err(error) => assert_eq!(error.message(), "progress create missing id"),
        Ok(_) => panic!("expected an error"),
    }
    let other = json(r#"{"id":9,"method":"workspace/configuration"}"#);
    match client.handle_server_message(&other) {
        Ok(ServerStep::Reply(bytes)) => assert_eq!(
            body(&bytes),
            r#"{"error":{"code":-32601,"message":"Method not found"},"id":9,"jsonrpc":"2.0"}"#
        ),
        _ => panic!("expected a reply"),
    }
    let note = json(r#"{"method":"window/logMessage"}"#);
    assert!(matches!(client.handle_server_message(&note), Ok(ServerStep::Silent)));
    let response = json(r#"{"id":1,"result":null}"#);
    assert!(matches!(client.handle_server_message(&response), Ok(ServerStep::Response)));
}

#[test]
fn a_request_waits_for_its_own_answer() {
    let mut client = LspClient::new("/root".into());
    let receive = |client: &mut LspClient, text: &str| client.receive(5, "m", &json(text));
    assert!(matches!(
        receive(&mut client, r#"{"id":4,"result":1}"#),
        Ok(ResponseStep::Wait)
    ));
    assert!(matches!(
        receive(&mut client, r#"{"id":"5","result":1}"#),
        Ok(ResponseStep::Wait)
    ));
    assert!(matches!(
        receive(&mut client, r#"{"method":"$/progress"}"#),
        Ok(ResponseStep::Wait)
    ));
    assert!(matches!(
        receive(&mut client, r#"{"method":"x","id":5}"#),
        Ok(ResponseStep::Reply(_))
    ));
    match receive(&mut client, r#"{"id":5,"result":{"a":1}}"#) {
        Ok(ResponseStep::Done(Some(result))) => assert_eq!(result.u64_at("a"), Some(1)),
        _ => panic!("expected a result"),
    }
    assert!(matches!(
        receive(&mut client, r#"{"id":5}"#),
        Ok(ResponseStep::Done(None))
    ));
    match receive(&mut client, r#"{"id":5,"error":{"message":"é","code":-1}}"#) {
        Err(LspError::Failed(message)) => {
            assert_eq!(message, r#"LSP m failed: {"code":-1,"message":"é"}"#)
        }
        _ => panic!("expected a failure"),
    }
}

fn report(progress: &mut LspProgress, value: &str) {
    let message = format!(r#"{{"method":"$/progress","params":{{"value":{value}}}}}"#);
    progress.apply_progress(&json(&message));
}

#[test]
fn progress_follows_the_reports() {
    let mut progress = LspProgress::default();
    report(
        &mut progress,
        r#"{"kind":"begin","title":"Indexing","percentage":4294967298}"#,
    );
    assert_eq!(
        progress,
        LspProgress {
            title: Some("Indexing".into()),
            message: None,
            percentage: Some(2),
            done: false,
        }
    );
    report(&mut progress, r#"{"kind":"report","message":"half","percentage":50}"#);
    report(&mut progress, r#"{"kind":"report"}"#);
    assert_eq!(progress.message.as_deref(), Some("half"));
    assert_eq!(progress.percentage, Some(50));
    report(&mut progress, r#"{"kind":"other","message":"no"}"#);
    assert_eq!(progress.message.as_deref(), Some("half"));
    report(&mut progress, r#"{"kind":"end"}"#);
    assert_eq!(progress.message.as_deref(), Some("Indexing complete"));
    assert_eq!(progress.percentage, Some(100));
    assert!(progress.done);
    progress.apply_progress(&json(r#"{"params":[]}"#));
    assert!(progress.done);
    let mut progress = LspProgress::default();
    progress.unavailable("no message received");
    assert_eq!(
        progress.message.as_deref(),
        Some("Indexing status unavailable: no message received")
    );
    assert!(progress.done);
}

#[test]
fn hover_texts_lose_fences_and_rules() {
    assert_eq!(
        strip_markdown_fences("```rust\nfn main()\n```\n---\n  ---  \ndocs\n"),
        "fn main()\ndocs"
    );
    assert_eq!(
        strip_markdown_fences("```rust\nfn f()\n```\n\n---\ndocs\n"),
        "fn f()\n\ndocs"
    );
    for text in ["  a\n```\n b ", "x\r\n---\r\ny\r\n", "", "---"] {
        let once = strip_markdown_fences(text);
        assert_eq!(once.trim(), once);
        assert_eq!(strip_markdown_fences(&once), once);
    }
    let hover = |text: &str| hover_from(Some(&json(text))).map(|hover| hover.text);
    assert_eq!(hover(r#"{"contents":"plain"}"#).as_deref(), Some("plain"));
    assert_eq!(
        hover(r#"{"contents":{"kind":"markdown","value":" x "}}"#).as_deref(),
        Some("x")
    );
    assert_eq!(
        hover(r#"{"contents":["a",{"value":"b"},{"other":1},3]}"#).as_deref(),
        Some("a\n\nb")
    );
    assert_eq!(hover(r#"{"contents":"```\n```"}"#), None);
    assert_eq!(hover(r#"{"contents":{"kind":"x"}}"#), None);
    assert_eq!(hover("null"), None);
    assert_eq!(hover_from(None), None);
}

#[test]
fn startup_waits_for_the_end_or_gives_up() {
    let mut client = LspClient::new("/root".into());
    let begin = json(r#"{"method":"$/progress","params":{"value":{"kind":"begin"}}}"#);
    assert!(matches!(client.startup(Ok(&begin)), Ok(ServerStep::Silent)));
    assert!(!client.progress.done);
    let create = json(r#"{"id":1,"method":"window/workDoneProgress/create"}"#);
    assert!(matches!(client.startup(Ok(&create)), Ok(ServerStep::Reply(_))));
    assert!(matches!(client.startup(Err("timeout")), Ok(ServerStep::Silent)));
    assert!(client.progress.done);
    assert_eq!(
        client.progress.message.as_deref(),
        Some("Indexing status unavailable: timeout")
    );
}

const LOCATION: &str = r#"{"uri":"file:///root/src/a%20b.rs","range":{"start":{"line":1,"character":2},"end":{"line":3,"character":4}}}"#;
const LINK: &str = r#"{"targetUri":"file:///root/x.rs","targetRange":{"start":{"line":4294967296,"character":0},"end":{"line":0,"character":5}}}"#;

#[test]
fn definitions_come_in_three_shapes() {
    let expected = DefinitionTarget {
        path: "src/a b.rs".into(),
        start_line: 1,
        start_character: 2,
        end_line: 3,
        end_character: 4,
    };
    let targets = |text: &str| definitions_from("/root", Some(&json(text)));
    assert_eq!(targets(LOCATION), vec![expected.clone()]);
    let list = format!("[{LINK},{{}},{LOCATION}]");
    let both = targets(&list);
    assert_eq!(both.len(), 2);
    assert_eq!(both[0].path, "x.rs");
    assert_eq!((both[0].start_line, both[0].end_character), (0, 5));
    assert_eq!(both[1], expected);
    assert_eq!(targets(LINK).len(), 1);
    assert!(targets("null").is_empty());
    assert!(targets(r#"{"range":{}}"#).is_empty());
    assert!(definitions_from("/root", None).is_empty());
    // Outside the root, and without a usable URI.
    assert!(definition_from_location("/other", &json(LOCATION)).is_none());
    assert!(definition_from_location("/root", &json(r#"{"uri":7,"targetUri":"file:///root/x"}"#))
        .is_none());
}

#[test]
fn ranges_hold_their_start_and_not_their_end() {
    let target = DefinitionTarget {
        path: "a.rs".into(),
        start_line: 2,
        start_character: 4,
        end_line: 4,
        end_character: 6,
    };
    for (position, expected) in [
        (at("a.rs", 2, 4), true),
        (at("a.rs", 2, 3), false),
        (at("a.rs", 3, 0), true),
        (at("a.rs", 4, 5), true),
        (at("a.rs", 4, 6), false),
        (at("a.rs", 1, 9), false),
        (at("a.rs", 5, 0), false),
        (at("b.rs", 3, 0), false),
    ] {
        assert_eq!(target_contains_position(&target, &position), expected);
    }
}

#[test]
fn hovers_on_declarations_are_suppressed() {
    let text = json(r#"{"contents":"fn x()"}"#);
    let place = json(LOCATION);
    for (position, shown) in [(at("src/a b.rs", 2, 0), false), (at("src/a b.rs", 9, 0), true)] {
        let mut lookup = HoverLookup::new(position);
        assert!(matches!(lookup.text(Some(&text)), HoverStep::AskDefinition));
        let hover = lookup.definitions("/root", Some(&place));
        assert_eq!(hover.map(|h| h.text).as_deref(), shown.then_some("fn x()"));
    }
    assert!(HoverLookup::queued(at("x", 0, 0), true).is_none());
    let mut lookup = HoverLookup::queued(at("x", 0, 0), false).unwrap();
    assert!(matches!(lookup.text(None), HoverStep::Done(None)));
}

#[test]
fn percent_encoding_can_be_undone() {
    assert_eq!(percent_encode("/a b/é~-_.%"), "/a%20b/%C3%A9~-_.%25");
    for s in ["", "/tmp/x", "100% é 日本 \u{1f600}", "a+b&c?d#e"] {
        assert_eq!(percent_decode(&percent_encode(s)).as_deref(), Some(s));
    }
    assert_eq!(percent_decode("%c3%A9").as_deref(), Some("é"));
    assert_eq!(percent_decode("%"), None);
    assert_eq!(percent_decode("%4"), None);
    assert_eq!(percent_decode("%4g"), None);
    assert_eq!(percent_decode("%ff"), None);
    assert_eq!(percent_decode("é").as_deref(), Some("é"));
    assert_eq!(hex(b'7'), Some(7));
    assert_eq!(hex(b'f'), Some(15));
    assert_eq!(hex(b'A'), Some(10));
    assert_eq!(hex(b'x'), None);
}

#[test]
fn relative_paths_agree_with_std() {
    let paths = [
        "", "/", ".", "./a", "a", "a/", "/a", "/a/b", "/a//b/./c/", "/a/b/.", "/a/bc", "//a", "/a/../b",
        "./", "a/./b", "/./a/b", "..", "/a/.b", "/a/b/c//", "./a/b", "/.", "a//", "/a/./",
    ];
    for path in paths {
        for base in paths {
            let expected = Path::new(path)
                .strip_prefix(base)
                .ok()
                .map(|p| p.to_str().unwrap().to_string());
            assert_eq!(relative_path(path, base), expected, "{path:?} under {base:?}");
            let joined = Path::new(base).join(path);
            assert_eq!(document_path(base, path), joined.to_str().unwrap());
        }
    }
}

#[test]
fn documents_lead_back_to_their_paths() {
    for (root, rel) in [("/root", "src/main.rs"), ("/", "a b.rs"), ("/r/", "x/é.rs")] {
        let uri = file_uri(&document_path(root, rel));
        assert_eq!(rel_path_from_uri(root, &uri).as_deref(), Some(rel));
    }
    assert_eq!(file_uri("/a b"), "file:///a%20b");
    assert_eq!(file_uri("C:"), "file:///C%3A");
    assert_eq!(rel_path_from_uri("/root", "file:///root/a%5Cb").as_deref(), Some("a/b"));
    assert_eq!(rel_path_from_uri("/root", "http:///root/a"), None);
    assert_eq!(rel_path_from_uri("/root", "file:///elsewhere/a"), None);
}

#[test]
fn the_server_is_external_or_built_in() {
    let command = bifrost_server_command(Some("bifrost"), Some("self"), "/r").unwrap();
    assert_eq!((command.program, command.root), ("bifrost", "/r"));
    assert_eq!(command.before_root, vec!["--root"]);
    assert_eq!(command.after_root, vec!["--lsp"]);
    let command = bifrost_server_command(None, Some("self"), "/r").unwrap();
    assert_eq!(command.program, "self");
    assert_eq!(command.before_root, vec!["--bifrost-lsp-server"]);
    assert!(command.after_root.is_empty());
    assert!(bifrost_server_command(None, None, "/r").is_none());
}
