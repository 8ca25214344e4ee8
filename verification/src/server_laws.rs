//! What is said to a language server and what its messages lead to, told by the
//! entries of the messages.
use vstd::prelude::*;
use vstd::utf8::*;

use crate::bytes;
use crate::json;
use crate::json::{Json, JsonNumber, JsonView, NumberView};
use crate::lsp;
use crate::lsp::{ProgressView, ResponseView, ServerView};
use crate::number;
use crate::rpc;
use crate::rpc::HeaderView;
use crate::symbols::PositionView;
use crate::text;

verus! {

/// A field is the entry of an object under its key, and only objects have
/// entries. It is read as a text, a natural number or a truth value only where
/// it is one.
pub proof fn fields_are_entries(entries: Map<Seq<char>, JsonView>, other: JsonView, key: Seq<char>)
    ensures
        entries.contains_key(key) ==> json::field(JsonView::Object(entries), key) == Some(
            entries[key],
        ),
        !entries.contains_key(key) ==> json::field(JsonView::Object(entries), key) is None,
        !(other is Object) ==> json::field(other, key) is None,
        json::str_at(other, key) == match json::field(other, key) {
            Some(JsonView::Str(s)) => Some(s),
            _ => None,
        },
        json::nat_at(other, key) == match json::field(other, key) {
            Some(JsonView::Number(NumberView::Unsigned(n))) => Some(n),
            _ => None,
        },
        json::bool_at(other, key) == match json::field(other, key) {
            Some(JsonView::Bool(b)) => Some(b),
            _ => None,
        },
{
}

/// The model of a value holds what the value holds: every item of an array in
/// order, and of an object, under each key, the last value that it has there.
pub proof fn values_are_modeled_whole(
    b: bool,
    n: JsonNumber,
    s: String,
    items: Vec<Json>,
    entries: Vec<(String, Json)>,
)
    ensures
        (Json::Null)@ is Null,
        (Json::Bool(b))@ == JsonView::Bool(b),
        (Json::Number(n))@ == JsonView::Number(n@),
        (Json::Str(s))@ == JsonView::Str(s@),
        (Json::Array(items))@ == JsonView::Array(items@.map_values(|item: Json| item@)),
        (Json::Object(entries))@ is Object,
        forall|i: int|
            #![trigger entries@[i]]
            0 <= i < entries@.len() && (forall|j: int|
                i < j < entries@.len() ==> (#[trigger] entries@[j]).0@ != entries@[i].0@) ==> {
                let m = (Json::Object(entries))@->Object_0;
                m.contains_key(entries@[i].0@) && m[entries@[i].0@] == entries@[i].1@
            },
        forall|key: Seq<char>| #[trigger]
            (Json::Object(entries))@->Object_0.contains_key(key) ==> exists|i: int|
                0 <= i < entries@.len() && (#[trigger] entries@[i]).0@ == key,
{
    lemma_items(items@);
    lemma_entries(entries@);
    assert((Json::Object(entries))@->Object_0 == json::entries_view(entries@));
    assert forall|key: Seq<char>| #[trigger]
        (Json::Object(entries))@->Object_0.contains_key(key) implies exists|i: int|
        0 <= i < entries@.len() && (#[trigger] entries@[i]).0@ == key by {
        assert(json::entries_view(entries@).contains_key(key));
    }
    assert forall|i: int|
        #![trigger entries@[i]]
        0 <= i < entries@.len() && (forall|j: int|
            i < j < entries@.len() ==> (#[trigger] entries@[j]).0@ != entries@[i].0@) implies {
        let m = (Json::Object(entries))@->Object_0;
        m.contains_key(entries@[i].0@) && m[entries@[i].0@] == entries@[i].1@
    } by {
        lemma_entry(entries@, i);
    }
}

proof fn lemma_items(items: Seq<Json>)
    ensures
        json::items_view(items) == items.map_values(|item: Json| item@),
    decreases items.len(),
{
    let f = |item: Json| item@;
    if items.len() > 0 {
        lemma_items(items.drop_last());
        assert(items.map_values(f).drop_last() =~= items.drop_last().map_values(f));
    }
    assert(json::items_view(items) =~= items.map_values(f));
}

proof fn lemma_entries(entries: Seq<(String, Json)>)
    ensures
        forall|key: Seq<char>| #[trigger]
            json::entries_view(entries).contains_key(key) ==> exists|i: int|
                0 <= i < entries.len() && (#[trigger] entries[i]).0@ == key,
    decreases entries.len(),
{
    if entries.len() > 0 {
        let front = entries.drop_last();
        lemma_entries(front);
        assert forall|key: Seq<char>| #[trigger]
            json::entries_view(entries).contains_key(key) implies exists|i: int|
            0 <= i < entries.len() && (#[trigger] entries[i]).0@ == key by {
            if json::entries_view(front).contains_key(key) {
                let i = choose|i: int| 0 <= i < front.len() && (#[trigger] front[i]).0@ == key;
                assert(entries[i].0@ == key);
            } else {
                assert(entries[entries.len() - 1].0@ == key);
            }
        }
    }
}

proof fn lemma_entry(entries: Seq<(String, Json)>, i: int)
    requires
        0 <= i < entries.len(),
        forall|j: int| i < j < entries.len() ==> (#[trigger] entries[j]).0@ != entries[i].0@,
    ensures
        json::entries_view(entries).contains_key(entries[i].0@),
        json::entries_view(entries)[entries[i].0@] == entries[i].1@,
    decreases entries.len(),
{
    if i < entries.len() - 1 {
        let front = entries.drop_last();
        assert(front[i] == entries[i]);
        assert forall|j: int| i < j < front.len() implies (#[trigger] front[j]).0@
            != front[i].0@ by {
            assert(front[j] == entries[j]);
        }
        lemma_entry(front, i);
        assert(entries[entries.len() - 1].0@ != entries[i].0@);
    }
}

/// A number that was written as such is its value.
pub proof fn numbers_are_their_values(n: u64, k: i64)
    ensures
        (JsonNumber::Unsigned(n))@ == NumberView::Unsigned(n as nat),
        k >= 0 ==> (JsonNumber::Signed(k))@ == NumberView::Unsigned(k as nat),
        k < 0 ==> (JsonNumber::Signed(k))@ == NumberView::Negative(k as int),
{
}

/// A frame is a header that says the number of bytes, an empty line, and the
/// bytes.
pub proof fn frames_say_their_length(body: Seq<u8>)
    ensures
        rpc::framed(body) == encode_utf8(
            "Content-Length: "@ + number::decimal(body.len()) + seq!['\r', '\n', '\r', '\n'],
        ) + body,
{
    reveal_strlit("\r\n\r\n");
    assert("\r\n\r\n"@ =~= seq!['\r', '\n', '\r', '\n']);
}

proof fn lemma_ending(s: Seq<char>, end: Seq<char>)
    requires
        forall|i: int| 0 <= i < end.len() ==> #[trigger] end[i] == '\r' || end[i] == '\n',
        s.len() > 0 ==> s.last() != '\r' && s.last() != '\n',
    ensures
        rpc::without_ending(s + end) == s,
    decreases end.len(),
{
    if end.len() == 0 {
        assert(s + end =~= s);
    } else {
        let all = s + end;
        assert(all.last() == end[end.len() - 1]);
        assert(all.drop_last() =~= s + end.drop_last());
        assert forall|i: int| 0 <= i < end.drop_last().len() implies #[trigger] end.drop_last()[i]
            == '\r' || end.drop_last()[i] == '\n' by {
            assert(end.drop_last()[i] == end[i]);
        }
        lemma_ending(s, end.drop_last());
    }
}

/// Of a line of a header, without the carriage returns and line feeds at its
/// end: an empty one ends the header, with the body or without a length; the
/// length is what stands behind `Content-Length:`, trimmed, and has to be a
/// number; any other line changes nothing.
pub proof fn headers_are_read_line_by_line(
    length: Option<nat>,
    line: Seq<char>,
    value: Seq<char>,
    end: Seq<char>,
)
    requires
        forall|i: int| 0 <= i < end.len() ==> #[trigger] end[i] == '\r' || end[i] == '\n',
        line.len() > 0 ==> line.last() != '\r' && line.last() != '\n',
        value.len() > 0 ==> value.last() != '\r' && value.last() != '\n',
    ensures
        rpc::header_step(length, end) == match length {
            Some(n) => HeaderView::Body(n),
            None => HeaderView::MissingLength,
        },
        rpc::header_step(length, "Content-Length:"@ + value + end)
            == match number::parse_unsigned(text::trim(value), usize::MAX as nat) {
            Some(n) => HeaderView::More(Some(n)),
            None => HeaderView::BadLength(text::trim(value)),
        },
        line.len() > 0 && !text::starts_with(line, "Content-Length:"@) ==> rpc::header_step(
            length,
            line + end,
        ) == HeaderView::More(length),
{
    reveal_strlit("Content-Length:");
    let none = Seq::<char>::empty();
    lemma_ending(none, end);
    assert(none + end =~= end);
    lemma_ending(line, end);
    let front = "Content-Length:"@;
    let whole = front + value;
    assert(front.last() == ':');
    if value.len() > 0 {
        assert(whole.last() == value.last());
    } else {
        assert(whole.last() == ':');
    }
    lemma_ending(whole, end);
    assert(front + value + end =~= whole + end);
    assert(whole.take(front.len() as int) =~= front);
    assert(whole.skip(front.len() as int) =~= value);
}

proof fn lemma_keys_differ()
    ensures
        "jsonrpc"@ != "id"@,
        "jsonrpc"@ != "method"@,
        "jsonrpc"@ != "params"@,
        "jsonrpc"@ != "result"@,
        "jsonrpc"@ != "error"@,
        "id"@ != "method"@,
        "id"@ != "params"@,
        "id"@ != "result"@,
        "id"@ != "error"@,
        "method"@ != "params"@,
        "code"@ != "message"@,
        "textDocument"@ != "position"@,
        "line"@ != "character"@,
        "uri"@ != "name"@,
        "processId"@ != "rootUri"@,
        "processId"@ != "capabilities"@,
        "processId"@ != "workspaceFolders"@,
        "rootUri"@ != "capabilities"@,
        "rootUri"@ != "workspaceFolders"@,
        "capabilities"@ != "workspaceFolders"@,
{
    reveal_strlit("jsonrpc");
    reveal_strlit("id");
    reveal_strlit("method");
    reveal_strlit("params");
    reveal_strlit("result");
    reveal_strlit("error");
    reveal_strlit("code");
    reveal_strlit("message");
    reveal_strlit("textDocument");
    reveal_strlit("position");
    reveal_strlit("line");
    reveal_strlit("character");
    reveal_strlit("uri");
    reveal_strlit("name");
    reveal_strlit("processId");
    reveal_strlit("rootUri");
    reveal_strlit("capabilities");
    reveal_strlit("workspaceFolders");
    assert("jsonrpc"@[0] == 'j');
    assert("method"@[0] == 'm');
    assert("params"@[0] == 'p');
    assert("result"@[0] == 'r');
    assert("error"@[0] == 'e');
    assert("id"@[0] == 'i');
    assert("uri"@[0] == 'u');
    assert("name"@[0] == 'n');
    assert("line"@[0] == 'l');
    assert("character"@[0] == 'c');
    assert("code"@[0] == 'c');
    assert("message"@[0] == 'm');
    assert("textDocument"@[0] == 't');
    assert("position"@[0] == 'p');
    assert("processId"@[0] == 'p');
    assert("rootUri"@[0] == 'r');
    assert("capabilities"@[0] == 'c');
    assert("workspaceFolders"@[0] == 'w');
}

/// A request has its id, method and parameters and the version of the protocol,
/// a notification the same without an id, and no other entries.
pub proof fn requests_hold_what_is_asked(id: nat, method: Seq<char>, params: JsonView)
    ensures
        json::field(rpc::request_json(id, method, params), "jsonrpc"@) == Some(
            JsonView::Str("2.0"@),
        ),
        json::field(rpc::request_json(id, method, params), "id"@) == Some(
            JsonView::Number(NumberView::Unsigned(id)),
        ),
        json::field(rpc::request_json(id, method, params), "method"@) == Some(
            JsonView::Str(method),
        ),
        json::field(rpc::request_json(id, method, params), "params"@) == Some(params),
        rpc::request_json(id, method, params) is Object,
        rpc::request_json(id, method, params)->Object_0.dom() == set![
            "jsonrpc"@,
            "id"@,
            "method"@,
            "params"@,
        ],
        json::field(rpc::notification_json(method, params), "jsonrpc"@) == Some(
            JsonView::Str("2.0"@),
        ),
        json::field(rpc::notification_json(method, params), "method"@) == Some(
            JsonView::Str(method),
        ),
        json::field(rpc::notification_json(method, params), "params"@) == Some(params),
        rpc::notification_json(method, params) is Object,
        rpc::notification_json(method, params)->Object_0.dom() == set![
            "jsonrpc"@,
            "method"@,
            "params"@,
        ],
{
    lemma_keys_differ();
    assert(rpc::request_json(id, method, params)->Object_0.dom() =~= set![
        "jsonrpc"@,
        "id"@,
        "method"@,
        "params"@,
    ]);
    assert(rpc::notification_json(method, params)->Object_0.dom() =~= set![
        "jsonrpc"@,
        "method"@,
        "params"@,
    ]);
}

/// An answer to the server has the id of its request and either nothing as its
/// result, or an error of the code for an unknown method.
pub proof fn replies_hold_the_id_of_the_request(id: JsonView)
    ensures
        json::field(rpc::granted_json(id), "jsonrpc"@) == Some(JsonView::Str("2.0"@)),
        json::field(rpc::granted_json(id), "id"@) == Some(id),
        json::field(rpc::granted_json(id), "result"@) == Some(JsonView::Null),
        rpc::granted_json(id) is Object,
        rpc::granted_json(id)->Object_0.dom() == set!["jsonrpc"@, "id"@, "result"@],
        json::field(rpc::unknown_method_json(id), "jsonrpc"@) == Some(JsonView::Str("2.0"@)),
        json::field(rpc::unknown_method_json(id), "id"@) == Some(id),
        json::field(rpc::unknown_method_json(id), "error"@) is Some,
        json::field(json::field(rpc::unknown_method_json(id), "error"@)->0, "code"@) == Some(
            JsonView::Number(NumberView::Negative(-32601)),
        ),
        json::field(json::field(rpc::unknown_method_json(id), "error"@)->0, "message"@) == Some(
            JsonView::Str("Method not found"@),
        ),
        rpc::unknown_method_json(id) is Object,
        rpc::unknown_method_json(id)->Object_0.dom() == set!["jsonrpc"@, "id"@, "error"@],
{
    lemma_keys_differ();
    assert(rpc::granted_json(id)->Object_0.dom() =~= set!["jsonrpc"@, "id"@, "result"@]);
    assert(rpc::unknown_method_json(id)->Object_0.dom() =~= set!["jsonrpc"@, "id"@, "error"@]);
}

/// A question about a place names its document and its line and character.
pub proof fn places_are_named(uri: Seq<char>, place: PositionView)
    ensures
        json::field(lsp::place_json(uri, place), "textDocument"@) is Some,
        json::str_at(json::field(lsp::place_json(uri, place), "textDocument"@)->0, "uri"@) == Some(
            uri,
        ),
        json::field(lsp::place_json(uri, place), "position"@) is Some,
        json::nat_at(json::field(lsp::place_json(uri, place), "position"@)->0, "line"@) == Some(
            place.line,
        ),
        json::nat_at(json::field(lsp::place_json(uri, place), "position"@)->0, "character"@)
            == Some(place.character),
{
    lemma_keys_differ();
}

/// The first request names the process and the root, says that progress is
/// understood, and gives the root, with its name, as the only folder.
pub proof fn initializing_names_the_root(process: nat, root_uri: Seq<char>, name: Seq<char>)
    ensures
        ({
            let params = lsp::initialize_json(process, root_uri, name);
            &&& json::nat_at(params, "processId"@) == Some(process)
            &&& json::str_at(params, "rootUri"@) == Some(root_uri)
            &&& json::field(params, "capabilities"@) is Some
            &&& json::field(json::field(params, "capabilities"@)->0, "window"@) is Some
            &&& json::bool_at(
                json::field(json::field(params, "capabilities"@)->0, "window"@)->0,
                "workDoneProgress"@,
            ) == Some(true)
            &&& json::field(params, "workspaceFolders"@) matches Some(JsonView::Array(folders))
                && folders.len() == 1 && json::str_at(folders[0], "uri"@) == Some(root_uri)
                && json::str_at(folders[0], "name"@) == Some(name)
        }),
{
    lemma_keys_differ();
}

/// The server is warmed up with a question for the definition at a place, where
/// there is one, and with a search for all symbols otherwise.
pub proof fn warming_up_asks_for_something(id: nat, uri: Seq<char>, place: PositionView)
    ensures
        lsp::warm_up_json(id, Some((uri, place))) == rpc::request_json(
            id,
            "textDocument/definition"@,
            lsp::place_json(uri, place),
        ),
        json::field(lsp::warm_up_json(id, None), "id"@) == Some(
            JsonView::Number(NumberView::Unsigned(id)),
        ),
        json::str_at(lsp::warm_up_json(id, None), "method"@) == Some("workspace/symbol"@),
        json::field(lsp::warm_up_json(id, None), "params"@) is Some,
        json::str_at(json::field(lsp::warm_up_json(id, None), "params"@)->0, "query"@) == Some(
            Seq::<char>::empty(),
        ),
        lsp::empty_json() is Object,
        lsp::empty_json()->Object_0.dom() == Set::<Seq<char>>::empty(),
{
    lemma_keys_differ();
}

proof fn lemma_kinds_differ()
    ensures
        "begin"@ != "report"@,
        "begin"@ != "end"@,
        "report"@ != "end"@,
{
    reveal_strlit("begin");
    reveal_strlit("report");
    reveal_strlit("end");
    assert("begin"@.len() == 5 && "report"@.len() == 6 && "end"@.len() == 3);
}

/// Progress that begins takes over its title, message and percentage. Progress
/// that is reported changes only what the report has. Progress that ends is done
/// and complete. Anything else changes nothing. A percentage is taken as it fits
/// in 32 bits.
pub proof fn progress_follows_its_kind(progress: ProgressView, value: JsonView)
    ensures
        ({
            let after = lsp::progress_after(progress, value);
            let kind = json::str_at(value, "kind"@);
            let message = json::str_at(value, "message"@);
            let percentage = json::nat_at(value, "percentage"@);
            &&& kind == Some("begin"@) ==> {
                &&& after.title == json::str_at(value, "title"@)
                &&& after.message == message
                &&& percentage is Some ==> after.percentage == Some(percentage->0 % 4294967296)
                &&& percentage is None ==> after.percentage is None
                &&& !after.done
            }
            &&& kind == Some("report"@) ==> {
                &&& after.title == progress.title
                &&& message is Some ==> after.message == message
                &&& message is None ==> after.message == progress.message
                &&& percentage is Some ==> after.percentage == Some(percentage->0 % 4294967296)
                &&& percentage is None ==> after.percentage == progress.percentage
                &&& after.done == progress.done
            }
            &&& kind == Some("end"@) ==> {
                &&& after.title == progress.title
                &&& message is Some ==> after.message == message
                &&& message is None ==> after.message == Some("Indexing complete"@)
                &&& after.percentage == Some(100nat)
                &&& after.done
            }
            &&& kind != Some("begin"@) && kind != Some("report"@) && kind != Some("end"@)
                ==> after == progress
        }),
{
    lemma_kinds_differ();
}

/// A notification of progress is read from `params.value`, and without that
/// changes nothing. No other message changes the progress.
pub proof fn only_progress_changes_progress(progress: ProgressView, message: JsonView)
    ensures
        json::str_at(message, "method"@) != Some("$/progress"@) ==> lsp::server_progress(
            progress,
            message,
        ) == progress,
        json::str_at(message, "method"@) == Some("$/progress"@) ==> lsp::server_progress(
            progress,
            message,
        ) == lsp::progress_notified(progress, message),
        json::field(message, "params"@) is None ==> lsp::progress_notified(progress, message)
            == progress,
        json::field(message, "params"@) matches Some(params) ==> match json::field(
            params,
            "value"@,
        ) {
            Some(value) => lsp::progress_notified(progress, message) == lsp::progress_after(
                progress,
                value,
            ),
            None => lsp::progress_notified(progress, message) == progress,
        },
{
}

/// A message with a method is never taken for an answer. A request for a
/// progress token is granted, and fails without an id; a notification of
/// progress needs no answer; any other method is declined where it has an id,
/// and otherwise needs no answer. A message without a method is an answer.
pub proof fn methods_are_answered(message: JsonView)
    ensures
        ({
            let step = lsp::server_step(message);
            let method = json::str_at(message, "method"@);
            let id = json::field(message, "id"@);
            &&& method is None <==> step is Response
            &&& method == Some("window/workDoneProgress/create"@) && id is Some ==> step
                == ServerView::Reply(rpc::granted_json(id->0))
            &&& method == Some("window/workDoneProgress/create"@) && id is None ==> step
                is MissingId
            &&& method == Some("$/progress"@) ==> step is Silent
            &&& method is Some && method != Some("window/workDoneProgress/create"@) && method
                != Some("$/progress"@) && id is Some ==> step == ServerView::Reply(
                rpc::unknown_method_json(id->0),
            )
            &&& method is Some && method != Some("window/workDoneProgress/create"@) && method
                != Some("$/progress"@) && id is None ==> step is Silent
        }),
{
    reveal_strlit("window/workDoneProgress/create");
    reveal_strlit("$/progress");
    assert("window/workDoneProgress/create"@.len() != "$/progress"@.len());
}

/// An answer with the id of a request ends the wait for it: with its error
/// where it has one, else with its result. Any other answer is not waited for,
/// and what the server asks in between is answered.
pub proof fn answers_end_the_wait(id: nat, message: JsonView)
    ensures
        ({
            let step = lsp::response_step(id, message);
            let answered = json::str_at(message, "method"@) is None;
            let own = json::nat_at(message, "id"@) == Some(id);
            let error = json::field(message, "error"@);
            &&& answered && own && error is Some ==> step == ResponseView::Failed(error->0)
            &&& answered && own && error is None ==> step == ResponseView::Done(
                json::field(message, "result"@),
            )
            &&& answered && !own ==> step is Wait
            &&& !answered ==> match lsp::server_step(message) {
                ServerView::Reply(reply) => step == ResponseView::Reply(reply),
                ServerView::MissingId => step is MissingId,
                _ => step is Wait,
            }
        }),
{
}

/// A failure names the method and what the server said of it.
pub proof fn failures_name_the_method(method: Seq<char>, error: JsonView)
    ensures
        lsp::failed_text(method, error) == "LSP "@ + method + " failed: "@ + bytes::lossy(
            json::json_encoding(error),
        ),
{
}

} // verus!
