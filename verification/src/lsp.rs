//! A client of the Bifrost language server, without its process: the requests
//! it makes, what it answers to the server, and the progress that it shows.
use crate::bytes;
use crate::bytes::lossy_text;
use crate::json;
use crate::json::{copy_json, encode, Json, JsonNumber, JsonView, NumberView};
use crate::rpc;
use crate::rpc::{
    granted_message, message_frame, notification_message, put, request_message,
    unknown_method_message,
};
use crate::symbols::LspPosition;
use crate::symbols::PositionView;
use crate::text;
use crate::text::same_text;
use vstd::prelude::*;
use vstd::string::*;

verus! {

/// How many seconds a query may take.
pub const QUERY_SECONDS: u64 = 5;

/// How many seconds a message may take to come while the server starts, and how
/// many its first query may take.
pub const STARTUP_SECONDS: u64 = 30;

/// How far the server is with its index.
#[derive(Clone, Debug, PartialEq, Eq)]
pub struct LspProgress {
    pub title: Option<String>,
    pub message: Option<String>,
    pub percentage: Option<u32>,
    pub done: bool,
}

/// The model of [`LspProgress`].
pub struct ProgressView {
    pub title: Option<Seq<char>>,
    pub message: Option<Seq<char>>,
    pub percentage: Option<nat>,
    pub done: bool,
}

impl View for LspProgress {
    type V = ProgressView;

    open spec fn view(&self) -> ProgressView {
        ProgressView {
            title: text::opt_text(self.title),
            message: text::opt_text(self.message),
            percentage: match self.percentage {
                Some(n) => Some(n as nat),
                None => None,
            },
            done: self.done,
        }
    }
}

impl Default for LspProgress {
    /// Nothing is known yet.
    fn default() -> (r: Self)
        ensures
            r@ == (ProgressView { title: None, message: None, percentage: None, done: false }),
    {
        LspProgress { title: None, message: None, percentage: None, done: false }
    }
}

/// The percentage in a report, modulo 2^32.
pub open spec fn percentage_in(value: JsonView) -> Option<nat> {
    match json::nat_at(value, "percentage"@) {
        Some(n) => Some(n % 0x1_0000_0000),
        None => None,
    }
}

/// The first of two values that is there.
pub open spec fn or_else<A>(first: Option<A>, second: Option<A>) -> Option<A> {
    match first {
        Some(a) => Some(a),
        None => second,
    }
}

/// What a report of the server makes of the progress.
pub open spec fn progress_after(progress: ProgressView, value: JsonView) -> ProgressView {
    match json::str_at(value, "kind"@) {
        Some(kind) => if kind == "begin"@ {
            ProgressView {
                title: json::str_at(value, "title"@),
                message: json::str_at(value, "message"@),
                percentage: percentage_in(value),
                done: false,
            }
        } else if kind == "report"@ {
            ProgressView {
                message: or_else(json::str_at(value, "message"@), progress.message),
                percentage: or_else(percentage_in(value), progress.percentage),
                ..progress
            }
        } else if kind == "end"@ {
            ProgressView {
                message: or_else(json::str_at(value, "message"@), Some("Indexing complete"@)),
                percentage: Some(100),
                done: true,
                ..progress
            }
        } else {
            progress
        },
        None => progress,
    }
}

/// What a `$/progress` notification makes of the progress.
pub open spec fn progress_notified(progress: ProgressView, message: JsonView) -> ProgressView {
    match json::field(message, "params"@) {
        Some(params) => match json::field(params, "value"@) {
            Some(value) => progress_after(progress, value),
            None => progress,
        },
        None => progress,
    }
}

fn owned_at(json: &Json, key: &str) -> (r: Option<String>)
    ensures
        text::opt_text(r) == json::str_at(json@, key@),
{
    match json.str_at(key) {
        Some(s) => Some(s.to_owned()),
        None => None,
    }
}

fn percentage_from(value: &Json) -> (r: Option<u32>)
    ensures
        match r {
            Some(n) => percentage_in(value@) == Some(n as nat),
            None => percentage_in(value@) is None,
        },
{
    match value.u64_at("percentage") {
        Some(n) => Some((n % 0x1_0000_0000) as u32),
        None => None,
    }
}

impl LspProgress {
    /// Take in a `$/progress` notification.
    pub fn apply_progress(&mut self, message: &Json)
        ensures
            final(self)@ == progress_notified(old(self)@, message@),
    {
        let value = match message.get("params") {
            Some(params) => match params.get("value") {
                Some(value) => value,
                None => {
                    return ;
                },
            },
            None => {
                return ;
            },
        };
        let kind = match value.str_at("kind") {
            Some(kind) => kind,
            None => {
                return ;
            },
        };
        if same_text(kind, "begin") {
            self.title = owned_at(value, "title");
            self.message = owned_at(value, "message");
            self.percentage = percentage_from(value);
            self.done = false;
        } else if same_text(kind, "report") {
            if let Some(message) = owned_at(value, "message") {
                self.message = Some(message);
            }
            if let Some(n) = percentage_from(value) {
                self.percentage = Some(n);
            }
        } else if same_text(kind, "end") {
            self.message = match owned_at(value, "message") {
                Some(message) => Some(message),
                None => Some("Indexing complete".to_owned()),
            };
            self.percentage = Some(100);
            self.done = true;
        }
    }

    /// The server does not say how far it is.
    pub fn unavailable(&mut self, reason: &str)
        ensures
            final(self)@ == (ProgressView {
                message: Some("Indexing status unavailable: "@ + reason@),
                done: true,
                ..old(self)@
            }),
    {
        let mut message = "Indexing status unavailable: ".to_owned();
        message.append(reason);
        self.message = Some(message);
        self.done = true;
    }

    /// The first query is on its way.
    pub fn warming(&mut self)
        ensures
            final(self)@ == (ProgressView {
                message: Some("Warming LSP queries"@),
                percentage: Some(99),
                done: false,
                ..old(self)@
            }),
    {
        self.message = Some("Warming LSP queries".to_owned());
        self.percentage = Some(99);
        self.done = false;
    }

    /// The server answers queries.
    pub fn ready(&mut self)
        ensures
            final(self)@ == (ProgressView {
                message: Some("Ready"@),
                percentage: Some(100),
                done: true,
                ..old(self)@
            }),
    {
        self.message = Some("Ready".to_owned());
        self.percentage = Some(100);
        self.done = true;
    }
}

/// Why an exchange with the server failed.
pub enum LspError {
    /// The server asked for a progress token without an id.
    MissingId,
    /// The server answered with an error.
    Failed(String),
}

/// The model of an [`LspError`].
pub open spec fn error_text(error: LspError) -> Seq<char> {
    match error {
        LspError::MissingId => "progress create missing id"@,
        LspError::Failed(message) => message@,
    }
}

impl LspError {
    /// What to tell the user.
    pub fn message(&self) -> (r: String)
        ensures
            r@ == error_text(*self),
    {
        match self {
            LspError::MissingId => "progress create missing id".to_owned(),
            LspError::Failed(message) => message.clone(),
        }
    }
}

/// How a message of the server is answered.
pub enum ServerStep {
    /// It is an answer to a request.
    Response,
    /// It needs no answer.
    Silent,
    /// It is answered with this message on the wire.
    Reply(Vec<u8>),
}

/// The model of a [`ServerStep`].
pub enum ServerView {
    Response,
    Silent,
    Reply(JsonView),
    MissingId,
}

/// How a message of the server is answered. Only a message without a method is
/// an answer; a progress token is granted, and other requests are declined.
pub open spec fn server_step(message: JsonView) -> ServerView {
    match json::str_at(message, "method"@) {
        Some(method) => if method == "window/workDoneProgress/create"@ {
            match json::field(message, "id"@) {
                Some(id) => ServerView::Reply(rpc::granted_json(id)),
                None => ServerView::MissingId,
            }
        } else if method == "$/progress"@ {
            ServerView::Silent
        } else {
            match json::field(message, "id"@) {
                Some(id) => ServerView::Reply(rpc::unknown_method_json(id)),
                None => ServerView::Silent,
            }
        },
        None => ServerView::Response,
    }
}

/// The progress after a message of the server.
pub open spec fn server_progress(progress: ProgressView, message: JsonView) -> ProgressView {
    if json::str_at(message, "method"@) == Some("$/progress"@) {
        progress_notified(progress, message)
    } else {
        progress
    }
}

/// What a message of the server means for a request that is waiting.
pub enum ResponseStep {
    /// It is not the answer: go on waiting.
    Wait,
    /// It is not the answer: send this, and go on waiting.
    Reply(Vec<u8>),
    /// It is the answer; None where the server left the result out.
    Done(Option<Json>),
}

/// The model of a [`ResponseStep`].
pub enum ResponseView {
    Wait,
    Reply(JsonView),
    Done(Option<JsonView>),
    MissingId,
    Failed(JsonView),
}

/// What a message of the server means for the request with this id.
pub open spec fn response_step(id: nat, message: JsonView) -> ResponseView {
    match server_step(message) {
        ServerView::MissingId => ResponseView::MissingId,
        ServerView::Silent => ResponseView::Wait,
        ServerView::Reply(reply) => ResponseView::Reply(reply),
        ServerView::Response => if json::nat_at(message, "id"@) != Some(id) {
            ResponseView::Wait
        } else {
            match json::field(message, "error"@) {
                Some(error) => ResponseView::Failed(error),
                None => ResponseView::Done(json::field(message, "result"@)),
            }
        },
    }
}

/// What the user is told of an error that the server answered.
pub open spec fn failed_text(method: Seq<char>, error: JsonView) -> Seq<char> {
    "LSP "@ + method + " failed: "@ + bytes::lossy(json::json_encoding(error))
}

/// A document and a place in it, as a request names them.
pub open spec fn place_json(uri: Seq<char>, place: PositionView) -> JsonView {
    JsonView::Object(
        map![
            "textDocument"@ => JsonView::Object(map!["uri"@ => JsonView::Str(uri)]),
            "position"@ => JsonView::Object(
                map![
                    "line"@ => JsonView::Number(NumberView::Unsigned(place.line)),
                    "character"@ => JsonView::Number(NumberView::Unsigned(place.character)),
                ],
            ),
        ],
    )
}

/// A document and a place in it, as a request names them.
pub fn place_params(uri: &str, pos: &LspPosition) -> (r: Json)
    ensures
        r@ == place_json(uri@, pos@),
{
    let mut document: Vec<(String, Json)> = Vec::new();
    put(&mut document, "uri", Json::Str(uri.to_owned()));
    let mut place: Vec<(String, Json)> = Vec::new();
    put(&mut place, "line", Json::Number(JsonNumber::Unsigned(pos.line as u64)));
    put(&mut place, "character", Json::Number(JsonNumber::Unsigned(pos.character as u64)));
    let mut params: Vec<(String, Json)> = Vec::new();
    put(&mut params, "textDocument", Json::Object(document));
    put(&mut params, "position", Json::Object(place));
    Json::Object(params)
}

/// What the client says of itself when it starts.
pub open spec fn initialize_json(process: nat, root_uri: Seq<char>, name: Seq<char>) -> JsonView {
    JsonView::Object(
        map![
            "processId"@ => JsonView::Number(NumberView::Unsigned(process)),
            "rootUri"@ => JsonView::Str(root_uri),
            "capabilities"@ => JsonView::Object(
                map!["window"@ => JsonView::Object(
                    map!["workDoneProgress"@ => JsonView::Bool(true)],
                )],
            ),
            "workspaceFolders"@ => JsonView::Array(
                seq![JsonView::Object(
                    map!["uri"@ => JsonView::Str(root_uri), "name"@ => JsonView::Str(name)],
                )],
            ),
        ],
    )
}

/// What the client says of itself when it starts.
pub fn initialize_params(process: u32, root_uri: &str, name: &str) -> (r: Json)
    ensures
        r@ == initialize_json(process as nat, root_uri@, name@),
{
    let mut window: Vec<(String, Json)> = Vec::new();
    put(&mut window, "workDoneProgress", Json::Bool(true));
    let mut capabilities: Vec<(String, Json)> = Vec::new();
    put(&mut capabilities, "window", Json::Object(window));
    let mut folder: Vec<(String, Json)> = Vec::new();
    put(&mut folder, "uri", Json::Str(root_uri.to_owned()));
    put(&mut folder, "name", Json::Str(name.to_owned()));
    let mut folders: Vec<Json> = Vec::new();
    folders.push(Json::Object(folder));
    proof {
        reveal_with_fuel(json::items_view, 2);
        assert(folders@.drop_last() =~= Seq::<Json>::empty());
        assert(json::items_view(folders@) =~= seq![folders@[0]@]);
    }
    let mut params: Vec<(String, Json)> = Vec::new();
    put(&mut params, "processId", Json::Number(JsonNumber::Unsigned(process as u64)));
    put(&mut params, "rootUri", Json::Str(root_uri.to_owned()));
    put(&mut params, "capabilities", Json::Object(capabilities));
    put(&mut params, "workspaceFolders", Json::Array(folders));
    Json::Object(params)
}

/// An object without entries.
pub open spec fn empty_json() -> JsonView {
    JsonView::Object(Map::empty())
}

fn empty_object() -> (r: Json)
    ensures
        r@ == empty_json(),
{
    Json::Object(Vec::new())
}

/// The first query of a session: where the symbol at a place is defined, or, if
/// no place is given, which symbols there are.
pub open spec fn warm_up_json(id: nat, place: Option<(Seq<char>, PositionView)>) -> JsonView {
    match place {
        Some((uri, pos)) => rpc::request_json(
            id,
            "textDocument/definition"@,
            place_json(uri, pos),
        ),
        None => rpc::request_json(
            id,
            "workspace/symbol"@,
            JsonView::Object(map!["query"@ => JsonView::Str(Seq::empty())]),
        ),
    }
}

/// The client's side of a session.
pub struct LspClient {
    /// The directory that the server was started for.
    pub root: String,
    /// The id of the next request.
    pub next_id: u64,
    pub progress: LspProgress,
}

impl LspClient {
    /// A session in which nothing was sent.
    pub fn new(root: String) -> (r: Self)
        ensures
            r.root == root,
            r.next_id == 1,
            r.progress@ == (ProgressView {
                title: None,
                message: None,
                percentage: None,
                done: false,
            }),
    {
        LspClient { root, next_id: 1, progress: LspProgress::default() }
    }

    /// Make a request: its id, and the message on the wire. No id is used twice.
    pub fn request(&mut self, method: &str, params: Json) -> (r: (u64, Vec<u8>))
        requires
            old(self).next_id < u64::MAX,
        ensures
            r.0 == old(self).next_id,
            r.1@ == rpc::framed(
                json::json_encoding(rpc::request_json(r.0 as nat, method@, params@)),
            ),
            final(self).next_id == old(self).next_id + 1,
            final(self).root == old(self).root,
            final(self).progress == old(self).progress,
    {
        let id: u64 = self.next_id;
        self.next_id = id + 1;
        (id, message_frame(&request_message(id, method, params)))
    }

    /// The request that opens a session, with a name for the directory.
    pub fn initialize(&mut self, process: u32, root_uri: &str, name: &str) -> (r: (u64, Vec<u8>))
        requires
            old(self).next_id < u64::MAX,
        ensures
            r.0 == old(self).next_id,
            r.1@ == rpc::framed(
                json::json_encoding(
                    rpc::request_json(
                        r.0 as nat,
                        "initialize"@,
                        initialize_json(process as nat, root_uri@, name@),
                    ),
                ),
            ),
            final(self).next_id == old(self).next_id + 1,
            final(self).root == old(self).root,
            final(self).progress == old(self).progress,
    {
        self.request("initialize", initialize_params(process, root_uri, name))
    }

    /// A notification, on the wire.
    pub fn notify(&self, method: &str) -> (r: Vec<u8>)
        ensures
            r@ == rpc::framed(json::json_encoding(rpc::notification_json(method@, empty_json()))),
    {
        message_frame(&notification_message(method, empty_object()))
    }

    /// Ask for the hover text at a place.
    pub fn hover_request(&mut self, uri: &str, pos: &LspPosition) -> (r: (u64, Vec<u8>))
        requires
            old(self).next_id < u64::MAX,
        ensures
            r.0 == old(self).next_id,
            r.1@ == rpc::framed(
                json::json_encoding(
                    rpc::request_json(
                        r.0 as nat,
                        "textDocument/hover"@,
                        place_json(uri@, pos@),
                    ),
                ),
            ),
            final(self).next_id == old(self).next_id + 1,
            final(self).root == old(self).root,
            final(self).progress == old(self).progress,
    {
        self.request("textDocument/hover", place_params(uri, pos))
    }

    /// Ask where the symbol at a place is defined.
    pub fn definition_request(&mut self, uri: &str, pos: &LspPosition) -> (r: (u64, Vec<u8>))
        requires
            old(self).next_id < u64::MAX,
        ensures
            r.0 == old(self).next_id,
            r.1@ == rpc::framed(
                json::json_encoding(
                    rpc::request_json(
                        r.0 as nat,
                        "textDocument/definition"@,
                        place_json(uri@, pos@),
                    ),
                ),
            ),
            final(self).next_id == old(self).next_id + 1,
            final(self).root == old(self).root,
            final(self).progress == old(self).progress,
    {
        self.request("textDocument/definition", place_params(uri, pos))
    }

    /// The first query of a session. It makes the server build what its answers
    /// need.
    pub fn warm_up(&mut self, place: Option<(&str, &LspPosition)>) -> (r: (u64, Vec<u8>))
        requires
            old(self).next_id < u64::MAX,
        ensures
            r.0 == old(self).next_id,
            r.1@ == rpc::framed(
                json::json_encoding(
                    warm_up_json(
                        r.0 as nat,
                        match place {
                            Some((uri, pos)) => Some((uri@, pos@)),
                            None => None,
                        },
                    ),
                ),
            ),
            final(self).next_id == old(self).next_id + 1,
            final(self).root == old(self).root,
            final(self).progress@ == (ProgressView {
                message: Some("Warming LSP queries"@),
                percentage: Some(99),
                done: false,
                ..old(self).progress@
            }),
    {
        self.progress.warming();
        match place {
            Some((uri, pos)) => self.definition_request(uri, pos),
            None => {
                let mut params: Vec<(String, Json)> = Vec::new();
                put(&mut params, "query", Json::Str(String::new()));
                self.request("workspace/symbol", Json::Object(params))
            },
        }
    }

    /// Take in a message of the server, and say how it is answered.
    pub fn handle_server_message(&mut self, message: &Json) -> (r: Result<ServerStep, LspError>)
        ensures
            match server_step(message@) {
                ServerView::Response => r == Ok::<ServerStep, LspError>(ServerStep::Response),
                ServerView::Silent => r == Ok::<ServerStep, LspError>(ServerStep::Silent),
                ServerView::Reply(reply) => {
                    &&& r is Ok
                    &&& r->Ok_0 is Reply
                    &&& r->Ok_0->Reply_0@ == rpc::framed(json::json_encoding(reply))
                },
                ServerView::MissingId => r == Err::<ServerStep, LspError>(LspError::MissingId),
            },
            final(self).progress@ == server_progress(old(self).progress@, message@),
            final(self).next_id == old(self).next_id,
            final(self).root == old(self).root,
    {
        let method = match message.str_at("method") {
            Some(method) => method,
            None => {
                return Ok(ServerStep::Response);
            },
        };
        if same_text(method, "window/workDoneProgress/create") {
            proof {
                reveal_strlit("window/workDoneProgress/create");
                reveal_strlit("$/progress");
                assert("window/workDoneProgress/create"@.len() != "$/progress"@.len());
            }
            match message.get("id") {
                Some(id) => Ok(
                    ServerStep::Reply(message_frame(&granted_message(copy_json(id)))),
                ),
                None => Err(LspError::MissingId),
            }
        } else if same_text(method, "$/progress") {
            self.progress.apply_progress(message);
            Ok(ServerStep::Silent)
        } else {
            match message.get("id") {
                Some(id) => Ok(
                    ServerStep::Reply(message_frame(&unknown_method_message(copy_json(id)))),
                ),
                None => Ok(ServerStep::Silent),
            }
        }
    }

    /// Take in what came while the server builds its index: a message, or the
    /// reason why none came, after which nothing more is waited for.
    pub fn startup(&mut self, received: Result<&Json, &str>) -> (r: Result<ServerStep, LspError>)
        ensures
            match received {
                Ok(message) => {
                    &&& match server_step(message@) {
                        ServerView::Response => r == Ok::<ServerStep, LspError>(
                            ServerStep::Response,
                        ),
                        ServerView::Silent => r == Ok::<ServerStep, LspError>(ServerStep::Silent),
                        ServerView::Reply(reply) => {
                            &&& r is Ok
                            &&& r->Ok_0 is Reply
                            &&& r->Ok_0->Reply_0@ == rpc::framed(json::json_encoding(reply))
                        },
                        ServerView::MissingId => r == Err::<ServerStep, LspError>(
                            LspError::MissingId,
                        ),
                    }
                    &&& final(self).progress@ == server_progress(old(self).progress@, message@)
                },
                Err(reason) => {
                    &&& r == Ok::<ServerStep, LspError>(ServerStep::Silent)
                    &&& final(self).progress@ == (ProgressView {
                        message: Some("Indexing status unavailable: "@ + reason@),
                        done: true,
                        ..old(self).progress@
                    })
                },
            },
            final(self).next_id == old(self).next_id,
            final(self).root == old(self).root,
    {
        match received {
            Ok(message) => self.handle_server_message(message),
            Err(reason) => {
                self.progress.unavailable(reason);
                Ok(ServerStep::Silent)
            },
        }
    }

    /// Take in a message of the server while the request with this id waits for
    /// its answer.
    pub fn receive(&mut self, id: u64, method: &str, message: &Json) -> (r: Result<
        ResponseStep,
        LspError,
    >)
        ensures
            match response_step(id as nat, message@) {
                ResponseView::Wait => r == Ok::<ResponseStep, LspError>(ResponseStep::Wait),
                ResponseView::Reply(reply) => {
                    &&& r is Ok
                    &&& r->Ok_0 is Reply
                    &&& r->Ok_0->Reply_0@ == rpc::framed(json::json_encoding(reply))
                },
                ResponseView::Done(result) => {
                    &&& r is Ok
                    &&& r->Ok_0 is Done
                    &&& result == match r->Ok_0->Done_0 {
                        Some(json) => Some(json@),
                        None => None,
                    }
                },
                ResponseView::MissingId => r == Err::<ResponseStep, LspError>(LspError::MissingId),
                ResponseView::Failed(error) => {
                    &&& r is Err
                    &&& r->Err_0 is Failed
                    &&& r->Err_0->Failed_0@ == failed_text(method@, error)
                },
            },
            final(self).progress@ == server_progress(old(self).progress@, message@),
            final(self).next_id == old(self).next_id,
            final(self).root == old(self).root,
    {
        match self.handle_server_message(message) {
            Err(error) => {
                return Err(error);
            },
            Ok(ServerStep::Silent) => {
                return Ok(ResponseStep::Wait);
            },
            Ok(ServerStep::Reply(bytes)) => {
                return Ok(ResponseStep::Reply(bytes));
            },
            Ok(ServerStep::Response) => {},
        }
        let ours = match message.u64_at("id") {
            Some(n) => n == id,
            None => false,
        };
        if !ours {
            return Ok(ResponseStep::Wait);
        }
        match message.get("error") {
            Some(error) => {
                let mut text = "LSP ".to_owned();
                text.append(method);
                text.append(" failed: ");
                let body = encode(error);
                text.append(lossy_text(body.as_slice()).as_str());
                proof {
                    assert(text@ =~= failed_text(method@, error@));
                }
                Err(LspError::Failed(text))
            },
            None => match message.get("result") {
                Some(result) => Ok(ResponseStep::Done(Some(copy_json(result)))),
                None => Ok(ResponseStep::Done(None)),
            },
        }
    }
}

/// How to start a language server: a program and its arguments, which name the
/// directory to serve.
pub struct ServerCommand<T> {
    pub program: T,
    pub before_root: Vec<String>,
    pub root: T,
    pub after_root: Vec<String>,
}

/// How to start the language server for a directory: the program that the user
/// has named, or else the one that is built into this program; nothing where
/// this program does not know its own path.
pub fn bifrost_server_command<T>(external: Option<T>, own: Option<T>, root: T) -> (r: Option<
    ServerCommand<T>,
>)
    ensures
        external is Some ==> {
            &&& r is Some
            &&& r->0.program == external->0
            &&& r->0.root == root
            &&& text::texts(r->0.before_root@) == seq!["--root"@]
            &&& text::texts(r->0.after_root@) == seq!["--lsp"@]
        },
        external is None && own is Some ==> {
            &&& r is Some
            &&& r->0.program == own->0
            &&& r->0.root == root
            &&& text::texts(r->0.before_root@) == seq!["--bifrost-lsp-server"@]
            &&& r->0.after_root@.len() == 0
        },
        external is None && own is None ==> r is None,
{
    let mut before_root: Vec<String> = Vec::new();
    let mut after_root: Vec<String> = Vec::new();
    match external {
        Some(program) => {
            before_root.push("--root".to_owned());
            after_root.push("--lsp".to_owned());
            assert(text::texts(before_root@) =~= seq!["--root"@]);
            assert(text::texts(after_root@) =~= seq!["--lsp"@]);
            Some(ServerCommand { program, before_root, root, after_root })
        },
        None => match own {
            Some(program) => {
                before_root.push("--bifrost-lsp-server".to_owned());
                assert(text::texts(before_root@) =~= seq!["--bifrost-lsp-server"@]);
                Some(ServerCommand { program, before_root, root, after_root })
            },
            None => None,
        },
    }
}

/// A message that settles one request settles no other.
pub proof fn answers_are_not_mixed_up(id: nat, other: nat, message: JsonView)
    requires
        id != other,
        response_step(id, message) is Done || response_step(id, message) is Failed,
    ensures
        response_step(other, message) is Wait,
{
}

/// Whatever the server requests, it gets an answer with the id of its request,
/// and the request that is waiting goes on waiting.
pub proof fn requests_of_the_server_are_answered(id: nat, message: JsonView)
    requires
        json::str_at(message, "method"@) is Some,
        json::str_at(message, "method"@) != Some("$/progress"@),
        json::field(message, "id"@) is Some,
    ensures
        response_step(id, message) is Reply,
        json::field(response_step(id, message)->Reply_0, "id"@) == json::field(message, "id"@),
{
    reveal_strlit("jsonrpc");
    reveal_strlit("id");
    reveal_strlit("result");
    reveal_strlit("error");
    assert("id"@.len() == 2);
    assert("result"@.len() == 6);
    assert("error"@.len() == 5);
}

} // verus!
