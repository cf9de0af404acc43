//! The agent protocol: what a client may ask, what it is answered, and what has
//! to be done outside for an answer.

pub mod instance;
pub mod registry;
pub mod session;
pub mod tools;

use crate::json;
use crate::json::{Json, JsonView};
use crate::text;
use session::json_outcome;
use tools::{CallView, ToolCall};
use vstd::prelude::*;

verus! {

/// The code of an error: the message is no JSON.
pub const PARSE_ERROR: i64 = -32700;

/// The code of an error: there is no such method.
pub const METHOD_NOT_FOUND: i64 = -32601;

/// The code of an error: the parameters are wrong.
pub const INVALID_PARAMS: i64 = -32602;

/// An error of the protocol.
#[derive(Debug)]
pub struct RpcError {
    pub code: i64,
    pub message: String,
}

impl RpcError {
    pub fn new(code: i64, message: String) -> (r: RpcError)
        ensures
            r.code == code,
            r.message == message,
    {
        RpcError { code, message }
    }
}

pub open spec fn rpc_outcome(r: Result<Json, RpcError>) -> Result<JsonView, (int, Seq<char>)> {
    match r {
        Ok(j) => Ok(j@),
        Err(e) => Err((e.code as int, e.message@)),
    }
}

/// What can be read.
#[derive(Debug, Clone, Copy, PartialEq, Eq, Structural)]
pub enum Resource {
    Status,
    Logs,
    Components,
}

/// What has to be done outside before a request can be answered.
#[derive(Debug)]
pub enum Work {
    Tool(ToolCall),
    Resource(Resource),
}

#[verifier::ext_equal]
pub enum WorkView {
    Tool(CallView),
    Resource(Resource),
}

impl View for Work {
    type V = WorkView;

    open spec fn view(&self) -> WorkView {
        match self {
            Work::Tool(c) => WorkView::Tool(c@),
            Work::Resource(r) => WorkView::Resource(*r),
        }
    }
}

/// What a request comes to: its result, or what has to be done for one.
#[derive(Debug)]
pub enum Step {
    Done(Result<Json, RpcError>),
    Work(Work),
}

#[verifier::ext_equal]
pub enum StepView {
    Done(Result<JsonView, (int, Seq<char>)>),
    Work(WorkView),
}

impl View for Step {
    type V = StepView;

    open spec fn view(&self) -> StepView {
        match self {
            Step::Done(r) => StepView::Done(rpc_outcome(*r)),
            Step::Work(w) => StepView::Work(w@),
        }
    }
}

// ---------------------------------------------------------------------------
// Responses
// ---------------------------------------------------------------------------

/// The response to the request `id`.
pub open spec fn response(id: JsonView, result: Result<JsonView, (int, Seq<char>)>) -> JsonView {
    JsonView::Object(
        seq![
            ("jsonrpc"@, JsonView::Text("2.0"@)),
            ("id"@, id),
            match result {
                Ok(value) => ("result"@, value),
                Err((code, message)) => (
                    "error"@,
                    JsonView::Object(
                        seq![
                            ("code"@, JsonView::Number(text::signed(code))),
                            ("message"@, JsonView::Text(message)),
                        ],
                    ),
                ),
            },
        ],
    )
}

/// The response to the request `id`, as a value.
pub fn response_json(id: Json, result: Result<Json, RpcError>) -> (r: Json)
    ensures
        r@ == response(id@, rpc_outcome(result)),
{
    let ghost expected = response(id@, rpc_outcome(result))->Object_0;
    let mut o: Vec<(String, Json)> = json::no_members();
    json::append(&mut o, "jsonrpc", json::text_value("2.0"));
    json::append(&mut o, "id", id);
    match result {
        Ok(value) => {
            json::append(&mut o, "result", value);
        },
        Err(e) => {
            let ghost detail = expected[2].1->Object_0;
            let mut inner: Vec<(String, Json)> = json::no_members();
            json::append(&mut inner, "code", Json::Number(text::integer_text(e.code as i128)));
            json::append(&mut inner, "message", Json::Text(e.message));
            assert(json::members(inner@) =~= detail);
            json::append(&mut o, "error", json::object(inner));
        },
    }
    assert(json::members(o@) =~= expected);
    json::object(o)
}

/// The response to the request `id`, as a line: it holds no line break.
pub fn respond(id: Json, result: Result<Json, RpcError>) -> (r: String)
    ensures
        r@ == json::json_compact(response(id@, rpc_outcome(result))),
        !r@.contains('\n'),
{
    json::compact(&response_json(id, result))
}

/// The response to a call of a tool, once it is known what came of it.
pub fn respond_to_tool(id: Json, outcome: &Result<Json, String>) -> (r: String)
    ensures
        r@ == json::json_compact(response(id@, Ok(tools::envelope(json_outcome(*outcome))))),
        !r@.contains('\n'),
{
    respond(id, Ok(tools::tool_result(outcome)))
}

// ---------------------------------------------------------------------------
// Versions
// ---------------------------------------------------------------------------

/// The newest version of the protocol that is spoken here.
pub const LATEST_VERSION: &'static str = "2025-06-18";

pub const SERVER_NAME: &'static str = "render-component";

pub const SERVER_VERSION: &'static str = "0.1.0";

/// What agents are told of this server.
pub const SERVER_INSTRUCTIONS: &'static str =
    "render-component renders a single Angular component in the browser.\nTypical loop: list_components → inspect_component → select_component (returns the dev-server URL) → get_logs / get_status → stop_server. Use find_files to locate files by fuzzy name and read_file to view any file inside the project root. Cold start compiles the whole workspace and can take minutes: select_component may answer {\"starting\": true} instead of blocking — poll get_status until running=true and the URL appears.";

/// Whether a version of the protocol is spoken here.
pub open spec fn is_supported(version: Seq<char>) -> bool {
    version == "2024-11-05"@ || version == "2025-03-26"@ || version == "2025-06-18"@
}

/// The version that is spoken with a client that asks for one: that one where it
/// is spoken here, the newest otherwise.
pub open spec fn negotiated(params: JsonView) -> Seq<char> {
    match json::as_text(json::field(params, "protocolVersion"@)) {
        Some(v) => if is_supported(v) {
            v
        } else {
            LATEST_VERSION@
        },
        None => LATEST_VERSION@,
    }
}

/// What this server can do.
pub open spec fn capabilities() -> JsonView {
    JsonView::Object(
        seq![
            (
                "tools"@,
                JsonView::Object(seq![("listChanged"@, JsonView::Bool(false))]),
            ),
            (
                "resources"@,
                JsonView::Object(
                    seq![
                        ("subscribe"@, JsonView::Bool(false)),
                        ("listChanged"@, JsonView::Bool(false)),
                    ],
                ),
            ),
            (
                "prompts"@,
                JsonView::Object(seq![("listChanged"@, JsonView::Bool(false))]),
            ),
            ("logging"@, JsonView::Object(Seq::empty())),
        ],
    )
}

/// What a client is told first.
pub open spec fn initialization(params: JsonView) -> JsonView {
    JsonView::Object(
        seq![
            ("protocolVersion"@, JsonView::Text(negotiated(params))),
            ("capabilities"@, capabilities()),
            (
                "serverInfo"@,
                JsonView::Object(
                    seq![
                        ("name"@, JsonView::Text(SERVER_NAME@)),
                        ("version"@, JsonView::Text(SERVER_VERSION@)),
                    ],
                ),
            ),
            ("instructions"@, JsonView::Text(SERVER_INSTRUCTIONS@)),
        ],
    )
}

fn flag(key: &str) -> (r: Json)
    ensures
        r@ == JsonView::Object(seq![(key@, JsonView::Bool(false))]),
{
    let mut o: Vec<(String, Json)> = json::no_members();
    json::append(&mut o, key, Json::Bool(false));
    json::object(o)
}

fn capabilities_json() -> (r: Json)
    ensures
        r@ == capabilities(),
{
    let mut resources: Vec<(String, Json)> = json::no_members();
    json::append(&mut resources, "subscribe", Json::Bool(false));
    json::append(&mut resources, "listChanged", Json::Bool(false));
    assert(json::members(resources@) =~= seq![
        ("subscribe"@, JsonView::Bool(false)),
        ("listChanged"@, JsonView::Bool(false)),
    ]);
    let mut o: Vec<(String, Json)> = json::no_members();
    json::append(&mut o, "tools", flag("listChanged"));
    json::append(&mut o, "resources", json::object(resources));
    json::append(&mut o, "prompts", flag("listChanged"));
    json::append(&mut o, "logging", json::object(json::no_members()));
    assert(json::members(o@) =~= capabilities()->Object_0);
    json::object(o)
}

/// What a client is told first: the version that is spoken, what this server can
/// do, and how it is used.
pub fn initialize_result(params: &Json) -> (r: Json)
    ensures
        r@ == initialization(params@),
{
    let version: &str = match params.text_at("protocolVersion") {
        Some(v) => if text::equal(v, "2024-11-05") || text::equal(v, "2025-03-26") || text::equal(
            v,
            "2025-06-18",
        ) {
            v
        } else {
            LATEST_VERSION
        },
        None => LATEST_VERSION,
    };
    let mut info: Vec<(String, Json)> = json::no_members();
    json::append(&mut info, "name", json::text_value(SERVER_NAME));
    json::append(&mut info, "version", json::text_value(SERVER_VERSION));
    assert(json::members(info@) =~= seq![
        ("name"@, JsonView::Text(SERVER_NAME@)),
        ("version"@, JsonView::Text(SERVER_VERSION@)),
    ]);
    let mut o: Vec<(String, Json)> = json::no_members();
    json::append(&mut o, "protocolVersion", json::text_value(version));
    json::append(&mut o, "capabilities", capabilities_json());
    json::append(&mut o, "serverInfo", json::object(info));
    json::append(&mut o, "instructions", json::text_value(SERVER_INSTRUCTIONS));
    assert(json::members(o@) =~= initialization(params@)->Object_0);
    json::object(o)
}

// ---------------------------------------------------------------------------
// Resources
// ---------------------------------------------------------------------------

pub const URI_STATUS: &'static str = "rc://status";

pub const URI_LOGS: &'static str = "rc://logs";

pub const URI_COMPONENTS: &'static str = "rc://components";

/// How many lines of the log are read as a resource.
pub const RESOURCE_TAIL: u64 = 500;

impl Resource {
    pub open spec fn address(self) -> Seq<char> {
        match self {
            Resource::Status => URI_STATUS@,
            Resource::Logs => URI_LOGS@,
            Resource::Components => URI_COMPONENTS@,
        }
    }

    pub open spec fn title(self) -> Seq<char> {
        match self {
            Resource::Status => "Server status"@,
            Resource::Logs => "Server logs"@,
            Resource::Components => "Component index"@,
        }
    }

    pub open spec fn about(self) -> Seq<char> {
        match self {
            Resource::Status => "Dev-server state: running, URL, current component."@,
            Resource::Logs => "Everything streamed so far: npm, ng serve, TUI notes."@,
            Resource::Components => {
                "Every renderable component found under the project root."@
            },
        }
    }

    /// The address under which the resource is read.
    pub fn uri(self) -> (r: &'static str)
        ensures
            r@ == self.address(),
    {
        match self {
            Resource::Status => URI_STATUS,
            Resource::Logs => URI_LOGS,
            Resource::Components => URI_COMPONENTS,
        }
    }

    /// The resource of an address.
    pub fn at(uri: &str) -> (r: Option<Resource>)
        ensures
            r == resource_at(uri@),
    {
        if text::equal(uri, URI_STATUS) {
            Some(Resource::Status)
        } else if text::equal(uri, URI_LOGS) {
            Some(Resource::Logs)
        } else if text::equal(uri, URI_COMPONENTS) {
            Some(Resource::Components)
        } else {
            None
        }
    }

    fn listed(self) -> (r: Json)
        ensures
            r@ == resource_listing(self),
    {
        let (title, about): (&str, &str) = match self {
            Resource::Status => (
                "Server status",
                "Dev-server state: running, URL, current component.",
            ),
            Resource::Logs => (
                "Server logs",
                "Everything streamed so far: npm, ng serve, TUI notes.",
            ),
            Resource::Components => (
                "Component index",
                "Every renderable component found under the project root.",
            ),
        };
        let mut o: Vec<(String, Json)> = json::no_members();
        json::append(&mut o, "uri", json::text_value(self.uri()));
        json::append(&mut o, "name", json::text_value(title));
        json::append(&mut o, "description", json::text_value(about));
        json::append(&mut o, "mimeType", json::text_value("application/json"));
        assert(json::members(o@) =~= resource_listing(self)->Object_0);
        json::object(o)
    }
}

/// The resource of an address.
pub open spec fn resource_at(uri: Seq<char>) -> Option<Resource> {
    if uri == URI_STATUS@ {
        Some(Resource::Status)
    } else if uri == URI_LOGS@ {
        Some(Resource::Logs)
    } else if uri == URI_COMPONENTS@ {
        Some(Resource::Components)
    } else {
        None
    }
}

/// How a resource is listed.
pub open spec fn resource_listing(r: Resource) -> JsonView {
    JsonView::Object(
        seq![
            ("uri"@, JsonView::Text(r.address())),
            ("name"@, JsonView::Text(r.title())),
            ("description"@, JsonView::Text(r.about())),
            ("mimeType"@, JsonView::Text("application/json"@)),
        ],
    )
}

/// How the resources are listed.
pub open spec fn resource_listings() -> JsonView {
    JsonView::Object(
        seq![
            (
                "resources"@,
                JsonView::Array(
                    seq![
                        resource_listing(Resource::Status),
                        resource_listing(Resource::Logs),
                        resource_listing(Resource::Components),
                    ],
                ),
            ),
        ],
    )
}

/// How the resources are listed.
pub fn resources_list() -> (r: Json)
    ensures
        r@ == resource_listings(),
{
    let mut v: Vec<Json> = Vec::new();
    v.push(Resource::Status.listed());
    v.push(Resource::Logs.listed());
    v.push(Resource::Components.listed());
    assert(json::items(v@) =~= seq![
        resource_listing(Resource::Status),
        resource_listing(Resource::Logs),
        resource_listing(Resource::Components),
    ]);
    let mut o: Vec<(String, Json)> = json::no_members();
    json::append(&mut o, "resources", json::array(v));
    json::object(o)
}

/// What a request to read a resource comes to.
pub open spec fn reading(params: JsonView) -> StepView {
    match json::as_text(json::field(params, "uri"@)) {
        None => StepView::Done(Err((INVALID_PARAMS as int, "missing resource uri"@))),
        Some(uri) => match resource_at(uri) {
            Some(r) => StepView::Work(WorkView::Resource(r)),
            None => StepView::Done(Err((INVALID_PARAMS as int, "unknown resource: "@ + uri))),
        },
    }
}

/// A request to read a resource: an error where there is no such resource, and
/// what is to be read otherwise.
pub fn resources_read(params: &Json) -> (r: Step)
    ensures
        r@ == reading(params@),
{
    let uri: &str = match params.text_at("uri") {
        Some(u) => u,
        None => {
            return Step::Done(
                Err(RpcError::new(INVALID_PARAMS, "missing resource uri".to_string())),
            );
        },
    };
    match Resource::at(uri) {
        Some(r) => Step::Work(Work::Resource(r)),
        None => Step::Done(
            Err(RpcError::new(INVALID_PARAMS, text::cat("unknown resource: ", uri))),
        ),
    }
}

/// What a resource is told as, by its text.
pub open spec fn text_contents(r: Resource, shown: Seq<char>) -> JsonView {
    JsonView::Object(
        seq![
            (
                "contents"@,
                JsonView::Array(
                    seq![
                        JsonView::Object(
                            seq![
                                ("uri"@, JsonView::Text(r.address())),
                                ("mimeType"@, JsonView::Text("application/json"@)),
                                ("text"@, JsonView::Text(shown)),
                            ],
                        ),
                    ],
                ),
            ),
        ],
    )
}

/// What a resource that was read is told as.
pub open spec fn contents(r: Resource, payload: JsonView) -> JsonView {
    text_contents(r, json::json_compact(payload))
}

/// What a resource is told as, by its text.
pub fn contents_of_text(r: Resource, shown: String) -> (out: Json)
    ensures
        out@ == text_contents(r, shown@),
{
    let ghost view = shown@;
    let mut part: Vec<(String, Json)> = json::no_members();
    json::append(&mut part, "uri", json::text_value(r.uri()));
    json::append(&mut part, "mimeType", json::text_value("application/json"));
    json::append(&mut part, "text", Json::Text(shown));
    assert(json::members(part@) =~= seq![
        ("uri"@, JsonView::Text(r.address())),
        ("mimeType"@, JsonView::Text("application/json"@)),
        ("text"@, JsonView::Text(view)),
    ]);
    let mut o: Vec<(String, Json)> = json::no_members();
    json::append(&mut o, "contents", json::singleton(json::object(part)));
    json::object(o)
}

/// The response to a request to read a resource, once it was read.
pub fn respond_to_reading(id: Json, r: Resource, payload: &Json) -> (out: String)
    ensures
        out@ == json::json_compact(response(id@, Ok(contents(r, payload@)))),
        !out@.contains('\n'),
{
    respond(id, Ok(contents_of_text(r, json::compact(payload))))
}

// ---------------------------------------------------------------------------
// Prompts
// ---------------------------------------------------------------------------

/// How a prompt with one argument is listed.
pub open spec fn prompt_listing(
    name: Seq<char>,
    about: Seq<char>,
    argument: Seq<char>,
    argument_about: Seq<char>,
) -> JsonView {
    JsonView::Object(
        seq![
            ("name"@, JsonView::Text(name)),
            ("description"@, JsonView::Text(about)),
            (
                "arguments"@,
                JsonView::Array(
                    seq![
                        JsonView::Object(
                            seq![
                                ("name"@, JsonView::Text(argument)),
                                ("description"@, JsonView::Text(argument_about)),
                                ("required"@, JsonView::Bool(true)),
                            ],
                        ),
                    ],
                ),
            ),
        ],
    )
}

/// How the prompts are listed.
pub open spec fn prompt_listings() -> JsonView {
    JsonView::Object(
        seq![
            (
                "prompts"@,
                JsonView::Array(
                    seq![
                        prompt_listing(
                            "select-component"@,
                            "Find and render a component by fuzzy name."@,
                            "query"@,
                            "Fuzzy name, e.g. 'pdfview' or 'gallery'."@,
                        ),
                        prompt_listing(
                            "diagnose-render"@,
                            "Diagnose why a component is not rendering as expected."@,
                            "component"@,
                            "Component path currently being served."@,
                        ),
                    ],
                ),
            ),
        ],
    )
}

fn prompt_json(name: &str, about: &str, argument: &str, argument_about: &str) -> (r: Json)
    ensures
        r@ == prompt_listing(name@, about@, argument@, argument_about@),
{
    let mut part: Vec<(String, Json)> = json::no_members();
    json::append(&mut part, "name", json::text_value(argument));
    json::append(&mut part, "description", json::text_value(argument_about));
    json::append(&mut part, "required", Json::Bool(true));
    assert(json::members(part@) =~= seq![
        ("name"@, JsonView::Text(argument@)),
        ("description"@, JsonView::Text(argument_about@)),
        ("required"@, JsonView::Bool(true)),
    ]);
    let mut o: Vec<(String, Json)> = json::no_members();
    json::append(&mut o, "name", json::text_value(name));
    json::append(&mut o, "description", json::text_value(about));
    json::append(&mut o, "arguments", json::singleton(json::object(part)));
    assert(json::members(o@) =~= prompt_listing(
        name@,
        about@,
        argument@,
        argument_about@,
    )->Object_0);
    json::object(o)
}

/// How the prompts are listed.
pub fn prompts_list() -> (r: Json)
    ensures
        r@ == prompt_listings(),
{
    let ghost expected = prompt_listings()->Object_0[0].1->Array_0;
    let mut v: Vec<Json> = Vec::new();
    v.push(
        prompt_json(
            "select-component",
            "Find and render a component by fuzzy name.",
            "query",
            "Fuzzy name, e.g. 'pdfview' or 'gallery'.",
        ),
    );
    v.push(
        prompt_json(
            "diagnose-render",
            "Diagnose why a component is not rendering as expected.",
            "component",
            "Component path currently being served.",
        ),
    );
    assert(json::items(v@) =~= expected);
    let mut o: Vec<(String, Json)> = json::no_members();
    json::append(&mut o, "prompts", json::array(v));
    json::object(o)
}

/// A text among the arguments, empty where it is not given.
pub open spec fn given(args: JsonView, key: Seq<char>) -> Seq<char> {
    match json::as_text(json::field(args, key)) {
        Some(t) => t,
        None => Seq::empty(),
    }
}

/// The text of a prompt.
pub open spec fn prompt_text(name: Seq<char>, args: JsonView) -> Option<Seq<char>> {
    if name == "select-component"@ {
        Some(
            "Use find_files with query '"@ + given(args, "query"@)
                + "', inspect the best match with inspect_component, then select_component it. Report the dev-server URL, the mount strategy and any required inputs."@,
        )
    } else if name == "diagnose-render"@ {
        Some(
            "The user reports '"@ + given(args, "component"@)
                + "' is not rendering as expected. Check get_status and get_logs for build errors, inspect_component for the mount strategy and required inputs, and read_file the source if needed. Report the root cause and the exact next action."@,
        )
    } else {
        None
    }
}

/// What a prompt is told as.
pub open spec fn prompt_answer(name: Seq<char>, told: Seq<char>) -> JsonView {
    JsonView::Object(
        seq![
            ("description"@, JsonView::Text("render-component: "@ + name)),
            (
                "messages"@,
                JsonView::Array(
                    seq![
                        JsonView::Object(
                            seq![
                                ("role"@, JsonView::Text("user"@)),
                                (
                                    "content"@,
                                    JsonView::Object(
                                        seq![
                                            ("type"@, JsonView::Text("text"@)),
                                            ("text"@, JsonView::Text(told)),
                                        ],
                                    ),
                                ),
                            ],
                        ),
                    ],
                ),
            ),
        ],
    )
}

/// What a request for a prompt is answered.
pub open spec fn prompted(params: JsonView) -> Result<JsonView, (int, Seq<char>)> {
    match json::as_text(json::field(params, "name"@)) {
        None => Err((INVALID_PARAMS as int, "missing prompt name"@)),
        Some(name) => match prompt_text(name, tools::arguments_of(params)) {
            Some(told) => Ok(prompt_answer(name, told)),
            None => Err((METHOD_NOT_FOUND as int, "unknown prompt: "@ + name)),
        },
    }
}

fn argument(params: &Json, key: &str) -> (r: String)
    ensures
        r@ == given(tools::arguments_of(params@), key@),
{
    match params.get("arguments") {
        Some(args) => match args.text_at(key) {
            Some(t) => t.to_string(),
            None => String::new(),
        },
        None => String::new(),
    }
}

fn prompt_answer_json(name: &str, told: String) -> (r: Json)
    ensures
        r@ == prompt_answer(name@, told@),
{
    let ghost expected = prompt_answer(name@, told@)->Object_0;
    let ghost message = expected[1].1->Array_0[0]->Object_0;
    let mut part: Vec<(String, Json)> = json::no_members();
    json::append(&mut part, "type", json::text_value("text"));
    json::append(&mut part, "text", Json::Text(told));
    assert(json::members(part@) =~= message[1].1->Object_0);
    let mut one: Vec<(String, Json)> = json::no_members();
    json::append(&mut one, "role", json::text_value("user"));
    json::append(&mut one, "content", json::object(part));
    assert(json::members(one@) =~= message);
    let mut o: Vec<(String, Json)> = json::no_members();
    json::append(&mut o, "description", Json::Text(text::cat("render-component: ", name)));
    json::append(&mut o, "messages", json::singleton(json::object(one)));
    assert(json::members(o@) =~= expected);
    json::object(o)
}

/// A request for a prompt: its text with the arguments filled in.
pub fn prompts_get(params: &Json) -> (r: Result<Json, RpcError>)
    ensures
        rpc_outcome(r) == prompted(params@),
{
    let name: &str = match params.text_at("name") {
        Some(n) => n,
        None => {
            return Err(RpcError::new(INVALID_PARAMS, "missing prompt name".to_string()));
        },
    };
    let told: String = if text::equal(name, "select-component") {
        text::cat3(
            "Use find_files with query '",
            argument(params, "query").as_str(),
            "', inspect the best match with inspect_component, then select_component it. Report the dev-server URL, the mount strategy and any required inputs.",
        )
    } else if text::equal(name, "diagnose-render") {
        text::cat3(
            "The user reports '",
            argument(params, "component").as_str(),
            "' is not rendering as expected. Check get_status and get_logs for build errors, inspect_component for the mount strategy and required inputs, and read_file the source if needed. Report the root cause and the exact next action.",
        )
    } else {
        return Err(RpcError::new(METHOD_NOT_FOUND, text::cat("unknown prompt: ", name)));
    };
    Ok(prompt_answer_json(name, told))
}

// ---------------------------------------------------------------------------
// Requests
// ---------------------------------------------------------------------------

/// What a line of input comes to.
#[derive(Debug)]
pub enum Incoming {
    /// It is not answered.
    Silent,
    /// It is answered with this line.
    Answer(String),
    /// Something has to be done before the request of this id is answered.
    Pending(Json, Work),
}

#[verifier::ext_equal]
pub enum IncomingView {
    Silent,
    Answer(Seq<char>),
    Pending(JsonView, WorkView),
}

impl View for Incoming {
    type V = IncomingView;

    open spec fn view(&self) -> IncomingView {
        match self {
            Incoming::Silent => IncomingView::Silent,
            Incoming::Answer(line) => IncomingView::Answer(line@),
            Incoming::Pending(id, work) => IncomingView::Pending(id@, work@),
        }
    }
}

/// What a request comes to.
pub open spec fn step_of(method: Seq<char>, params: JsonView) -> StepView {
    if method == "initialize"@ {
        StepView::Done(Ok(initialization(params)))
    } else if method == "ping"@ || method == "logging/setLevel"@ {
        StepView::Done(Ok(JsonView::Object(Seq::empty())))
    } else if method == "tools/list"@ {
        StepView::Done(
            Ok(JsonView::Object(seq![("tools"@, JsonView::Array(registry::listings()))])),
        )
    } else if method == "tools/call"@ {
        tools::called(params)
    } else if method == "resources/list"@ {
        StepView::Done(Ok(resource_listings()))
    } else if method == "resources/read"@ {
        reading(params)
    } else if method == "prompts/list"@ {
        StepView::Done(Ok(prompt_listings()))
    } else if method == "prompts/get"@ {
        StepView::Done(prompted(params))
    } else {
        StepView::Done(Err((METHOD_NOT_FOUND as int, "method not found: "@ + method)))
    }
}

/// The parameters of a message: none where it has none.
pub open spec fn params_of(msg: JsonView) -> JsonView {
    match json::field(msg, "params"@) {
        Some(p) => p,
        None => JsonView::Object(Seq::empty()),
    }
}

/// The method that a message names.
pub open spec fn method_of(msg: JsonView) -> Seq<char> {
    match json::as_text(json::field(msg, "method"@)) {
        Some(m) => m,
        None => Seq::empty(),
    }
}

/// What a message comes to: one without an id is a notification, which is not
/// answered.
pub open spec fn message_reply(msg: JsonView) -> IncomingView {
    match json::field(msg, "id"@) {
        None => IncomingView::Silent,
        Some(id) => match step_of(method_of(msg), params_of(msg)) {
            StepView::Done(r) => IncomingView::Answer(json::json_compact(response(id, r))),
            StepView::Work(w) => IncomingView::Pending(id, w),
        },
    }
}

/// What a line of input comes to, by what it reads as.
pub open spec fn line_reply(read: Result<JsonView, Seq<char>>) -> IncomingView {
    match read {
        Ok(msg) => message_reply(msg),
        Err(_) => IncomingView::Answer(
            json::json_compact(
                response(
                    JsonView::Null,
                    Err((PARSE_ERROR as int, "parse error: invalid JSON"@)),
                ),
            ),
        ),
    }
}

fn route(method: &str, params: &Json) -> (r: Step)
    ensures
        r@ == step_of(method@, params@),
{
    if text::equal(method, "initialize") {
        Step::Done(Ok(initialize_result(params)))
    } else if text::equal(method, "ping") || text::equal(method, "logging/setLevel") {
        Step::Done(Ok(json::object(json::no_members())))
    } else if text::equal(method, "tools/list") {
        let mut o: Vec<(String, Json)> = json::no_members();
        json::append(&mut o, "tools", json::array(registry::registry()));
        Step::Done(Ok(json::object(o)))
    } else if text::equal(method, "tools/call") {
        tools::call(params)
    } else if text::equal(method, "resources/list") {
        Step::Done(Ok(resources_list()))
    } else if text::equal(method, "resources/read") {
        resources_read(params)
    } else if text::equal(method, "prompts/list") {
        Step::Done(Ok(prompts_list()))
    } else if text::equal(method, "prompts/get") {
        Step::Done(prompts_get(params))
    } else {
        Step::Done(Err(RpcError::new(METHOD_NOT_FOUND, text::cat("method not found: ", method))))
    }
}

/// A message: what it is answered, or what has to be done for an answer.
pub fn handle_message(msg: &Json) -> (r: Incoming)
    ensures
        r@ == message_reply(msg@),
        r@ matches IncomingView::Answer(line) ==> !line.contains('\n'),
{
    let id: Json = match msg.get("id") {
        Some(id) => id.duplicate(),
        None => {
            return Incoming::Silent;
        },
    };
    let empty: Json = json::object(json::no_members());
    let params: &Json = match msg.get("params") {
        Some(p) => p,
        None => &empty,
    };
    let step: Step = match msg.text_at("method") {
        Some(m) => route(m, params),
        None => {
            proof {
                reveal_strlit("");
                assert(""@ =~= Seq::<char>::empty());
            }
            route("", params)
        },
    };
    match step {
        Step::Done(result) => Incoming::Answer(respond(id, result)),
        Step::Work(work) => Incoming::Pending(id, work),
    }
}

/// A line of input: what it is answered, or what has to be done for an answer. A
/// line that is no JSON is answered with an error, and every answer is one line.
pub fn handle_line(line: &str) -> (r: Incoming)
    ensures
        r@ == line_reply(json::json_read(line@)),
        r@ matches IncomingView::Answer(answer) ==> !answer.contains('\n'),
{
    match json::read(line) {
        Ok(msg) => handle_message(&msg),
        Err(_) => Incoming::Answer(
            respond(
                Json::Null,
                Err(RpcError::new(PARSE_ERROR, "parse error: invalid JSON".to_string())),
            ),
        ),
    }
}

// ---------------------------------------------------------------------------
// Laws
// ---------------------------------------------------------------------------

/// A message is left unanswered exactly when it has no id.
pub proof fn only_notifications_are_silent(msg: JsonView)
    ensures
        message_reply(msg) is Silent <==> json::field(msg, "id"@) is None,
{
}

/// A message that waits for something to be done is answered under its own id,
/// as one that is answered at once.
pub proof fn answers_carry_the_id(msg: JsonView)
    ensures
        match message_reply(msg) {
            IncomingView::Silent => true,
            IncomingView::Answer(line) => exists|r: Result<JsonView, (int, Seq<char>)>|
                line == json::json_compact(
                    #[trigger] response(json::field(msg, "id"@)->0, r),
                ),
            IncomingView::Pending(id, _) => json::field(msg, "id"@) == Some(id),
        },
{
}

/// The version that is spoken is one of those that this server knows, and the
/// one that the client asks for wherever that is known.
pub proof fn negotiation_settles_on_a_known_version(params: JsonView)
    ensures
        is_supported(negotiated(params)),
        json::as_text(json::field(params, "protocolVersion"@)) matches Some(v) ==> is_supported(v)
            ==> negotiated(params) == v,
{
}

/// Every listed resource can be read under its address.
pub proof fn listed_resources_can_be_read(r: Resource)
    ensures
        resource_at(r.address()) == Some(r),
{
    reveal_strlit("rc://status");
    reveal_strlit("rc://logs");
    reveal_strlit("rc://components");
    assert(URI_STATUS@.len() == 11 && URI_LOGS@.len() == 9 && URI_COMPONENTS@.len() == 15);
}

/// A request is answered with the error that there is no such method exactly
/// when it names none of those that there are, except that a prompt that is not
/// there is answered the same way.
pub proof fn unknown_methods_are_refused(method: Seq<char>, params: JsonView)
    ensures
        ({
            let known = method == "initialize"@ || method == "ping"@ || method
                == "logging/setLevel"@ || method == "tools/list"@ || method == "tools/call"@
                || method == "resources/list"@ || method == "resources/read"@ || method
                == "prompts/list"@ || method == "prompts/get"@;
            &&& !known ==> step_of(method, params) == StepView::Done(
                Err((METHOD_NOT_FOUND as int, "method not found: "@ + method)),
            )
            &&& known && method != "prompts/get"@ ==> !(step_of(method, params) matches
                StepView::Done(Err((code, _))) && code == METHOD_NOT_FOUND)
        }),
{
    if method == "tools/call"@ {
        tools::only_unknown_tools_are_protocol_errors(params);
    }
}

/// A response names its request and holds either the result or the error, never
/// both.
pub proof fn responses_hold_result_or_error(
    id: JsonView,
    result: Result<JsonView, (int, Seq<char>)>,
)
    ensures
        json::field(response(id, result), "jsonrpc"@) == Some(JsonView::Text("2.0"@)),
        json::field(response(id, result), "id"@) == Some(id),
        result matches Ok(value) ==> json::field(response(id, result), "result"@) == Some(value)
            && json::field(response(id, result), "error"@) is None,
        result matches Err((code, message)) ==> json::field(response(id, result), "result"@) is None
            && (json::field(response(id, result), "error"@) matches Some(e) && json::field(
            e,
            "code"@,
        ) == Some(JsonView::Number(text::signed(code))) && json::field(e, "message"@) == Some(
            JsonView::Text(message),
        )),
{
    reveal_strlit("jsonrpc");
    reveal_strlit("id");
    reveal_strlit("result");
    reveal_strlit("error");
    reveal_strlit("code");
    reveal_strlit("message");
    let o = response(id, result)->Object_0;
    assert("jsonrpc"@.len() == 7 && "id"@.len() == 2 && "result"@.len() == 6 && "error"@.len()
        == 5);
    assert(json::keys_differ(o));
    json::members_are_read(o, 0);
    json::members_are_read(o, 1);
    json::members_are_read(o, 2);
    json::member_from_is_least(o, "error"@, 0);
    json::member_from_is_least(o, "result"@, 0);
    if let Err((code, message)) = result {
        let e = o[2].1->Object_0;
        assert("code"@.len() == 4 && "message"@.len() == 7);
        assert(json::keys_differ(e));
        json::members_are_read(e, 0);
        json::members_are_read(e, 1);
    }
}

} // verus!
