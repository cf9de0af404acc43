//! What the tools do: the arguments of a call, and the answers of the tools that
//! look at the project.

use crate::detect;
use crate::detect::ComponentKind;
use crate::explorer::finder;
use crate::explorer::finder::{Item, ItemView};
use crate::json;
use crate::json::{Json, JsonView};
use crate::logs::LogSink;
use crate::mcp::registry;
use crate::mcp::registry::Tool;
use crate::mcp::session::json_outcome;
use crate::mcp::{RpcError, Step, StepView, Work, WorkView};
use crate::path;
use crate::pipeline;
use crate::pipeline::{ComponentInfo, ErrorView, InfoView, PipelineError};
use crate::sort;
use crate::sort::Ranked;
use crate::text;
use vstd::prelude::*;

verus! {

// ---------------------------------------------------------------------------
// Calls
// ---------------------------------------------------------------------------

/// A call of a tool, with its arguments.
#[derive(Debug)]
pub enum ToolCall {
    /// List the components whose path holds the filter: so many from an offset.
    ListComponents(Option<String>, u64, u64),
    Inspect(String),
    Select(String),
    Status,
    /// The newest lines of the log: so many.
    Logs(u64),
    Stop,
    OpenBrowser,
    /// The best matches of a query: so many.
    FindFiles(String, u64),
    ReadFile(String),
}

#[verifier::ext_equal]
pub enum CallView {
    ListComponents(Option<Seq<char>>, nat, nat),
    Inspect(Seq<char>),
    Select(Seq<char>),
    Status,
    Logs(nat),
    Stop,
    OpenBrowser,
    FindFiles(Seq<char>, nat),
    ReadFile(Seq<char>),
}

impl View for ToolCall {
    type V = CallView;

    open spec fn view(&self) -> CallView {
        match self {
            ToolCall::ListComponents(filter, limit, offset) => CallView::ListComponents(
                text::opt(*filter),
                *limit as nat,
                *offset as nat,
            ),
            ToolCall::Inspect(p) => CallView::Inspect(p@),
            ToolCall::Select(p) => CallView::Select(p@),
            ToolCall::Status => CallView::Status,
            ToolCall::Logs(n) => CallView::Logs(*n as nat),
            ToolCall::Stop => CallView::Stop,
            ToolCall::OpenBrowser => CallView::OpenBrowser,
            ToolCall::FindFiles(q, n) => CallView::FindFiles(q@, *n as nat),
            ToolCall::ReadFile(p) => CallView::ReadFile(p@),
        }
    }
}

/// How many components a page holds at most.
pub const MAX_PAGE: u64 = 10_000;

/// A natural number among the arguments, with the value that it has by default.
pub open spec fn number_or(args: JsonView, key: Seq<char>, default: nat) -> nat {
    match json::as_natural(json::field(args, key)) {
        Some(n) => n,
        None => default,
    }
}

/// A text among the arguments that has to be given.
pub open spec fn needed(args: JsonView, key: Seq<char>) -> Result<Seq<char>, Seq<char>> {
    match json::as_text(json::field(args, key)) {
        Some(t) => Ok(t),
        None => Err("missing required argument: "@ + key),
    }
}

/// The call of a tool with these arguments, or what is wrong with them.
pub open spec fn call_with(tool: Tool, args: JsonView) -> Result<CallView, Seq<char>> {
    match tool {
        Tool::ListComponents => {
            let limit = number_or(args, "limit"@, 100);
            Ok(
                CallView::ListComponents(
                    json::as_text(json::field(args, "filter"@)),
                    if limit < MAX_PAGE {
                        limit
                    } else {
                        MAX_PAGE as nat
                    },
                    number_or(args, "offset"@, 0),
                ),
            )
        },
        Tool::InspectComponent => match needed(args, "path"@) {
            Ok(p) => Ok(CallView::Inspect(p)),
            Err(e) => Err(e),
        },
        Tool::SelectComponent => match needed(args, "path"@) {
            Ok(p) => Ok(CallView::Select(p)),
            Err(e) => Err(e),
        },
        Tool::GetStatus => Ok(CallView::Status),
        Tool::GetLogs => Ok(CallView::Logs(number_or(args, "tail"@, 100))),
        Tool::StopServer => Ok(CallView::Stop),
        Tool::OpenInBrowser => Ok(CallView::OpenBrowser),
        Tool::FindFiles => match needed(args, "query"@) {
            Ok(q) => Ok(CallView::FindFiles(q, number_or(args, "limit"@, 20))),
            Err(e) => Err(e),
        },
        Tool::ReadFile => match needed(args, "path"@) {
            Ok(p) => Ok(CallView::ReadFile(p)),
            Err(e) => Err(e),
        },
    }
}

/// The result of a tool: what it answers, or its error.
pub open spec fn envelope(outcome: Result<JsonView, Seq<char>>) -> JsonView {
    match outcome {
        Ok(value) => text_envelope(json::json_compact(value), false),
        Err(message) => text_envelope(message, true),
    }
}

/// The result of a tool, by the text that is shown and whether it failed.
pub open spec fn text_envelope(shown: Seq<char>, failed: bool) -> JsonView {
    JsonView::Object(
        seq![
            (
                "content"@,
                JsonView::Array(
                    seq![
                        JsonView::Object(
                            seq![("type"@, JsonView::Text("text"@)), ("text"@, JsonView::Text(shown))],
                        ),
                    ],
                ),
            ),
            ("isError"@, JsonView::Bool(failed)),
        ],
    )
}

/// The arguments of a request: none where it has none.
pub open spec fn arguments_of(params: JsonView) -> JsonView {
    match json::field(params, "arguments"@) {
        Some(args) => args,
        None => JsonView::Object(Seq::empty()),
    }
}

/// What a call of a tool comes to.
pub open spec fn called(params: JsonView) -> StepView {
    match json::as_text(json::field(params, "name"@)) {
        None => StepView::Done(Err((crate::mcp::INVALID_PARAMS as int, "missing tool name"@))),
        Some(name) => match registry::tool_named(name) {
            None => StepView::Done(
                Err((crate::mcp::INVALID_PARAMS as int, "unknown tool: "@ + name)),
            ),
            Some(tool) => match call_with(tool, arguments_of(params)) {
                Ok(call) => StepView::Work(WorkView::Tool(call)),
                Err(message) => StepView::Done(Ok(envelope(Err(message)))),
            },
        },
    }
}

fn number(args: &Json, key: &str, default: u64) -> (r: u64)
    ensures
        r == number_or(args@, key@, default as nat),
{
    match args.natural_at(key) {
        Some(n) => n,
        None => default,
    }
}

/// A text among the arguments that has to be given.
pub fn required(args: &Json, key: &str) -> (r: Result<String, String>)
    ensures
        match r {
            Ok(t) => needed(args@, key@) == Ok::<Seq<char>, Seq<char>>(t@),
            Err(e) => needed(args@, key@) == Err::<Seq<char>, Seq<char>>(e@),
        },
{
    match args.text_at(key) {
        Some(t) => Ok(t.to_string()),
        None => Err(text::cat("missing required argument: ", key)),
    }
}

fn parse_call(tool: Tool, args: &Json) -> (r: Result<ToolCall, String>)
    ensures
        match r {
            Ok(c) => call_with(tool, args@) == Ok::<CallView, Seq<char>>(c@),
            Err(e) => call_with(tool, args@) == Err::<CallView, Seq<char>>(e@),
        },
{
    match tool {
        Tool::ListComponents => {
            let filter: Option<String> = match args.text_at("filter") {
                Some(f) => Some(f.to_string()),
                None => None,
            };
            let limit: u64 = number(args, "limit", 100);
            let limit: u64 = if limit < MAX_PAGE {
                limit
            } else {
                MAX_PAGE
            };
            Ok(ToolCall::ListComponents(filter, limit, number(args, "offset", 0)))
        },
        Tool::InspectComponent => match required(args, "path") {
            Ok(p) => Ok(ToolCall::Inspect(p)),
            Err(e) => Err(e),
        },
        Tool::SelectComponent => match required(args, "path") {
            Ok(p) => Ok(ToolCall::Select(p)),
            Err(e) => Err(e),
        },
        Tool::GetStatus => Ok(ToolCall::Status),
        Tool::GetLogs => Ok(ToolCall::Logs(number(args, "tail", 100))),
        Tool::StopServer => Ok(ToolCall::Stop),
        Tool::OpenInBrowser => Ok(ToolCall::OpenBrowser),
        Tool::FindFiles => match required(args, "query") {
            Ok(q) => Ok(ToolCall::FindFiles(q, number(args, "limit", 20))),
            Err(e) => Err(e),
        },
        Tool::ReadFile => match required(args, "path") {
            Ok(p) => Ok(ToolCall::ReadFile(p)),
            Err(e) => Err(e),
        },
    }
}

/// The result of a tool, by the text that is shown and whether it failed.
pub fn text_result(shown: String, failed: bool) -> (r: Json)
    ensures
        r@ == text_envelope(shown@, failed),
{
    let ghost expected = text_envelope(shown@, failed)->Object_0;
    let ghost view = shown@;
    let mut part: Vec<(String, Json)> = json::no_members();
    json::append(&mut part, "type", json::text_value("text"));
    json::append(&mut part, "text", Json::Text(shown));
    assert(json::members(part@) =~= seq![
        ("type"@, JsonView::Text("text"@)),
        ("text"@, JsonView::Text(view)),
    ]);
    let mut o: Vec<(String, Json)> = json::no_members();
    json::append(&mut o, "content", json::singleton(json::object(part)));
    json::append(&mut o, "isError", Json::Bool(failed));
    assert(json::members(o@) =~= expected);
    json::object(o)
}

/// The result of a tool: what it answers, or its error. An error is a result
/// like any other, so that the conversation goes on.
pub fn tool_result(outcome: &Result<Json, String>) -> (r: Json)
    ensures
        r@ == envelope(json_outcome(*outcome)),
{
    match outcome {
        Ok(value) => text_result(json::compact(value), false),
        Err(message) => text_result(message.clone(), true),
    }
}

/// A call of a tool: an error where there is no such tool, the result where its
/// arguments are wrong, and what is to be done otherwise.
pub fn call(params: &Json) -> (r: Step)
    ensures
        r@ == called(params@),
{
    let name: &str = match params.text_at("name") {
        Some(n) => n,
        None => {
            return Step::Done(
                Err(RpcError::new(crate::mcp::INVALID_PARAMS, "missing tool name".to_string())),
            );
        },
    };
    let tool: Tool = match Tool::named(name) {
        Some(t) => t,
        None => {
            return Step::Done(
                Err(RpcError::new(crate::mcp::INVALID_PARAMS, text::cat("unknown tool: ", name))),
            );
        },
    };
    let parsed: Result<ToolCall, String> = match params.get("arguments") {
        Some(args) => parse_call(tool, args),
        None => {
            let none: Json = json::object(json::no_members());
            parse_call(tool, &none)
        },
    };
    match parsed {
        Ok(c) => Step::Work(Work::Tool(c)),
        Err(message) => Step::Done(Ok(tool_result(&Err(message)))),
    }
}

// ---------------------------------------------------------------------------
// Components
// ---------------------------------------------------------------------------

/// What was seen of an indexed file: what it holds, where it could be read, and
/// whether there is a file in the place of its module.
#[derive(Debug)]
pub struct Seen {
    pub source: Option<String>,
    pub module_exists: bool,
}

/// Whether a file is looked at when components are listed: its name ends as a
/// component's may, and its path holds the filter.
pub open spec fn is_candidate(display: Seq<char>, filter: Option<Seq<char>>) -> bool {
    (text::ends(display, ".ts"@) || text::ends(display, ".tsx"@)) && (filter matches Some(f)
        ==> text::has(display, f))
}

/// How a component is listed.
pub open spec fn component_entry(display: Seq<char>, kind: ComponentKind) -> JsonView {
    JsonView::Object(
        seq![
            ("path"@, JsonView::Text(display)),
            ("kind"@, JsonView::Text(kind.name())),
            ("renderable"@, JsonView::Bool(kind.is_renderable())),
        ],
    )
}

/// The kind of an indexed file.
pub open spec fn seen_kind(item: ItemView, seen: Seen) -> ComponentKind {
    detect::kind_of(item.path, text::opt(seen.source), seen.module_exists)
}

/// The components among the first `n` files of the index.
pub open spec fn components_before(
    items: Seq<ItemView>,
    seen: Seq<Seen>,
    filter: Option<Seq<char>>,
    n: int,
) -> Seq<JsonView>
    decreases n,
{
    if n <= 0 || n > items.len() {
        Seq::empty()
    } else {
        let earlier = components_before(items, seen, filter, n - 1);
        let item = items[n - 1];
        let kind = seen_kind(item, seen[n - 1]);
        if is_candidate(item.display, filter) && kind.is_highlighted() {
            earlier.push(component_entry(item.display, kind))
        } else {
            earlier
        }
    }
}

/// A page of a list: so many from an offset, without an end where the limit is
/// zero.
pub open spec fn page_of(all: Seq<JsonView>, limit: nat, offset: nat) -> Seq<JsonView> {
    let rest = if offset < all.len() {
        all.skip(offset as int)
    } else {
        Seq::empty()
    };
    if limit > 0 && limit < rest.len() {
        rest.take(limit as int)
    } else {
        rest
    }
}

/// Where the next page begins, where there is one.
pub open spec fn next_offset(all: Seq<JsonView>, limit: nat, offset: nat) -> Option<nat> {
    let end = offset + page_of(all, limit, offset).len();
    if limit > 0 && end < all.len() {
        Some(end)
    } else {
        None
    }
}

/// A page of the list of components.
pub open spec fn components_page(all: Seq<JsonView>, limit: nat, offset: nat) -> JsonView {
    let page = page_of(all, limit, offset);
    let head = seq![
        ("count"@, json::natural_value(all.len())),
        ("offset"@, json::natural_value(offset)),
        ("returned"@, json::natural_value(page.len())),
        ("components"@, JsonView::Array(page)),
    ];
    match next_offset(all, limit, offset) {
        Some(next) => JsonView::Object(
            head + seq![
                ("nextOffset"@, json::natural_value(next)),
                (
                    "detail"@,
                    JsonView::Text(
                        "truncated: pass limit/offset for pages, or a filter to narrow"@,
                    ),
                ),
            ],
        ),
        None => JsonView::Object(head),
    }
}

/// Whether a file is looked at when components are listed.
pub fn candidate(display: &str, filter: Option<&str>) -> (r: bool)
    ensures
        r == is_candidate(display@, text::opt_str(filter)),
{
    let d: Vec<char> = text::chars_of(display);
    if !text::ends_with(d.as_slice(), ".ts") && !text::ends_with(d.as_slice(), ".tsx") {
        return false;
    }
    match filter {
        Some(f) => text::contains(d.as_slice(), f),
        None => true,
    }
}

fn entry_json(display: &str, kind: ComponentKind) -> (r: Json)
    ensures
        r@ == component_entry(display@, kind),
{
    let mut o: Vec<(String, Json)> = json::no_members();
    json::append(&mut o, "path", json::text_value(display));
    json::append(&mut o, "kind", json::text_value(kind.as_str()));
    json::append(&mut o, "renderable", Json::Bool(kind.renderable()));
    assert(json::members(o@) =~= component_entry(display@, kind)->Object_0);
    json::object(o)
}

fn list_components(items: &Vec<Item>, seen: &Vec<Seen>, filter: Option<&str>) -> (r: Vec<Json>)
    requires
        seen@.len() == items@.len(),
    ensures
        json::items(r@) == components_before(
            finder::items_view(items@),
            seen@,
            text::opt_str(filter),
            items@.len() as int,
        ),
{
    let ghost all = finder::items_view(items@);
    let mut out: Vec<Json> = Vec::new();
    let mut i: usize = 0;
    assert(json::items(out@) =~= Seq::<JsonView>::empty());
    while i < items.len()
        invariant
            i <= items.len(),
            seen@.len() == items@.len(),
            all == finder::items_view(items@),
            json::items(out@) == components_before(all, seen@, text::opt_str(filter), i as int),
        decreases items.len() - i,
    {
        let item: &Item = &items[i];
        assert(all[i as int] == item@);
        if candidate(item.display.as_str(), filter) {
            let source: Option<&str> = match &seen[i].source {
                Some(s) => Some(s.as_str()),
                None => None,
            };
            let kind: ComponentKind = detect::classify(
                item.path.as_str(),
                source,
                seen[i].module_exists,
            );
            if kind.highlighted() {
                let ghost before = json::items(out@);
                let entry: Json = entry_json(item.display.as_str(), kind);
                let ghost new = entry@;
                out.push(entry);
                assert(json::items(out@) =~= before.push(new));
            }
        }
        i = i + 1;
    }
    out
}

fn copy_page(all: &Vec<Json>, limit: u64, offset: u64) -> (r: Vec<Json>)
    ensures
        json::items(r@) == page_of(json::items(all@), limit as nat, offset as nat),
{
    let ghost views = json::items(all@);
    let mut out: Vec<Json> = Vec::new();
    if offset >= all.len() as u64 {
        assert(json::items(out@) =~= page_of(views, limit as nat, offset as nat));
        return out;
    }
    let first: usize = offset as usize;
    let mut i: usize = first;
    while i < all.len() && (limit == 0 || ((i - first) as u64) < limit)
        invariant
            first == offset,
            first <= i <= all.len(),
            out@.len() == i - first,
            limit > 0 ==> i - first <= limit,
            forall|k: int| 0 <= k < out@.len() ==> #[trigger] out@[k]@ == all@[first + k]@,
        decreases all.len() - i,
    {
        out.push(all[i].duplicate());
        i = i + 1;
    }
    assert(json::items(out@) =~= page_of(views, limit as nat, offset as nat));
    out
}

/// A page of the components of the index: `seen` is what was seen of each file
/// of the index. A limit of zero is no limit.
pub fn components_json(
    items: &Vec<Item>,
    seen: &Vec<Seen>,
    filter: Option<&str>,
    limit: u64,
    offset: u64,
) -> (r: Json)
    requires
        seen@.len() == items@.len(),
    ensures
        r@ == components_page(
            components_before(
                finder::items_view(items@),
                seen@,
                text::opt_str(filter),
                items@.len() as int,
            ),
            limit as nat,
            offset as nat,
        ),
{
    let components: Vec<Json> = list_components(items, seen, filter);
    let page: Vec<Json> = copy_page(&components, limit, offset);
    let ghost all = json::items(components@);
    let ghost shown = json::items(page@);
    proof {
        assert(all.len() == components@.len());
        assert(shown.len() == page@.len());
    }
    let total: u64 = components.len() as u64;
    let returned: u64 = page.len() as u64;
    let mut o: Vec<(String, Json)> = json::no_members();
    json::append(&mut o, "count", json::number_value(total));
    json::append(&mut o, "offset", json::number_value(offset));
    json::append(&mut o, "returned", json::number_value(returned));
    json::append(&mut o, "components", json::array(page));
    if limit > 0 && offset < total && returned < total - offset {
        json::append(&mut o, "nextOffset", json::number_value(offset + returned));
        json::append(
            &mut o,
            "detail",
            json::text_value("truncated: pass limit/offset for pages, or a filter to narrow"),
        );
    }
    assert(json::members(o@) =~= components_page(all, limit as nat, offset as nat)->Object_0);
    json::object(o)
}

// ---------------------------------------------------------------------------
// Paths
// ---------------------------------------------------------------------------

/// The path that an argument names, `canonical` being what it leads to; what
/// does not lie under the root is refused.
pub open spec fn resolved(
    root: Seq<char>,
    raw: Seq<char>,
    canonical: Result<Seq<char>, Seq<char>>,
) -> Result<Seq<char>, Seq<char>> {
    match canonical {
        Err(e) => Err("not found: "@ + raw + " ("@ + e + ")"@),
        Ok(p) => if path::relative_to(p, root) is Some {
            Ok(p)
        } else {
            Err("path escapes the project root: "@ + raw)
        },
    }
}

/// Where a path argument points: a relative path is seen from the root.
pub fn argument_place(root: &str, raw: &str) -> (r: String)
    ensures
        r@ == path::join_of(root@, raw@),
{
    path::join(root, raw)
}

/// The path that an argument names, `canonical` being the outcome of following
/// the place where it points.
pub fn resolve_in_root(root: &str, raw: &str, canonical: Result<String, String>) -> (r: Result<
    String,
    String,
>)
    ensures
        pipeline::outcome(r) == resolved(root@, raw@, pipeline::outcome(canonical)),
{
    match canonical {
        Err(e) => Err(text::cat5("not found: ", raw, " (", e.as_str(), ")")),
        Ok(p) => match path::strip_prefix(p.as_str(), root) {
            Some(_) => Ok(p),
            None => Err(text::cat("path escapes the project root: ", raw)),
        },
    }
}

// ---------------------------------------------------------------------------
// Answers
// ---------------------------------------------------------------------------

/// What is told of a component.
pub open spec fn inspection(
    path: Seq<char>,
    info: Result<InfoView, ErrorView>,
) -> Result<JsonView, Seq<char>> {
    match info {
        Err(e) => Err(pipeline::error_text(e)),
        Ok(info) => Ok(
            JsonView::Object(
                seq![
                    ("path"@, JsonView::Text(path)),
                    ("class_name"@, JsonView::Text(info.class_name)),
                    ("strategy"@, JsonView::Text(info.strategy.name())),
                    ("module"@, json::text_or_null(info.module_class_name)),
                    ("required_inputs"@, json::text_array(info.required_inputs)),
                    ("input_values"@, JsonView::Object(info.input_values)),
                ],
            ),
        ),
    }
}

/// What is told of a component, `info` being what its validation found.
pub fn inspect(path: &str, info: &Result<ComponentInfo, PipelineError>) -> (r: Result<Json, String>)
    ensures
        json_outcome(r) == inspection(path@, pipeline::info_outcome(*info)),
{
    let info: &ComponentInfo = match info {
        Ok(i) => i,
        Err(e) => {
            return Err(e.message());
        },
    };
    let module: Option<&str> = match &info.module_class_name {
        Some(m) => Some(m.as_str()),
        None => None,
    };
    let mut o: Vec<(String, Json)> = json::no_members();
    json::append(&mut o, "path", json::text_value(path));
    json::append(&mut o, "class_name", json::text_value(info.class_name.as_str()));
    json::append(&mut o, "strategy", json::text_value(info.strategy.as_str()));
    json::append(&mut o, "module", json::optional_text(module));
    json::append(&mut o, "required_inputs", json::array_of_texts(&info.required_inputs));
    let values: Vec<(String, Json)> = json::duplicate_members(&info.input_values);
    json::append(&mut o, "input_values", json::object(values));
    assert(json::members(o@) =~= inspection(path@, Ok(info@))->Ok_0->Object_0);
    Ok(json::object(o))
}

/// The last `n` lines.
pub open spec fn last_lines(lines: Seq<Seq<char>>, n: nat) -> Seq<Seq<char>> {
    if n >= lines.len() {
        lines
    } else {
        lines.skip(lines.len() - n)
    }
}

/// What is told of the log: its newest lines, so many.
pub fn logs_json(sink: &LogSink, n: u64) -> (r: Json)
    ensures
        r@ == JsonView::Object(
            seq![("lines"@, json::text_array(last_lines(sink.lines(), n as nat)))],
        ),
{
    let len: usize = sink.len();
    let kept: usize = if n >= len as u64 {
        len
    } else {
        n as usize
    };
    let lines: Vec<String> = sink.tail(kept);
    let mut o: Vec<(String, Json)> = json::no_members();
    json::append(&mut o, "lines", json::array_of_texts(&lines));
    json::object(o)
}

/// How much of a file is read at most, in bytes.
pub const MAX_READ_BYTES: u64 = 262_144;

/// What is told of a file: `bytes` is its length or why that is not known,
/// `content` what was read of it or why nothing was.
pub open spec fn file_answer(
    path: Seq<char>,
    bytes: Result<u64, Seq<char>>,
    content: Result<Seq<char>, Seq<char>>,
) -> Result<JsonView, Seq<char>> {
    match (bytes, content) {
        (Err(e), _) => Err("cannot stat "@ + path + ": "@ + e),
        (Ok(_), Err(e)) => Err("cannot read "@ + path + ": "@ + e),
        (Ok(n), Ok(t)) => Ok(
            JsonView::Object(
                seq![
                    ("path"@, JsonView::Text(path)),
                    ("bytes"@, json::natural_value(n as nat)),
                    ("truncated"@, JsonView::Bool(n > MAX_READ_BYTES)),
                    ("content"@, JsonView::Text(t)),
                ],
            ),
        ),
    }
}

pub open spec fn number_outcome(r: Result<u64, String>) -> Result<u64, Seq<char>> {
    match r {
        Ok(n) => Ok(n),
        Err(e) => Err(e@),
    }
}

/// What is told of a file.
pub fn read_file(path: &str, bytes: Result<u64, String>, content: Result<String, String>) -> (r:
    Result<Json, String>)
    ensures
        json_outcome(r) == file_answer(
            path@,
            number_outcome(bytes),
            pipeline::outcome(content),
        ),
{
    let ghost expected = file_answer(path@, number_outcome(bytes), pipeline::outcome(content));
    let n: u64 = match bytes {
        Ok(n) => n,
        Err(e) => {
            let head: String = text::cat3("cannot stat ", path, ": ");
            return Err(text::cat(head.as_str(), e.as_str()));
        },
    };
    let content: String = match content {
        Ok(t) => t,
        Err(e) => {
            let head: String = text::cat3("cannot read ", path, ": ");
            return Err(text::cat(head.as_str(), e.as_str()));
        },
    };
    let mut o: Vec<(String, Json)> = json::no_members();
    json::append(&mut o, "path", json::text_value(path));
    json::append(&mut o, "bytes", json::number_value(n));
    json::append(&mut o, "truncated", Json::Bool(n > MAX_READ_BYTES));
    json::append(&mut o, "content", Json::Text(content));
    assert(json::members(o@) =~= expected->Ok_0->Object_0);
    Ok(json::object(o))
}

// ---------------------------------------------------------------------------
// Files
// ---------------------------------------------------------------------------

/// A match: its score and the path that is shown.
#[verifier::ext_equal]
pub struct HitView {
    pub score: int,
    pub display: Seq<char>,
}

/// A match by what it is ranked by.
pub struct Hit {
    pub score: i64,
    pub display: Vec<char>,
}

impl View for Hit {
    type V = HitView;

    open spec fn view(&self) -> HitView {
        HitView { score: self.score as int, display: self.display@ }
    }
}

/// A match comes no later than another: a higher score, then the order of the
/// paths.
pub open spec fn hit_le() -> spec_fn(HitView, HitView) -> bool {
    |a: HitView, b: HitView|
        a.score > b.score || (a.score == b.score && !text::text_less(b.display, a.display))
}

impl Ranked for Hit {
    open spec fn ranks_le(self, other: Self) -> bool {
        hit_le()(self@, other@)
    }

    proof fn ranks_total(a: Self, b: Self) {
        hits_are_ordered();
        let le = hit_le();
        assert(le(a@, b@) || le(b@, a@));
    }

    proof fn ranks_transitive(a: Self, b: Self, c: Self) {
        hits_are_ordered();
        let le = hit_le();
        assert(le(a@, b@) && le(b@, c@));
    }

    fn no_higher(&self, other: &Self) -> (r: bool) {
        self.score > other.score || (self.score == other.score && !text::before(
            other.display.as_slice(),
            self.display.as_slice(),
        ))
    }
}

proof fn hits_are_ordered()
    ensures
        sort::is_total(hit_le()),
        sort::is_transitive(hit_le()),
{
    let le = hit_le();
    let by_text = sort::text_le();
    sort::text_le_is_an_order();
    assert forall|a: HitView, b: HitView| #[trigger] le(a, b) || le(b, a) by {
        assert(by_text(a.display, b.display) || by_text(b.display, a.display));
    }
    assert forall|a: HitView, b: HitView, c: HitView| #[trigger]
        le(a, b) && #[trigger] le(b, c) implies le(a, c) by {
        if a.score == c.score {
            assert(by_text(a.display, b.display) && by_text(b.display, c.display));
        }
    }
}

/// The matches of a query, in the order of the index.
pub open spec fn hits_before(query: Seq<char>, items: Seq<ItemView>, n: int) -> Seq<HitView>
    decreases n,
{
    if n <= 0 || n > items.len() {
        Seq::empty()
    } else {
        let earlier = hits_before(query, items, n - 1);
        match finder::score_of(query, items[n - 1].display) {
            Some((score, _)) => earlier.push(HitView { score, display: items[n - 1].display }),
            None => earlier,
        }
    }
}

/// The matches of a query, best first.
pub open spec fn hits(query: Seq<char>, items: Seq<ItemView>) -> Seq<HitView> {
    sort::sorted(hits_before(query, items, items.len() as int), hit_le())
}

/// The best of them: so many.
pub open spec fn best_hits(query: Seq<char>, items: Seq<ItemView>, limit: nat) -> Seq<HitView> {
    let all = hits(query, items);
    if limit < all.len() {
        all.take(limit as int)
    } else {
        all
    }
}

/// How a match is told.
pub open spec fn hit_entry(hit: HitView) -> JsonView {
    JsonView::Object(
        seq![
            ("path"@, JsonView::Text(hit.display)),
            ("score"@, JsonView::Number(text::signed(hit.score))),
        ],
    )
}

/// What a search for files is answered.
pub open spec fn find_answer(query: Seq<char>, items: Seq<ItemView>, limit: nat) -> JsonView {
    let best = best_hits(query, items, limit);
    JsonView::Object(
        seq![
            ("count"@, json::natural_value(best.len())),
            ("matches"@, JsonView::Array(best.map_values(|h: HitView| hit_entry(h)))),
        ],
    )
}

pub open spec fn hit_views(v: Seq<Hit>) -> Seq<HitView> {
    v.map_values(|h: Hit| h@)
}

fn find_hits(query: &str, items: &Vec<Item>) -> (r: Vec<Hit>)
    requires
        query@.len() <= finder::MAX_QUERY,
    ensures
        hit_views(r@) == hits_before(
            query@,
            finder::items_view(items@),
            items@.len() as int,
        ),
{
    let ghost all = finder::items_view(items@);
    let mut out: Vec<Hit> = Vec::new();
    let mut i: usize = 0;
    assert(hit_views(out@) =~= Seq::<HitView>::empty());
    while i < items.len()
        invariant
            i <= items.len(),
            all == finder::items_view(items@),
            query@.len() <= finder::MAX_QUERY,
            hit_views(out@) == hits_before(query@, all, i as int),
        decreases items.len() - i,
    {
        assert(all[i as int].display == items@[i as int].display@);
        match finder::score(query, items[i].display.as_str()) {
            Some((score, _)) => {
                let ghost before = hit_views(out@);
                let hit = Hit { score, display: text::chars_of(items[i].display.as_str()) };
                let ghost new = hit@;
                out.push(hit);
                assert(hit_views(out@) =~= before.push(new));
            },
            None => {},
        }
        i = i + 1;
    }
    out
}

fn hit_json(hit: &Hit) -> (r: Json)
    ensures
        r@ == hit_entry(hit@),
{
    let display: String = text::text_of(hit.display.as_slice());
    let mut o: Vec<(String, Json)> = json::no_members();
    json::append(&mut o, "path", Json::Text(display));
    json::append(&mut o, "score", Json::Number(text::integer_text(hit.score as i128)));
    assert(json::members(o@) =~= hit_entry(hit@)->Object_0);
    json::object(o)
}

/// What a search for files is answered: the best matches of the index, so many.
pub fn find_files(items: &Vec<Item>, query: &str, limit: u64) -> (r: Json)
    requires
        query@.len() <= finder::MAX_QUERY,
    ensures
        r@ == find_answer(query@, finder::items_view(items@), limit as nat),
{
    let ghost all = finder::items_view(items@);
    let found: Vec<Hit> = find_hits(query, items);
    let p: Vec<usize> = sort::order(&found);
    let ghost s = hit_views(found@);
    let ghost pos = sort::positions(p@);
    let ghost le = hit_le();
    proof {
        assert forall|i: int, j: int| 0 <= i < j < pos.len() implies sort::comes_before(
            s,
            le,
            #[trigger] pos[i],
            #[trigger] pos[j],
        ) by {
            let a = pos[i];
            let b = pos[j];
            assert(sort::comes_before(found@, sort::key_le(), a, b));
            assert(s[a] == found@[a]@ && s[b] == found@[b]@);
            assert(le(s[a], s[b]) == found@[a].ranks_le(found@[b]));
            assert(le(s[b], s[a]) == found@[b].ranks_le(found@[a]));
        }
        assert(sort::is_order(s, le, pos));
        sort::order_sorts(s, le, pos);
        assert(sort::picked(s, pos) == hits(query@, all));
    }
    let mut matches: Vec<Json> = Vec::new();
    let mut k: usize = 0;
    while k < p.len() && (k as u64) < limit
        invariant
            k <= p.len(),
            k <= limit,
            matches@.len() == k,
            s == hit_views(found@),
            pos == sort::positions(p@),
            sort::is_order(s, le, pos),
            forall|m: int| 0 <= m < k ==> #[trigger] matches@[m]@ == hit_entry(s[p@[m] as int]),
        decreases p.len() - k,
    {
        assert(pos[k as int] == p@[k as int]);
        matches.push(hit_json(&found[p[k]]));
        k = k + 1;
    }
    let ghost best = best_hits(query@, all, limit as nat);
    proof {
        assert forall|m: int| 0 <= m < k implies best[m] == s[p@[m] as int] by {
            assert(sort::picked(s, pos)[m] == s[pos[m]]);
        }
        assert(json::items(matches@) =~= best.map_values(|h: HitView| hit_entry(h)));
    }
    let mut o: Vec<(String, Json)> = json::no_members();
    json::append(&mut o, "count", json::number_value(matches.len() as u64));
    json::append(&mut o, "matches", json::array(matches));
    assert(json::members(o@) =~= find_answer(query@, all, limit as nat)->Object_0);
    json::object(o)
}

// ---------------------------------------------------------------------------
// Laws
// ---------------------------------------------------------------------------

/// A call is refused with an error of the protocol exactly when it names no
/// tool; whatever else is wrong with it is told in the tool's result.
pub proof fn only_unknown_tools_are_protocol_errors(params: JsonView)
    ensures
        called(params) matches StepView::Done(Err((code, _))) ==> code
            == crate::mcp::INVALID_PARAMS,
        (called(params) matches StepView::Done(Err(_))) <==> !exists|tool: Tool|
            json::as_text(json::field(params, "name"@)) == Some(#[trigger] tool.title()),
{
    match json::as_text(json::field(params, "name"@)) {
        Some(name) => {
            match registry::tool_named(name) {
                Some(tool) => {
                    registry::listed_tools_can_be_called(name, tool);
                    assert(tool.title() == name);
                },
                None => {
                    assert forall|tool: Tool| #[trigger] tool.title() != name by {
                        registry::listed_tools_can_be_called(name, tool);
                    }
                },
            }
        },
        None => {},
    }
}

/// The result of a tool tells whether it failed.
pub proof fn failures_are_flagged(outcome: Result<JsonView, Seq<char>>)
    ensures
        json::field(envelope(outcome), "isError"@) == Some(JsonView::Bool(outcome is Err)),
{
    reveal_strlit("content");
    reveal_strlit("isError");
    let o = envelope(outcome)->Object_0;
    assert(o[0].0[0] != o[1].0[0]);
    json::member_from_found(o, "isError"@, 0, 1);
}

/// No path outside the project root is ever handed on.
pub proof fn paths_are_confined_to_the_root(
    root: Seq<char>,
    raw: Seq<char>,
    canonical: Result<Seq<char>, Seq<char>>,
)
    ensures
        resolved(root, raw, canonical) matches Ok(p) ==> path::relative_to(p, root) is Some
            && canonical == Ok::<Seq<char>, Seq<char>>(p),
        canonical matches Ok(p) ==> path::relative_to(p, root) is None ==> resolved(
            root,
            raw,
            canonical,
        ) is Err,
{
}

/// A page and what follows it are what follows the offset, so that the pages
/// from the start, each from where the last one says that the next begins, hold
/// every component once, in order.
pub proof fn pages_follow_each_other(all: Seq<JsonView>, limit: nat, offset: nat)
    requires
        limit > 0,
        offset <= all.len(),
    ensures
        page_of(all, limit, offset).len() <= limit,
        match next_offset(all, limit, offset) {
            Some(next) => offset < next < all.len() && page_of(all, limit, offset) + all.skip(
                next as int,
            ) == all.skip(offset as int),
            None => page_of(all, limit, offset) == all.skip(offset as int),
        },
{
    match next_offset(all, limit, offset) {
        Some(next) => {
            assert(page_of(all, limit, offset) + all.skip(next as int) =~= all.skip(
                offset as int,
            ));
        },
        None => {
            assert(page_of(all, limit, offset) =~= all.skip(offset as int));
        },
    }
}

/// Without a limit everything from the offset on is on the page, and no page
/// follows it.
pub proof fn no_limit_shows_the_rest(all: Seq<JsonView>, offset: nat)
    requires
        offset <= all.len(),
    ensures
        page_of(all, 0, offset) == all.skip(offset as int),
        next_offset(all, 0, offset) is None,
{
    assert(page_of(all, 0, offset) =~= all.skip(offset as int));
}

/// What is listed are the highlighted files that pass the filter, and all of
/// them.
pub proof fn listed_iff_highlighted_and_filtered(
    items: Seq<ItemView>,
    seen: Seq<Seen>,
    filter: Option<Seq<char>>,
    n: int,
    i: int,
)
    requires
        0 <= i < n <= items.len(),
    ensures
        is_candidate(items[i].display, filter) && seen_kind(items[i], seen[i]).is_highlighted()
            ==> components_before(items, seen, filter, n).contains(
            component_entry(items[i].display, seen_kind(items[i], seen[i])),
        ),
        forall|k: int|
            0 <= k < components_before(items, seen, filter, n).len() ==> exists|j: int|
                #![trigger items[j]]
                0 <= j < n && is_candidate(items[j].display, filter) && seen_kind(
                    items[j],
                    seen[j],
                ).is_highlighted() && #[trigger] components_before(items, seen, filter, n)[k]
                    == component_entry(items[j].display, seen_kind(items[j], seen[j])),
    decreases n,
{
    every_listed_file_was_indexed(items, seen, filter, n);
    let earlier = components_before(items, seen, filter, n - 1);
    let now = components_before(items, seen, filter, n);
    let entry = component_entry(items[i].display, seen_kind(items[i], seen[i]));
    if is_candidate(items[i].display, filter) && seen_kind(items[i], seen[i]).is_highlighted() {
        if i == n - 1 {
            assert(now[now.len() - 1] == entry);
        } else {
            listed_iff_highlighted_and_filtered(items, seen, filter, n - 1, i);
            let k = choose|k: int| 0 <= k < earlier.len() && earlier[k] == entry;
            assert(now[k] == entry);
        }
    }
}

proof fn every_listed_file_was_indexed(
    items: Seq<ItemView>,
    seen: Seq<Seen>,
    filter: Option<Seq<char>>,
    n: int,
)
    requires
        0 <= n <= items.len(),
    ensures
        forall|k: int|
            0 <= k < components_before(items, seen, filter, n).len() ==> exists|j: int|
                #![trigger items[j]]
                0 <= j < n && is_candidate(items[j].display, filter) && seen_kind(
                    items[j],
                    seen[j],
                ).is_highlighted() && #[trigger] components_before(items, seen, filter, n)[k]
                    == component_entry(items[j].display, seen_kind(items[j], seen[j])),
    decreases n,
{
    if n > 0 {
        every_listed_file_was_indexed(items, seen, filter, n - 1);
        let earlier = components_before(items, seen, filter, n - 1);
        let now = components_before(items, seen, filter, n);
        assert forall|k: int| 0 <= k < now.len() implies exists|j: int|
            #![trigger items[j]]
            0 <= j < n && is_candidate(items[j].display, filter) && seen_kind(
                items[j],
                seen[j],
            ).is_highlighted() && #[trigger] now[k] == component_entry(
                items[j].display,
                seen_kind(items[j], seen[j]),
            ) by {
            if k < earlier.len() {
                assert(now[k] == earlier[k]);
                let j = choose|j: int|
                    #![trigger items[j]]
                    0 <= j < n - 1 && is_candidate(items[j].display, filter) && seen_kind(
                        items[j],
                        seen[j],
                    ).is_highlighted() && earlier[k] == component_entry(
                        items[j].display,
                        seen_kind(items[j], seen[j]),
                    );
                assert(0 <= j < n && items[j] == items[j]);
            } else {
                assert(items[n - 1] == items[n - 1]);
            }
        }
    }
}

/// The matches come with descending scores, equal scores in the order of their
/// paths.
pub proof fn best_matches_come_first(query: Seq<char>, items: Seq<ItemView>, limit: nat)
    ensures
        best_hits(query, items, limit).len() <= limit,
        forall|i: int, j: int|
            0 <= i < j < best_hits(query, items, limit).len() ==> {
                let a = #[trigger] best_hits(query, items, limit)[i];
                let b = #[trigger] best_hits(query, items, limit)[j];
                a.score > b.score || (a.score == b.score && !text::text_less(b.display, a.display))
            },
{
    hits_are_ordered();
    sort::sorted_ascends(hits_before(query, items, items.len() as int), hit_le());
    let all = hits(query, items);
    let best = best_hits(query, items, limit);
    let le = hit_le();
    assert forall|i: int, j: int| 0 <= i < j < best.len() implies le(
        #[trigger] best[i],
        #[trigger] best[j],
    ) by {
        assert(best[i] == all[i] && best[j] == all[j]);
    }
}

/// Whether a match has the score of its path.
pub open spec fn is_scored(query: Seq<char>, hit: HitView) -> bool {
    finder::score_of(query, hit.display) matches Some((s, _)) && s == hit.score
}

/// A file is among the matches exactly when the query is scored on its path.
pub proof fn found_iff_scored(query: Seq<char>, items: Seq<ItemView>, hit: HitView)
    ensures
        hits(query, items).contains(hit) <==> exists|i: int|
            0 <= i < items.len() && hit.display == (#[trigger] items[i]).display
                && is_scored(query, hit),
{
    let n = items.len() as int;
    let before = hits_before(query, items, n);
    sort::sorted_is_permutation(before, hit_le());
    hits_are_scored(query, items, n, hit);
    before.to_multiset_ensures();
    hits(query, items).to_multiset_ensures();
    assert(before.contains(hit) <==> before.to_multiset().count(hit) > 0);
    assert(hits(query, items).contains(hit) <==> hits(query, items).to_multiset().count(hit) > 0);
}

proof fn hits_are_scored(query: Seq<char>, items: Seq<ItemView>, n: int, hit: HitView)
    requires
        0 <= n <= items.len(),
    ensures
        hits_before(query, items, n).contains(hit) <==> exists|i: int|
            0 <= i < n && hit.display == (#[trigger] items[i]).display && is_scored(query, hit),
    decreases n,
{
    if n > 0 {
        hits_are_scored(query, items, n - 1, hit);
        let earlier = hits_before(query, items, n - 1);
        let now = hits_before(query, items, n);
        if earlier.contains(hit) {
            let k = choose|k: int| 0 <= k < earlier.len() && earlier[k] == hit;
            assert(now[k] == hit);
        }
        if now.contains(hit) && !earlier.contains(hit) {
            let k = choose|k: int| 0 <= k < now.len() && now[k] == hit;
            if k < earlier.len() {
                assert(earlier[k] == hit);
            }
            assert(hit.display == items[n - 1].display);
        }
        if is_scored(query, hit) && hit.display == items[n - 1].display {
            assert(now[now.len() - 1] == hit);
        }
    }
}

/// What is told of a component is what its validation found, under the names that
/// agents read; an invalid component is told by its error.
pub proof fn inspections_tell_what_was_found(path: Seq<char>, info: InfoView)
    ensures
        inspection(path, Ok(info)) matches Ok(a) && json::field(a, "path"@) == Some(
            JsonView::Text(path),
        ) && json::field(a, "class_name"@) == Some(JsonView::Text(info.class_name)) && json::field(
            a,
            "strategy"@,
        ) == Some(JsonView::Text(info.strategy.name())) && json::field(a, "module"@) == Some(
            json::text_or_null(info.module_class_name),
        ) && json::field(a, "required_inputs"@) == Some(json::text_array(info.required_inputs))
            && json::field(a, "input_values"@) == Some(JsonView::Object(info.input_values)),
{
    reveal_strlit("path");
    reveal_strlit("class_name");
    reveal_strlit("strategy");
    reveal_strlit("module");
    reveal_strlit("required_inputs");
    reveal_strlit("input_values");
    let o = inspection(path, Ok(info))->Ok_0->Object_0;
    assert(o[0].0.len() == 4 && o[1].0.len() == 10 && o[2].0.len() == 8 && o[3].0.len() == 6);
    assert(o[4].0.len() == 15 && o[5].0.len() == 12);
    assert(json::keys_differ(o));
    json::members_are_read(o, 0);
    json::members_are_read(o, 1);
    json::members_are_read(o, 2);
    json::members_are_read(o, 3);
    json::members_are_read(o, 4);
    json::members_are_read(o, 5);
}

/// A file that is read is told with its path, its length and its content, and with
/// whether the content was cut.
pub proof fn files_are_told(path: Seq<char>, bytes: u64, content: Seq<char>)
    ensures
        file_answer(path, Ok(bytes), Ok(content)) matches Ok(a) && json::field(a, "path"@) == Some(
            JsonView::Text(path),
        ) && json::field(a, "bytes"@) == Some(json::natural_value(bytes as nat)) && json::field(
            a,
            "content"@,
        ) == Some(JsonView::Text(content)) && json::field(a, "truncated"@) == Some(
            JsonView::Bool(bytes > 262_144),
        ),
{
    reveal_strlit("path");
    reveal_strlit("bytes");
    reveal_strlit("truncated");
    reveal_strlit("content");
    let o = file_answer(path, Ok(bytes), Ok(content))->Ok_0->Object_0;
    assert(o[0].0.len() == 4 && o[1].0.len() == 5 && o[2].0.len() == 9 && o[3].0.len() == 7);
    assert(json::keys_differ(o));
    json::members_are_read(o, 0);
    json::members_are_read(o, 1);
    json::members_are_read(o, 2);
    json::members_are_read(o, 3);
}

/// A page of components tells how many there are in all, where it begins, how many
/// it holds, and them; where another page follows, it tells where that begins.
pub proof fn pages_tell_their_place(all: Seq<JsonView>, limit: nat, offset: nat)
    ensures
        json::field(components_page(all, limit, offset), "count"@) == Some(
            json::natural_value(all.len()),
        ),
        json::field(components_page(all, limit, offset), "offset"@) == Some(
            json::natural_value(offset),
        ),
        json::field(components_page(all, limit, offset), "returned"@) == Some(
            json::natural_value(page_of(all, limit, offset).len()),
        ),
        json::field(components_page(all, limit, offset), "components"@) == Some(
            JsonView::Array(page_of(all, limit, offset)),
        ),
        next_offset(all, limit, offset) matches Some(next) ==> json::field(
            components_page(all, limit, offset),
            "nextOffset"@,
        ) == Some(json::natural_value(next)),
        next_offset(all, limit, offset) is None ==> json::field(
            components_page(all, limit, offset),
            "nextOffset"@,
        ) is None,
{
    reveal_strlit("count");
    reveal_strlit("offset");
    reveal_strlit("returned");
    reveal_strlit("components");
    reveal_strlit("nextOffset");
    reveal_strlit("detail");
    let o = components_page(all, limit, offset)->Object_0;
    assert(o[0].0.len() == 5 && o[1].0.len() == 6 && o[2].0.len() == 8 && o[3].0.len() == 10);
    assert("offset"@[0] == 'o' && "detail"@[0] == 'd');
    assert("components"@[0] == 'c' && "nextOffset"@[0] == 'n');
    assert("nextOffset"@.len() == 10 && "detail"@.len() == 6);
    assert(json::keys_differ(o));
    json::members_are_read(o, 0);
    json::members_are_read(o, 1);
    json::members_are_read(o, 2);
    json::members_are_read(o, 3);
    if next_offset(all, limit, offset) is Some {
        json::members_are_read(o, 4);
    } else {
        json::member_from_is_least(o, "nextOffset"@, 0);
    }
}

/// As many matches are told as were asked for and there are, and none that is left
/// out ranks before one that is told.
pub proof fn the_best_matches_are_told(query: Seq<char>, items: Seq<ItemView>, limit: nat, i: int, j: int)
    requires
        0 <= i < best_hits(query, items, limit).len() <= j < hits(query, items).len(),
    ensures
        best_hits(query, items, limit).len() == limit,
        best_hits(query, items, limit)[i] == hits(query, items)[i],
        hits(query, items)[i].score >= hits(query, items)[j].score,
{
    hits_are_ordered();
    sort::sorted_ascends(hits_before(query, items, items.len() as int), hit_le());
    let le = hit_le();
    assert(le(hits(query, items)[i], hits(query, items)[j]));
}

/// A path that leads below the project root is handed on as it is.
pub proof fn paths_below_the_root_are_handed_on(root: Seq<char>, rel: Seq<char>, raw: Seq<char>)
    requires
        path::is_plain(rel),
    ensures
        resolved(root, raw, Ok(path::join_of(root, rel))) == Ok::<Seq<char>, Seq<char>>(
            path::join_of(root, rel),
        ),
{
    path::joined_path_is_taken_apart(root, rel);
}

/// What a call needs is taken from its arguments; a needed one that is missing is
/// named in the error.
pub proof fn arguments_are_read(args: JsonView, value: Seq<char>)
    ensures
        json::field(args, "path"@) == Some(JsonView::Text(value)) ==> call_with(
            Tool::InspectComponent,
            args,
        ) == Ok::<CallView, Seq<char>>(CallView::Inspect(value)) && call_with(
            Tool::SelectComponent,
            args,
        ) == Ok::<CallView, Seq<char>>(CallView::Select(value)) && call_with(Tool::ReadFile, args)
            == Ok::<CallView, Seq<char>>(CallView::ReadFile(value)),
        json::field(args, "path"@) is None ==> call_with(Tool::InspectComponent, args) == Err::<
            CallView,
            Seq<char>,
        >("missing required argument: "@ + "path"@) && call_with(Tool::SelectComponent, args) is Err
            && call_with(Tool::ReadFile, args) is Err,
        json::field(args, "query"@) == Some(JsonView::Text(value)) ==> (call_with(
            Tool::FindFiles,
            args,
        ) matches Ok(CallView::FindFiles(q, n)) && q == value && (json::as_natural(
            json::field(args, "limit"@),
        ) matches Some(l) ==> n == l)),
        json::field(args, "query"@) is None ==> call_with(Tool::FindFiles, args) is Err,
{
}

/// What a tool says it needs is what it needs: a call without arguments is refused
/// exactly where the tool lists a required one.
pub proof fn required_arguments_are_needed(tool: Tool)
    ensures
        call_with(tool, JsonView::Object(Seq::empty())) is Err <==> exists|k: int|
            0 <= k < tool.takes().len() && (#[trigger] tool.takes()[k]).required,
{
    let none = Seq::<(Seq<char>, JsonView)>::empty();
    json::member_from_is_least(none, "path"@, 0);
    json::member_from_is_least(none, "query"@, 0);
    let t = tool.takes();
    match tool {
        Tool::InspectComponent => {
            assert(t[0].required);
        },
        Tool::SelectComponent => {
            assert(t[0].required);
        },
        Tool::FindFiles => {
            assert(t[0].required);
        },
        Tool::ReadFile => {
            assert(t[0].required);
        },
        _ => {},
    }
}

/// The files that are looked at for components are the TypeScript files, and with a
/// filter those of them whose path holds it.
pub proof fn candidates_are_typescript_files(before: Seq<char>, f: Seq<char>, after: Seq<char>, display: Seq<char>)
    ensures
        is_candidate(before + ".ts"@, None),
        is_candidate(before + ".tsx"@, None),
        is_candidate(before + f + after + ".ts"@, Some(f)),
        is_candidate(before + f + after + ".tsx"@, Some(f)),
        is_candidate(display, Some(f)) ==> is_candidate(display, None) && exists|k: int|
            0 <= k <= display.len() - f.len() && #[trigger] display.skip(k).take(f.len() as int) == f,
        is_candidate(display, None) ==> display.len() >= 3 && (display.skip(display.len() - 3)
            == ".ts"@ || (display.len() >= 4 && display.skip(display.len() - 4) == ".tsx"@)),
{
    reveal_strlit(".ts");
    reveal_strlit(".tsx");
    ending_is_found(before, ".ts"@);
    ending_is_found(before, ".tsx"@);
    ending_is_found(before + f + after, ".ts"@);
    ending_is_found(before + f + after, ".tsx"@);
    middle_is_found(before, f, after + ".ts"@);
    middle_is_found(before, f, after + ".tsx"@);
    assert(before + f + (after + ".ts"@) =~= before + f + after + ".ts"@);
    assert(before + f + (after + ".tsx"@) =~= before + f + after + ".tsx"@);
    if is_candidate(display, Some(f)) {
        let k = choose|k: int| text::occurs_at(display, f, k);
        assert(display.skip(k).take(f.len() as int) =~= display.subrange(k, k + f.len()));
    }
    if text::ends(display, ".ts"@) {
        assert(display.skip(display.len() - 3) =~= display.subrange(
            display.len() - 3,
            display.len() as int,
        ));
    }
    if text::ends(display, ".tsx"@) {
        assert(display.skip(display.len() - 4) =~= display.subrange(
            display.len() - 4,
            display.len() as int,
        ));
    }
}

proof fn ending_is_found(before: Seq<char>, end: Seq<char>)
    ensures
        text::ends(before + end, end),
{
    let s = before + end;
    assert(s.subrange(s.len() - end.len(), s.len() as int) =~= end);
}

proof fn middle_is_found(before: Seq<char>, f: Seq<char>, after: Seq<char>)
    ensures
        text::has(before + f + after, f),
{
    let s = before + f + after;
    let i = before.len() as int;
    assert(s.subrange(i, i + f.len()) =~= f);
    assert(text::occurs_at(s, f, i));
}

/// A page of components is as long as was asked for, up to ten thousand, and begins
/// where it was asked to; a hundred are shown from the first on where nothing was
/// said. So it is with the end of the log, of which a hundred lines are shown, and
/// with the search, which shows twenty files.
pub proof fn lengths_are_as_asked(args: JsonView, n: nat)
    ensures
        call_with(Tool::ListComponents, args) matches Ok(CallView::ListComponents(filter, limit, offset))
            && (json::as_natural(json::field(args, "limit"@)) == Some(n) ==> limit == (if n < 10_000 {
            n
        } else {
            10_000
        })) && (json::field(args, "limit"@) is None ==> limit == 100) && (json::as_natural(
            json::field(args, "offset"@),
        ) == Some(n) ==> offset == n) && (json::field(args, "offset"@) is None ==> offset == 0)
            && filter == json::as_text(json::field(args, "filter"@)),
        call_with(Tool::GetLogs, args) matches Ok(CallView::Logs(tail)) && (json::as_natural(
            json::field(args, "tail"@),
        ) == Some(n) ==> tail == n) && (json::field(args, "tail"@) is None ==> tail == 100),
        call_with(Tool::FindFiles, args) matches Ok(CallView::FindFiles(q, limit)) ==> (json::field(
            args,
            "limit"@,
        ) is None ==> limit == 20),
{
}

/// The end of the log is shown: as many of its last lines as were asked for.
pub proof fn the_last_lines_are_shown(older: Seq<Seq<char>>, last: Seq<Seq<char>>, n: nat)
    ensures
        last_lines(older + last, last.len()) == last,
        n >= last.len() ==> last_lines(last, n) == last,
{
    assert(last_lines(older + last, last.len()) =~= last);
}

/// What a search finds is told by paths and scores, in its order, with how many
/// there are.
pub proof fn found_files_are_told(query: Seq<char>, items: Seq<ItemView>, limit: nat, i: int)
    requires
        0 <= i < best_hits(query, items, limit).len(),
    ensures
        json::field(find_answer(query, items, limit), "count"@) == Some(
            json::natural_value(best_hits(query, items, limit).len()),
        ),
        json::field(find_answer(query, items, limit), "matches"@) matches Some(JsonView::Array(told))
            && told.len() == best_hits(query, items, limit).len() && json::field(told[i], "path"@)
            == Some(JsonView::Text(best_hits(query, items, limit)[i].display)) && json::field(
            told[i],
            "score"@,
        ) == Some(JsonView::Number(text::signed(best_hits(query, items, limit)[i].score))),
{
    reveal_strlit("count");
    reveal_strlit("matches");
    reveal_strlit("path");
    reveal_strlit("score");
    let o = find_answer(query, items, limit)->Object_0;
    assert(o[0].0.len() == 5 && o[1].0.len() == 7);
    assert(json::keys_differ(o));
    json::members_are_read(o, 0);
    json::members_are_read(o, 1);
    let h = hit_entry(best_hits(query, items, limit)[i])->Object_0;
    assert(h[0].0.len() == 4 && h[1].0.len() == 5);
    assert(json::keys_differ(h));
    json::members_are_read(h, 0);
    json::members_are_read(h, 1);
}

} // verus!
