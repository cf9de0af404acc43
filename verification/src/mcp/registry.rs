//! The tools: their names, what agents are told of them, and the arguments that
//! they take.

use crate::json;
use crate::json::{Json, JsonView};
use crate::text;
use vstd::prelude::*;

verus! {

#[derive(Debug, Clone, Copy, PartialEq, Eq, Structural)]
pub enum Tool {
    ListComponents,
    InspectComponent,
    SelectComponent,
    GetStatus,
    GetLogs,
    StopServer,
    OpenInBrowser,
    FindFiles,
    ReadFile,
}

pub const LIST_COMPONENTS: &'static str =
    "List renderable UI components under the project root (Angular components; React/Svelte/Vue are classified but not renderable yet). Optionally filter by a path substring. Paginated: returns count/returned/nextOffset.";

pub const INSPECT_COMPONENT: &'static str =
    "Validate a component and return its render metadata: class name, mount strategy (standalone/module), declaring NgModule, required signal inputs and the fictional typed input values used at mount.";

pub const SELECT_COMPONENT: &'static str =
    "Render a component in the browser: starts the dev server on a free port the first time, then hot-swaps subsequent selections without restarting. Cold start can take minutes on big workspaces, so this answers immediately with {\"starting\": true}; poll get_status until running=true to get the URL.";

pub const GET_STATUS: &'static str =
    "Current session state: whether the dev server is running or still starting, its URL and ports, which component is being served, and the last start error if any.";

pub const GET_LOGS: &'static str =
    "Tail the shared log stream: npm installs, ng serve output, build settlements and errors.";

pub const STOP_SERVER: &'static str =
    "Stop the dev server started by this session (graceful).";

pub const OPEN_IN_BROWSER: &'static str =
    "Open the running preview URL in the user's default browser.";

pub const FIND_FILES: &'static str =
    "Fuzzy-find files under the project root (fzf-like smart-case subsequence scoring, basename matches rank higher).";

pub const READ_FILE: &'static str =
    "Read a text file inside the project root (paths outside the root are rejected). Truncated at 256 KiB.";

pub const COMPONENT_PATH: &'static str =
    "Component file path (absolute, or relative to the project root).";

pub const FILE_PATH: &'static str = "File path (absolute, or relative to the project root).";

/// An argument of a tool: its name, its type, what agents are told of it, and
/// whether it has to be given.
pub struct Argument {
    pub name: &'static str,
    pub kind: &'static str,
    pub about: &'static str,
    pub required: bool,
}

#[verifier::ext_equal]
pub struct ArgumentView {
    pub name: Seq<char>,
    pub kind: Seq<char>,
    pub about: Seq<char>,
    pub required: bool,
}

impl View for Argument {
    type V = ArgumentView;

    open spec fn view(&self) -> ArgumentView {
        ArgumentView {
            name: self.name@,
            kind: self.kind@,
            about: self.about@,
            required: self.required,
        }
    }
}

pub open spec fn argument_views(v: Seq<Argument>) -> Seq<ArgumentView> {
    v.map_values(|a: Argument| a@)
}

pub open spec fn text_argument(name: Seq<char>, about: Seq<char>, required: bool) -> ArgumentView {
    ArgumentView { name, kind: "string"@, about, required }
}

pub open spec fn number_argument(name: Seq<char>, about: Seq<char>) -> ArgumentView {
    ArgumentView { name, kind: "integer"@, about, required: false }
}

impl Tool {
    pub open spec fn title(self) -> Seq<char> {
        match self {
            Tool::ListComponents => "list_components"@,
            Tool::InspectComponent => "inspect_component"@,
            Tool::SelectComponent => "select_component"@,
            Tool::GetStatus => "get_status"@,
            Tool::GetLogs => "get_logs"@,
            Tool::StopServer => "stop_server"@,
            Tool::OpenInBrowser => "open_in_browser"@,
            Tool::FindFiles => "find_files"@,
            Tool::ReadFile => "read_file"@,
        }
    }

    pub open spec fn about(self) -> Seq<char> {
        match self {
            Tool::ListComponents => LIST_COMPONENTS@,
            Tool::InspectComponent => INSPECT_COMPONENT@,
            Tool::SelectComponent => SELECT_COMPONENT@,
            Tool::GetStatus => GET_STATUS@,
            Tool::GetLogs => GET_LOGS@,
            Tool::StopServer => STOP_SERVER@,
            Tool::OpenInBrowser => OPEN_IN_BROWSER@,
            Tool::FindFiles => FIND_FILES@,
            Tool::ReadFile => READ_FILE@,
        }
    }

    pub open spec fn takes(self) -> Seq<ArgumentView> {
        match self {
            Tool::ListComponents => seq![
                text_argument("filter"@, "Optional path substring filter."@, false),
                number_argument("limit"@, "Max components per page (default 100)."@),
                number_argument("offset"@, "Skip the first N matches (default 0)."@),
            ],
            Tool::InspectComponent => seq![text_argument("path"@, COMPONENT_PATH@, true)],
            Tool::SelectComponent => seq![text_argument("path"@, COMPONENT_PATH@, true)],
            Tool::GetLogs => seq![
                number_argument("tail"@, "Number of recent lines (default 100)."@),
            ],
            Tool::FindFiles => seq![
                text_argument("query"@, "Fuzzy query, e.g. 'pdfview'."@, true),
                number_argument("limit"@, "Max matches to return (default 20)."@),
            ],
            Tool::ReadFile => seq![text_argument("path"@, FILE_PATH@, true)],
            _ => Seq::empty(),
        }
    }

    /// The name of the tool.
    pub fn name(self) -> (r: &'static str)
        ensures
            r@ == self.title(),
    {
        match self {
            Tool::ListComponents => "list_components",
            Tool::InspectComponent => "inspect_component",
            Tool::SelectComponent => "select_component",
            Tool::GetStatus => "get_status",
            Tool::GetLogs => "get_logs",
            Tool::StopServer => "stop_server",
            Tool::OpenInBrowser => "open_in_browser",
            Tool::FindFiles => "find_files",
            Tool::ReadFile => "read_file",
        }
    }

    /// What agents are told of the tool.
    pub fn description(self) -> (r: &'static str)
        ensures
            r@ == self.about(),
    {
        match self {
            Tool::ListComponents => LIST_COMPONENTS,
            Tool::InspectComponent => INSPECT_COMPONENT,
            Tool::SelectComponent => SELECT_COMPONENT,
            Tool::GetStatus => GET_STATUS,
            Tool::GetLogs => GET_LOGS,
            Tool::StopServer => STOP_SERVER,
            Tool::OpenInBrowser => OPEN_IN_BROWSER,
            Tool::FindFiles => FIND_FILES,
            Tool::ReadFile => READ_FILE,
        }
    }

    /// The arguments that the tool takes.
    pub fn arguments(self) -> (r: Vec<Argument>)
        ensures
            argument_views(r@) == self.takes(),
    {
        let mut v: Vec<Argument> = Vec::new();
        match self {
            Tool::ListComponents => {
                v.push(string("filter", "Optional path substring filter.", false));
                v.push(integer("limit", "Max components per page (default 100)."));
                v.push(integer("offset", "Skip the first N matches (default 0)."));
            },
            Tool::InspectComponent | Tool::SelectComponent => {
                v.push(string("path", COMPONENT_PATH, true));
            },
            Tool::GetLogs => {
                v.push(integer("tail", "Number of recent lines (default 100)."));
            },
            Tool::FindFiles => {
                v.push(string("query", "Fuzzy query, e.g. 'pdfview'.", true));
                v.push(integer("limit", "Max matches to return (default 20)."));
            },
            Tool::ReadFile => {
                v.push(string("path", FILE_PATH, true));
            },
            Tool::GetStatus | Tool::StopServer | Tool::OpenInBrowser => {},
        }
        assert(argument_views(v@) =~= self.takes());
        v
    }

    /// The tool of a name.
    pub fn named(name: &str) -> (r: Option<Tool>)
        ensures
            r == tool_named(name@),
    {
        if text::equal(name, "list_components") {
            Some(Tool::ListComponents)
        } else if text::equal(name, "inspect_component") {
            Some(Tool::InspectComponent)
        } else if text::equal(name, "select_component") {
            Some(Tool::SelectComponent)
        } else if text::equal(name, "get_status") {
            Some(Tool::GetStatus)
        } else if text::equal(name, "get_logs") {
            Some(Tool::GetLogs)
        } else if text::equal(name, "stop_server") {
            Some(Tool::StopServer)
        } else if text::equal(name, "open_in_browser") {
            Some(Tool::OpenInBrowser)
        } else if text::equal(name, "find_files") {
            Some(Tool::FindFiles)
        } else if text::equal(name, "read_file") {
            Some(Tool::ReadFile)
        } else {
            None
        }
    }
}

fn string(name: &'static str, about: &'static str, required: bool) -> (r: Argument)
    ensures
        r@ == text_argument(name@, about@, required),
{
    Argument { name, kind: "string", about, required }
}

fn integer(name: &'static str, about: &'static str) -> (r: Argument)
    ensures
        r@ == number_argument(name@, about@),
{
    Argument { name, kind: "integer", about, required: false }
}

/// The tool of a name.
pub open spec fn tool_named(name: Seq<char>) -> Option<Tool> {
    if name == "list_components"@ {
        Some(Tool::ListComponents)
    } else if name == "inspect_component"@ {
        Some(Tool::InspectComponent)
    } else if name == "select_component"@ {
        Some(Tool::SelectComponent)
    } else if name == "get_status"@ {
        Some(Tool::GetStatus)
    } else if name == "get_logs"@ {
        Some(Tool::GetLogs)
    } else if name == "stop_server"@ {
        Some(Tool::StopServer)
    } else if name == "open_in_browser"@ {
        Some(Tool::OpenInBrowser)
    } else if name == "find_files"@ {
        Some(Tool::FindFiles)
    } else if name == "read_file"@ {
        Some(Tool::ReadFile)
    } else {
        None
    }
}

/// Every tool, in the order in which they are listed.
pub open spec fn all_tools() -> Seq<Tool> {
    seq![
        Tool::ListComponents,
        Tool::InspectComponent,
        Tool::SelectComponent,
        Tool::GetStatus,
        Tool::GetLogs,
        Tool::StopServer,
        Tool::OpenInBrowser,
        Tool::FindFiles,
        Tool::ReadFile,
    ]
}

// ---------------------------------------------------------------------------
// Schemas
// ---------------------------------------------------------------------------

/// What the schema of a tool says of an argument.
pub open spec fn property(a: ArgumentView) -> (Seq<char>, JsonView) {
    (
        a.name,
        JsonView::Object(
            seq![
                ("type"@, JsonView::Text(a.kind)),
                ("description"@, JsonView::Text(a.about)),
            ],
        ),
    )
}

/// The names of the arguments that have to be given.
pub open spec fn required_names(v: Seq<ArgumentView>) -> Seq<Seq<char>>
    decreases v.len(),
{
    if v.len() == 0 {
        Seq::empty()
    } else if v.last().required {
        required_names(v.drop_last()).push(v.last().name)
    } else {
        required_names(v.drop_last())
    }
}

/// The schema of a tool that takes these arguments; the required ones are listed
/// where there are any.
pub open spec fn schema(v: Seq<ArgumentView>) -> JsonView {
    let head = seq![("type"@, JsonView::Text("object"@))];
    let required = if required_names(v).len() > 0 {
        seq![("required"@, json::text_array(required_names(v)))]
    } else {
        Seq::empty()
    };
    JsonView::Object(
        (head + required).push(
            ("properties"@, JsonView::Object(v.map_values(|a: ArgumentView| property(a)))),
        ),
    )
}

/// How a tool is listed.
pub open spec fn listing(tool: Tool) -> JsonView {
    JsonView::Object(
        seq![
            ("name"@, JsonView::Text(tool.title())),
            ("description"@, JsonView::Text(tool.about())),
            ("inputSchema"@, schema(tool.takes())),
        ],
    )
}

/// How the tools are listed.
pub open spec fn listings() -> Seq<JsonView> {
    all_tools().map_values(|t: Tool| listing(t))
}

fn property_json(a: &Argument) -> (r: Json)
    ensures
        r@ == property(a@).1,
{
    let mut o: Vec<(String, Json)> = json::no_members();
    json::append(&mut o, "type", json::text_value(a.kind));
    json::append(&mut o, "description", json::text_value(a.about));
    assert(json::members(o@) =~= property(a@).1->Object_0);
    json::object(o)
}

fn input_schema(arguments: &Vec<Argument>) -> (r: Json)
    ensures
        r@ == schema(argument_views(arguments@)),
{
    let ghost all = argument_views(arguments@);
    let mut required: Vec<String> = Vec::new();
    let mut properties: Vec<(String, Json)> = json::no_members();
    let mut i: usize = 0;
    assert(all.take(0) =~= Seq::<ArgumentView>::empty());
    assert(text::texts(required@) =~= Seq::<Seq<char>>::empty());
    let ghost shape = |a: ArgumentView| property(a);
    assert(all.take(0).map_values(shape) =~= Seq::<(Seq<char>, JsonView)>::empty());
    while i < arguments.len()
        invariant
            i <= arguments.len(),
            all == argument_views(arguments@),
            shape == (|a: ArgumentView| property(a)),
            text::texts(required@) == required_names(all.take(i as int)),
            json::members(properties@) == all.take(i as int).map_values(shape),
        decreases arguments.len() - i,
    {
        let a: &Argument = &arguments[i];
        proof {
            assert(all.take(i + 1).drop_last() =~= all.take(i as int));
            assert(all.take(i + 1).last() == a@);
            assert(all.take(i + 1).map_values(shape) =~= all.take(i as int).map_values(shape).push(
                property(a@),
            ));
        }
        json::append(&mut properties, a.name, property_json(a));
        if a.required {
            let ghost before = text::texts(required@);
            required.push(a.name.to_string());
            assert(text::texts(required@) =~= before.push(a.name@));
        }
        i = i + 1;
    }
    assert(all.take(all.len() as int) =~= all);
    assert(text::texts(required@).len() == required@.len());
    let mut o: Vec<(String, Json)> = json::no_members();
    json::append(&mut o, "type", json::text_value("object"));
    if required.len() > 0 {
        json::append(&mut o, "required", json::array_of_texts(&required));
    }
    json::append(&mut o, "properties", json::object(properties));
    assert(json::members(o@) =~= schema(all)->Object_0);
    json::object(o)
}

fn listing_json(tool: Tool) -> (r: Json)
    ensures
        r@ == listing(tool),
{
    let arguments: Vec<Argument> = tool.arguments();
    let mut o: Vec<(String, Json)> = json::no_members();
    json::append(&mut o, "name", json::text_value(tool.name()));
    json::append(&mut o, "description", json::text_value(tool.description()));
    json::append(&mut o, "inputSchema", input_schema(&arguments));
    assert(json::members(o@) =~= listing(tool)->Object_0);
    json::object(o)
}

/// The tools, as they are listed: each with its name, what agents are told of
/// it, and the schema of its arguments.
pub fn registry() -> (r: Vec<Json>)
    ensures
        json::items(r@) == listings(),
{
    let mut v: Vec<Json> = Vec::new();
    v.push(listing_json(Tool::ListComponents));
    v.push(listing_json(Tool::InspectComponent));
    v.push(listing_json(Tool::SelectComponent));
    v.push(listing_json(Tool::GetStatus));
    v.push(listing_json(Tool::GetLogs));
    v.push(listing_json(Tool::StopServer));
    v.push(listing_json(Tool::OpenInBrowser));
    v.push(listing_json(Tool::FindFiles));
    v.push(listing_json(Tool::ReadFile));
    assert(json::items(v@) =~= listings());
    v
}

// ---------------------------------------------------------------------------
// Laws
// ---------------------------------------------------------------------------

proof fn names_differ(a: Tool, b: Tool)
    requires
        a.title() == b.title(),
    ensures
        a == b,
{
    reveal_strlit("list_components");
    reveal_strlit("inspect_component");
    reveal_strlit("select_component");
    reveal_strlit("get_status");
    reveal_strlit("get_logs");
    reveal_strlit("stop_server");
    reveal_strlit("open_in_browser");
    reveal_strlit("find_files");
    reveal_strlit("read_file");
    let (s, t) = (a.title(), b.title());
    assert(s.len() == t.len());
    assert(s[0] == t[0]);
    assert(s[1] == t[1]);
    assert(s[4] == t[4]);
}

/// A name is that of a tool exactly when a tool is listed under it, and it names
/// no other tool.
pub proof fn listed_tools_can_be_called(name: Seq<char>, tool: Tool)
    ensures
        tool_named(name) == Some(tool) <==> tool.title() == name,
        all_tools().contains(tool),
{
    if tool.title() == name {
        let found = tool_named(name);
        assert(found is Some);
        names_differ(found->0, tool);
    }
    let all = all_tools();
    match tool {
        Tool::ListComponents => assert(all[0] == tool),
        Tool::InspectComponent => assert(all[1] == tool),
        Tool::SelectComponent => assert(all[2] == tool),
        Tool::GetStatus => assert(all[3] == tool),
        Tool::GetLogs => assert(all[4] == tool),
        Tool::StopServer => assert(all[5] == tool),
        Tool::OpenInBrowser => assert(all[6] == tool),
        Tool::FindFiles => assert(all[7] == tool),
        Tool::ReadFile => assert(all[8] == tool),
    }
}

/// Every listed tool has a name, a description and the schema of an object.
pub proof fn every_tool_has_a_schema(i: int)
    requires
        0 <= i < listings().len(),
    ensures
        json::field(listings()[i], "name"@) is Some,
        json::field(listings()[i], "description"@) is Some,
        json::field_at(listings()[i], seq!["inputSchema"@, "type"@]) == Some(
            JsonView::Text("object"@),
        ),
{
    reveal_strlit("name");
    reveal_strlit("description");
    reveal_strlit("inputSchema");
    reveal_strlit("type");
    let tool = all_tools()[i];
    let o = listing(tool)->Object_0;
    assert(listings()[i] == listing(tool));
    assert(o[0].0.len() == 4 && o[1].0.len() == 11 && o[2].0.len() == 11);
    assert(o[1].0[0] != o[2].0[0]);
    json::member_from_found(o, "name"@, 0, 0);
    json::member_from_found(o, "description"@, 0, 1);
    json::member_from_found(o, "inputSchema"@, 0, 2);
    let s = schema(tool.takes())->Object_0;
    assert(s[0] == ("type"@, JsonView::Text("object"@)));
    json::member_from_found(s, "type"@, 0, 0);
    let keys = seq!["inputSchema"@, "type"@];
    reveal_with_fuel(json::field_at, 3);
    assert(keys.skip(1)[0] == "type"@);
    assert(keys.skip(1).skip(1).len() == 0);
}

} // verus!
