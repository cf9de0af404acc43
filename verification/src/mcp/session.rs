//! One client session: the project root and what has become of its dev server.

use crate::json;
use crate::json::{Json, JsonView};
use crate::pipeline;
use crate::pipeline::{ComponentInfo, ErrorView, InfoView, PipelineError};
use crate::serve::{OptionsView, ServeOptions};
use crate::text;
use vstd::prelude::*;

verus! {

/// A dev server that runs: where its page is, and the ports of its control
/// server and of the page.
#[derive(Debug)]
pub struct Server {
    pub vite_url: String,
    pub cli_port: u16,
    pub vite_port: u16,
}

#[verifier::ext_equal]
pub struct ServerView {
    pub vite_url: Seq<char>,
    pub cli_port: nat,
    pub vite_port: nat,
}

impl View for Server {
    type V = ServerView;

    open spec fn view(&self) -> ServerView {
        ServerView {
            vite_url: self.vite_url@,
            cli_port: self.cli_port as nat,
            vite_port: self.vite_port as nat,
        }
    }
}

/// What has become of the dev server: there is none, with the error of the last
/// start that failed; it is being started for a component; or it runs and serves
/// a component.
#[derive(Debug)]
pub enum Phase {
    Idle(Option<String>),
    Starting(String),
    Running(Server, String),
}

#[verifier::ext_equal]
pub enum PhaseView {
    Idle(Option<Seq<char>>),
    Starting(Seq<char>),
    Running(ServerView, Seq<char>),
}

impl View for Phase {
    type V = PhaseView;

    open spec fn view(&self) -> PhaseView {
        match self {
            Phase::Idle(error) => PhaseView::Idle(text::opt(*error)),
            Phase::Starting(component) => PhaseView::Starting(component@),
            Phase::Running(server, current) => PhaseView::Running(server@, current@),
        }
    }
}

/// One client session.
#[derive(Debug)]
pub struct Session {
    root: String,
    phase: Phase,
}

#[verifier::ext_equal]
pub struct SessionView {
    pub root: Seq<char>,
    pub phase: PhaseView,
}

impl View for Session {
    type V = SessionView;

    closed spec fn view(&self) -> SessionView {
        SessionView { root: self.root@, phase: self.phase@ }
    }
}

/// How an attempt to start the dev server ended.
#[derive(Debug)]
pub enum StartOutcome {
    Ready(Server),
    /// It failed, with an error and the error with its causes.
    Failed(String, String),
    /// It did not come to an end.
    Panicked(String),
}

#[verifier::ext_equal]
pub enum StartView {
    Ready(ServerView),
    Failed(Seq<char>, Seq<char>),
    Panicked(Seq<char>),
}

impl View for StartOutcome {
    type V = StartView;

    open spec fn view(&self) -> StartView {
        match self {
            StartOutcome::Ready(server) => StartView::Ready(server@),
            StartOutcome::Failed(error, detail) => StartView::Failed(error@, detail@),
            StartOutcome::Panicked(error) => StartView::Panicked(error@),
        }
    }
}

// ---------------------------------------------------------------------------
// Status
// ---------------------------------------------------------------------------

impl PhaseView {
    pub open spec fn server(self) -> Option<ServerView> {
        match self {
            PhaseView::Running(server, _) => Some(server),
            _ => None,
        }
    }

    pub open spec fn current(self) -> Option<Seq<char>> {
        match self {
            PhaseView::Running(_, current) => Some(current),
            _ => None,
        }
    }

    pub open spec fn starting(self) -> Option<Seq<char>> {
        match self {
            PhaseView::Starting(component) => Some(component),
            _ => None,
        }
    }

    pub open spec fn error(self) -> Option<Seq<char>> {
        match self {
            PhaseView::Idle(error) => error,
            _ => None,
        }
    }
}

/// The status of a session.
pub open spec fn status_of(v: SessionView) -> JsonView {
    let server = v.phase.server();
    JsonView::Object(
        seq![
            ("running"@, JsonView::Bool(v.phase is Running)),
            ("starting"@, JsonView::Bool(v.phase is Starting)),
            ("startError"@, json::text_or_null(v.phase.error())),
            (
                "url"@,
                match server {
                    Some(s) => JsonView::Text(s.vite_url),
                    None => JsonView::Null,
                },
            ),
            (
                "cliPort"@,
                match server {
                    Some(s) => json::natural_value(s.cli_port),
                    None => JsonView::Null,
                },
            ),
            (
                "vitePort"@,
                match server {
                    Some(s) => json::natural_value(s.vite_port),
                    None => JsonView::Null,
                },
            ),
            ("current"@, json::text_or_null(v.phase.current())),
            ("startingComponent"@, json::text_or_null(v.phase.starting())),
            ("root"@, JsonView::Text(v.root)),
        ],
    )
}

// ---------------------------------------------------------------------------
// Changes
// ---------------------------------------------------------------------------

/// The session after an attempt to start has ended; there is nothing to take up
/// where none was under way.
pub open spec fn harvested(v: SessionView, outcome: StartView) -> SessionView {
    match v.phase {
        PhaseView::Starting(component) => SessionView {
            phase: match outcome {
                StartView::Ready(server) => PhaseView::Running(server, component),
                StartView::Failed(error, _) => PhaseView::Idle(Some(error)),
                StartView::Panicked(error) => PhaseView::Idle(
                    Some("start task panicked: "@ + error),
                ),
            },
            ..v
        },
        _ => v,
    }
}

/// What is logged of it.
pub open spec fn harvest_line(v: SessionView, outcome: StartView) -> Option<Seq<char>> {
    if v.phase is Starting {
        match outcome {
            StartView::Ready(server) => Some("[mcp] dev server ready at "@ + server.vite_url),
            StartView::Failed(_, detail) => Some("[mcp!] dev server failed: "@ + detail),
            StartView::Panicked(_) => None,
        }
    } else {
        None
    }
}

pub open spec fn json_outcome(r: Result<Json, String>) -> Result<JsonView, Seq<char>> {
    match r {
        Ok(j) => Ok(j@),
        Err(e) => Err(e@),
    }
}

pub open spec fn unit_outcome(r: Result<(), String>) -> Result<(), Seq<char>> {
    match r {
        Ok(_) => Ok(()),
        Err(e) => Err(e@),
    }
}

/// The session after a request to render a component: a valid component is
/// swapped in where the dev server runs, and starts one where there is none.
pub open spec fn after_select(
    v: SessionView,
    path: Seq<char>,
    info: Result<InfoView, ErrorView>,
    written: Result<(), Seq<char>>,
) -> SessionView {
    if info is Err {
        v
    } else {
        match v.phase {
            PhaseView::Running(server, _) => if written is Ok {
                SessionView { phase: PhaseView::Running(server, path), ..v }
            } else {
                v
            },
            PhaseView::Starting(_) => v,
            PhaseView::Idle(_) => SessionView { phase: PhaseView::Starting(path), ..v },
        }
    }
}

/// What a request to render a component is answered.
pub open spec fn selection_answer(
    v: SessionView,
    path: Seq<char>,
    info: Result<InfoView, ErrorView>,
    written: Result<(), Seq<char>>,
) -> Result<JsonView, Seq<char>> {
    match info {
        Err(e) => Err(pipeline::error_text(e)),
        Ok(info) => match v.phase {
            PhaseView::Running(server, _) => match written {
                Err(e) => Err("cannot write selection file: "@ + e),
                Ok(_) => Ok(
                    JsonView::Object(
                        seq![
                            ("url"@, JsonView::Text(server.vite_url)),
                            ("component"@, JsonView::Text(path)),
                            ("strategy"@, JsonView::Text(info.strategy.name())),
                            ("hot_swap"@, JsonView::Bool(true)),
                        ],
                    ),
                ),
            },
            PhaseView::Starting(_) => Ok(
                JsonView::Object(
                    seq![
                        ("starting"@, JsonView::Bool(true)),
                        ("component"@, JsonView::Text(path)),
                        ("url"@, JsonView::Null),
                        (
                            "detail"@,
                            JsonView::Text(
                                "dev server is still starting; poll get_status until running=true"@,
                            ),
                        ),
                    ],
                ),
            ),
            PhaseView::Idle(_) => Ok(
                JsonView::Object(
                    seq![
                        ("starting"@, JsonView::Bool(true)),
                        ("component"@, JsonView::Text(path)),
                        ("url"@, JsonView::Null),
                        ("strategy"@, JsonView::Text(info.strategy.name())),
                        (
                            "detail"@,
                            JsonView::Text(
                                "cold start launched; poll get_status until running=true"@,
                            ),
                        ),
                    ],
                ),
            ),
        },
    }
}

/// What is logged of it.
pub open spec fn selection_line(
    v: SessionView,
    path: Seq<char>,
    info: Result<InfoView, ErrorView>,
    written: Result<(), Seq<char>>,
) -> Option<Seq<char>> {
    if info is Err {
        None
    } else {
        match v.phase {
            PhaseView::Running(_, _) => if written is Ok {
                Some("[mcp] hot-swap -> "@ + path)
            } else {
                None
            },
            PhaseView::Starting(_) => None,
            PhaseView::Idle(_) => Some("[mcp] starting dev server for "@ + path + "..."@),
        }
    }
}

/// What is to be started: a valid component, where there is no dev server.
pub open spec fn launched(
    v: SessionView,
    path: Seq<char>,
    info: Result<InfoView, ErrorView>,
    selection_file: Seq<char>,
) -> Option<OptionsView> {
    if info is Ok && v.phase is Idle {
        Some(
            OptionsView {
                component: path,
                root: v.root,
                port: None,
                selection_file,
                open_browser: false,
            },
        )
    } else {
        None
    }
}

/// The session after a request to stop.
pub open spec fn after_stop(v: SessionView) -> SessionView {
    match v.phase {
        PhaseView::Idle(_) => v,
        _ => SessionView { phase: PhaseView::Idle(None), ..v },
    }
}

/// What a request to stop is answered.
pub open spec fn stop_answer(v: SessionView) -> JsonView {
    match v.phase {
        PhaseView::Starting(_) => JsonView::Object(
            seq![
                ("stopped"@, JsonView::Bool(true)),
                ("reason"@, JsonView::Text("start cancelled"@)),
            ],
        ),
        PhaseView::Running(server, _) => JsonView::Object(
            seq![("stopped"@, JsonView::Bool(true)), ("url"@, JsonView::Text(server.vite_url))],
        ),
        PhaseView::Idle(_) => JsonView::Object(
            seq![
                ("stopped"@, JsonView::Bool(false)),
                ("reason"@, JsonView::Text("server not running"@)),
            ],
        ),
    }
}

/// What is logged of it.
pub open spec fn stop_line(v: SessionView) -> Option<Seq<char>> {
    match v.phase {
        PhaseView::Starting(_) => Some("[mcp] cold start cancelled"@),
        PhaseView::Running(_, _) => Some("[mcp] dev server stopped"@),
        PhaseView::Idle(_) => None,
    }
}

/// The page that a request to open the browser opens.
pub open spec fn opened(v: SessionView) -> Option<Seq<char>> {
    match v.phase.server() {
        Some(s) => Some(s.vite_url),
        None => None,
    }
}

/// What a request to render a component comes to: its answer, what is logged,
/// and what is to be started.
pub struct Selected {
    pub answer: Result<Json, String>,
    pub log: Option<String>,
    pub launch: Option<ServeOptions>,
}

pub open spec fn opt_options(o: Option<ServeOptions>) -> Option<OptionsView> {
    match o {
        Some(o) => Some(o@),
        None => None,
    }
}

fn pair(first: (&str, Json), second: (&str, Json)) -> (r: Json)
    ensures
        r@ == JsonView::Object(seq![(first.0@, first.1@), (second.0@, second.1@)]),
{
    let ghost both = seq![(first.0@, first.1@), (second.0@, second.1@)];
    let mut o: Vec<(String, Json)> = json::no_members();
    json::append(&mut o, first.0, first.1);
    json::append(&mut o, second.0, second.1);
    assert(json::members(o@) =~= both);
    json::object(o)
}

impl Session {
    /// A session with no dev server.
    pub fn new(root: String) -> (r: Session)
        ensures
            r@ == (SessionView { root: root@, phase: PhaseView::Idle(None) }),
    {
        Session { root, phase: Phase::Idle(None) }
    }

    /// The project root.
    pub fn root(&self) -> (r: &str)
        ensures
            r@ == self@.root,
    {
        self.root.as_str()
    }

    /// Whether the dev server runs.
    pub fn is_running(&self) -> (r: bool)
        ensures
            r == (self@.phase is Running),
    {
        matches!(self.phase, Phase::Running(_, _))
    }

    /// The status of the session.
    pub fn status_json(&self) -> (r: Json)
        ensures
            r@ == status_of(self@),
    {
        let mut running: bool = false;
        let mut starting: bool = false;
        let mut error: Json = Json::Null;
        let mut url: Json = Json::Null;
        let mut cli_port: Json = Json::Null;
        let mut vite_port: Json = Json::Null;
        let mut current: Json = Json::Null;
        let mut component: Json = Json::Null;
        match &self.phase {
            Phase::Idle(e) => {
                error = json::optional_text(
                    match e {
                        Some(e) => Some(e.as_str()),
                        None => None,
                    },
                );
            },
            Phase::Starting(c) => {
                starting = true;
                component = json::text_value(c.as_str());
            },
            Phase::Running(s, c) => {
                running = true;
                url = json::text_value(s.vite_url.as_str());
                cli_port = json::number_value(s.cli_port as u64);
                vite_port = json::number_value(s.vite_port as u64);
                current = json::text_value(c.as_str());
            },
        }
        let mut o: Vec<(String, Json)> = json::no_members();
        json::append(&mut o, "running", Json::Bool(running));
        json::append(&mut o, "starting", Json::Bool(starting));
        json::append(&mut o, "startError", error);
        json::append(&mut o, "url", url);
        json::append(&mut o, "cliPort", cli_port);
        json::append(&mut o, "vitePort", vite_port);
        json::append(&mut o, "current", current);
        json::append(&mut o, "startingComponent", component);
        json::append(&mut o, "root", json::text_value(self.root.as_str()));
        assert(json::members(o@) =~= status_of(self@)->Object_0);
        json::object(o)
    }

    /// An attempt to start the dev server has ended: a server that is ready is
    /// taken up, an error is kept for the status. What is to be logged is handed
    /// back.
    pub fn harvest_start(&mut self, outcome: StartOutcome) -> (r: Option<String>)
        ensures
            final(self)@ == harvested(old(self)@, outcome@),
            text::opt(r) == harvest_line(old(self)@, outcome@),
    {
        let component: String = match &self.phase {
            Phase::Starting(c) => c.clone(),
            _ => {
                return None;
            },
        };
        match outcome {
            StartOutcome::Ready(server) => {
                let line: String = text::cat(
                    "[mcp] dev server ready at ",
                    server.vite_url.as_str(),
                );
                self.phase = Phase::Running(server, component);
                Some(line)
            },
            StartOutcome::Failed(error, detail) => {
                self.phase = Phase::Idle(Some(error));
                Some(text::cat("[mcp!] dev server failed: ", detail.as_str()))
            },
            StartOutcome::Panicked(error) => {
                self.phase = Phase::Idle(Some(text::cat("start task panicked: ", error.as_str())));
                None
            },
        }
    }

    /// A request to render the component at `path`, `info` being what its
    /// validation found. Where the dev server runs, the component is swapped in,
    /// `written` telling whether the selection file could be written; where one
    /// is being started, that goes on; otherwise one is to be started.
    pub fn select(
        &mut self,
        path: &str,
        info: &Result<ComponentInfo, PipelineError>,
        written: Result<(), String>,
        selection_file: String,
    ) -> (r: Selected)
        ensures
            final(self)@ == after_select(
                old(self)@,
                path@,
                pipeline::info_outcome(*info),
                unit_outcome(written),
            ),
            json_outcome(r.answer) == selection_answer(
                old(self)@,
                path@,
                pipeline::info_outcome(*info),
                unit_outcome(written),
            ),
            text::opt(r.log) == selection_line(
                old(self)@,
                path@,
                pipeline::info_outcome(*info),
                unit_outcome(written),
            ),
            opt_options(r.launch) == launched(
                old(self)@,
                path@,
                pipeline::info_outcome(*info),
                selection_file@,
            ),
    {
        let info: &ComponentInfo = match info {
            Ok(i) => i,
            Err(e) => {
                return Selected { answer: Err(e.message()), log: None, launch: None };
            },
        };
        let ghost expected = selection_answer(self@, path@, Ok(info@), unit_outcome(written));
        let mut o: Vec<(String, Json)> = json::no_members();
        match &self.phase {
            Phase::Running(server, _) => {
                match written {
                    Ok(_) => {},
                    Err(e) => {
                        let message: String = text::cat(
                            "cannot write selection file: ",
                            e.as_str(),
                        );
                        return Selected { answer: Err(message), log: None, launch: None };
                    },
                }
                json::append(&mut o, "url", json::text_value(server.vite_url.as_str()));
                json::append(&mut o, "component", json::text_value(path));
                json::append(&mut o, "strategy", json::text_value(info.strategy.as_str()));
                json::append(&mut o, "hot_swap", Json::Bool(true));
                assert(json::members(o@) =~= expected->Ok_0->Object_0);
                let server = Server {
                    vite_url: server.vite_url.clone(),
                    cli_port: server.cli_port,
                    vite_port: server.vite_port,
                };
                self.phase = Phase::Running(server, path.to_string());
                Selected {
                    answer: Ok(json::object(o)),
                    log: Some(text::cat("[mcp] hot-swap -> ", path)),
                    launch: None,
                }
            },
            Phase::Starting(_) => {
                json::append(&mut o, "starting", Json::Bool(true));
                json::append(&mut o, "component", json::text_value(path));
                json::append(&mut o, "url", Json::Null);
                json::append(
                    &mut o,
                    "detail",
                    json::text_value(
                        "dev server is still starting; poll get_status until running=true",
                    ),
                );
                assert(json::members(o@) =~= expected->Ok_0->Object_0);
                Selected { answer: Ok(json::object(o)), log: None, launch: None }
            },
            Phase::Idle(_) => {
                json::append(&mut o, "starting", Json::Bool(true));
                json::append(&mut o, "component", json::text_value(path));
                json::append(&mut o, "url", Json::Null);
                json::append(&mut o, "strategy", json::text_value(info.strategy.as_str()));
                json::append(
                    &mut o,
                    "detail",
                    json::text_value("cold start launched; poll get_status until running=true"),
                );
                assert(json::members(o@) =~= expected->Ok_0->Object_0);
                self.phase = Phase::Starting(path.to_string());
                let launch = ServeOptions {
                    component: path.to_string(),
                    root: self.root.clone(),
                    port: None,
                    selection_file,
                    open_browser: false,
                };
                Selected {
                    answer: Ok(json::object(o)),
                    log: Some(text::cat3("[mcp] starting dev server for ", path, "...")),
                    launch: Some(launch),
                }
            },
        }
    }

    /// A request to stop: a start that is under way is cancelled, a dev server
    /// that runs is shut down. The answer, and what is to be logged.
    pub fn stop(&mut self) -> (r: (Json, Option<String>))
        ensures
            final(self)@ == after_stop(old(self)@),
            r.0@ == stop_answer(old(self)@),
            text::opt(r.1) == stop_line(old(self)@),
    {
        match &self.phase {
            Phase::Starting(_) => {
                self.phase = Phase::Idle(None);
                (
                    pair(
                        ("stopped", Json::Bool(true)),
                        ("reason", json::text_value("start cancelled")),
                    ),
                    Some("[mcp] cold start cancelled".to_string()),
                )
            },
            Phase::Running(server, _) => {
                let url: Json = json::text_value(server.vite_url.as_str());
                self.phase = Phase::Idle(None);
                (
                    pair(("stopped", Json::Bool(true)), ("url", url)),
                    Some("[mcp] dev server stopped".to_string()),
                )
            },
            Phase::Idle(_) => (
                pair(
                    ("stopped", Json::Bool(false)),
                    ("reason", json::text_value("server not running")),
                ),
                None,
            ),
        }
    }

    /// The page that a request to open the browser opens, where the dev server
    /// runs.
    pub fn page(&self) -> (r: Option<&str>)
        ensures
            text::opt_str(r) == opened(self@),
    {
        match &self.phase {
            Phase::Running(server, _) => Some(server.vite_url.as_str()),
            _ => None,
        }
    }

    /// What a request to open the browser is answered.
    pub fn open_browser(&self) -> (r: Result<Json, String>)
        ensures
            json_outcome(r) == (match opened(self@) {
                Some(url) => Ok(JsonView::Object(seq![("opened"@, JsonView::Text(url))])),
                None => Err("server not running — select_component first"@),
            }),
    {
        match self.page() {
            Some(url) => {
                let mut o: Vec<(String, Json)> = json::no_members();
                json::append(&mut o, "opened", json::text_value(url));
                Ok(json::object(o))
            },
            None => Err("server not running — select_component first".to_string()),
        }
    }
}

/// What is logged when the browser is opened.
pub fn opened_message(url: &str) -> (r: String)
    ensures
        r@ == "[mcp] opened "@ + url@,
{
    text::cat("[mcp] opened ", url)
}

// ---------------------------------------------------------------------------
// Laws
// ---------------------------------------------------------------------------

/// A component that is not valid starts nothing and changes nothing; the answer
/// is what its validation found.
pub proof fn broken_component_changes_nothing(
    v: SessionView,
    path: Seq<char>,
    error: ErrorView,
    written: Result<(), Seq<char>>,
    selection_file: Seq<char>,
)
    ensures
        after_select(v, path, Err(error), written) == v,
        launched(v, path, Err(error), selection_file) is None,
        selection_answer(v, path, Err(error), written) == Err::<JsonView, Seq<char>>(
            pipeline::error_text(error),
        ),
{
}

/// A valid component starts a dev server exactly when there is none and none is
/// being started; from then on none is started until that start has ended.
pub proof fn one_start_at_a_time(
    v: SessionView,
    path: Seq<char>,
    info: InfoView,
    written: Result<(), Seq<char>>,
    selection_file: Seq<char>,
    other: Seq<char>,
    other_info: Result<InfoView, ErrorView>,
)
    ensures
        launched(v, path, Ok(info), selection_file) is Some <==> v.phase is Idle,
        v.phase is Idle ==> after_select(v, path, Ok(info), written).phase is Starting,
        v.phase is Starting ==> after_select(v, path, Ok(info), written) == v,
        launched(
            after_select(v, path, Ok(info), written),
            other,
            other_info,
            selection_file,
        ) is None,
{
}

/// While the dev server runs, it goes on under the same address: a valid
/// component takes the place of the one that is served.
pub proof fn swapping_keeps_the_server(
    v: SessionView,
    path: Seq<char>,
    info: InfoView,
    selection_file: Seq<char>,
)
    requires
        v.phase is Running,
    ensures
        after_select(v, path, Ok(info), Ok(())).phase.server() == v.phase.server(),
        after_select(v, path, Ok(info), Ok(())).phase.current() == Some(path),
        launched(v, path, Ok(info), selection_file) is None,
{
}

/// A start that succeeds serves the component that it was launched for.
pub proof fn started_component_is_served(
    v: SessionView,
    path: Seq<char>,
    info: InfoView,
    written: Result<(), Seq<char>>,
    server: ServerView,
)
    requires
        v.phase is Idle,
    ensures
        harvested(after_select(v, path, Ok(info), written), StartView::Ready(server)) == (
        SessionView { phase: PhaseView::Running(server, path), ..v }),
{
}

/// After a stop nothing runs and nothing is being started; a second stop
/// changes nothing and says so.
pub proof fn stopping_is_final(v: SessionView, outcome: StartView)
    ensures
        after_stop(v).phase is Idle,
        after_stop(v).root == v.root,
        after_stop(after_stop(v)) == after_stop(v),
        json::field(stop_answer(after_stop(v)), "stopped"@) == Some(JsonView::Bool(false)),
        harvested(after_stop(v), outcome) == after_stop(v),
{
    let second = stop_answer(after_stop(v))->Object_0;
    json::member_from_found(second, "stopped"@, 0, 0);
}

/// The status tells what has become of the dev server: whether it runs or is being
/// started, its address and its ports while it runs, what is served or started, and
/// the error of the last start.
pub proof fn status_tells_the_phase(v: SessionView)
    ensures
        json::field(status_of(v), "running"@) == Some(JsonView::Bool(v.phase is Running)),
        json::field(status_of(v), "starting"@) == Some(JsonView::Bool(v.phase is Starting)),
        json::field(status_of(v), "root"@) == Some(JsonView::Text(v.root)),
        v.phase matches PhaseView::Running(server, current) ==> json::field(status_of(v), "url"@)
            == Some(JsonView::Text(server.vite_url)) && json::field(status_of(v), "cliPort"@)
            == Some(json::natural_value(server.cli_port)) && json::field(
            status_of(v),
            "vitePort"@,
        ) == Some(json::natural_value(server.vite_port)) && json::field(status_of(v), "current"@)
            == Some(JsonView::Text(current)),
        !(v.phase is Running) ==> json::field(status_of(v), "url"@) == Some(JsonView::Null),
        v.phase matches PhaseView::Starting(c) ==> json::field(status_of(v), "startingComponent"@)
            == Some(JsonView::Text(c)),
        v.phase matches PhaseView::Idle(Some(e)) ==> json::field(status_of(v), "startError"@)
            == Some(JsonView::Text(e)),
{
    reveal_strlit("running");
    reveal_strlit("starting");
    reveal_strlit("startError");
    reveal_strlit("url");
    reveal_strlit("cliPort");
    reveal_strlit("vitePort");
    reveal_strlit("current");
    reveal_strlit("startingComponent");
    reveal_strlit("root");
    let o = status_of(v)->Object_0;
    assert(o[0].0.len() == 7 && o[1].0.len() == 8 && o[2].0.len() == 10 && o[3].0.len() == 3);
    assert(o[4].0.len() == 7 && o[5].0.len() == 8 && o[6].0.len() == 7 && o[7].0.len() == 17);
    assert(o[8].0.len() == 4);
    assert(o[0].0[0] == 'r' && o[4].0[0] == 'c' && o[6].0[0] == 'c');
    assert(o[4].0[1] == 'l' && o[6].0[1] == 'u');
    assert(o[1].0[0] == 's' && o[5].0[0] == 'v');
    assert(json::keys_differ(o));
    json::members_are_read(o, 0);
    json::members_are_read(o, 1);
    json::members_are_read(o, 2);
    json::members_are_read(o, 3);
    json::members_are_read(o, 4);
    json::members_are_read(o, 5);
    json::members_are_read(o, 6);
    json::members_are_read(o, 7);
    json::members_are_read(o, 8);
}

/// A valid component that is asked for is served where the dev server runs, and
/// starts one where there is none; the answer names it either way, with the address
/// where there is one.
pub proof fn valid_components_are_taken_up(
    v: SessionView,
    path: Seq<char>,
    info: InfoView,
    selection_file: Seq<char>,
)
    ensures
        v.phase matches PhaseView::Running(server, _) ==> after_select(v, path, Ok(info), Ok(()))
            == (SessionView { phase: PhaseView::Running(server, path), ..v }) && launched(
            v,
            path,
            Ok(info),
            selection_file,
        ) is None,
        v.phase is Idle ==> after_select(v, path, Ok(info), Ok(())) == (SessionView {
            phase: PhaseView::Starting(path),
            ..v
        }) && (launched(v, path, Ok(info), selection_file) matches Some(o) && o.component == path
            && o.root == v.root && o.selection_file == selection_file && !o.open_browser),
        selection_answer(v, path, Ok(info), Ok(())) matches Ok(a) && json::field(a, "component"@)
            == Some(JsonView::Text(path)) && (v.phase matches PhaseView::Running(server, _)
            ==> json::field(a, "url"@) == Some(JsonView::Text(server.vite_url))) && (!(v.phase
            is Running) ==> json::field(a, "url"@) == Some(JsonView::Null) && json::field(
            a,
            "starting"@,
        ) == Some(JsonView::Bool(true))),
{
    reveal_strlit("url");
    reveal_strlit("component");
    reveal_strlit("strategy");
    reveal_strlit("hot_swap");
    reveal_strlit("starting");
    reveal_strlit("detail");
    let o = selection_answer(v, path, Ok(info), Ok(()))->Ok_0->Object_0;
    assert("strategy"@[0] == 's' && "hot_swap"@[0] == 'h');
    assert("starting"@[3] == 'r' && "strategy"@[3] == 'a');
    assert("starting"@[2] == 'a' && "strategy"@[2] == 'r');
    assert("url"@.len() == 3 && "component"@.len() == 9 && "detail"@.len() == 6);
    assert(json::keys_differ(o));
    json::members_are_read(o, 0);
    json::members_are_read(o, 1);
    json::members_are_read(o, 2);
}

/// Stopping ends what runs or is being started, and says whether there was
/// anything to stop.
pub proof fn stopping_says_what_it_ended(v: SessionView)
    ensures
        after_stop(v).phase is Idle,
        json::field(stop_answer(v), "stopped"@) == Some(JsonView::Bool(!(v.phase is Idle))),
        opened(after_stop(v)) is None,
        v.phase matches PhaseView::Running(server, _) ==> opened(v) == Some(server.vite_url),
{
    reveal_strlit("stopped");
    reveal_strlit("reason");
    reveal_strlit("url");
    let o = stop_answer(v)->Object_0;
    assert("stopped"@.len() == 7 && "reason"@.len() == 6 && "url"@.len() == 3);
    assert(json::keys_differ(o));
    json::members_are_read(o, 0);
}

} // verus!
