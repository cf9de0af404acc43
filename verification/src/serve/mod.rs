//! The control server: what it is asked to serve, what it answers, and when a
//! choice that was written to the selection file is taken up.

pub mod state;

use crate::cli::Command;
use crate::json;
use crate::json::{Json, JsonView};
use crate::path;
use crate::pipeline;
use crate::pipeline::{ComponentInfo, ErrorView, InfoView, PipelineError};
use crate::text;
use state::{AppState, SelectOutcome, SelectionView};
use vstd::prelude::*;

verus! {

/// What to serve, and how.
#[derive(Debug)]
pub struct ServeOptions {
    pub component: String,
    pub root: String,
    pub port: Option<u16>,
    pub selection_file: String,
    pub open_browser: bool,
}

#[verifier::ext_equal]
pub struct OptionsView {
    pub component: Seq<char>,
    pub root: Seq<char>,
    pub port: Option<u16>,
    pub selection_file: Seq<char>,
    pub open_browser: bool,
}

impl View for ServeOptions {
    type V = OptionsView;

    open spec fn view(&self) -> OptionsView {
        OptionsView {
            component: self.component@,
            root: self.root@,
            port: self.port,
            selection_file: self.selection_file@,
            open_browser: self.open_browser,
        }
    }
}

/// What the `serve` command asks for, `selection_file` being the selection file
/// that is used by default.
pub fn serve_options(command: Command, default_selection: String) -> (r: ServeOptions)
    ensures
        match command {
            Command::Serve { component, root, port, selection_file, no_open } => r@ == (
            OptionsView {
                component: component@,
                root: match root {
                    Some(d) => d@,
                    None => path::dir_of(component@),
                },
                port,
                selection_file: match selection_file {
                    Some(f) => f@,
                    None => default_selection@,
                },
                open_browser: !no_open,
            }),
        },
{
    match command {
        Command::Serve { component, root, port, selection_file, no_open } => {
            let root: String = match root {
                Some(d) => d,
                None => path::directory(component.as_str()),
            };
            let selection_file: String = match selection_file {
                Some(f) => f,
                None => default_selection,
            };
            ServeOptions { component, root, port, selection_file, open_browser: !no_open }
        },
    }
}

/// The component that a request names: a relative path is seen from the root.
pub fn requested_component(component: &str, root: &str) -> (r: String)
    ensures
        r@ == path::join_of(root@, component@),
{
    path::join(root, component)
}

/// The address of a port on this machine.
pub open spec fn local_address(port: nat) -> Seq<char> {
    "http://127.0.0.1:"@ + text::decimal(port)
}

/// The address of a port on this machine.
pub fn local_url(port: u16) -> (r: String)
    ensures
        r@ == local_address(port as nat),
{
    text::cat("http://127.0.0.1:", text::number_text(port as u64).as_str())
}

/// What a request to select is answered.
pub open spec fn select_answer(r: Result<SelectOutcome, Seq<char>>) -> JsonView {
    match r {
        Ok(SelectOutcome::Updated(rev)) => JsonView::Object(
            seq![
                ("status"@, JsonView::Text("updated"@)),
                ("revision"@, JsonView::Number(text::decimal(rev as nat))),
            ],
        ),
        Ok(SelectOutcome::Unchanged) => JsonView::Object(
            seq![("status"@, JsonView::Text("unchanged"@))],
        ),
        Err(e) => JsonView::Object(
            seq![("status"@, JsonView::Text("rejected"@)), ("error"@, JsonView::Text(e))],
        ),
    }
}

pub open spec fn select_outcome(r: Result<SelectOutcome, String>) -> Result<
    SelectOutcome,
    Seq<char>,
> {
    match r {
        Ok(o) => Ok(o),
        Err(e) => Err(e@),
    }
}

/// An object with one or two members.
pub fn object_of(first: (&str, Json), second: Option<(&str, Json)>) -> (r: Json)
    ensures
        r@ == JsonView::Object(
            match second {
                Some(s) => seq![(first.0@, first.1@), (s.0@, s.1@)],
                None => seq![(first.0@, first.1@)],
            },
        ),
{
    let ghost a = (first.0@, first.1@);
    let mut o: Vec<(String, Json)> = Vec::new();
    o.push((first.0.to_string(), first.1));
    match second {
        Some(s) => {
            let ghost b = (s.0@, s.1@);
            o.push((s.0.to_string(), s.1));
            proof {
                json::object_view(o);
                assert(json::members(o@) =~= seq![a, b]);
            }
        },
        None => {
            proof {
                json::object_view(o);
                assert(json::members(o@) =~= seq![a]);
            }
        },
    }
    Json::Object(o)
}

/// What a request to select is answered: that the component was taken up, that
/// it is already served, or why it was refused.
pub fn select_response(result: &Result<SelectOutcome, String>) -> (r: Json)
    ensures
        r@ == select_answer(select_outcome(*result)),
{
    match result {
        Ok(SelectOutcome::Updated(rev)) => object_of(
            ("status", Json::Text("updated".to_string())),
            Some(("revision", Json::Number(text::number_text(*rev)))),
        ),
        Ok(SelectOutcome::Unchanged) => object_of(
            ("status", Json::Text("unchanged".to_string())),
            None,
        ),
        Err(e) => object_of(
            ("status", Json::Text("rejected".to_string())),
            Some(("error", Json::Text(e.clone()))),
        ),
    }
}

/// What the page is told before it reloads: whether a build is still pending,
/// and whether the dev server is gone.
pub fn ready_response(pending: bool, ng_exited: bool) -> (r: Json)
    ensures
        r@ == JsonView::Object(
            seq![
                ("pending"@, JsonView::Bool(pending)),
                ("ngExited"@, JsonView::Bool(ng_exited)),
            ],
        ),
{
    object_of(("pending", Json::Bool(pending)), Some(("ngExited", Json::Bool(ng_exited))))
}

/// Whether a build is pending after a selection was applied.
pub open spec fn pending_after_select(pending: bool, outcome: SelectOutcome) -> bool {
    pending || outcome is Updated
}

/// Whether a build is pending after a selection was applied.
pub fn pending_after(pending: bool, outcome: SelectOutcome) -> (r: bool)
    ensures
        r == pending_after_select(pending, outcome),
{
    match outcome {
        SelectOutcome::Updated(_) => true,
        SelectOutcome::Unchanged => pending,
    }
}

/// What is logged of an applied selection.
pub open spec fn applied_line(component: Seq<char>, outcome: SelectOutcome) -> Seq<char> {
    match outcome {
        SelectOutcome::Updated(rev) => "[serve] hot-swap → "@ + component + " (revision "@
            + text::decimal(rev as nat) + ")"@,
        SelectOutcome::Unchanged => "[serve] unchanged: "@ + component,
    }
}

/// What is logged of an applied selection.
pub fn applied_message(component: &str, outcome: SelectOutcome) -> (r: String)
    ensures
        r@ == applied_line(component@, outcome),
{
    match outcome {
        SelectOutcome::Updated(rev) => text::cat5(
            "[serve] hot-swap → ",
            component,
            " (revision ",
            text::number_text(rev).as_str(),
            ")",
        ),
        SelectOutcome::Unchanged => text::cat("[serve] unchanged: ", component),
    }
}

// ---------------------------------------------------------------------------
// Starting
// ---------------------------------------------------------------------------

/// What is served first, `root` and `component` being what the arguments lead to
/// and `info` what validation found: the first thing that is wrong is told.
pub open spec fn start_of(
    root: Result<Seq<char>, Seq<char>>,
    component: Result<Seq<char>, Seq<char>>,
    info: Result<InfoView, ErrorView>,
) -> Result<SelectionView, Seq<char>> {
    match (root, component, info) {
        (Err(e), _, _) => Err(e),
        (Ok(_), Err(e), _) => Err(e),
        (Ok(_), Ok(_), Err(e)) => Err(pipeline::error_text(e)),
        (Ok(r), Ok(c), Ok(i)) => Ok(
            state::first_selection(c, r, i.strategy, i.required_inputs, i.input_values),
        ),
    }
}

/// What is served first, or what is wrong with what was asked for.
pub fn starting_state(
    root: &Result<String, String>,
    component: &Result<String, String>,
    info: &Result<ComponentInfo, PipelineError>,
) -> (r: Result<AppState, String>)
    ensures
        match r {
            Ok(s) => start_of(
                pipeline::outcome(*root),
                pipeline::outcome(*component),
                pipeline::info_outcome(*info),
            ) == Ok::<SelectionView, Seq<char>>(s@),
            Err(e) => start_of(
                pipeline::outcome(*root),
                pipeline::outcome(*component),
                pipeline::info_outcome(*info),
            ) == Err::<SelectionView, Seq<char>>(e@),
        },
{
    let root: &String = match root {
        Ok(r) => r,
        Err(e) => {
            return Err(e.clone());
        },
    };
    let component: &String = match component {
        Ok(c) => c,
        Err(e) => {
            return Err(e.clone());
        },
    };
    match info {
        Ok(i) => {
            let inputs: Vec<String> = text::copies(&i.required_inputs);
            let values: Vec<(String, Json)> = json::duplicate_members(&i.input_values);
            Ok(AppState::new(component.as_str(), root.as_str(), i.strategy, inputs, values))
        },
        Err(e) => Err(e.message()),
    }
}

/// What is said when the port of the control server cannot be had.
pub fn port_error(port: Option<u16>) -> (r: String)
    ensures
        r@ == (match port {
            Some(p) => "port "@ + text::decimal(p as nat) + " is not available"@,
            None => "no free port available"@,
        }),
{
    match port {
        Some(p) => text::cat3("port ", text::number_text(p as u64).as_str(), " is not available"),
        None => "no free port available".to_string(),
    }
}

/// What is logged before the host is prepared.
pub fn serving_messages(root: &str, component: &str) -> (r: (String, String))
    ensures
        r.0@ == "[serve] project root: "@ + root@,
        r.1@ == "[serve] component: "@ + component@,
{
    (text::cat("[serve] project root: ", root), text::cat("[serve] component: ", component))
}

/// What is logged when the control server listens.
pub fn listening_message(port: u16) -> (r: String)
    ensures
        r@ == "[serve] control API listening on "@ + local_address(port as nat),
{
    text::cat("[serve] control API listening on ", local_url(port).as_str())
}

/// What is logged when the browser was opened.
pub fn opened_message(url: &str) -> (r: String)
    ensures
        r@ == "[serve] opened browser at "@ + url@,
{
    text::cat("[serve] opened browser at ", url)
}

/// What is printed when everything runs without the explorer.
pub fn headless_message(url: &str, cli_port: u16) -> (r: String)
    ensures
        r@ == "[render-component] UI at "@ + url@ + " (control API "@ + local_address(
            cli_port as nat,
        ) + ")"@,
{
    text::cat5(
        "[render-component] UI at ",
        url,
        " (control API ",
        local_url(cli_port).as_str(),
        ")",
    )
}

// ---------------------------------------------------------------------------
// The watcher
// ---------------------------------------------------------------------------

/// How long a choice must stand in the selection file before it is taken up, in
/// milliseconds.
pub const DEBOUNCE_MS: u64 = 400;

/// A component and its root, as the selection file names them.
pub open spec fn pair_view(p: (String, String)) -> (Seq<char>, Seq<char>) {
    (p.0@, p.1@)
}

pub open spec fn opt_pair(p: Option<(String, String)>) -> Option<(Seq<char>, Seq<char>)> {
    match p {
        Some(x) => Some(pair_view(x)),
        None => None,
    }
}

/// What the watcher remembers: the choice that was taken up last, and the one
/// that waits, since when.
#[verifier::ext_equal]
pub struct WatchView {
    pub taken: (Seq<char>, Seq<char>),
    pub waiting: Option<((Seq<char>, Seq<char>), int)>,
}

/// Whether what waits has waited long enough at `now`.
pub open spec fn is_due(v: WatchView, key: (Seq<char>, Seq<char>), now: int) -> bool {
    v.waiting matches Some((k, since)) && k == key && now - since >= DEBOUNCE_MS
}

/// What the watcher remembers after it read the selection file at `now`.
pub open spec fn watched(
    v: WatchView,
    now: int,
    reading: Option<(Seq<char>, Seq<char>)>,
) -> WatchView {
    match reading {
        Some(key) => if key == v.taken {
            WatchView { waiting: None, ..v }
        } else if is_due(v, key, now) {
            WatchView { taken: key, waiting: None }
        } else if v.waiting matches Some((k, _)) && k == key {
            v
        } else {
            WatchView { waiting: Some((key, now)), ..v }
        },
        None => v,
    }
}

/// The choice that is taken up when the selection file is read at `now`.
pub open spec fn taken_up(
    v: WatchView,
    now: int,
    reading: Option<(Seq<char>, Seq<char>)>,
) -> Option<(Seq<char>, Seq<char>)> {
    match reading {
        Some(key) => if key != v.taken && is_due(v, key, now) {
            Some(key)
        } else {
            None
        },
        None => None,
    }
}

/// Follows the selection file: a choice is taken up once it has stood there for
/// a while, so that choices in quick succession make for one rebuild.
pub struct Watcher {
    taken: (String, String),
    waiting: Option<((String, String), u64)>,
}

impl View for Watcher {
    type V = WatchView;

    closed spec fn view(&self) -> WatchView {
        WatchView {
            taken: pair_view(self.taken),
            waiting: match self.waiting {
                Some((k, since)) => Some((pair_view(k), since as int)),
                None => None,
            },
        }
    }
}

fn same_pair(a: &(String, String), b: &(String, String)) -> (r: bool)
    ensures
        r == (pair_view(*a) == pair_view(*b)),
{
    text::equal(a.0.as_str(), b.0.as_str()) && text::equal(a.1.as_str(), b.1.as_str())
}

impl Watcher {
    /// A watcher that starts with what is served.
    pub fn new(component: String, root: String) -> (r: Watcher)
        ensures
            r@ == (WatchView { taken: (component@, root@), waiting: None }),
    {
        Watcher { taken: (component, root), waiting: None }
    }

    /// The selection file was read at `now`, in milliseconds of a clock that does
    /// not go back: the choice to take up is handed back.
    pub fn poll(&mut self, now: u64, reading: Option<(String, String)>) -> (r: Option<
        (String, String),
    >)
        ensures
            final(self)@ == watched(old(self)@, now as int, opt_pair(reading)),
            opt_pair(r) == taken_up(old(self)@, now as int, opt_pair(reading)),
    {
        let key: (String, String) = match reading {
            Some(k) => k,
            None => {
                return None;
            },
        };
        if same_pair(&key, &self.taken) {
            self.waiting = None;
            return None;
        }
        let known: Option<u64> = match &self.waiting {
            Some((k, since)) => if same_pair(k, &key) {
                Some(*since)
            } else {
                None
            },
            None => None,
        };
        match known {
            Some(since) => {
                if now >= since && now - since >= DEBOUNCE_MS {
                    self.taken = (key.0.clone(), key.1.clone());
                    self.waiting = None;
                    Some(key)
                } else {
                    None
                }
            },
            None => {
                self.waiting = Some((key, now));
                None
            },
        }
    }
}

/// What is logged when a choice is taken up.
pub fn watch_message(component: &str) -> (r: String)
    ensures
        r@ == "[watcher] selection change → "@ + component@,
{
    text::cat("[watcher] selection change → ", component)
}

/// What is logged when a choice is refused.
pub fn refusal_message(component: &str, error: &str) -> (r: String)
    ensures
        r@ == "[watcher] rejected "@ + component@ + ": "@ + error@,
{
    let head: String = text::cat3("[watcher] rejected ", component, ": ");
    text::cat(head.as_str(), error)
}

/// A choice is taken up only while it stands in the selection file, and none is
/// taken up twice in a row.
pub proof fn only_new_readings_are_taken_up(
    v: WatchView,
    now: int,
    reading: Option<(Seq<char>, Seq<char>)>,
)
    ensures
        taken_up(v, now, reading) matches Some(k) ==> reading == Some(k) && k != v.taken
            && watched(v, now, reading).taken == k,
        taken_up(v, now, reading) is None ==> watched(v, now, reading).taken == v.taken,
        taken_up(watched(v, now, reading), now, reading) is None || taken_up(
            v,
            now,
            reading,
        ) is None,
{
}

/// A choice that is overwritten before it has waited long enough is never taken
/// up: the later one takes its place and waits anew.
pub proof fn quick_choices_collapse(
    v: WatchView,
    first: (Seq<char>, Seq<char>),
    second: (Seq<char>, Seq<char>),
    t1: int,
    t2: int,
    t3: int,
)
    requires
        v.waiting is None,
        first != v.taken,
        second != v.taken,
        first != second,
        t1 <= t2 <= t3,
    ensures
        taken_up(v, t1, Some(first)) is None,
        taken_up(watched(v, t1, Some(first)), t2, Some(second)) is None,
        taken_up(watched(watched(v, t1, Some(first)), t2, Some(second)), t3, Some(second)) == (
        if t3 - t2 >= DEBOUNCE_MS {
            Some(second)
        } else {
            None
        }),
{
}

/// A new choice is taken up when it has stood in the selection file for long
/// enough, and not before; going back to what is served drops it.
pub proof fn standing_choices_are_taken_up(
    v: WatchView,
    choice: (Seq<char>, Seq<char>),
    t1: int,
    t2: int,
)
    requires
        v.waiting is None,
        choice != v.taken,
        t1 <= t2,
    ensures
        taken_up(watched(v, t1, Some(choice)), t2, Some(choice)) == (if t2 - t1 >= 400 {
            Some(choice)
        } else {
            None
        }),
        watched(watched(v, t1, Some(choice)), t2, Some(v.taken)) == v,
        watched(watched(v, t1, Some(choice)), t2, None) == watched(v, t1, Some(choice)),
{
}

/// What a request to select is answered tells what became of it, with the revision
/// where the component changed and the error where it was refused.
pub proof fn answers_tell_what_became_of_it(r: Result<SelectOutcome, Seq<char>>)
    ensures
        json::field(select_answer(r), "status"@) == Some(
            JsonView::Text(
                match r {
                    Ok(SelectOutcome::Updated(_)) => "updated"@,
                    Ok(SelectOutcome::Unchanged) => "unchanged"@,
                    Err(_) => "rejected"@,
                },
            ),
        ),
        r matches Ok(SelectOutcome::Updated(rev)) ==> json::field(select_answer(r), "revision"@)
            == Some(json::natural_value(rev as nat)),
        r matches Err(e) ==> json::field(select_answer(r), "error"@) == Some(JsonView::Text(e)),
{
    reveal_strlit("status");
    reveal_strlit("revision");
    reveal_strlit("error");
    let o = select_answer(r)->Object_0;
    assert("status"@.len() == 6 && "revision"@.len() == 8 && "error"@.len() == 5);
    assert(json::keys_differ(o));
    json::members_are_read(o, 0);
    if o.len() > 1 {
        json::members_are_read(o, 1);
    }
}

/// The first thing that is wrong keeps the server from starting; where nothing is,
/// the component that was asked for is served at the first revision.
pub proof fn valid_components_are_served(
    root: Result<Seq<char>, Seq<char>>,
    component: Result<Seq<char>, Seq<char>>,
    info: Result<InfoView, ErrorView>,
)
    ensures
        start_of(root, component, info) is Ok <==> root is Ok && component is Ok && info is Ok,
        root matches Err(e) ==> start_of(root, component, info) == Err::<SelectionView, Seq<char>>(
            e,
        ),
        start_of(root, component, info) matches Ok(s) ==> root == Ok::<Seq<char>, Seq<char>>(s.root)
            && component == Ok::<Seq<char>, Seq<char>>(s.component) && s.revision == 1 && s.error
            is None && s.required_inputs == info->Ok_0.required_inputs && s.input_values
            == info->Ok_0.input_values && s.strategy == info->Ok_0.strategy.name(),
{
}

} // verus!
