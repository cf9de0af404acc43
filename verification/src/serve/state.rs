//! The selection that is served.

use crate::json;
use crate::json::{Json, JsonView};
use crate::pipeline::{ComponentInfo, ErrorView, InfoView, PipelineError, Strategy};
use crate::pipeline;
use crate::text;
use vstd::prelude::*;

verus! {

/// What is served: the component, how it is mounted, and what the host page
/// needs to know of it.
#[derive(Debug)]
pub struct CurrentSelection {
    pub component: String,
    pub root: String,
    pub strategy: String,
    /// Goes up with every applied change; the host page reloads when it does.
    pub revision: u64,
    /// The last validation error.
    pub error: Option<String>,
    /// The required signal inputs, for which the host mounts placeholders.
    pub required_inputs: Vec<String>,
    /// The made-up values of the inputs.
    pub input_values: Vec<(String, Json)>,
}

#[verifier::ext_equal]
pub struct SelectionView {
    pub component: Seq<char>,
    pub root: Seq<char>,
    pub strategy: Seq<char>,
    pub revision: nat,
    pub error: Option<Seq<char>>,
    pub required_inputs: Seq<Seq<char>>,
    pub input_values: Seq<(Seq<char>, JsonView)>,
}

impl View for CurrentSelection {
    type V = SelectionView;

    open spec fn view(&self) -> SelectionView {
        SelectionView {
            component: self.component@,
            root: self.root@,
            strategy: self.strategy@,
            revision: self.revision as nat,
            error: text::opt(self.error),
            required_inputs: text::texts(self.required_inputs@),
            input_values: json::members(self.input_values@),
        }
    }
}

#[derive(Debug, Clone, Copy, PartialEq, Eq, Structural)]
pub enum SelectOutcome {
    /// A different component was applied; the page will swap.
    Updated(u64),
    /// The component is already being served: no rebuild, no event.
    Unchanged,
}

/// The selection file through which a choice reaches the server.
#[derive(Debug)]
pub struct SelectionFile {
    pub component: String,
    pub root: String,
}

/// What stands in the selection file.
pub open spec fn selection_record(component: Seq<char>, root: Seq<char>) -> JsonView {
    JsonView::Object(
        seq![("component"@, JsonView::Text(component)), ("root"@, JsonView::Text(root))],
    )
}

impl SelectionFile {
    /// The text of the selection file, which reads as the choice that it was
    /// written for.
    pub fn text(&self) -> (r: String)
        ensures
            r@ == json::json_compact(selection_record(self.component@, self.root@)),
            selection_read(r@) == Some((self.component@, self.root@)),
    {
        let mut o: Vec<(String, Json)> = json::no_members();
        json::append(&mut o, "component", Json::Text(self.component.clone()));
        json::append(&mut o, "root", Json::Text(self.root.clone()));
        let ghost expected = selection_record(self.component@, self.root@)->Object_0;
        assert(json::members(o@) =~= expected);
        proof {
            reveal_strlit("component");
            reveal_strlit("root");
            assert(text::text_less(expected[0].0, expected[1].0));
            assert(json::keys_ascend(expected));
            json::short_keys_are_plain(expected);
            assert(json::reads_back(expected[0].1, 99) && json::reads_back(expected[1].1, 99));
            selection_is_read_back(self.component@, self.root@);
        }
        json::compact(&json::object(o))
    }
}

/// The choice that stands in a value: a component and its root, by their names
/// or as a pair.
pub open spec fn selection_in(record: JsonView) -> Option<(Seq<char>, Seq<char>)> {
    match record {
        JsonView::Array(pair) => if pair.len() != 2 {
            None
        } else {
            match (pair[0], pair[1]) {
                (JsonView::Text(component), JsonView::Text(root)) => Some((component, root)),
                _ => None,
            }
        },
        _ => match (
            json::as_text(json::field(record, "component"@)),
            json::as_text(json::field(record, "root"@)),
        ) {
            (Some(component), Some(root)) => Some((component, root)),
            _ => None,
        },
    }
}

/// The choice that stands in a text, once it is read as a value.
pub open spec fn selection_read(raw: Seq<char>) -> Option<(Seq<char>, Seq<char>)> {
    match json::json_read(raw) {
        Ok(record) => selection_in(record),
        Err(_) => None,
    }
}

pub open spec fn choice(f: Option<SelectionFile>) -> Option<(Seq<char>, Seq<char>)> {
    match f {
        Some(file) => Some((file.component@, file.root@)),
        None => None,
    }
}

impl SelectionFile {
    /// The choice that stands in a value, where it holds a component and a root
    /// and, as a pair, nothing else.
    pub fn of(record: &Json) -> (r: Option<SelectionFile>)
        ensures
            choice(r) == selection_in(record@),
    {
        match record {
            Json::Array(pair) => {
                if pair.len() != 2 {
                    return None;
                }
                assert(json::items(pair@)[0] == pair@[0]@ && json::items(pair@)[1] == pair@[1]@);
                match (pair[0].text(), pair[1].text()) {
                    (Some(component), Some(root)) => Some(
                        SelectionFile { component: component.to_string(), root: root.to_string() },
                    ),
                    _ => None,
                }
            },
            _ => match (record.text_at("component"), record.text_at("root")) {
                (Some(component), Some(root)) => Some(
                    SelectionFile { component: component.to_string(), root: root.to_string() },
                ),
                _ => None,
            },
        }
    }
}

/// The choice that was written into the selection file is the one that is read
/// from it.
pub proof fn selection_is_read_back(component: Seq<char>, root: Seq<char>)
    ensures
        selection_in(selection_record(component, root)) == Some((component, root)),
{
    reveal_strlit("component");
    reveal_strlit("root");
    let o = selection_record(component, root)->Object_0;
    assert(o[0].0.len() != o[1].0.len());
    json::member_from_found(o, "component"@, 0, 0);
    json::member_from_found(o, "root"@, 0, 1);
}

/// The first selection.
pub open spec fn first_selection(
    component: Seq<char>,
    root: Seq<char>,
    strategy: Strategy,
    required_inputs: Seq<Seq<char>>,
    input_values: Seq<(Seq<char>, JsonView)>,
) -> SelectionView {
    SelectionView {
        component,
        root,
        strategy: strategy.name(),
        revision: 1,
        error: None,
        required_inputs,
        input_values,
    }
}

/// Whether a component is the one that is served.
pub open spec fn is_served(s: SelectionView, component: Seq<char>, root: Seq<char>) -> bool {
    s.component == component && s.root == root
}

/// The selection once a component was chosen: nothing changes where it is
/// already served.
pub open spec fn selected(
    s: SelectionView,
    component: Seq<char>,
    root: Seq<char>,
    strategy: Strategy,
    input_values: Seq<(Seq<char>, JsonView)>,
) -> SelectionView {
    if is_served(s, component, root) {
        s
    } else {
        SelectionView {
            component,
            root,
            strategy: strategy.name(),
            input_values,
            error: None,
            revision: s.revision + 1,
            ..s
        }
    }
}

/// The selection once what validation found was applied: another component comes
/// with its own required inputs, and what is invalid changes nothing.
pub open spec fn applied(
    s: SelectionView,
    component: Seq<char>,
    root: Seq<char>,
    info: Result<InfoView, ErrorView>,
) -> SelectionView {
    match info {
        Ok(i) => if is_served(s, component, root) {
            s
        } else {
            SelectionView {
                required_inputs: i.required_inputs,
                ..selected(s, component, root, i.strategy, i.input_values)
            }
        },
        Err(_) => s,
    }
}

/// The selection that is shared by the API, the watcher and the explorer.
pub struct AppState {
    current: CurrentSelection,
}

impl View for AppState {
    type V = SelectionView;

    closed spec fn view(&self) -> SelectionView {
        self.current@
    }
}

impl AppState {
    pub fn new(
        component: &str,
        root: &str,
        strategy: Strategy,
        required_inputs: Vec<String>,
        input_values: Vec<(String, Json)>,
    ) -> (r: AppState)
        ensures
            r@ == first_selection(
                component@,
                root@,
                strategy,
                text::texts(required_inputs@),
                json::members(input_values@),
            ),
    {
        AppState {
            current: CurrentSelection {
                component: component.to_string(),
                root: root.to_string(),
                strategy: strategy.as_str().to_string(),
                revision: 1,
                error: None,
                required_inputs,
                input_values,
            },
        }
    }

    /// What is served.
    pub fn current(&self) -> (r: &CurrentSelection)
        ensures
            r@ == self@,
    {
        &self.current
    }

    /// Apply a new selection, which has been validated. The required inputs stay
    /// as they are.
    pub fn select(
        &mut self,
        component: &str,
        root: &str,
        strategy: Strategy,
        input_values: Vec<(String, Json)>,
    ) -> (r: SelectOutcome)
        requires
            !is_served(old(self)@, component@, root@) ==> old(self)@.revision < u64::MAX,
        ensures
            final(self)@ == selected(
                old(self)@,
                component@,
                root@,
                strategy,
                json::members(input_values@),
            ),
            r == (if is_served(old(self)@, component@, root@) {
                SelectOutcome::Unchanged
            } else {
                SelectOutcome::Updated((old(self)@.revision + 1) as u64)
            }),
    {
        if text::equal(self.current.component.as_str(), component) && text::equal(
            self.current.root.as_str(),
            root,
        ) {
            return SelectOutcome::Unchanged;
        }
        self.current.component = component.to_string();
        self.current.root = root.to_string();
        self.current.strategy = strategy.as_str().to_string();
        self.current.input_values = input_values;
        self.current.error = None;
        self.current.revision = self.current.revision + 1;
        SelectOutcome::Updated(self.current.revision)
    }

    /// Note a validation error; the served component stays. The revision to
    /// signal again is handed back.
    pub fn report_error(&mut self, message: String) -> (r: u64)
        ensures
            final(self)@ == (SelectionView { error: Some(message@), ..old(self)@ }),
            r == old(self)@.revision,
    {
        self.current.error = Some(message);
        self.current.revision
    }

    /// Apply what validation found of a component: an invalid one is refused
    /// with the message of the error, and the selection stays.
    pub fn apply_selection(
        &mut self,
        component: &str,
        root: &str,
        info: &Result<ComponentInfo, PipelineError>,
    ) -> (r: Result<SelectOutcome, String>)
        requires
            *info is Ok && !is_served(old(self)@, component@, root@) ==> old(self)@.revision
                < u64::MAX,
        ensures
            final(self)@ == applied(
                old(self)@,
                component@,
                root@,
                pipeline::info_outcome(*info),
            ),
            match *info {
                Ok(_) => r == Ok::<SelectOutcome, String>(
                    if is_served(old(self)@, component@, root@) {
                        SelectOutcome::Unchanged
                    } else {
                        SelectOutcome::Updated((old(self)@.revision + 1) as u64)
                    },
                ),
                Err(e) => r matches Err(m) && m@ == pipeline::error_text(e@),
            },
    {
        match info {
            Ok(i) => {
                let values: Vec<(String, Json)> = json::duplicate_members(&i.input_values);
                let outcome: SelectOutcome = self.select(component, root, i.strategy, values);
                match outcome {
                    SelectOutcome::Updated(_) => {
                        self.current.required_inputs = text::copies(&i.required_inputs);
                    },
                    SelectOutcome::Unchanged => {},
                }
                Ok(outcome)
            },
            Err(e) => Err(e.message()),
        }
    }
}

/// Choosing what is served changes nothing.
pub proof fn reselection_is_inert(
    s: SelectionView,
    strategy: Strategy,
    input_values: Seq<(Seq<char>, JsonView)>,
)
    ensures
        selected(s, s.component, s.root, strategy, input_values) == s,
{
}

/// Choosing twice is choosing once.
pub proof fn selecting_twice_is_once(
    s: SelectionView,
    component: Seq<char>,
    root: Seq<char>,
    strategy: Strategy,
    input_values: Seq<(Seq<char>, JsonView)>,
)
    ensures
        selected(
            selected(s, component, root, strategy, input_values),
            component,
            root,
            strategy,
            input_values,
        ) == selected(s, component, root, strategy, input_values),
{
}

/// Whatever was chosen before, the last choice is what is served.
pub proof fn last_selection_wins(
    s: SelectionView,
    component: Seq<char>,
    root: Seq<char>,
    strategy: Strategy,
    input_values: Seq<(Seq<char>, JsonView)>,
)
    ensures
        is_served(selected(s, component, root, strategy, input_values), component, root),
{
}

/// The revision never goes down, and it goes up by one exactly when another
/// component comes to be served.
pub proof fn revision_counts_changes(
    s: SelectionView,
    component: Seq<char>,
    root: Seq<char>,
    info: Result<InfoView, ErrorView>,
)
    ensures
        applied(s, component, root, info).revision == s.revision + (if info is Ok && !is_served(
            s,
            component,
            root,
        ) {
            1int
        } else {
            0
        }),
{
}

/// What is served describes its own component: after another one was applied,
/// its strategy, its required inputs and the values of its inputs.
pub proof fn served_component_is_described(
    s: SelectionView,
    component: Seq<char>,
    root: Seq<char>,
    info: InfoView,
)
    requires
        !is_served(s, component, root),
    ensures
        applied(s, component, root, Ok(info)) == (SelectionView {
            component,
            root,
            strategy: info.strategy.name(),
            revision: s.revision + 1,
            error: None,
            required_inputs: info.required_inputs,
            input_values: info.input_values,
        }),
{
}

/// An invalid component is refused without touching what is served.
pub proof fn invalid_selection_changes_nothing(
    s: SelectionView,
    component: Seq<char>,
    root: Seq<char>,
    e: ErrorView,
)
    ensures
        applied(s, component, root, Err(e)) == s,
{
}

} // verus!
