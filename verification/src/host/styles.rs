//! Bridging the global style sheets of a workspace into the host.

use crate::host::tsconfig;
use crate::json;
use crate::json::{Json, JsonView};
use crate::path;
use crate::text;
use vstd::prelude::*;

verus! {

pub type Members = Seq<(Seq<char>, JsonView)>;

// ---------------------------------------------------------------------------
// The project of a component
// ---------------------------------------------------------------------------

/// The root of a project within the workspace.
pub open spec fn project_root(project: JsonView) -> Seq<char> {
    match json::as_text(json::field(project, "root"@)) {
        Some(r) => r,
        None => Seq::empty(),
    }
}

/// Which of the first `n` projects the component belongs to: the one whose root
/// is the longest beginning of the component's path, the first of these.
pub open spec fn best_before(projects: Members, component: Seq<char>, n: int) -> Option<int>
    decreases n,
{
    if n <= 0 {
        None
    } else {
        let best = best_before(projects, component, n - 1);
        let root = project_root(projects[n - 1].1);
        if text::starts(component, root) && (match best {
            Some(b) => root.len() > project_root(projects[b].1).len(),
            None => true,
        }) {
            Some(n - 1)
        } else {
            best
        }
    }
}

/// The project that a component belongs to: the best match, or else the first
/// project.
pub open spec fn project_of(projects: Members, component: Seq<char>) -> Option<int> {
    match best_before(projects, component, projects.len() as int) {
        Some(i) => Some(i),
        None => if projects.len() > 0 {
            Some(0)
        } else {
            None
        },
    }
}

/// The options that a project is built with.
pub open spec fn build_options(project: JsonView) -> Option<JsonView> {
    match json::field_at(project, seq!["architect"@, "build"@, "options"@]) {
        Some(o) => Some(o),
        None => json::field_at(project, seq!["targets"@, "build"@, "options"@]),
    }
}

fn root_of(project: &Json) -> (r: String)
    ensures
        r@ == project_root(project@),
{
    match project.get("root") {
        Some(v) => match v {
            Json::Text(r) => r.clone(),
            _ => {
                let none: String = String::new();
                assert(none@ =~= Seq::<char>::empty());
                none
            },
        },
        None => {
            let none: String = String::new();
            assert(none@ =~= Seq::<char>::empty());
            none
        },
    }
}

fn choose_project(projects: &Vec<(String, Json)>, component: &str) -> (r: Option<usize>)
    ensures
        text::position(r) == project_of(json::members(projects@), component@),
        r matches Some(i) ==> i < projects@.len(),
{
    let ghost all = json::members(projects@);
    let chars: Vec<char> = text::chars_of(component);
    let mut best: Option<usize> = None;
    let mut best_len: usize = 0;
    let mut i: usize = 0;
    while i < projects.len()
        invariant
            i <= projects.len(),
            all == json::members(projects@),
            chars@ == component@,
            text::position(best) == best_before(all, component@, i as int),
            best matches Some(b) ==> b < i && best_len == project_root(all[b as int].1).len(),
        decreases projects.len() - i,
    {
        assert(all[i as int].1 == projects@[i as int].1@);
        let root: String = root_of(&projects[i].1);
        let root_chars: Vec<char> = text::chars_of(root.as_str());
        if text::starts_with(chars.as_slice(), root.as_str()) && (best.is_none()
            || root_chars.len() > best_len) {
            best = Some(i);
            best_len = root_chars.len();
        }
        i = i + 1;
    }
    if best.is_none() && projects.len() > 0 {
        return Some(0);
    }
    best
}

/// The project of a component has the longest root of all whose root is a
/// beginning of the component's path.
pub proof fn longest_root_wins(projects: Members, component: Seq<char>, n: int, k: int)
    requires
        0 <= k < n <= projects.len(),
        text::starts(component, project_root(projects[k].1)),
    ensures
        best_before(projects, component, n) matches Some(b) && 0 <= b < n && text::starts(
            component,
            project_root(projects[b].1),
        ) && project_root(projects[b].1).len() >= project_root(projects[k].1).len(),
    decreases n,
{
    best_is_a_match(projects, component, n - 1);
    if k < n - 1 {
        longest_root_wins(projects, component, n - 1, k);
    }
}

proof fn best_is_a_match(projects: Members, component: Seq<char>, n: int)
    requires
        0 <= n <= projects.len(),
    ensures
        best_before(projects, component, n) matches Some(b) ==> 0 <= b < n && text::starts(
            component,
            project_root(projects[b].1),
        ),
    decreases n,
{
    if n > 0 {
        best_is_a_match(projects, component, n - 1);
    }
}

// ---------------------------------------------------------------------------
// Style sheets and search paths
// ---------------------------------------------------------------------------

/// The place in the host of a path of the workspace; nothing where it lies
/// outside the root.
pub open spec fn reanchored(root: Seq<char>, workspace: Seq<char>, entry: Seq<char>) -> Option<
    Seq<char>,
> {
    match path::relative_to(path::join_of(workspace, entry), root) {
        Some(rel) => Some(tsconfig::in_host(rel)),
        None => None,
    }
}

/// The file of an entry of the style sheets: a text, or an object that is not
/// kept out of the page.
pub open spec fn style_file(entry: JsonView) -> Option<Seq<char>> {
    match entry {
        JsonView::Text(p) => Some(p),
        JsonView::Object(o) => if json::member(o, "inject"@) == Some(JsonView::Bool(false)) {
            None
        } else {
            json::as_text(json::member(o, "input"@))
        },
        _ => None,
    }
}

/// The style sheets in the host, and what is logged, by the entries of the
/// workspace: a file that is missing is skipped.
pub open spec fn styles_of(
    root: Seq<char>,
    workspace: Seq<char>,
    entries: Seq<JsonView>,
    present: Seq<Seq<char>>,
) -> (Seq<Seq<char>>, Seq<Seq<char>>)
    decreases entries.len(),
{
    if entries.len() == 0 {
        (Seq::empty(), Seq::empty())
    } else {
        let (styles, log) = styles_of(root, workspace, entries.drop_last(), present);
        match style_file(entries.last()) {
            Some(file) => if !present.contains(path::join_of(workspace, file)) {
                (
                    styles,
                    log.push(
                        "[host] angular.json style '"@ + file + "' does not exist — skipped"@,
                    ),
                )
            } else {
                match reanchored(root, workspace, file) {
                    Some(place) => if styles.contains(place) {
                        (styles, log)
                    } else {
                        (styles.push(place), log)
                    },
                    None => (styles, log),
                }
            },
            None => (styles, log),
        }
    }
}

/// The search paths in the host, by those of the workspace.
pub open spec fn searches_of(root: Seq<char>, workspace: Seq<char>, entries: Seq<JsonView>) -> Seq<
    Seq<char>,
>
    decreases entries.len(),
{
    if entries.len() == 0 {
        Seq::empty()
    } else {
        let earlier = searches_of(root, workspace, entries.drop_last());
        match entries.last() {
            JsonView::Text(e) => match reanchored(root, workspace, e) {
                Some(place) => if earlier.contains(place) {
                    earlier
                } else {
                    earlier.push(place)
                },
                None => earlier,
            },
            _ => earlier,
        }
    }
}

/// The entries of a list that may not be there.
pub open spec fn list_of(j: Option<JsonView>) -> Seq<JsonView> {
    match j {
        Some(JsonView::Array(a)) => a,
        _ => Seq::empty(),
    }
}

/// The style sheets that a project lists.
pub open spec fn style_entries(project: JsonView) -> Seq<JsonView> {
    match build_options(project) {
        Some(o) => list_of(json::field(o, "styles"@)),
        None => Seq::empty(),
    }
}

/// The search paths that a project lists.
pub open spec fn search_entries(project: JsonView) -> Seq<JsonView> {
    match build_options(project) {
        Some(o) => list_of(
            json::field_at(o, seq!["stylePreprocessorOptions"@, "includePaths"@]),
        ),
        None => Seq::empty(),
    }
}

fn reanchor(root: &str, workspace: &str, entry: &str) -> (r: Option<String>)
    ensures
        text::opt(r) == reanchored(root@, workspace@, entry@),
{
    let full: String = path::join(workspace, entry);
    match path::strip_prefix(full.as_str(), root) {
        Some(rel) => Some(tsconfig::host_place(rel.as_str())),
        None => None,
    }
}

/// The file of an entry of the style sheets.
pub fn style_entry_file(entry: &Json) -> (r: Option<String>)
    ensures
        text::opt(r) == style_file(entry@),
{
    match entry {
        Json::Text(p) => Some(p.clone()),
        Json::Object(o) => {
            proof {
                json::object_view(*o);
            }
            let kept_out: bool = match json::lookup(o.as_slice(), "inject") {
                Some(v) => match v {
                    Json::Bool(b) => !*b,
                    _ => false,
                },
                None => false,
            };
            if kept_out {
                return None;
            }
            match json::lookup(o.as_slice(), "input") {
                Some(v) => match v {
                    Json::Text(t) => Some(t.clone()),
                    _ => None,
                },
                None => None,
            }
        },
        _ => None,
    }
}

fn map_styles(root: &str, workspace: &str, entries: &Vec<Json>, present: &Vec<String>) -> (r: (
    Vec<String>,
    Vec<String>,
))
    ensures
        (text::texts(r.0@), text::texts(r.1@)) == styles_of(
            root@,
            workspace@,
            json::items(entries@),
            text::texts(present@),
        ),
{
    let ghost all = json::items(entries@);
    let ghost files = text::texts(present@);
    let mut styles: Vec<String> = Vec::new();
    let mut log: Vec<String> = Vec::new();
    let mut i: usize = 0;
    assert(all.take(0) =~= Seq::<JsonView>::empty());
    assert(text::texts(styles@) =~= Seq::<Seq<char>>::empty());
    assert(text::texts(log@) =~= Seq::<Seq<char>>::empty());
    while i < entries.len()
        invariant
            i <= entries.len(),
            all == json::items(entries@),
            files == text::texts(present@),
            (text::texts(styles@), text::texts(log@)) == styles_of(
                root@,
                workspace@,
                all.take(i as int),
                files,
            ),
        decreases entries.len() - i,
    {
        proof {
            assert(all.take(i + 1).drop_last() =~= all.take(i as int));
            assert(all.take(i + 1).last() == entries@[i as int]@);
        }
        match style_entry_file(&entries[i]) {
            Some(file) => {
                let full: String = path::join(workspace, file.as_str());
                if !text::among(present, full.as_str()) {
                    let ghost before = text::texts(log@);
                    let line: String = text::cat3(
                        "[host] angular.json style '",
                        file.as_str(),
                        "' does not exist — skipped",
                    );
                    let ghost new = line@;
                    log.push(line);
                    assert(text::texts(log@) =~= before.push(new));
                } else {
                    match reanchor(root, workspace, file.as_str()) {
                        Some(place) => {
                            if !text::among(&styles, place.as_str()) {
                                let ghost before = text::texts(styles@);
                                let ghost new = place@;
                                styles.push(place);
                                assert(text::texts(styles@) =~= before.push(new));
                            }
                        },
                        None => {},
                    }
                }
            },
            None => {},
        }
        i = i + 1;
    }
    assert(all.take(all.len() as int) =~= all);
    (styles, log)
}

fn map_searches(root: &str, workspace: &str, entries: &Vec<Json>) -> (r: Vec<String>)
    ensures
        text::texts(r@) == searches_of(root@, workspace@, json::items(entries@)),
{
    let ghost all = json::items(entries@);
    let mut out: Vec<String> = Vec::new();
    let mut i: usize = 0;
    assert(all.take(0) =~= Seq::<JsonView>::empty());
    assert(text::texts(out@) =~= Seq::<Seq<char>>::empty());
    while i < entries.len()
        invariant
            i <= entries.len(),
            all == json::items(entries@),
            text::texts(out@) == searches_of(root@, workspace@, all.take(i as int)),
        decreases entries.len() - i,
    {
        proof {
            assert(all.take(i + 1).drop_last() =~= all.take(i as int));
            assert(all.take(i + 1).last() == entries@[i as int]@);
        }
        match &entries[i] {
            Json::Text(e) => match reanchor(root, workspace, e.as_str()) {
                Some(place) => {
                    if !text::among(&out, place.as_str()) {
                        let ghost before = text::texts(out@);
                        let ghost new = place@;
                        out.push(place);
                        assert(text::texts(out@) =~= before.push(new));
                    }
                },
                None => {},
            },
            _ => {},
        }
        i = i + 1;
    }
    assert(all.take(all.len() as int) =~= all);
    out
}

/// A style sheet that is missing is not bridged: every file in the host stands
/// for one that is present.
pub proof fn bridged_styles_exist(
    root: Seq<char>,
    workspace: Seq<char>,
    entries: Seq<JsonView>,
    present: Seq<Seq<char>>,
    k: int,
)
    requires
        0 <= k < styles_of(root, workspace, entries, present).0.len(),
    ensures
        exists|file: Seq<char>|
            present.contains(#[trigger] path::join_of(workspace, file)) && reanchored(
                root,
                workspace,
                file,
            ) == Some(styles_of(root, workspace, entries, present).0[k]),
    decreases entries.len(),
{
    if entries.len() > 0 {
        let earlier = styles_of(root, workspace, entries.drop_last(), present).0;
        if k < earlier.len() {
            bridged_styles_exist(root, workspace, entries.drop_last(), present, k);
        } else {
            let file = style_file(entries.last())->0;
            assert(present.contains(path::join_of(workspace, file)));
        }
    }
}

// ---------------------------------------------------------------------------
// The bridge
// ---------------------------------------------------------------------------

/// Where the style sheets of the host are listed.
pub open spec fn host_styles_path() -> Seq<Seq<char>> {
    seq!["projects"@, "host"@, "architect"@, "build"@, "options"@, "styles"@]
}

/// Where the search paths of the host are listed.
pub open spec fn host_searches_path() -> Seq<Seq<char>> {
    seq![
        "projects"@,
        "host"@,
        "architect"@,
        "build"@,
        "options"@,
        "stylePreprocessorOptions"@,
    ]
}

/// Whether a text is among the values.
pub open spec fn lists(values: Seq<JsonView>, t: Seq<char>) -> bool {
    values.contains(JsonView::Text(t))
}

/// The style sheets of the host with those of the workspace behind them, each
/// once.
pub open spec fn appended(values: Seq<JsonView>, styles: Seq<Seq<char>>) -> Seq<JsonView>
    decreases styles.len(),
{
    if styles.len() == 0 {
        values
    } else {
        let earlier = appended(values, styles.drop_last());
        if lists(earlier, styles.last()) {
            earlier
        } else {
            earlier.push(JsonView::Text(styles.last()))
        }
    }
}

/// The host's configuration with the style sheets of the workspace.
pub open spec fn with_styles(host: JsonView, styles: Seq<Seq<char>>) -> JsonView {
    json::with_path(
        host,
        host_styles_path(),
        JsonView::Array(appended(list_of(json::field_at(host, host_styles_path())), styles)),
    )
}

/// The host's configuration with the search paths of the workspace.
pub open spec fn with_searches(host: JsonView, searches: Seq<Seq<char>>) -> JsonView {
    if searches.len() == 0 {
        host
    } else {
        json::with_path(
            host,
            host_searches_path(),
            JsonView::Object(seq![("includePaths"@, json::text_array(searches))]),
        )
    }
}

/// What the style sheets of a workspace come to in the host.
#[derive(Debug)]
pub struct StylePlan {
    /// The project that they are taken from.
    pub project: String,
    pub styles: Vec<String>,
    pub searches: Vec<String>,
}

/// What is known of the workspace's style sheets: what there is to bridge, and
/// what is to be logged.
pub open spec fn plan_project(
    root: Seq<char>,
    workspace: Seq<char>,
    project: JsonView,
    present: Seq<Seq<char>>,
) -> (Seq<Seq<char>>, Seq<Seq<char>>, Seq<Seq<char>>) {
    let (styles, log) = styles_of(root, workspace, style_entries(project), present);
    (styles, searches_of(root, workspace, search_entries(project)), log)
}

/// What to do about the style sheets of a workspace.
#[verifier::ext_equal]
pub enum StyleStep {
    /// Nothing but to log.
    Stop(Seq<Seq<char>>),
    /// Bridge what was found of a project: its name, the style sheets, the search
    /// paths, and what is to be logged first.
    Bridge(Seq<char>, Seq<Seq<char>>, Seq<Seq<char>>, Seq<Seq<char>>),
}

/// The path of the component from the root, as projects are matched with it.
pub open spec fn component_place(root: Seq<char>, component: Seq<char>) -> Seq<char> {
    match path::relative_to(component, root) {
        Some(rel) => text::replaced(rel, '\\', '/'),
        None => Seq::empty(),
    }
}

/// What to do about the style sheets of the workspace in the directory
/// `workspace`, whose configuration is `angular`.
pub open spec fn style_step(
    root: Seq<char>,
    component: Seq<char>,
    workspace: Seq<char>,
    angular: JsonView,
    present: Seq<Seq<char>>,
) -> StyleStep {
    match json::field(angular, "projects"@) {
        Some(JsonView::Object(projects)) => match project_of(
            projects,
            component_place(root, component),
        ) {
            Some(i) => {
                let (styles, searches, log) = plan_project(
                    root,
                    workspace,
                    projects[i].1,
                    present,
                );
                if styles.len() == 0 && searches.len() == 0 {
                    StyleStep::Stop(
                        log.push(
                            "[host] angular.json declares no global styles or include paths to bridge"@,
                        ),
                    )
                } else {
                    StyleStep::Bridge(projects[i].0, styles, searches, log)
                }
            },
            None => StyleStep::Stop(Seq::empty()),
        },
        _ => StyleStep::Stop(
            seq!["[host!] angular.json has no projects — global styles will not load"@],
        ),
    }
}

/// The outcome of a plan: what there is to bridge, where there is something, and
/// what is to be logged.
pub open spec fn step_view(plan: Option<StylePlan>, log: Seq<String>) -> StyleStep {
    match plan {
        Some(p) => StyleStep::Bridge(
            p.project@,
            text::texts(p.styles@),
            text::texts(p.searches@),
            text::texts(log),
        ),
        None => StyleStep::Stop(text::texts(log)),
    }
}

fn options_of(project: &Json) -> (r: Option<&Json>)
    ensures
        match r {
            Some(o) => build_options(project@) == Some(o@),
            None => build_options(project@) is None,
        },
{
    let architect: Vec<&str> = vec!["architect", "build", "options"];
    let targets: Vec<&str> = vec!["targets", "build", "options"];
    proof {
        assert(json::keys(architect@) =~= seq!["architect"@, "build"@, "options"@]);
        assert(json::keys(targets@) =~= seq!["targets"@, "build"@, "options"@]);
    }
    match project.get_at(architect.as_slice()) {
        Some(o) => Some(o),
        None => project.get_at(targets.as_slice()),
    }
}

fn entries_at<'a>(options: Option<&'a Json>, nested: bool, none: &'a Vec<Json>) -> (r: &'a Vec<
    Json,
>)
    requires
        none@.len() == 0,
    ensures
        json::items(r@) == (match options {
            Some(o) => if nested {
                list_of(json::field_at(o@, seq!["stylePreprocessorOptions"@, "includePaths"@]))
            } else {
                list_of(json::field(o@, "styles"@))
            },
            None => Seq::empty(),
        }),
{
    assert(json::items(none@) =~= Seq::<JsonView>::empty());
    match options {
        Some(o) => {
            let found: Option<&Json> = if nested {
                let place: Vec<&str> = vec!["stylePreprocessorOptions", "includePaths"];
                assert(json::keys(place@) =~= seq!["stylePreprocessorOptions"@, "includePaths"@]);
                o.get_at(place.as_slice())
            } else {
                o.get("styles")
            };
            match found {
                Some(v) => match v {
                    Json::Array(a) => {
                        proof {
                            json::array_view(*a);
                        }
                        a
                    },
                    _ => none,
                },
                None => none,
            }
        },
        None => none,
    }
}

/// The style files whose presence decides what is bridged, `angular` being the
/// configuration of the workspace in the directory `workspace`.
pub open spec fn style_files(
    root: Seq<char>,
    component: Seq<char>,
    workspace: Seq<char>,
    angular: JsonView,
) -> Seq<Seq<char>> {
    match json::field(angular, "projects"@) {
        Some(JsonView::Object(projects)) => match project_of(
            projects,
            component_place(root, component),
        ) {
            Some(i) => files_of(workspace, style_entries(projects[i].1)),
            None => Seq::empty(),
        },
        _ => Seq::empty(),
    }
}

/// The files of the entries of the style sheets.
pub open spec fn files_of(workspace: Seq<char>, entries: Seq<JsonView>) -> Seq<Seq<char>>
    decreases entries.len(),
{
    if entries.len() == 0 {
        Seq::empty()
    } else {
        let earlier = files_of(workspace, entries.drop_last());
        match style_file(entries.last()) {
            Some(file) => earlier.push(path::join_of(workspace, file)),
            None => earlier,
        }
    }
}

fn place_of(root: &str, component: &str) -> (r: String)
    ensures
        r@ == component_place(root@, component@),
{
    match path::strip_prefix(component, root) {
        Some(rel) => {
            let chars: Vec<char> = text::chars_of(rel.as_str());
            let rel: Vec<char> = text::replace(chars.as_slice(), '\\', '/');
            text::text_of(rel.as_slice())
        },
        None => {
            let none: String = String::new();
            assert(none@ =~= Seq::<char>::empty());
            none
        },
    }
}

/// The style files whose presence decides what is bridged; `workspace` is the
/// directory of the workspace file `angular`.
pub fn wanted_style_files(root: &str, component: &str, workspace: &str, angular: &Json) -> (r: Vec<
    String,
>)
    ensures
        text::texts(r@) == style_files(root@, component@, workspace@, angular@),
{
    let mut out: Vec<String> = Vec::new();
    assert(text::texts(out@) =~= Seq::<Seq<char>>::empty());
    match angular.get("projects") {
        Some(v) => match v {
            Json::Object(projects) => {
                proof {
                    json::object_view(*projects);
                }
                let place: String = place_of(root, component);
                match choose_project(projects, place.as_str()) {
                    Some(k) => {
                        assert(json::members(projects@)[k as int].1 == projects@[k as int].1@);
                        let none: Vec<Json> = Vec::new();
                        let entries: &Vec<Json> = entries_at(
                            options_of(&projects[k].1),
                            false,
                            &none,
                        );
                        let ghost all = json::items(entries@);
                        let mut i: usize = 0;
                        assert(all.take(0) =~= Seq::<JsonView>::empty());
                        while i < entries.len()
                            invariant
                                i <= entries.len(),
                                all == json::items(entries@),
                                text::texts(out@) == files_of(workspace@, all.take(i as int)),
                            decreases entries.len() - i,
                        {
                            proof {
                                assert(all.take(i + 1).drop_last() =~= all.take(i as int));
                                assert(all.take(i + 1).last() == entries@[i as int]@);
                            }
                            match style_entry_file(&entries[i]) {
                                Some(file) => {
                                    let ghost before = text::texts(out@);
                                    let full: String = path::join(workspace, file.as_str());
                                    let ghost new = full@;
                                    out.push(full);
                                    assert(text::texts(out@) =~= before.push(new));
                                },
                                None => {},
                            }
                            i = i + 1;
                        }
                        assert(all.take(all.len() as int) =~= all);
                    },
                    None => {},
                }
            },
            _ => {},
        },
        None => {},
    }
    out
}

/// What to do about the style sheets of a workspace: what there is to bridge,
/// where there is something, and what is to be logged. `workspace` is the
/// directory of the workspace file `angular`, `present` the style files that
/// exist.
pub fn plan_global_styles(
    root: &str,
    component: &str,
    workspace: &str,
    angular: &Json,
    present: &Vec<String>,
) -> (r: (Option<StylePlan>, Vec<String>))
    ensures
        step_view(r.0, r.1@) == style_step(
            root@,
            component@,
            workspace@,
            angular@,
            text::texts(present@),
        ),
{
    let mut log: Vec<String> = Vec::new();
    assert(text::texts(log@) =~= Seq::<Seq<char>>::empty());
    match angular.get("projects") {
        Some(v) => match v {
            Json::Object(projects) => {
                proof {
                    json::object_view(*projects);
                }
                let place: String = place_of(root, component);
                match choose_project(projects, place.as_str()) {
                    Some(k) => {
                        let ghost project = json::members(projects@)[k as int];
                        assert(project.1 == projects@[k as int].1@);
                        let none: Vec<Json> = Vec::new();
                        let options: Option<&Json> = options_of(&projects[k].1);
                        let entries: &Vec<Json> = entries_at(options, false, &none);
                        let paths: &Vec<Json> = entries_at(options, true, &none);
                        let (styles, skipped): (Vec<String>, Vec<String>) = map_styles(
                            root,
                            workspace,
                            entries,
                            present,
                        );
                        let searches: Vec<String> = map_searches(root, workspace, paths);
                        assert(text::texts(styles@).len() == styles@.len());
                        assert(text::texts(searches@).len() == searches@.len());
                        if styles.len() == 0 && searches.len() == 0 {
                            let mut log: Vec<String> = skipped;
                            let ghost before = text::texts(log@);
                            log.push(
                                "[host] angular.json declares no global styles or include paths to bridge".to_string(),
                            );
                            assert(text::texts(log@) =~= before.push(
                                "[host] angular.json declares no global styles or include paths to bridge"@,
                            ));
                            return (None, log);
                        }
                        let name: String = projects[k].0.clone();
                        return (Some(StylePlan { project: name, styles, searches }), skipped);
                    },
                    None => {
                        return (None, log);
                    },
                }
            },
            _ => {},
        },
        None => {},
    }
    log.push("[host!] angular.json has no projects — global styles will not load".to_string());
    assert(text::texts(log@) =~= seq![
        "[host!] angular.json has no projects — global styles will not load"@,
    ]);
    (None, log)
}

fn listed(values: &Vec<Json>, t: &str) -> (r: bool)
    ensures
        r == lists(json::items(values@), t@),
{
    let mut i: usize = 0;
    while i < values.len()
        invariant
            i <= values.len(),
            forall|k: int| 0 <= k < i ==> #[trigger] values@[k]@ != JsonView::Text(t@),
        decreases values.len() - i,
    {
        match &values[i] {
            Json::Text(v) => {
                if text::equal(v.as_str(), t) {
                    assert(json::items(values@)[i as int] == JsonView::Text(t@));
                    return true;
                }
            },
            _ => {},
        }
        i = i + 1;
    }
    proof {
        if lists(json::items(values@), t@) {
            let k = choose|k: int|
                0 <= k < json::items(values@).len() && json::items(values@)[k] == JsonView::Text(
                    t@,
                );
            assert(values@[k]@ == JsonView::Text(t@));
        }
    }
    false
}

/// Whether the style sheets and search paths can be written into the host's
/// configuration.
pub open spec fn takes_styles(host: JsonView) -> bool {
    json::settable(host, host_styles_path())
}

proof fn styles_leave_room(host: JsonView, styles: Seq<Seq<char>>)
    requires
        takes_styles(host),
    ensures
        json::settable(with_styles(host, styles), host_searches_path()),
{
    let value = JsonView::Array(
        appended(list_of(json::field_at(host, host_styles_path())), styles),
    );
    let a = host_styles_path();
    let b = host_searches_path();
    assert forall|k: int| 0 <= k < 5 implies a[k] == b[k] by {}
    settable_beside(host, a, b, value);
}

/// A member that was set is read back.
proof fn set_member_is_read(j: JsonView, key: Seq<char>, value: JsonView)
    ensures
        json::member_or_null(json::with_member(j, key, value), key) == value,
{
    match j {
        JsonView::Object(o) => {
            json::insert_then_read(o, key, value, key);
        },
        _ => {
            let none = Seq::<(Seq<char>, JsonView)>::empty();
            json::insert_then_read(none, key, value, key);
            assert(json::inserted(none, key, value) =~= seq![(key, value)]);
        },
    }
}

/// Setting a member leaves room for another one in the same place.
proof fn settable_beside(j: JsonView, a: Seq<Seq<char>>, b: Seq<Seq<char>>, value: JsonView)
    requires
        json::settable(j, a),
        a.len() == b.len(),
        a.len() > 0,
        forall|k: int| 0 <= k < a.len() - 1 ==> a[k] == b[k],
    ensures
        json::settable(json::with_path(j, a, value), b),
    decreases a.len(),
{
    let held = json::member_or_null(j, a[0]);
    let inner = json::with_path(held, a.skip(1), value);
    let out = json::with_member(j, a[0], inner);
    assert(json::with_path(j, a, value) == out);
    assert(json::extensible(out));
    let next = json::member_or_null(out, b[0]);
    if a.len() > 1 {
        assert(a[0] == b[0]);
        set_member_is_read(j, a[0], inner);
        assert(next == inner);
        assert(json::settable(held, a.skip(1)));
        assert forall|k: int| 0 <= k < a.skip(1).len() - 1 implies a.skip(1)[k] == b.skip(1)[k] by {
            assert(a[k + 1] == b[k + 1]);
        }
        settable_beside(held, a.skip(1), b.skip(1), value);
    } else {
        assert(b.skip(1).len() == 0);
    }
    assert(json::settable(next, b.skip(1)));
    assert(json::settable(out, b));
}

fn host_path(last: &'static str) -> (r: Vec<&'static str>)
    ensures
        json::keys(r@) == seq!["projects"@, "host"@, "architect"@, "build"@, "options"@, last@],
{
    let place: Vec<&'static str> = vec!["projects", "host", "architect", "build", "options", last];
    assert(json::keys(place@) =~= seq![
        "projects"@,
        "host"@,
        "architect"@,
        "build"@,
        "options"@,
        last@,
    ]);
    place
}

/// Write the style sheets and search paths of a workspace into the host's
/// configuration.
pub fn bridge_global_styles(host: Json, plan: &StylePlan) -> (r: Json)
    requires
        takes_styles(host@),
    ensures
        r@ == with_searches(
            with_styles(host@, text::texts(plan.styles@)),
            text::texts(plan.searches@),
        ),
{
    let place: Vec<&str> = host_path("styles");
    let ghost old_host = host@;
    let mut values: Vec<Json> = match host.get_at(place.as_slice()) {
        Some(v) => match v.duplicate() {
            Json::Array(a) => {
                proof {
                    json::array_view(a);
                }
                a
            },
            _ => Vec::new(),
        },
        None => Vec::new(),
    };
    let ghost start = list_of(json::field_at(old_host, host_styles_path()));
    assert(json::items(values@) =~= start);
    let ghost all = text::texts(plan.styles@);
    let mut i: usize = 0;
    assert(all.take(0) =~= Seq::<Seq<char>>::empty());
    while i < plan.styles.len()
        invariant
            i <= plan.styles.len(),
            all == text::texts(plan.styles@),
            json::items(values@) == appended(start, all.take(i as int)),
        decreases plan.styles.len() - i,
    {
        proof {
            assert(all.take(i + 1).drop_last() =~= all.take(i as int));
            assert(all.take(i + 1).last() == plan.styles@[i as int]@);
        }
        if !listed(&values, plan.styles[i].as_str()) {
            let ghost before = json::items(values@);
            values.push(Json::Text(plan.styles[i].clone()));
            assert(json::items(values@) =~= before.push(JsonView::Text(all[i as int])));
        }
        i = i + 1;
    }
    proof {
        assert(all.take(all.len() as int) =~= all);
        json::array_view(values);
        styles_leave_room(old_host, all);
    }
    let styled: Json = json::set_path(host, place.as_slice(), Json::Array(values));
    assert(text::texts(plan.searches@).len() == plan.searches@.len());
    if plan.searches.len() == 0 {
        return styled;
    }
    let searches: Vec<&str> = host_path("stylePreprocessorOptions");
    let mut o: Vec<(String, Json)> = Vec::new();
    o.push(("includePaths".to_string(), json::array_of_texts(&plan.searches)));
    proof {
        json::object_view(o);
        assert(json::members(o@) =~= seq![
            ("includePaths"@, json::text_array(text::texts(plan.searches@))),
        ]);
    }
    json::set_path(styled, searches.as_slice(), Json::Object(o))
}

/// Whether the style sheets and search paths can be written into the host's
/// configuration.
pub fn styles_fit(host: &Json) -> (r: bool)
    ensures
        r == takes_styles(host@),
{
    let place: Vec<&str> = host_path("styles");
    json::can_set(host, place.as_slice())
}

/// What is logged once the host's configuration is written, by the project and
/// how many style sheets and search paths it has.
pub open spec fn bridged_line(project: Seq<char>, styles: nat, searches: nat) -> Seq<char> {
    "[host] bridged "@ + text::decimal(styles) + " global stylesheet(s) and "@ + text::decimal(
        searches,
    ) + " include path(s) from project '"@ + project + "'"@
}

/// What is logged once the host's configuration is written.
pub fn bridged_styles_message(plan: &StylePlan) -> (r: String)
    ensures
        r@ == bridged_line(plan.project@, plan.styles@.len(), plan.searches@.len()),
{
    let head: String = text::cat5(
        "[host] bridged ",
        text::number_text(plan.styles.len() as u64).as_str(),
        " global stylesheet(s) and ",
        text::number_text(plan.searches.len() as u64).as_str(),
        " include path(s) from project '",
    );
    text::cat3(head.as_str(), plan.project.as_str(), "'")
}

/// What the host lists already stays listed, in its place.
pub proof fn host_styles_stay(values: Seq<JsonView>, styles: Seq<Seq<char>>)
    ensures
        appended(values, styles).len() >= values.len(),
        appended(values, styles).take(values.len() as int) == values,
        forall|k: int| 0 <= k < styles.len() ==> lists(appended(values, styles), #[trigger] styles[k]),
    decreases styles.len(),
{
    if styles.len() > 0 {
        let head = styles.drop_last();
        host_styles_stay(values, head);
        let earlier = appended(values, head);
        let out = appended(values, styles);
        let new = JsonView::Text(styles.last());
        if !lists(earlier, styles.last()) {
            assert(out =~= earlier.push(new));
            assert(out[earlier.len() as int] == new);
        }
        assert(out.take(values.len() as int) =~= earlier.take(values.len() as int));
        assert forall|k: int| 0 <= k < styles.len() implies lists(out, #[trigger] styles[k]) by {
            if k < head.len() {
                assert(head[k] == styles[k]);
                assert(lists(earlier, head[k]));
                let m = choose|m: int|
                    0 <= m < earlier.len() && earlier[m] == JsonView::Text(styles[k]);
                assert(out[m] == JsonView::Text(styles[k]));
            }
        }
    } else {
        assert(values.take(values.len() as int) =~= values);
    }
}

// ---------------------------------------------------------------------------
// Whose style sheets are bridged
// ---------------------------------------------------------------------------

/// Whether a project is listed at `i` whose root is a beginning of the path
/// `rel`, and none that is listed has a longer root of this kind.
pub open spec fn is_nearest(projects: Members, rel: Seq<char>, i: int) -> bool {
    &&& 0 <= i < projects.len()
    &&& project_root(projects[i].1).len() <= rel.len()
    &&& rel.take(project_root(projects[i].1).len() as int) == project_root(projects[i].1)
    &&& forall|k: int|
        0 <= k < projects.len() && project_root((#[trigger] projects[k]).1).len() <= rel.len()
            && rel.take(project_root(projects[k].1).len() as int) == project_root(projects[k].1)
            ==> project_root(projects[k].1).len() <= project_root(projects[i].1).len()
}

/// The root of a project is the text of its member `root`; a project without one
/// has the empty root.
pub proof fn roots_are_read(o: Members, at: int, root: Seq<char>)
    requires
        json::keys_differ(o),
    ensures
        0 <= at < o.len() && o[at] == ("root"@, JsonView::Text(root)) ==> project_root(
            JsonView::Object(o),
        ) == root,
        (forall|i: int| 0 <= i < o.len() ==> (#[trigger] o[i]).0 != "root"@) ==> project_root(
            JsonView::Object(o),
        ) == Seq::<char>::empty(),
{
    json::member_from_is_least(o, "root"@, 0);
    if 0 <= at < o.len() && o[at] == ("root"@, JsonView::Text(root)) {
        json::member_from_found(o, "root"@, 0, at);
    }
}

/// The style sheets of the project that the component lies in are taken: the
/// component being the root joined with `rel`, the project is one whose root is a
/// beginning of `rel`, and no listed project has a longer such root.
pub proof fn styles_come_from_the_nearest_project(
    root: Seq<char>,
    rel: Seq<char>,
    workspace: Seq<char>,
    angular: JsonView,
    present: Seq<Seq<char>>,
    k: int,
)
    requires
        path::is_plain(rel),
        !rel.contains('\\'),
        json::field(angular, "projects"@) matches Some(JsonView::Object(projects)) && 0 <= k
            < projects.len() && project_root(projects[k].1).len() <= rel.len() && rel.take(
            project_root(projects[k].1).len() as int,
        ) == project_root(projects[k].1),
    ensures
        exists|i: int|
            #[trigger] is_nearest(json::field(angular, "projects"@)->0->Object_0, rel, i) && (
            match style_step(root, path::join_of(root, rel), workspace, angular, present) {
                StyleStep::Bridge(name, styles, searches, log) => {
                    let project = (json::field(angular, "projects"@)->0->Object_0)[i];
                    &&& name == project.0
                    &&& styles == styles_of(root, workspace, style_entries(project.1), present).0
                    &&& searches == searches_of(root, workspace, search_entries(project.1))
                },
                StyleStep::Stop(log) => {
                    let project = (json::field(angular, "projects"@)->0->Object_0)[i];
                    &&& styles_of(root, workspace, style_entries(project.1), present).0.len() == 0
                    &&& searches_of(root, workspace, search_entries(project.1)).len() == 0
                },
            }),
{
    let projects = json::field(angular, "projects"@)->0->Object_0;
    let component = path::join_of(root, rel);
    path::joined_path_is_taken_apart(root, rel);
    text::nothing_to_replace(rel, '\\', '/');
    assert(component_place(root, component) == rel);
    let n = projects.len() as int;
    assert forall|m: int| #![trigger projects[m]] 0 <= m < n implies (text::starts(
        rel,
        project_root(projects[m].1),
    ) <==> project_root(projects[m].1).len() <= rel.len() && rel.take(
        project_root(projects[m].1).len() as int,
    ) == project_root(projects[m].1)) by {
        let r = project_root(projects[m].1);
        if r.len() <= rel.len() {
            assert(rel.subrange(0, r.len() as int) =~= rel.take(r.len() as int));
        }
    }
    longest_root_wins(projects, rel, n, k);
    let i = best_before(projects, rel, n)->0;
    assert forall|m: int|
        0 <= m < n && project_root((#[trigger] projects[m]).1).len() <= rel.len() && rel.take(
            project_root(projects[m].1).len() as int,
        ) == project_root(projects[m].1) implies project_root(projects[m].1).len()
        <= project_root(projects[i].1).len() by {
        longest_root_wins(projects, rel, n, m);
    }
    assert(is_nearest(projects, rel, i));
}

/// A style sheet of the workspace is bridged to where it lies in the host: below
/// `./external`, the directory of the workspace and the entry one behind the
/// other.
pub proof fn styles_lie_below_external(root: Seq<char>, rel: Seq<char>, entry: Seq<char>)
    requires
        tsconfig::is_place(rel),
        tsconfig::is_place(entry),
    ensures
        reanchored(root, path::join_of(root, rel), entry) == Some(
            "./external/"@ + (rel + "/"@ + entry),
        ),
        reanchored(root, root, entry) == Some("./external/"@ + entry),
{
    tsconfig::places_join(rel, entry);
    tsconfig::joins_in_a_row(root, rel, entry);
    tsconfig::place_under_the_root(root, rel + "/"@ + entry);
    tsconfig::place_under_the_root(root, entry);
}

/// Every style sheet that is listed, is not kept out of the page, is present and
/// lies under the root is bridged.
pub proof fn present_styles_are_bridged(
    root: Seq<char>,
    workspace: Seq<char>,
    entries: Seq<JsonView>,
    present: Seq<Seq<char>>,
    k: int,
    file: Seq<char>,
    place: Seq<char>,
)
    requires
        0 <= k < entries.len(),
        entries[k] == JsonView::Text(file) || (entries[k] matches JsonView::Object(o)
            && json::member(o, "input"@) == Some(JsonView::Text(file)) && json::member(
            o,
            "inject"@,
        ) != Some(JsonView::Bool(false))),
        present.contains(path::join_of(workspace, file)),
        reanchored(root, workspace, file) == Some(place),
    ensures
        styles_of(root, workspace, entries, present).0.contains(place),
    decreases entries.len(),
{
    let head = entries.drop_last();
    let earlier = styles_of(root, workspace, head, present).0;
    let all = styles_of(root, workspace, entries, present).0;
    if k < entries.len() - 1 {
        assert(head[k] == entries[k]);
        present_styles_are_bridged(root, workspace, head, present, k, file, place);
        let m = choose|m: int| 0 <= m < earlier.len() && earlier[m] == place;
        assert(all[m] == place);
    } else {
        assert(entries.last() == entries[k]);
        if !earlier.contains(place) {
            assert(all[all.len() - 1] == place);
        }
    }
}

/// A style sheet that is kept out of the page adds nothing.
pub proof fn styles_kept_out_add_nothing(
    root: Seq<char>,
    workspace: Seq<char>,
    entries: Seq<JsonView>,
    present: Seq<Seq<char>>,
    o: Members,
)
    requires
        json::member(o, "inject"@) == Some(JsonView::Bool(false)),
    ensures
        styles_of(root, workspace, entries.push(JsonView::Object(o)), present) == styles_of(
            root,
            workspace,
            entries,
            present,
        ),
{
    assert(entries.push(JsonView::Object(o)).drop_last() =~= entries);
}

/// Every search path that lies under the root is bridged.
pub proof fn search_paths_are_bridged(
    root: Seq<char>,
    workspace: Seq<char>,
    entries: Seq<JsonView>,
    k: int,
    entry: Seq<char>,
    place: Seq<char>,
)
    requires
        0 <= k < entries.len(),
        entries[k] == JsonView::Text(entry),
        reanchored(root, workspace, entry) == Some(place),
    ensures
        searches_of(root, workspace, entries).contains(place),
    decreases entries.len(),
{
    let head = entries.drop_last();
    let earlier = searches_of(root, workspace, head);
    let all = searches_of(root, workspace, entries);
    if k < entries.len() - 1 {
        assert(head[k] == entries[k]);
        search_paths_are_bridged(root, workspace, head, k, entry, place);
        let m = choose|m: int| 0 <= m < earlier.len() && earlier[m] == place;
        assert(all[m] == place);
    } else {
        assert(entries.last() == entries[k]);
        if !earlier.contains(place) {
            assert(all[all.len() - 1] == place);
        }
    }
}

/// Once the style sheets are written into the host's configuration, its list holds
/// what it held, in its place, and each of the style sheets; the search paths are
/// those of the workspace.
pub proof fn bridged_styles_are_listed(
    host: JsonView,
    styles: Seq<Seq<char>>,
    searches: Seq<Seq<char>>,
    k: int,
)
    requires
        0 <= k < styles.len(),
        searches.len() > 0,
    ensures
        json::field_at(
            with_styles(host, styles),
            seq!["projects"@, "host"@, "architect"@, "build"@, "options"@, "styles"@],
        ) matches Some(JsonView::Array(values)) && values.contains(JsonView::Text(styles[k]))
            && values.take(
            list_of(json::field_at(host, host_styles_path())).len() as int,
        ) == list_of(json::field_at(host, host_styles_path())),
        json::field_at(
            with_searches(host, searches),
            seq![
                "projects"@,
                "host"@,
                "architect"@,
                "build"@,
                "options"@,
                "stylePreprocessorOptions"@,
            ],
        ) == Some(JsonView::Object(seq![("includePaths"@, json::text_array(searches))])),
{
    let had = list_of(json::field_at(host, host_styles_path()));
    json::path_is_read_back(
        host,
        host_styles_path(),
        JsonView::Array(appended(had, styles)),
    );
    host_styles_stay(had, styles);
    assert(lists(appended(had, styles), styles[k]));
    json::path_is_read_back(
        host,
        host_searches_path(),
        JsonView::Object(seq![("includePaths"@, json::text_array(searches))]),
    );
}

/// The style sheets of a project are those that the options of its build list,
/// under `architect` or else under `targets`; so are its search paths.
pub proof fn entries_are_those_of_the_build(project: JsonView, options: JsonView)
    requires
        json::field_at(project, seq!["architect"@, "build"@, "options"@]) == Some(options) || (
        json::field_at(project, seq!["architect"@, "build"@, "options"@]) is None && json::field_at(
            project,
            seq!["targets"@, "build"@, "options"@],
        ) == Some(options)),
    ensures
        json::field(options, "styles"@) matches Some(JsonView::Array(a)) ==> style_entries(project)
            == a,
        !(json::field(options, "styles"@) matches Some(JsonView::Array(_))) ==> style_entries(
            project,
        ).len() == 0,
        json::field_at(options, seq!["stylePreprocessorOptions"@, "includePaths"@]) matches Some(
            JsonView::Array(a),
        ) ==> search_entries(project) == a,
{
}

/// Where no project's root is a beginning of the component's path, the first
/// project is taken.
pub proof fn first_project_is_the_last_resort(projects: Members, rel: Seq<char>)
    requires
        projects.len() > 0,
        forall|k: int|
            0 <= k < projects.len() ==> !text::starts(rel, project_root((#[trigger] projects[k]).1)),
    ensures
        project_of(projects, rel) == Some(0int),
{
    best_is_a_match(projects, rel, projects.len() as int);
}

/// Every style sheet of a workspace is looked for, at its path from the directory
/// of the workspace.
pub proof fn every_style_sheet_is_looked_for(
    workspace: Seq<char>,
    entries: Seq<JsonView>,
    k: int,
    file: Seq<char>,
)
    requires
        0 <= k < entries.len(),
        entries[k] == JsonView::Text(file),
    ensures
        files_of(workspace, entries).contains(path::join_of(workspace, file)),
    decreases entries.len(),
{
    let head = entries.drop_last();
    let earlier = files_of(workspace, head);
    let all = files_of(workspace, entries);
    let place = path::join_of(workspace, file);
    if k < entries.len() - 1 {
        assert(head[k] == entries[k]);
        every_style_sheet_is_looked_for(workspace, head, k, file);
        let m = choose|m: int| 0 <= m < earlier.len() && earlier[m] == place;
        assert(all[m] == place);
    } else {
        assert(all[all.len() - 1] == place);
    }
}

} // verus!
