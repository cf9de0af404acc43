//! The Angular host that renders the selected component: the files that are
//! generated for it, and what its dev server says.

pub mod clean;
pub mod install;
pub mod packages;
pub mod styles;
pub mod tsconfig;

use crate::detect;
use crate::json;
use crate::json::{Json, JsonView};
use crate::path;
use crate::serve;
use crate::text;
use styles::{StylePlan, StyleStep};
use tsconfig::{Workspace, WorkspaceView};
use vstd::prelude::*;

verus! {

// ---------------------------------------------------------------------------
// The entry
// ---------------------------------------------------------------------------

/// How the generated files import a file under the root.
pub open spec fn import_place(rel: Seq<char>) -> Seq<char> {
    "../../external/"@ + text::without_suffix(text::replaced(rel, '\\', '/'), ".ts"@)
}

/// How the generated files import a file, which has to lie under the root.
pub open spec fn import_of(root: Seq<char>, target: Seq<char>) -> Result<Seq<char>, Seq<char>> {
    match path::relative_to(target, root) {
        Some(rel) => Ok(import_place(rel)),
        None => Err(target + " is not under root "@ + root),
    }
}

/// The line that passes a class on.
pub open spec fn export_line(class: Seq<char>, from: Seq<char>) -> Seq<char> {
    "export { "@ + class + " } from '"@ + from + "';"@
}

/// The text of the entry: it passes on the component and, where there is one,
/// its module.
pub open spec fn entry_of(
    component: Seq<char>,
    root: Seq<char>,
    class_name: Seq<char>,
    module: Option<(Seq<char>, Seq<char>)>,
) -> Result<Seq<char>, Seq<char>> {
    match import_of(root, component) {
        Err(e) => Err(e),
        Ok(from) => {
            let head = "// Auto-generated by render-component. Do not edit."@ + "\n"@ + export_line(
                class_name,
                from,
            );
            match module {
                None => Ok(head + "\n"@),
                Some((module_class, module_file)) => match import_of(root, module_file) {
                    Err(e) => Err(e),
                    Ok(module_from) => Ok(
                        head + "\n"@ + export_line(module_class, module_from) + "\n"@,
                    ),
                },
            }
        },
    }
}

/// The module that the entry passes on: its class is known, and it is there.
pub open spec fn entry_module(
    component: Seq<char>,
    module_class: Option<Seq<char>>,
    module_exists: bool,
) -> Option<(Seq<char>, Seq<char>)> {
    match (module_class, detect::module_of(component)) {
        (Some(class), Some(file)) => if module_exists {
            Some((class, file))
        } else {
            None
        },
        _ => None,
    }
}

pub open spec fn text_outcome(r: Result<String, String>) -> Result<Seq<char>, Seq<char>> {
    match r {
        Ok(t) => Ok(t@),
        Err(e) => Err(e@),
    }
}

fn import_text(rel: &str) -> (r: String)
    ensures
        r@ == import_place(rel@),
{
    let chars: Vec<char> = text::chars_of(rel);
    let rel: Vec<char> = text::replace(chars.as_slice(), '\\', '/');
    let stem: &[char] = match text::strip_suffix(rel.as_slice(), ".ts") {
        Some(s) => s,
        None => rel.as_slice(),
    };
    let stem: String = text::text_of(stem);
    text::cat("../../external/", stem.as_str())
}

fn rel_from_selected(root: &str, target: &str) -> (r: Result<String, String>)
    ensures
        text_outcome(r) == import_of(root@, target@),
{
    match path::strip_prefix(target, root) {
        Some(rel) => Ok(import_text(rel.as_str())),
        None => Err(text::cat3(target, " is not under root ", root)),
    }
}

fn export_text(class: &str, from: &str) -> (r: String)
    ensures
        r@ == export_line(class@, from@),
{
    text::cat5("export { ", class, " } from '", from, "';")
}

/// The text of the entry, which the dev server recompiles when it changes.
/// `module_exists` tells whether there is a module beside the component.
pub fn entry_text(
    component: &str,
    root: &str,
    class_name: &str,
    module_class: Option<&str>,
    module_exists: bool,
) -> (r: Result<String, String>)
    ensures
        text_outcome(r) == entry_of(
            component@,
            root@,
            class_name@,
            entry_module(component@, text::opt_str(module_class), module_exists),
        ),
{
    let from: String = match rel_from_selected(root, component) {
        Ok(f) => f,
        Err(e) => {
            return Err(e);
        },
    };
    let line: String = export_text(class_name, from.as_str());
    let head: String = text::cat3(
        "// Auto-generated by render-component. Do not edit.",
        "\n",
        line.as_str(),
    );
    match module_class {
        Some(class) => match detect::sibling_module(component, module_exists) {
            Some(file) => {
                let module_from: String = match rel_from_selected(root, file.as_str()) {
                    Ok(f) => f,
                    Err(e) => {
                        return Err(e);
                    },
                };
                let line: String = export_text(class, module_from.as_str());
                let both: String = text::cat3(head.as_str(), "\n", line.as_str());
                Ok(text::cat(both.as_str(), "\n"))
            },
            None => Ok(text::cat(head.as_str(), "\n")),
        },
        None => Ok(text::cat(head.as_str(), "\n")),
    }
}

/// The entry can be written exactly when what it passes on lies under the root.
pub proof fn entry_needs_root(
    component: Seq<char>,
    root: Seq<char>,
    class_name: Seq<char>,
    module: Option<(Seq<char>, Seq<char>)>,
)
    ensures
        entry_of(component, root, class_name, module) is Ok <==> path::relative_to(component, root)
            is Some && (module matches Some((_, file)) ==> path::relative_to(file, root) is Some),
{
}

// ---------------------------------------------------------------------------
// Stubs
// ---------------------------------------------------------------------------

/// The stubs of a component that is the content of a modal: what it asks for
/// exists only inside a real modal.
pub open spec fn modal_stubs() -> Seq<char> {
    "// Auto-generated by render-component. Do not edit.\n// Modal-content component: NgbActiveModal only exists inside a real\n// NgbModal injector, so provide a no-op stub to render the markup flat.\nimport { NgbActiveModal } from '@ng-bootstrap/ng-bootstrap';\nimport type { Provider } from '@angular/core';\n\nexport const stubProviders: Provider[] = [\n  { provide: NgbActiveModal, useValue: { close: () => {}, dismiss: () => {} } },\n];\n"@
}

/// The stubs of any other component: an empty list needs no imports.
pub open spec fn no_stubs() -> Seq<char> {
    "// Auto-generated by render-component. Do not edit.\nexport const stubProviders = [];\n"@
}

/// Whether a component is the content of a modal, by its source where it can be
/// read.
pub open spec fn is_modal(source: Option<Seq<char>>) -> bool {
    source matches Some(s) && text::has(s, "NgbActiveModal"@)
}

/// Whether a component is the content of a modal.
pub fn needs_modal_stub(source: Option<&str>) -> (r: bool)
    ensures
        r == is_modal(text::opt_str(source)),
{
    match source {
        Some(s) => {
            let chars: Vec<char> = text::chars_of(s);
            text::contains(chars.as_slice(), "NgbActiveModal")
        },
        None => false,
    }
}

/// The text of the stubs for a component.
pub fn stubs_text(source: Option<&str>) -> (r: String)
    ensures
        r@ == (if is_modal(text::opt_str(source)) {
            modal_stubs()
        } else {
            no_stubs()
        }),
{
    if needs_modal_stub(source) {
        "// Auto-generated by render-component. Do not edit.\n// Modal-content component: NgbActiveModal only exists inside a real\n// NgbModal injector, so provide a no-op stub to render the markup flat.\nimport { NgbActiveModal } from '@ng-bootstrap/ng-bootstrap';\nimport type { Provider } from '@angular/core';\n\nexport const stubProviders: Provider[] = [\n  { provide: NgbActiveModal, useValue: { close: () => {}, dismiss: () => {} } },\n];\n".to_string()
    } else {
        "// Auto-generated by render-component. Do not edit.\nexport const stubProviders = [];\n".to_string()
    }
}

// ---------------------------------------------------------------------------
// Globals
// ---------------------------------------------------------------------------

/// How many global modules are imported at most.
pub const MAX_GLOBALS: usize = 10;

/// The imports of the global modules among the files that were found in the tree
/// of the project.
pub open spec fn globals_of(root: Seq<char>, walked: Seq<Seq<char>>) -> Seq<Seq<char>>
    decreases walked.len(),
{
    if walked.len() == 0 {
        Seq::empty()
    } else {
        let earlier = globals_of(root, walked.drop_last());
        let file = walked.last();
        let import = import_place(tsconfig::rel_or_empty(root, file));
        if path::name_of(file) == Some("prototypes.ts"@) && earlier.len() < MAX_GLOBALS
            && !earlier.contains(import) {
            earlier.push(import)
        } else {
            earlier
        }
    }
}

/// The text that imports the global modules.
pub open spec fn globals_file(imports: Seq<Seq<char>>) -> Seq<char> {
    if imports.len() == 0 {
        "// no project globals detected\n"@
    } else {
        text::joined(
            imports.map_values(|f: Seq<char>| "import '"@ + f + "';"@),
            "\n"@,
        ) + "\n"@
    }
}

/// The imports of the global modules of a project, `walked` being what was found
/// in its tree.
pub fn find_globals(root: &str, walked: &Vec<String>) -> (r: Vec<String>)
    ensures
        text::texts(r@) == globals_of(root@, text::texts(walked@)),
{
    let ghost all = text::texts(walked@);
    let mut out: Vec<String> = Vec::new();
    let mut i: usize = 0;
    assert(all.take(0) =~= Seq::<Seq<char>>::empty());
    assert(text::texts(out@) =~= Seq::<Seq<char>>::empty());
    while i < walked.len()
        invariant
            i <= walked.len(),
            all == text::texts(walked@),
            text::texts(out@) == globals_of(root@, all.take(i as int)),
        decreases walked.len() - i,
    {
        proof {
            assert(all.take(i + 1).drop_last() =~= all.take(i as int));
            assert(all.take(i + 1).last() == walked@[i as int]@);
            assert(text::texts(out@).len() == out@.len());
        }
        let global: bool = match path::file_name(walked[i].as_str()) {
            Some(name) => text::equal(name.as_str(), "prototypes.ts"),
            None => false,
        };
        if global && out.len() < MAX_GLOBALS {
            let rel: String = tsconfig::relative_or_empty(root, walked[i].as_str());
            let import: String = import_text(rel.as_str());
            if !text::among(&out, import.as_str()) {
                let ghost before = text::texts(out@);
                let ghost new = import@;
                out.push(import);
                assert(text::texts(out@) =~= before.push(new));
            }
        }
        i = i + 1;
    }
    assert(all.take(all.len() as int) =~= all);
    out
}

/// The text that imports the global modules, for their side effects.
pub fn globals_text(imports: &Vec<String>) -> (r: String)
    ensures
        r@ == globals_file(text::texts(imports@)),
{
    if imports.len() == 0 {
        return "// no project globals detected\n".to_string();
    }
    let mut lines: Vec<String> = Vec::new();
    let mut i: usize = 0;
    while i < imports.len()
        invariant
            i <= imports.len(),
            lines@.len() == i,
            forall|k: int|
                0 <= k < i ==> #[trigger] lines@[k]@ == "import '"@ + imports@[k]@ + "';"@,
        decreases imports.len() - i,
    {
        lines.push(text::cat3("import '", imports[i].as_str(), "';"));
        i = i + 1;
    }
    assert(text::texts(lines@) =~= text::texts(imports@).map_values(
        |f: Seq<char>| "import '"@ + f + "';"@,
    ));
    text::cat(text::join(lines.as_slice(), "\n").as_str(), "\n")
}

/// What is logged of the global modules, where there are any.
pub fn globals_message(count: u64) -> (r: String)
    ensures
        r@ == "[host] globals: "@ + text::decimal(count as nat)
            + " project global module(s) loaded at runtime"@,
{
    text::cat3(
        "[host] globals: ",
        text::number_text(count).as_str(),
        " project global module(s) loaded at runtime",
    )
}

// ---------------------------------------------------------------------------
// Configuration files of the host
// ---------------------------------------------------------------------------

/// The proxy configuration: requests to the API go to the control server.
pub fn proxy_conf(cli_port: u16) -> (r: Json)
    ensures
        r@ == JsonView::Object(
            seq![
                (
                    "/api"@,
                    JsonView::Object(
                        seq![
                            (
                                "target"@,
                                JsonView::Text(serve::local_address(cli_port as nat)),
                            ),
                            ("secure"@, JsonView::Bool(false)),
                        ],
                    ),
                ),
            ],
        ),
{
    let api: Json = serve::object_of(
        ("target", Json::Text(serve::local_url(cli_port))),
        Some(("secure", Json::Bool(false))),
    );
    serve::object_of(("/api", api), None)
}

/// The name of the directory in which the host for an Angular version is kept.
pub fn host_dir_name(major: u32) -> (r: String)
    ensures
        r@ == "host-ng"@ + text::decimal(major as nat),
{
    text::cat("host-ng", text::number_text(major as u64).as_str())
}

/// What is logged of the Angular version of the project.
pub fn range_message(range: &str, major: u32) -> (r: String)
    ensures
        r@ == "[host] target project Angular range: "@ + range@ + " (host-ng"@ + text::decimal(
            major as nat,
        ) + ")"@,
{
    text::cat5(
        "[host] target project Angular range: ",
        range,
        " (host-ng",
        text::number_text(major as u64).as_str(),
        ")",
    )
}

/// A configuration file: its content, or why there is none.
pub enum ConfigFile {
    /// It cannot be read.
    Unreadable(String),
    /// It is no JSON.
    Unparsable(String),
    Read(Json),
}

#[verifier::ext_equal]
pub enum ConfigFileView {
    Unreadable(Seq<char>),
    Unparsable(Seq<char>),
    Read(JsonView),
}

impl View for ConfigFile {
    type V = ConfigFileView;

    open spec fn view(&self) -> ConfigFileView {
        match self {
            ConfigFile::Unreadable(e) => ConfigFileView::Unreadable(e@),
            ConfigFile::Unparsable(e) => ConfigFileView::Unparsable(e@),
            ConfigFile::Read(j) => ConfigFileView::Read(j@),
        }
    }
}

/// What bridging the TypeScript configuration comes to: what is to be written,
/// where something is, and what is to be logged. `config` is the configuration
/// that governs the component; the chain of the workspace is empty where it
/// cannot be read.
pub open spec fn tsconfig_step(
    config: Option<Seq<char>>,
    w: WorkspaceView,
    host: ConfigFileView,
) -> (Option<JsonView>, Seq<Seq<char>>) {
    match config {
        None => (
            None,
            seq![
                "[host] no tsconfig.json found near the component — path aliases will not resolve"@,
            ],
        ),
        Some(file) => if w.values.len() == 0 {
            (
                None,
                seq![
                    "[host!] could not parse "@ + file
                        + " (tsconfig) — path aliases will not resolve"@,
                ],
            )
        } else {
            match host {
                ConfigFileView::Unreadable(e) => (
                    None,
                    seq!["[host!] cannot read host tsconfig: "@ + e],
                ),
                ConfigFileView::Unparsable(e) => (
                    None,
                    seq!["[host!] cannot parse host tsconfig: "@ + e],
                ),
                ConfigFileView::Read(j) => (
                    Some(tsconfig::bridged(j, w)),
                    tsconfig::bridge_lines(w),
                ),
            }
        },
    }
}

pub open spec fn opt_json(j: Option<Json>) -> Option<JsonView> {
    match j {
        Some(v) => Some(v@),
        None => None,
    }
}

fn one_line(line: String) -> (r: Vec<String>)
    ensures
        text::texts(r@) == seq![line@],
{
    let mut v: Vec<String> = Vec::new();
    let ghost t = line@;
    v.push(line);
    assert(text::texts(v@) =~= seq![t]);
    v
}

/// Bridge the TypeScript configuration of the workspace into that of the host.
pub fn bridge_tsconfig(config: Option<&str>, w: &Workspace, host: ConfigFile) -> (r: (
    Option<Json>,
    Vec<String>,
))
    requires
        config is Some && w.chain@.len() > 0 ==> (host matches ConfigFile::Read(j)
            ==> tsconfig::can_bridge(j@, w@)),
    ensures
        (opt_json(r.0), text::texts(r.1@)) == tsconfig_step(text::opt_str(config), w@, host@),
{
    let file: &str = match config {
        Some(f) => f,
        None => {
            return (None, one_line(tsconfig::no_config_message()));
        },
    };
    assert(w@.values.len() == w.chain@.len());
    if w.chain.len() == 0 {
        return (None, one_line(tsconfig::unreadable_config_message(file)));
    }
    match host {
        ConfigFile::Unreadable(e) => (
            None,
            one_line(text::cat("[host!] cannot read host tsconfig: ", e.as_str())),
        ),
        ConfigFile::Unparsable(e) => (
            None,
            one_line(text::cat("[host!] cannot parse host tsconfig: ", e.as_str())),
        ),
        ConfigFile::Read(j) => {
            let (out, log): (Json, Vec<String>) = tsconfig::bridge_tsconfig_paths(j, w);
            (Some(out), log)
        },
    }
}

/// What bridging the style sheets comes to: what is to be written and what is
/// logged once it is, where something is, and what is to be logged before.
/// `angular` is the nearest workspace file and its content; `present` are the
/// style files that exist.
pub open spec fn styles_outcome(
    root: Seq<char>,
    component: Seq<char>,
    angular: Option<(Seq<char>, ConfigFileView)>,
    present: Seq<Seq<char>>,
    host: ConfigFileView,
) -> (Option<(JsonView, Seq<char>)>, Seq<Seq<char>>) {
    match angular {
        None => (
            None,
            seq!["[host] no angular.json found — global workspace styles will not load"@],
        ),
        Some((_, ConfigFileView::Unreadable(_))) => (
            None,
            seq!["[host!] cannot read angular.json"@],
        ),
        Some((_, ConfigFileView::Unparsable(_))) => (
            None,
            seq!["[host!] cannot parse angular.json — global styles will not load"@],
        ),
        Some((file, ConfigFileView::Read(a))) => match styles::style_step(
            root,
            component,
            path::dir_of(file),
            a,
            present,
        ) {
            StyleStep::Stop(log) => (None, log),
            StyleStep::Bridge(project, sheets, searches, log) => match host {
                ConfigFileView::Unreadable(_) => (
                    None,
                    log.push("[host!] cannot read host angular.json"@),
                ),
                ConfigFileView::Unparsable(_) => (
                    None,
                    log.push("[host!] cannot parse host angular.json"@),
                ),
                ConfigFileView::Read(j) => (
                    Some(
                        (
                            styles::with_searches(styles::with_styles(j, sheets), searches),
                            styles::bridged_line(project, sheets.len(), searches.len()),
                        ),
                    ),
                    log,
                ),
            },
        },
    }
}

/// Whether the style sheets can be bridged as far as the host's configuration is
/// concerned: there is nothing to write, or there is room for it.
pub open spec fn styles_have_room(
    root: Seq<char>,
    component: Seq<char>,
    angular: Option<(Seq<char>, ConfigFileView)>,
    present: Seq<Seq<char>>,
    host: ConfigFileView,
) -> bool {
    match (angular, host) {
        (Some((file, ConfigFileView::Read(a))), ConfigFileView::Read(j)) => styles::style_step(
            root,
            component,
            path::dir_of(file),
            a,
            present,
        ) is Bridge ==> styles::takes_styles(j),
        _ => true,
    }
}

pub open spec fn found_file(f: Option<(String, ConfigFile)>) -> Option<
    (Seq<char>, ConfigFileView),
> {
    match f {
        Some((file, content)) => Some((file@, content@)),
        None => None,
    }
}

pub open spec fn styles_written(r: Option<(Json, String)>) -> Option<(JsonView, Seq<char>)> {
    match r {
        Some((j, line)) => Some((j@, line@)),
        None => None,
    }
}

/// Whether the style sheets can be bridged as far as the host's configuration is
/// concerned.
pub fn styles_fit(
    root: &str,
    component: &str,
    angular: &Option<(String, ConfigFile)>,
    present: &Vec<String>,
    host: &ConfigFile,
) -> (r: bool)
    ensures
        r == styles_have_room(
            root@,
            component@,
            found_file(*angular),
            text::texts(present@),
            host@,
        ),
{
    match (angular, host) {
        (Some((file, ConfigFile::Read(a))), ConfigFile::Read(j)) => {
            let workspace: String = path::directory(file.as_str());
            let (plan, _): (Option<StylePlan>, Vec<String>) = styles::plan_global_styles(
                root,
                component,
                workspace.as_str(),
                a,
                present,
            );
            plan.is_none() || styles::styles_fit(j)
        },
        _ => true,
    }
}

/// Bridge the style sheets of the workspace into the host's configuration: what
/// is to be written and what is logged once it is, where something is, and what
/// is to be logged before. `angular` is the nearest workspace file and its
/// content, `present` the style files that exist.
pub fn bridge_styles(
    root: &str,
    component: &str,
    angular: &Option<(String, ConfigFile)>,
    present: &Vec<String>,
    host: ConfigFile,
) -> (r: (Option<(Json, String)>, Vec<String>))
    requires
        styles_have_room(
            root@,
            component@,
            found_file(*angular),
            text::texts(present@),
            host@,
        ),
    ensures
        (styles_written(r.0), text::texts(r.1@)) == styles_outcome(
            root@,
            component@,
            found_file(*angular),
            text::texts(present@),
            host@,
        ),
{
    let (file, content): (&String, &ConfigFile) = match angular {
        Some((f, c)) => (f, c),
        None => {
            return (
                None,
                one_line(
                    "[host] no angular.json found — global workspace styles will not load".to_string(),
                ),
            );
        },
    };
    let a: &Json = match content {
        ConfigFile::Unreadable(_) => {
            return (None, one_line("[host!] cannot read angular.json".to_string()));
        },
        ConfigFile::Unparsable(_) => {
            return (
                None,
                one_line(
                    "[host!] cannot parse angular.json — global styles will not load".to_string(),
                ),
            );
        },
        ConfigFile::Read(a) => a,
    };
    let workspace: String = path::directory(file.as_str());
    let (plan, mut log): (Option<StylePlan>, Vec<String>) = styles::plan_global_styles(
        root,
        component,
        workspace.as_str(),
        a,
        present,
    );
    let plan: StylePlan = match plan {
        Some(p) => p,
        None => {
            return (None, log);
        },
    };
    let ghost before = text::texts(log@);
    match host {
        ConfigFile::Unreadable(_) => {
            log.push("[host!] cannot read host angular.json".to_string());
            assert(text::texts(log@) =~= before.push("[host!] cannot read host angular.json"@));
            (None, log)
        },
        ConfigFile::Unparsable(_) => {
            log.push("[host!] cannot parse host angular.json".to_string());
            assert(text::texts(log@) =~= before.push("[host!] cannot parse host angular.json"@));
            (None, log)
        },
        ConfigFile::Read(j) => {
            let line: String = styles::bridged_styles_message(&plan);
            (Some((styles::bridge_global_styles(j, &plan), line)), log)
        },
    }
}

// ---------------------------------------------------------------------------
// The dev server
// ---------------------------------------------------------------------------

/// How often the dev server is started before it is given up.
pub const MAX_ATTEMPTS: u32 = 2;

/// A line of output as it is logged: with the name of its stream, without escape
/// sequences.
pub fn tagged_line(tag: &str, line: &str) -> (r: String)
    ensures
        r@ == "["@ + tag@ + "] "@ + clean::unescaped(line@, 0),
{
    let head: String = text::cat3("[", tag, "] ");
    text::cat(head.as_str(), clean::strip_ansi(line).as_str())
}

/// Whether a line of output says that a build has settled.
pub open spec fn settles(line: Seq<char>) -> bool {
    text::has(clean::unescaped(line, 0), "Application bundle generation"@)
}

/// Whether a build is pending after a line of output: a build that settles
/// clears it.
pub open spec fn pending_after_output(pending: bool, line: Seq<char>) -> bool {
    pending && !settles(line)
}

/// Whether a build is pending after a line of output.
pub fn pending_after_line(pending: bool, line: &str) -> (r: bool)
    ensures
        r == pending_after_output(pending, line@),
{
    let plain: String = clean::strip_ansi(line);
    let chars: Vec<char> = text::chars_of(plain.as_str());
    pending && !text::contains(chars.as_slice(), "Application bundle generation")
}

/// A build is pending from the moment a selection is taken up until a build
/// settles: no other line of output clears it, and none sets it.
pub proof fn pending_until_settled(
    pending: bool,
    outcome: serve::state::SelectOutcome,
    line: Seq<char>,
)
    ensures
        outcome is Updated ==> serve::pending_after_select(pending, outcome),
        outcome is Unchanged ==> serve::pending_after_select(pending, outcome) == pending,
        pending_after_output(true, line) <==> !settles(line),
        !pending_after_output(false, line),
{
}

/// The port of an address.
pub open spec fn port_in(url: Seq<char>) -> Option<Seq<char>> {
    if text::starts(url, "http://"@) {
        let rest = url.skip("http://"@.len() as int);
        match text::char_from(rest, ':', 0) {
            Some(i) => Some(rest.skip(i + 1)),
            None => None,
        }
    } else {
        None
    }
}

/// The port of an address.
pub fn port_of(url: &str) -> (r: Option<String>)
    ensures
        text::opt(r) == port_in(url@),
{
    let chars: Vec<char> = text::chars_of(url);
    match text::strip_prefix(chars.as_slice(), "http://") {
        Some(rest) => match text::find_char(rest, ':', 0) {
            Some(i) => Some(text::text_of(text::tail(rest, i + 1))),
            None => None,
        },
        None => None,
    }
}

/// What is logged when the dev server is started.
pub fn starting_message(attempt: u32, port: u16) -> (r: String)
    ensures
        r@ == "[ng] starting dev-server (attempt "@ + text::decimal(attempt as nat) + ", port "@
            + text::decimal(port as nat) + ")..."@,
{
    text::cat5(
        "[ng] starting dev-server (attempt ",
        text::number_text(attempt as u64).as_str(),
        ", port ",
        text::number_text(port as u64).as_str(),
        ")...",
    )
}

/// What is logged when the dev server did not come up.
pub fn attempt_failed_message(attempt: u32, error: &str) -> (r: String)
    ensures
        r@ == "[ng!] attempt "@ + text::decimal(attempt as nat) + " failed: "@ + error@,
{
    let head: String = text::cat3(
        "[ng!] attempt ",
        text::number_text(attempt as u64).as_str(),
        " failed: ",
    );
    text::cat(head.as_str(), error)
}

/// What is said when the dev server is given up.
pub open spec fn not_ready_line(error: Seq<char>) -> Seq<char> {
    "Angular dev-server did not become ready: "@ + error + " — check the logs above"@
}

/// What is said when the dev server is given up.
pub fn not_ready_message(error: &str) -> (r: String)
    ensures
        r@ == not_ready_line(error@),
{
    text::cat3(
        "Angular dev-server did not become ready: ",
        error,
        " — check the logs above",
    )
}

/// What follows an attempt to start the dev server that failed.
#[derive(Debug)]
pub enum Retry {
    /// It is started again.
    Again,
    /// It is given up, with this message.
    GiveUp(String),
}

#[verifier::ext_equal]
pub enum RetryView {
    Again,
    GiveUp(Seq<char>),
}

impl View for Retry {
    type V = RetryView;

    open spec fn view(&self) -> RetryView {
        match self {
            Retry::Again => RetryView::Again,
            Retry::GiveUp(m) => RetryView::GiveUp(m@),
        }
    }
}

/// What follows the failure of an attempt, counted from one: another one as long
/// as there may be more, else the error of this one is told.
pub open spec fn retried(attempt: nat, error: Seq<char>) -> RetryView {
    if attempt < MAX_ATTEMPTS {
        RetryView::Again
    } else {
        RetryView::GiveUp(not_ready_line(error))
    }
}

/// What follows the failure of an attempt, counted from one.
pub fn after_attempt(attempt: u32, error: &str) -> (r: Retry)
    ensures
        r@ == retried(attempt as nat, error@),
{
    if attempt < MAX_ATTEMPTS {
        Retry::Again
    } else {
        Retry::GiveUp(not_ready_message(error))
    }
}

/// How long the dev server is waited for, in milliseconds.
pub const READY_TIMEOUT_MS: u64 = 240_000;

/// How long to pause between two looks at the dev server, in milliseconds.
pub const READY_PAUSE_MS: u64 = 500;

/// Whether an answer says that all is well: its status is 200.
pub open spec fn says_ok(answer: Seq<char>) -> bool {
    let words = text::split_on(answer, ' ');
    text::starts(answer, "HTTP/"@) && words.len() > 1 && words[1] == "200"@
}

/// Whether the dev server is up, by its answer where there is one.
pub fn is_ready(answer: Option<&str>) -> (r: bool)
    ensures
        r == (text::opt_str(answer) matches Some(a) && says_ok(a)),
{
    match answer {
        Some(a) => {
            let chars: Vec<char> = text::chars_of(a);
            let words: Vec<String> = text::split(chars.as_slice(), ' ');
            assert(text::texts(words@).len() == words@.len());
            text::starts_with(chars.as_slice(), "HTTP/") && words.len() > 1 && text::equal(
                words[1].as_str(),
                "200",
            )
        },
        None => false,
    }
}

/// Whether to go on waiting for the dev server after so many milliseconds, or
/// else what is said.
pub open spec fn waiting(url: Seq<char>, waited_ms: nat) -> Result<(), Seq<char>> {
    if waited_ms < READY_TIMEOUT_MS {
        Ok(())
    } else {
        Err("timeout waiting for "@ + url)
    }
}

/// Whether to go on waiting for the dev server after so many milliseconds, or
/// else what is said.
pub fn keep_waiting(url: &str, waited_ms: u64) -> (r: Result<(), String>)
    ensures
        match r {
            Ok(()) => waiting(url@, waited_ms as nat) is Ok,
            Err(e) => waiting(url@, waited_ms as nat) == Err::<(), Seq<char>>(e@),
        },
{
    if waited_ms < READY_TIMEOUT_MS {
        Ok(())
    } else {
        Err(text::cat("timeout waiting for ", url))
    }
}

// ---------------------------------------------------------------------------
// What the generated files say
// ---------------------------------------------------------------------------

/// A file under the root is imported from below `external`, by its path from the
/// root without the ending of TypeScript.
pub proof fn imports_lead_below_external(root: Seq<char>, stem: Seq<char>)
    requires
        tsconfig::is_place(stem + ".ts"@),
    ensures
        import_of(root, path::join_of(root, stem + ".ts"@)) == Ok::<Seq<char>, Seq<char>>(
            "../../external/"@ + stem,
        ),
{
    reveal_strlit(".ts");
    let rel = stem + ".ts"@;
    tsconfig::place_under_the_root(root, rel);
    text::nothing_to_replace(rel, '\\', '/');
    assert(rel.subrange(rel.len() - 3, rel.len() as int) =~= ".ts"@);
    assert(rel.take(rel.len() - 3) =~= stem);
}

/// The entry passes the class of the component on from where its file is imported,
/// in a line of its own behind the header; where there is a module, a second line
/// passes its class on.
pub proof fn entry_passes_the_classes_on(
    root: Seq<char>,
    component: Seq<char>,
    class_name: Seq<char>,
    module: Seq<char>,
    module_class: Seq<char>,
)
    requires
        tsconfig::is_place(component + ".ts"@),
        tsconfig::is_place(module + ".ts"@),
    ensures
        entry_of(path::join_of(root, component + ".ts"@), root, class_name, None) == Ok::<
            Seq<char>,
            Seq<char>,
        >(
            "// Auto-generated by render-component. Do not edit."@ + "\n"@ + ("export { "@
                + class_name + " } from '"@ + ("../../external/"@ + component) + "';"@) + "\n"@,
        ),
        entry_of(
            path::join_of(root, component + ".ts"@),
            root,
            class_name,
            Some((module_class, path::join_of(root, module + ".ts"@))),
        ) == Ok::<Seq<char>, Seq<char>>(
            "// Auto-generated by render-component. Do not edit."@ + "\n"@ + ("export { "@
                + class_name + " } from '"@ + ("../../external/"@ + component) + "';"@) + "\n"@ + (
            "export { "@ + module_class + " } from '"@ + ("../../external/"@ + module) + "';"@)
                + "\n"@,
        ),
{
    imports_lead_below_external(root, component);
    imports_lead_below_external(root, module);
}

/// The module that is passed on is the one beside the component, where it is there
/// and its class is known.
pub proof fn module_beside_is_passed_on(
    dir: Seq<char>,
    stem: Seq<char>,
    class: Option<Seq<char>>,
    exists: bool,
)
    requires
        detect::is_stem(stem),
        path::is_whole(dir),
    ensures
        entry_module(path::join_of(dir, stem + ".component.ts"@), class, exists) == (if exists {
            match class {
                Some(c) => Some((c, path::join_of(dir, stem + ".module.ts"@))),
                None => None,
            }
        } else {
            None
        }),
{
    detect::components_are_told_by_name_and_decorator(dir, stem, Seq::empty());
}

/// Every file of global patches is imported, as long as there are not too many.
pub proof fn globals_are_imported(root: Seq<char>, walked: Seq<Seq<char>>, k: int)
    requires
        0 <= k < walked.len(),
        path::name_of(walked[k]) == Some("prototypes.ts"@),
        globals_of(root, walked).len() < 10,
    ensures
        globals_of(root, walked).contains(import_place(tsconfig::rel_or_empty(root, walked[k]))),
    decreases walked.len(),
{
    let head = walked.drop_last();
    let earlier = globals_of(root, head);
    let all = globals_of(root, walked);
    let import = import_place(tsconfig::rel_or_empty(root, walked[k]));
    if k < walked.len() - 1 {
        assert(head[k] == walked[k]);
        globals_are_imported(root, head, k);
        let m = choose|m: int| 0 <= m < earlier.len() && earlier[m] == import;
        assert(all[m] == import);
    } else {
        assert(walked.last() == walked[k]);
        if !earlier.contains(import) {
            assert(all[all.len() - 1] == import);
        }
    }
}

/// Nothing else is imported.
pub proof fn only_globals_are_imported(root: Seq<char>, walked: Seq<Seq<char>>, import: Seq<char>)
    requires
        globals_of(root, walked).contains(import),
    ensures
        exists|k: int|
            0 <= k < walked.len() && path::name_of(#[trigger] walked[k]) == Some("prototypes.ts"@)
                && import == import_place(tsconfig::rel_or_empty(root, walked[k])),
    decreases walked.len(),
{
    if walked.len() > 0 {
        let head = walked.drop_last();
        let earlier = globals_of(root, head);
        if earlier.contains(import) {
            only_globals_are_imported(root, head, import);
            let k = choose|k: int|
                0 <= k < head.len() && path::name_of(#[trigger] head[k]) == Some("prototypes.ts"@)
                    && import == import_place(tsconfig::rel_or_empty(root, head[k]));
            assert(walked[k] == head[k]);
        } else {
            let last = walked.len() - 1;
            assert(walked[last] == walked.last());
        }
    }
}

/// The port of an address is what stands behind the first colon behind its host.
pub proof fn ports_stand_behind_the_host(host: Seq<char>, port: Seq<char>)
    requires
        !host.contains(':'),
    ensures
        port_in("http://"@ + host + seq![':'] + port) == Some(port),
{
    let url = "http://"@ + host + seq![':'] + port;
    let n = "http://"@.len() as int;
    assert(url.subrange(0, n) =~= "http://"@);
    let rest = url.skip(n);
    assert(rest =~= host + seq![':'] + port);
    text::char_from_is_least(rest, ':', 0);
    assert(rest[host.len() as int] == ':');
    let i = text::char_from(rest, ':', 0)->0;
    if i < host.len() {
        assert(rest[i] == host[i]);
        assert(host.contains(host[i]));
    }
    assert(rest.skip(i + 1) =~= port);
}

/// A build settles when the line that says so comes, with or without colours in
/// front of it.
pub proof fn settled_builds_are_seen(before: Seq<char>, after: Seq<char>)
    requires
        !before.contains('\u{1b}'),
        !after.contains('\u{1b}'),
    ensures
        settles(before + "Application bundle generation"@ + after),
        !pending_after_output(true, before + "Application bundle generation"@ + after),
{
    reveal_strlit("Application bundle generation");
    let mark = "Application bundle generation"@;
    let line = before + mark + after;
    assert forall|i: int| 0 <= i < line.len() implies line[i] != '\u{1b}' by {
        if i < before.len() {
            assert(line[i] == before[i]);
            assert(before.contains(before[i]));
        } else if i < before.len() + mark.len() {
            assert(line[i] == mark[i - before.len()]);
            assert(mark.contains(mark[i - before.len()]));
        } else {
            assert(line[i] == after[i - before.len() - mark.len()]);
            assert(after.contains(after[i - before.len() - mark.len()]));
        }
    }
    clean::plain_line_is_kept(line, 0);
    assert(line.skip(0) =~= line);
    let n = before.len() as int;
    assert(line.subrange(n, n + mark.len()) =~= mark);
    assert(text::occurs_at(line, mark, n));
}

/// No more global patches are imported than are allowed.
pub proof fn imported_globals_are_bounded(root: Seq<char>, walked: Seq<Seq<char>>)
    ensures
        globals_of(root, walked).len() <= 10,
    decreases walked.len(),
{
    if walked.len() > 0 {
        imported_globals_are_bounded(root, walked.drop_last());
    }
}

/// The first failure is followed by another attempt, and any later one tells its
/// error.
pub proof fn a_second_attempt_is_made(attempt: nat, error: Seq<char>)
    requires
        attempt >= 1,
    ensures
        retried(attempt, error) is Again <==> attempt == 1,
        attempt >= 2 ==> (retried(attempt, error) matches RetryView::GiveUp(m) && text::has(m, error)),
{
    let m = not_ready_line(error);
    let i = "Angular dev-server did not become ready: "@.len() as int;
    assert(m.subrange(i, i + error.len()) =~= error);
    assert(text::occurs_at(m, error, i));
}

/// The dev server is waited for until four minutes have passed.
pub proof fn four_minutes_are_waited(url: Seq<char>, waited_ms: nat)
    ensures
        waiting(url, waited_ms) is Ok <==> waited_ms < 4 * 60 * 1000,
        waiting(url, waited_ms) matches Err(e) ==> text::ends(e, url),
{
    let e = "timeout waiting for "@ + url;
    assert(e.subrange(e.len() - url.len(), e.len() as int) =~= url);
}

/// A dev server is up when the second word of its answer is 200, and with any other
/// status it is not.
pub proof fn ready_servers_answer_200(version: Seq<char>, status: Seq<char>, reason: Seq<char>)
    requires
        !version.contains(' '),
        !status.contains(' '),
    ensures
        says_ok("HTTP/"@ + version + seq![' '] + status + seq![' '] + reason) <==> status == "200"@,
{
    reveal_strlit("HTTP/");
    let first = "HTTP/"@ + version;
    let rest = status + seq![' '] + reason;
    let all = "HTTP/"@ + version + seq![' '] + status + seq![' '] + reason;
    assert(all =~= first + seq![' '] + rest);
    assert(!first.contains(' ')) by {
        if first.contains(' ') {
            let i = choose|i: int| 0 <= i < first.len() && first[i] == ' ';
            if i >= 5 {
                assert(version[i - 5] == ' ');
            }
        }
    }
    text::first_piece_is_split_off(first, ' ', rest);
    text::first_piece_is_split_off(status, ' ', reason);
    assert(text::split_on(all, ' ')[1] == status);
    assert(all.subrange(0, 5) =~= "HTTP/"@);
}

} // verus!
