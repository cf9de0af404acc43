use render_component::host::clean::compact_json;
use render_component::host::clean::parse_json;
use render_component::json::Json;
use render_component::pipeline::{ComponentInfo, PipelineError, Strategy, TemplateRef};
use render_component::serve::state::{AppState, SelectOutcome, SelectionFile};
use render_component::serve::{
    applied_message, headless_message, listening_message, local_url, opened_message, pending_after,
    port_error, ready_response, refusal_message, requested_component, select_response,
    serving_messages, starting_state, watch_message, Watcher, DEBOUNCE_MS,
};

fn choice_in(text: &str) -> Option<SelectionFile> {
    SelectionFile::of(&parse_json(text).expect("valid JSON"))
}

fn state() -> AppState {
    AppState::new("/a/x.component.ts", "/a", Strategy::Standalone, vec![], vec![])
}

fn info(strategy: Strategy) -> ComponentInfo {
    ComponentInfo {
        class_name: "BadgeComponent".to_string(),
        required_inputs: vec!["label".to_string()],
        input_values: vec![("label".to_string(), Json::Text("x".to_string()))],
        module_class_name: None,
        template: TemplateRef::Inline,
        styles: vec![],
        strategy,
    }
}

#[test]
fn selection_file_roundtrip() {
    let written = SelectionFile {
        component: "/a/x.component.ts".to_string(),
        root: "/a".to_string(),
    };
    let text = written.text();
    assert_eq!(text, r#"{"component":"/a/x.component.ts","root":"/a"}"#);
    let read = choice_in(&text).expect("parsed");
    assert_eq!(read.component, "/a/x.component.ts");
    assert_eq!(read.root, "/a");
}

#[test]
fn a_choice_is_read_by_names_or_as_a_pair() {
    let named = choice_in(r#"{"root":"/a","extra":0,"component":"/a/x.ts"}"#).expect("named");
    assert_eq!((named.component.as_str(), named.root.as_str()), ("/a/x.ts", "/a"));
    let pair = choice_in(r#"["/a/x.ts","/a"]"#).expect("pair");
    assert_eq!((pair.component.as_str(), pair.root.as_str()), ("/a/x.ts", "/a"));
    for refused in [
        r#"{"component":"/a"}"#,
        r#"{"component":1,"root":"/a"}"#,
        "[]",
        r#"["/a/x.ts"]"#,
        r#"["/a/x.ts","/a","/b"]"#,
        r#"["/a/x.ts",1]"#,
        r#""/a/x.ts""#,
        "null",
    ] {
        assert!(choice_in(refused).is_none(), "{refused}");
    }
}

#[test]
fn initial_revision_is_one() {
    let state = state();
    assert_eq!(state.current().revision, 1);
    assert_eq!(state.current().strategy, "standalone");
}

#[test]
fn selecting_same_component_is_unchanged() {
    let mut state = state();
    let out = state.select("/a/x.component.ts", "/a", Strategy::Standalone, vec![]);
    assert_eq!(out, SelectOutcome::Unchanged);
    assert_eq!(state.current().revision, 1);
}

#[test]
fn selecting_different_component_bumps_revision() {
    let mut state = state();
    let out = state.select("/a/y.component.ts", "/a", Strategy::Module, vec![]);
    assert_eq!(out, SelectOutcome::Updated(2));
    assert_eq!(state.current().component, "/a/y.component.ts");
    assert_eq!(state.current().strategy, "module");
}

#[test]
fn rapid_selection_race_last_wins() {
    let mut state = state();
    state.select("/a/b.component.ts", "/a", Strategy::Standalone, vec![]);
    state.select("/a/c.component.ts", "/a", Strategy::Standalone, vec![]);
    assert!(
        state.current().component.ends_with("c.component.ts"),
        "last selection wins"
    );
    assert_eq!(state.current().revision, 3);
}

#[test]
fn error_report_keeps_component_and_bumps_revision_signal() {
    let mut state = state();
    assert_eq!(state.report_error("boom".to_string()), 1, "the revision is signalled again");
    assert_eq!(state.current().component, "/a/x.component.ts");
    assert_eq!(state.current().error.as_deref(), Some("boom"));
    state.select("/a/y.component.ts", "/a", Strategy::Module, vec![]);
    assert_eq!(state.current().error, None, "a new selection clears the error");
}

#[test]
fn select_via_api_hot_swaps_and_rejects_invalid() {
    let mut state = state();
    let badge = requested_component("badges/badge.component.ts", "/a");
    assert_eq!(badge, "/a/badges/badge.component.ts");
    let result = state.apply_selection(&badge, "/a", &Ok(info(Strategy::Standalone)));
    let body = compact_json(&select_response(&result));
    assert!(body.contains("\"updated\""), "got: {body}");
    assert_eq!(body, "{\"revision\":2,\"status\":\"updated\"}");
    assert!(state.current().component.contains("badge.component.ts"));
    assert_eq!(state.current().revision, 2);
    assert_eq!(state.current().required_inputs, vec!["label"], "those of the new component");

    let result = state.apply_selection(
        "/a/badges/ghost.component.ts",
        "/a",
        &Err(PipelineError::Parse("cannot read".to_string())),
    );
    let body = compact_json(&select_response(&result));
    assert!(body.contains("\"rejected\""), "got: {body}");
    assert!(
        state.current().component.contains("badge.component.ts"),
        "state untouched"
    );
    let again = state.apply_selection(&badge, "/a", &Ok(info(Strategy::Module)));
    assert_eq!(compact_json(&select_response(&again)), "{\"status\":\"unchanged\"}");
    assert_eq!(state.current().strategy, "standalone");
}

#[test]
fn absolute_requests_are_kept() {
    assert_eq!(requested_component("/b/x.component.ts", "/a"), "/b/x.component.ts");
}

#[test]
fn the_page_is_told_whether_to_wait() {
    assert_eq!(compact_json(&ready_response(true, false)), "{\"ngExited\":false,\"pending\":true}");
    assert!(pending_after(false, SelectOutcome::Updated(2)));
    assert!(pending_after(true, SelectOutcome::Unchanged));
    assert!(!pending_after(false, SelectOutcome::Unchanged));
}

#[test]
fn the_first_selection_takes_what_validation_found() {
    let root = Ok("/a".to_string());
    let component = Ok("/a/b.component.ts".to_string());
    let state = starting_state(&root, &component, &Ok(info(Strategy::Module)))
        .unwrap_or_else(|e| panic!("{e}"));
    let current = state.current();
    assert_eq!(current.component, "/a/b.component.ts");
    assert_eq!(current.root, "/a");
    assert_eq!(current.strategy, "module");
    assert_eq!(current.required_inputs, vec!["label"]);
    assert_eq!(current.input_values.len(), 1);
    let broken = Err(PipelineError::NotAComponent);
    let wrong = || Err("no root".to_string());
    assert_eq!(starting_state(&wrong(), &component, &broken).err(), Some("no root".to_string()));
    assert_eq!(
        starting_state(&root, &Err("no file".to_string()), &broken).err(),
        Some("no file".to_string())
    );
    assert_eq!(
        starting_state(&root, &component, &broken).err(),
        Some("not an Angular component: no @Component decorator found".to_string())
    );
}

fn choice(name: &str) -> Option<(String, String)> {
    Some((format!("/a/{name}"), "/a".to_string()))
}

#[test]
fn a_choice_is_taken_up_once_it_has_stood() {
    let mut watcher = Watcher::new("/a/x".to_string(), "/a".to_string());
    assert_eq!(watcher.poll(0, choice("x")), None, "what is served is no news");
    assert_eq!(watcher.poll(250, choice("y")), None);
    assert_eq!(watcher.poll(500, choice("y")), None);
    assert_eq!(watcher.poll(250 + DEBOUNCE_MS, choice("y")), choice("y"));
    assert_eq!(watcher.poll(900, choice("y")), None, "taken up once");
    assert_eq!(watcher.poll(1000, None), None);
}

#[test]
fn choices_in_quick_succession_collapse() {
    let mut watcher = Watcher::new("/a/x".to_string(), "/a".to_string());
    assert_eq!(watcher.poll(0, choice("b")), None);
    assert_eq!(watcher.poll(250, choice("c")), None);
    assert_eq!(watcher.poll(500, choice("c")), None, "the later choice waits anew");
    assert_eq!(watcher.poll(750, choice("c")), choice("c"));
}

#[test]
fn messages_of_the_server() {
    assert_eq!(local_url(4200), "http://127.0.0.1:4200");
    assert_eq!(port_error(Some(80)), "port 80 is not available");
    assert_eq!(port_error(None), "no free port available");
    assert_eq!(
        serving_messages("/a", "/a/x"),
        ("[serve] project root: /a".to_string(), "[serve] component: /a/x".to_string())
    );
    assert_eq!(
        listening_message(4300),
        "[serve] control API listening on http://127.0.0.1:4300"
    );
    assert_eq!(opened_message("http://h"), "[serve] opened browser at http://h");
    assert_eq!(
        headless_message("http://127.0.0.1:1", 2),
        "[render-component] UI at http://127.0.0.1:1 (control API http://127.0.0.1:2)"
    );
    assert_eq!(
        applied_message("/a/x", SelectOutcome::Updated(7)),
        "[serve] hot-swap → /a/x (revision 7)"
    );
    assert_eq!(applied_message("/a/x", SelectOutcome::Unchanged), "[serve] unchanged: /a/x");
    assert_eq!(watch_message("/a/x"), "[watcher] selection change → /a/x");
    assert_eq!(refusal_message("/a/x", "bad"), "[watcher] rejected /a/x: bad");
}
