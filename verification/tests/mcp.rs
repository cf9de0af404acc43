use render_component::detect::ComponentKind;
use render_component::explorer::finder::index_files;
use render_component::host::clean::{compact_json, parse_json};
use render_component::json::Json;
use render_component::logs::LogSink;
use render_component::mcp::instance::{
    is_instance, lockfile_name, record_text, stale_instance, Stale,
};
use render_component::mcp::registry::{registry, Tool};
use render_component::mcp::session::{Server, Session, StartOutcome};
use render_component::mcp::tools::{
    argument_place, candidate, components_json, find_files, inspect, logs_json, read_file,
    resolve_in_root, tool_result, Seen, ToolCall, MAX_READ_BYTES,
};
use render_component::mcp::{
    handle_line, respond_to_reading, respond_to_tool, Incoming, Resource, Work, INVALID_PARAMS,
    LATEST_VERSION, METHOD_NOT_FOUND, PARSE_ERROR, SERVER_NAME, URI_LOGS, URI_STATUS,
};
use render_component::pipeline::{ComponentInfo, PipelineError, Strategy, TemplateRef};

fn json(text: &str) -> Json {
    parse_json(text).expect("response must be valid JSON")
}

/// The response to a request that is answered at once.
fn call(request: &str) -> Json {
    match handle_line(request) {
        Incoming::Answer(line) => json(&line),
        other => panic!("request must answer: {other:?}"),
    }
}

/// What has to be done for a request.
fn work(request: &str) -> (Json, Work) {
    match handle_line(request) {
        Incoming::Pending(id, work) => (id, work),
        other => panic!("request must wait: {other:?}"),
    }
}

fn tool(request: &str) -> (Json, ToolCall) {
    match work(request) {
        (id, Work::Tool(call)) => (id, call),
        other => panic!("request must call a tool: {other:?}"),
    }
}

fn at<'a>(j: &'a Json, path: &[&str]) -> &'a Json {
    j.get_at(path).unwrap_or_else(|| panic!("{path:?} in {j:?}"))
}

fn list(j: &Json) -> &Vec<Json> {
    match j {
        Json::Array(v) => v,
        other => panic!("no array: {other:?}"),
    }
}

fn number(n: i64) -> Json {
    Json::Number(n.to_string())
}

fn text(t: &str) -> Json {
    Json::Text(t.to_string())
}

/// The text of the one part of a tool's result.
fn content(response: &Json) -> String {
    list(at(response, &["result", "content"]))[0].text_at("text").unwrap().to_string()
}

#[test]
fn initialize_negotiates_supported_versions() {
    let res = call(
        r#"{"jsonrpc":"2.0","id":1,"method":"initialize","params":{"protocolVersion":"2024-11-05"}}"#,
    );
    assert_eq!(
        at(&res, &["result", "protocolVersion"]),
        &text("2024-11-05"),
        "echo a version we support"
    );
    assert_eq!(at(&res, &["result", "serverInfo", "name"]), &text(SERVER_NAME));
    assert!(matches!(at(&res, &["result", "capabilities", "tools"]), Json::Object(_)));

    let res = call(
        r#"{"jsonrpc":"2.0","id":2,"method":"initialize","params":{"protocolVersion":"1999-01-01"}}"#,
    );
    assert_eq!(at(&res, &["result", "protocolVersion"]), &text(LATEST_VERSION));
}

#[test]
fn notifications_and_bad_json_follow_jsonrpc_rules() {
    assert!(matches!(
        handle_line(r#"{"jsonrpc":"2.0","method":"notifications/initialized"}"#),
        Incoming::Silent
    ));
    let v = call("{not json");
    assert_eq!(at(&v, &["error", "code"]), &number(PARSE_ERROR));
    assert_eq!(at(&v, &["id"]), &Json::Null);
}

#[test]
fn unknown_method_is_method_not_found() {
    let res = call(r#"{"jsonrpc":"2.0","id":7,"method":"wat/xyz"}"#);
    assert_eq!(at(&res, &["error", "code"]), &number(METHOD_NOT_FOUND));
    assert_eq!(at(&res, &["error", "message"]), &text("method not found: wat/xyz"));
}

#[test]
fn tools_list_exposes_the_full_registry_with_schemas() {
    let res = call(r#"{"jsonrpc":"2.0","id":3,"method":"tools/list"}"#);
    let tools = list(at(&res, &["result", "tools"]));
    assert!(tools.len() >= 9, "extensive registry, got {}", tools.len());
    for tool in tools {
        assert!(tool.text_at("name").is_some(), "every tool has a name");
        assert_eq!(at(tool, &["inputSchema", "type"]), &text("object"), "schema per tool");
        assert!(tool.text_at("description").is_some());
    }
    let names: Vec<&str> = tools.iter().filter_map(|t| t.text_at("name")).collect();
    for expected in [
        "list_components",
        "inspect_component",
        "select_component",
        "get_status",
        "get_logs",
        "stop_server",
        "open_in_browser",
        "find_files",
        "read_file",
    ] {
        assert!(names.contains(&expected), "missing tool {expected}");
    }
}

fn gallery() -> ComponentInfo {
    ComponentInfo {
        class_name: "GalleryComponent".to_string(),
        required_inputs: vec!["photos".to_string()],
        input_values: vec![("photos".to_string(), Json::Array(vec![]))],
        module_class_name: None,
        template: TemplateRef::Inline,
        styles: vec![],
        strategy: Strategy::Standalone,
    }
}

#[test]
fn inspect_component_reports_metadata_for_a_fixture() {
    let (id, call) = tool(
        r#"{"jsonrpc":"2.0","id":4,"method":"tools/call","params":{
            "name":"inspect_component",
            "arguments":{"path":"/p/gallery/gallery.component.ts"}
        }}"#,
    );
    let path = match call {
        ToolCall::Inspect(p) => p,
        other => panic!("{other:?}"),
    };
    let canonical = resolve_in_root("/p", &path, Ok(argument_place("/p", &path))).unwrap();
    let res = json(&respond_to_tool(id, &inspect(&canonical, &Ok(gallery()))));
    let info = json(&content(&res));
    assert_eq!(info.text_at("class_name"), Some("GalleryComponent"));
    assert_eq!(info.text_at("strategy"), Some("standalone"));
    assert_eq!(at(&res, &["result", "isError"]), &Json::Bool(false));
    assert_eq!(at(&res, &["id"]), &number(4));
    assert_eq!(info.get("module"), Some(&Json::Null));
    assert_eq!(
        content(&res),
        "{\"class_name\":\"GalleryComponent\",\"input_values\":{\"photos\":[]},\"module\":null,\"path\":\"/p/gallery/gallery.component.ts\",\"required_inputs\":[\"photos\"],\"strategy\":\"standalone\"}"
    );
}

#[test]
fn tool_failures_surface_as_iserror_not_protocol_errors() {
    let (id, call) = tool(
        r#"{"jsonrpc":"2.0","id":5,"method":"tools/call","params":{
            "name":"inspect_component",
            "arguments":{"path":"/definitely/missing.component.ts"}
        }}"#,
    );
    let path = match call {
        ToolCall::Inspect(p) => p,
        other => panic!("{other:?}"),
    };
    let failed = resolve_in_root("/p", &path, Err("No such file or directory".to_string()));
    let outcome = failed.map(|p| text(&p));
    let res = json(&respond_to_tool(id, &outcome));
    assert_eq!(at(&res, &["result", "isError"]), &Json::Bool(true), "tool failure is a tool result");
    assert!(content(&res).contains("not found"));
}

#[test]
fn missing_arguments_are_tool_failures() {
    for name in ["inspect_component", "select_component", "read_file"] {
        let res = call(&format!(
            r#"{{"jsonrpc":"2.0","id":5,"method":"tools/call","params":{{"name":"{name}"}}}}"#
        ));
        assert_eq!(at(&res, &["result", "isError"]), &Json::Bool(true));
        assert_eq!(content(&res), "missing required argument: path");
    }
    let res = call(
        r#"{"id":5,"method":"tools/call","params":{"name":"find_files","arguments":{"query":3}}}"#,
    );
    assert_eq!(content(&res), "missing required argument: query");
}

#[test]
fn unknown_tool_is_invalid_params() {
    let res = call(
        r#"{"jsonrpc":"2.0","id":6,"method":"tools/call","params":{"name":"nope","arguments":{}}}"#,
    );
    assert_eq!(at(&res, &["error", "code"]), &number(INVALID_PARAMS));
    assert_eq!(at(&res, &["error", "message"]), &text("unknown tool: nope"));
    let res = call(r#"{"jsonrpc":"2.0","id":6,"method":"tools/call"}"#);
    assert_eq!(at(&res, &["error", "code"]), &number(INVALID_PARAMS));
    assert_eq!(at(&res, &["error", "message"]), &text("missing tool name"));
}

fn files() -> Vec<String> {
    [
        "/p/gallery/gallery.component.ts",
        "/p/gallery/gallery.component.html",
        "/p/gallery/photo-card/photo-card.component.ts",
        "/p/badges/badge.component.ts",
        "/p/badges/badge.module.ts",
        "/p/Button.tsx",
        "/p/plain/helper.ts",
    ]
    .iter()
    .map(|s| s.to_string())
    .collect()
}

#[test]
fn find_files_ranks_the_gallery_fixture_first() {
    let (id, call) = tool(
        r#"{"jsonrpc":"2.0","id":8,"method":"tools/call","params":{
            "name":"find_files","arguments":{"query":"gal"}
        }}"#,
    );
    let (query, limit) = match call {
        ToolCall::FindFiles(q, n) => (q, n),
        other => panic!("{other:?}"),
    };
    assert_eq!(limit, 20);
    let answer = find_files(&index_files("/p", &files()), &query, limit);
    let res = json(&respond_to_tool(id, &Ok(answer)));
    let found = json(&content(&res));
    let matches = list(at(&found, &["matches"]));
    let first = matches[0].text_at("path").unwrap();
    assert!(first.starts_with("gallery/"), "best match under gallery/: {found:?}");
    let paths: Vec<&str> = matches.iter().filter_map(|m| m.text_at("path")).collect();
    assert!(
        paths.contains(&"gallery/gallery.component.ts"),
        "the component file is among the matches: {found:?}"
    );
    let scores: Vec<u64> = matches.iter().filter_map(|m| m.natural_at("score")).collect();
    let mut sorted = scores.clone();
    sorted.sort_by(|a, b| b.cmp(a));
    assert_eq!(scores, sorted, "matches sorted by score desc: {found:?}");
    assert_eq!(found.natural_at("count"), Some(matches.len() as u64));
}

#[test]
fn equal_scores_are_told_in_the_order_of_the_paths() {
    let files = vec!["/p/bb/x.ts".to_string(), "/p/aa/x.ts".to_string()];
    let items = index_files("/p", &files);
    let found = find_files(&items, "x", 1);
    let matches = list(at(&found, &["matches"]));
    assert_eq!(matches.len(), 1, "no more than asked for");
    assert_eq!(matches[0].text_at("path"), Some("aa/x.ts"));
    let none = find_files(&items, "zz", 5);
    assert_eq!(compact_json(&none), "{\"count\":0,\"matches\":[]}");
    let negative = find_files(&index_files("/p", &vec!["/p/x-----------------y.ts".to_string()]), "xy", 5);
    assert!(compact_json(&negative).contains("\"score\":"));
}

#[test]
fn read_file_is_confined_to_the_project_root() {
    let (id, call) = tool(
        r#"{"jsonrpc":"2.0","id":9,"method":"tools/call","params":{
            "name":"read_file","arguments":{"path":"plain/helper.ts"}
        }}"#,
    );
    let raw = match call {
        ToolCall::ReadFile(p) => p,
        other => panic!("{other:?}"),
    };
    assert_eq!(argument_place("/p", &raw), "/p/plain/helper.ts");
    let path = resolve_in_root("/p", &raw, Ok("/p/plain/helper.ts".to_string())).unwrap();
    let answer = read_file(&path, Ok(19), Ok("export const x = 1;".to_string()));
    let text = content(&json(&respond_to_tool(id, &answer)));
    assert!(text.contains("content"), "returns file payload: {text}");

    let (id, call) = tool(
        r#"{"jsonrpc":"2.0","id":10,"method":"tools/call","params":{
            "name":"read_file","arguments":{"path":"../../Cargo.toml"}
        }}"#,
    );
    let raw = match call {
        ToolCall::ReadFile(p) => p,
        other => panic!("{other:?}"),
    };
    let escaped = resolve_in_root("/p", &raw, Ok("/Cargo.toml".to_string()));
    let res = json(&respond_to_tool(id, &escaped.map(|p| Json::Text(p))));
    assert_eq!(at(&res, &["result", "isError"]), &Json::Bool(true), "path escape is rejected");
    assert_eq!(content(&res), "path escapes the project root: ../../Cargo.toml");
}

#[test]
fn a_sibling_with_the_same_prefix_is_outside() {
    assert_eq!(
        resolve_in_root("/p", "/pq/a.ts", Ok("/pq/a.ts".to_string())),
        Err("path escapes the project root: /pq/a.ts".to_string())
    );
    assert_eq!(resolve_in_root("/p", ".", Ok("/p".to_string())), Ok("/p".to_string()));
}

#[test]
fn long_files_are_flagged() {
    let answer = read_file("/p/a", Ok(MAX_READ_BYTES + 1), Ok("x".to_string())).unwrap();
    assert_eq!(
        compact_json(&answer),
        "{\"bytes\":262145,\"content\":\"x\",\"path\":\"/p/a\",\"truncated\":true}"
    );
    let answer = read_file("/p/a", Ok(MAX_READ_BYTES), Ok("x".to_string())).unwrap();
    assert_eq!(answer.get("truncated"), Some(&Json::Bool(false)));
    assert_eq!(
        read_file("/p/a", Err("gone".to_string()), Ok("x".to_string())),
        Err("cannot stat /p/a: gone".to_string())
    );
    assert_eq!(
        read_file("/p/a", Ok(1), Err("denied".to_string())),
        Err("cannot read /p/a: denied".to_string())
    );
}

#[test]
fn resources_round_trip() {
    let res = call(r#"{"jsonrpc":"2.0","id":11,"method":"resources/list"}"#);
    let uris: Vec<&str> = list(at(&res, &["result", "resources"]))
        .iter()
        .filter_map(|r| r.text_at("uri"))
        .collect();
    assert!(uris.contains(&URI_STATUS) && uris.contains(&URI_LOGS));
    for uri in uris {
        let resource = Resource::at(uri).expect("listed resources can be read");
        assert_eq!(resource.uri(), uri);
    }

    let (id, work) = work(
        r#"{"jsonrpc":"2.0","id":12,"method":"resources/read","params":{"uri":"rc://logs"}}"#,
    );
    let resource = match work {
        Work::Resource(r) => r,
        other => panic!("{other:?}"),
    };
    assert_eq!(resource, Resource::Logs);
    let mut sink = LogSink::new(false);
    sink.push(0, "hello");
    let res = json(&respond_to_reading(id, resource, &logs_json(&sink, 500)));
    let contents = list(at(&res, &["result", "contents"]));
    let payload = contents[0].text_at("text").unwrap();
    assert_eq!(json(payload), json(r#"{"lines":["[00:00:00] hello"]}"#), "logs payload is JSON");
    assert_eq!(contents[0].text_at("uri"), Some(URI_LOGS));
}

#[test]
fn unknown_resources_are_refused() {
    let res = call(r#"{"id":1,"method":"resources/read","params":{"uri":"rc://nope"}}"#);
    assert_eq!(at(&res, &["error", "code"]), &number(INVALID_PARAMS));
    assert_eq!(at(&res, &["error", "message"]), &text("unknown resource: rc://nope"));
    let res = call(r#"{"id":1,"method":"resources/read"}"#);
    assert_eq!(at(&res, &["error", "message"]), &text("missing resource uri"));
}

#[test]
fn prompts_list_and_get() {
    let res = call(r#"{"jsonrpc":"2.0","id":13,"method":"prompts/list"}"#);
    assert_eq!(list(at(&res, &["result", "prompts"])).len(), 2);

    let res = call(
        r#"{"jsonrpc":"2.0","id":14,"method":"prompts/get","params":{
            "name":"select-component","arguments":{"query":"pdfview"}
        }}"#,
    );
    let text = list(at(&res, &["result", "messages"]))[0]
        .get_at(&["content", "text"])
        .unwrap()
        .text()
        .unwrap();
    assert!(text.contains("pdfview"), "argument lands in the prompt");
}

#[test]
fn prompts_that_are_not_there() {
    let res = call(r#"{"id":1,"method":"prompts/get","params":{"name":"nope"}}"#);
    assert_eq!(at(&res, &["error", "code"]), &number(METHOD_NOT_FOUND));
    assert_eq!(at(&res, &["error", "message"]), &text("unknown prompt: nope"));
    let res = call(r#"{"id":1,"method":"prompts/get"}"#);
    assert_eq!(at(&res, &["error", "code"]), &number(INVALID_PARAMS));
    let res = call(r#"{"id":1,"method":"prompts/get","params":{"name":"diagnose-render"}}"#);
    assert_eq!(at(&res, &["result", "description"]), &text("render-component: diagnose-render"));
}

#[test]
fn ping_and_set_level_answer_empty_results() {
    let res = call(r#"{"jsonrpc":"2.0","id":15,"method":"ping"}"#);
    assert_eq!(at(&res, &["result"]), &json("{}"));
    let res = call(
        r#"{"jsonrpc":"2.0","id":16,"method":"logging/setLevel","params":{"level":"debug"}}"#,
    );
    assert_eq!(at(&res, &["result"]), &json("{}"));
}

#[test]
fn ids_are_echoed_as_they_are() {
    assert_eq!(at(&call(r#"{"id":"a-1","method":"ping"}"#), &["id"]), &text("a-1"));
    assert_eq!(at(&call(r#"{"id":null,"method":"ping"}"#), &["id"]), &Json::Null);
    assert!(matches!(handle_line("[1,2]"), Incoming::Silent));
    assert_eq!(
        at(&call(r#"{"id":1}"#), &["error", "message"]),
        &text("method not found: ")
    );
}

#[test]
fn tool_arguments_have_defaults() {
    let (_, call) = tool(r#"{"id":1,"method":"tools/call","params":{"name":"list_components"}}"#);
    assert!(matches!(call, ToolCall::ListComponents(None, 100, 0)), "{call:?}");
    let (_, call) = tool(
        r#"{"id":1,"method":"tools/call","params":{"name":"list_components",
            "arguments":{"filter":"gal","limit":99999999,"offset":7}}}"#,
    );
    match call {
        ToolCall::ListComponents(filter, limit, offset) => {
            assert_eq!(filter.as_deref(), Some("gal"));
            assert_eq!(limit, 10_000, "pages are bounded");
            assert_eq!(offset, 7);
        }
        other => panic!("{other:?}"),
    }
    let (_, call) = tool(
        r#"{"id":1,"method":"tools/call","params":{"name":"get_logs","arguments":{"tail":-3}}}"#,
    );
    assert!(matches!(call, ToolCall::Logs(100)), "{call:?}");
    for name in ["get_status", "stop_server", "open_in_browser"] {
        let (_, call) =
            tool(&format!(r#"{{"id":1,"method":"tools/call","params":{{"name":"{name}"}}}}"#));
        assert!(matches!(call, ToolCall::Status | ToolCall::Stop | ToolCall::OpenBrowser));
    }
}

#[test]
fn every_listed_tool_can_be_called() {
    for listed in registry() {
        let name = listed.text_at("name").unwrap();
        let tool = Tool::named(name).expect("listed tools have a name");
        assert_eq!(tool.name(), name);
        assert_eq!(listed.text_at("description"), Some(tool.description()));
        let properties = listed.get_at(&["inputSchema", "properties"]).unwrap();
        for argument in tool.arguments() {
            assert!(properties.get(argument.name).is_some());
        }
    }
    assert_eq!(Tool::named("list_component"), None);
}

fn seen() -> Vec<Seen> {
    index_files("/p", &files())
        .iter()
        .map(|item| Seen {
            source: Some("@Component({}) export class X {}".to_string()),
            module_exists: item.path.contains("badge"),
        })
        .collect()
}

#[test]
fn components_are_listed_by_kind() {
    let items = index_files("/p", &files());
    let answer = components_json(&items, &seen(), None, 100, 0);
    let listed: Vec<(String, String, bool)> = list(at(&answer, &["components"]))
        .iter()
        .map(|c| {
            (
                c.text_at("path").unwrap().to_string(),
                c.text_at("kind").unwrap().to_string(),
                c.get("renderable") == Some(&Json::Bool(true)),
            )
        })
        .collect();
    let row = |p: &str, k: ComponentKind| (p.to_string(), k.as_str().to_string(), k.renderable());
    assert_eq!(
        listed,
        vec![
            row("Button.tsx", ComponentKind::React),
            row("badges/badge.component.ts", ComponentKind::AngularModule),
            row("badges/badge.module.ts", ComponentKind::AngularModuleFile),
            row("gallery/gallery.component.ts", ComponentKind::AngularStandalone),
            row("gallery/photo-card/photo-card.component.ts", ComponentKind::AngularStandalone),
        ]
    );
    assert_eq!(answer.natural_at("count"), Some(5));
    assert!(answer.get("nextOffset").is_none());
    assert!(candidate("a/b.ts", Some("b")));
    assert!(!candidate("a/b.ts", Some("c")));
    assert!(!candidate("a/b.vue", None));
}

#[test]
fn pages_follow_each_other() {
    let items = index_files("/p", &files());
    let mut offset = 0;
    let mut paths: Vec<String> = Vec::new();
    loop {
        let page = components_json(&items, &seen(), None, 2, offset);
        for c in list(at(&page, &["components"])) {
            paths.push(c.text_at("path").unwrap().to_string());
        }
        match page.natural_at("nextOffset") {
            Some(next) => {
                assert_eq!(
                    page.text_at("detail"),
                    Some("truncated: pass limit/offset for pages, or a filter to narrow")
                );
                assert!(next > offset);
                offset = next;
            }
            None => break,
        }
    }
    assert_eq!(paths.len(), 5);
    let whole = components_json(&items, &seen(), None, 0, 0);
    assert_eq!(whole.natural_at("returned"), Some(5));
    let beyond = components_json(&items, &seen(), None, 2, 50);
    assert_eq!(beyond.natural_at("returned"), Some(0));
    assert!(beyond.get("nextOffset").is_none());
    let filtered = components_json(&items, &seen(), Some("gallery"), 2, 0);
    assert_eq!(filtered.natural_at("count"), Some(2));
}

fn server() -> Server {
    Server { vite_url: "http://127.0.0.1:4200".to_string(), cli_port: 4300, vite_port: 4200 }
}

fn select(session: &mut Session, path: &str) -> (Json, bool) {
    let selected = session.select(path, &Ok(gallery()), Ok(()), "/tmp/s.json".to_string());
    (selected.answer.unwrap(), selected.launch.is_some())
}

#[test]
fn a_session_starts_one_server_and_swaps() {
    let mut session = Session::new("/p".to_string());
    assert_eq!(session.root(), "/p");
    let selected = session.select(
        "/p/a.component.ts",
        &Ok(gallery()),
        Ok(()),
        "/tmp/s.json".to_string(),
    );
    let launch = selected.launch.expect("a cold start");
    assert_eq!(launch.component, "/p/a.component.ts");
    assert_eq!(launch.root, "/p");
    assert!(!launch.open_browser);
    assert_eq!(
        selected.log,
        Some("[mcp] starting dev server for /p/a.component.ts...".to_string())
    );
    let (answer, launched) = select(&mut session, "/p/b.component.ts");
    assert!(!launched, "no second start");
    assert_eq!(answer.get("starting"), Some(&Json::Bool(true)));
    let status = session.status_json();
    assert_eq!(status.get("starting"), Some(&Json::Bool(true)));
    assert_eq!(status.text_at("startingComponent"), Some("/p/a.component.ts"));

    assert_eq!(
        session.harvest_start(StartOutcome::Ready(server())),
        Some("[mcp] dev server ready at http://127.0.0.1:4200".to_string())
    );
    assert!(session.is_running());
    let status = session.status_json();
    assert_eq!(status.text_at("url"), Some("http://127.0.0.1:4200"));
    assert_eq!(status.natural_at("cliPort"), Some(4300));
    assert_eq!(status.natural_at("vitePort"), Some(4200));
    assert_eq!(status.text_at("current"), Some("/p/a.component.ts"));

    let (answer, launched) = select(&mut session, "/p/b.component.ts");
    assert!(!launched);
    assert_eq!(answer.get("hot_swap"), Some(&Json::Bool(true)));
    assert_eq!(session.status_json().text_at("current"), Some("/p/b.component.ts"));
    let failed = session.select(
        "/p/c.component.ts",
        &Ok(gallery()),
        Err("full".to_string()),
        "/tmp/s.json".to_string(),
    );
    assert_eq!(failed.answer, Err("cannot write selection file: full".to_string()));
    assert_eq!(session.status_json().text_at("current"), Some("/p/b.component.ts"));
}

#[test]
fn a_broken_component_starts_nothing() {
    let mut session = Session::new("/p".to_string());
    let selected = session.select(
        "/p/a.component.ts",
        &Err(PipelineError::NotAComponent),
        Ok(()),
        "/tmp/s.json".to_string(),
    );
    assert_eq!(
        selected.answer,
        Err("not an Angular component: no @Component decorator found".to_string())
    );
    assert!(selected.launch.is_none());
    assert_eq!(session.status_json().get("starting"), Some(&Json::Bool(false)));
}

#[test]
fn a_failed_start_is_kept_for_the_status() {
    let mut session = Session::new("/p".to_string());
    select(&mut session, "/p/a.component.ts");
    assert_eq!(
        session.harvest_start(StartOutcome::Failed("no npm".to_string(), "no npm: why".to_string())),
        Some("[mcp!] dev server failed: no npm: why".to_string())
    );
    assert_eq!(session.status_json().text_at("startError"), Some("no npm"));
    let (_, launched) = select(&mut session, "/p/a.component.ts");
    assert!(launched, "it can be tried again");
    assert_eq!(session.status_json().get("startError"), Some(&Json::Null));
    assert_eq!(session.harvest_start(StartOutcome::Panicked("x".to_string())), None);
    assert_eq!(session.status_json().text_at("startError"), Some("start task panicked: x"));
    assert_eq!(session.harvest_start(StartOutcome::Ready(server())), None, "nothing was started");
    assert!(!session.is_running());
}

#[test]
fn stopping_is_final() {
    let mut session = Session::new("/p".to_string());
    let (answer, log) = session.stop();
    assert_eq!(compact_json(&answer), "{\"reason\":\"server not running\",\"stopped\":false}");
    assert_eq!(log, None);
    select(&mut session, "/p/a.component.ts");
    let (answer, log) = session.stop();
    assert_eq!(compact_json(&answer), "{\"reason\":\"start cancelled\",\"stopped\":true}");
    assert_eq!(log, Some("[mcp] cold start cancelled".to_string()));
    select(&mut session, "/p/a.component.ts");
    session.harvest_start(StartOutcome::Ready(server()));
    assert_eq!(session.page(), Some("http://127.0.0.1:4200"));
    assert_eq!(
        compact_json(&session.open_browser().unwrap()),
        "{\"opened\":\"http://127.0.0.1:4200\"}"
    );
    let (answer, log) = session.stop();
    assert_eq!(compact_json(&answer), "{\"stopped\":true,\"url\":\"http://127.0.0.1:4200\"}");
    assert_eq!(log, Some("[mcp] dev server stopped".to_string()));
    assert_eq!(
        session.open_browser(),
        Err("server not running — select_component first".to_string())
    );
    assert_eq!(session.status_json().get("current"), Some(&Json::Null));
}

#[test]
fn results_tell_whether_they_failed() {
    let ok = tool_result(&Ok(json("{\"a\":1}")));
    assert_eq!(
        compact_json(&ok),
        "{\"content\":[{\"text\":\"{\\\"a\\\":1}\",\"type\":\"text\"}],\"isError\":false}"
    );
    let failed = tool_result(&Err("no".to_string()));
    assert_eq!(
        compact_json(&failed),
        "{\"content\":[{\"text\":\"no\",\"type\":\"text\"}],\"isError\":true}"
    );
}

#[test]
fn the_log_is_told_by_its_newest_lines() {
    let mut sink = LogSink::new(false);
    for i in 0..5 {
        sink.push(0, &format!("{i}"));
    }
    assert_eq!(
        compact_json(&logs_json(&sink, 2)),
        "{\"lines\":[\"[00:00:00] 3\",\"[00:00:00] 4\"]}"
    );
    assert_eq!(list(at(&logs_json(&sink, 99), &["lines"])).len(), 5);
}

#[test]
fn instances_are_recorded_by_root() {
    assert_eq!(lockfile_name(""), "render-component-mcp-cbf29ce484222325.json");
    assert_eq!(lockfile_name("a"), "render-component-mcp-af74d84c8601ec8c.json");
    assert_eq!(lockfile_name("/work/a"), "render-component-mcp-d251545f85ab0bff.json");
    assert_ne!(lockfile_name("/work/a"), lockfile_name("/work/b"));
    assert_eq!(record_text(42, Some(4300)), "{\"cli_port\":4300,\"pid\":42}");
    assert_eq!(record_text(42, None), "{\"cli_port\":null,\"pid\":42}");
}

#[test]
fn older_instances_are_found_on_record() {
    let record = record_text(42, Some(4300));
    assert_eq!(stale_instance(&record, 7), Some(Stale { pid: 42, cli_port: Some(4300) }));
    assert_eq!(stale_instance(&record, 42), None, "not itself");
    assert_eq!(
        stale_instance(&record_text(42, None), 7),
        Some(Stale { pid: 42, cli_port: None })
    );
    assert_eq!(stale_instance("{broken", 7), None);
    assert_eq!(stale_instance("{}", 7), None);
    assert!(is_instance("/usr/bin/render-component\0mcp\0"));
    assert!(!is_instance("/usr/bin/vim\0x\0"));
}
