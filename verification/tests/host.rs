use render_component::host::clean::{
    compact_json, parse_json, parse_jsonc, pretty_json, strip_ansi, strip_jsonc,
};
use render_component::host::install::{
    batch_failed_message, installing_message, InstallEvent, InstallTask, Installer, Pipe,
};
use render_component::host::packages::{
    angular_major, collect_user_versions, detect_angular_range, find_workspace_config,
    nearest_file, patch_angular_versions, project_dependency_install_args, read_packages,
};
use render_component::host::styles::{
    bridge_global_styles, bridged_styles_message, plan_global_styles, styles_fit,
    wanted_style_files,
};
use render_component::host::tsconfig::{
    bridge_fits, bridge_tsconfig_paths, entry_file, extends_targets, load_tsconfig_merged,
    next_config, walks_into, Workspace,
};
use render_component::host::{
    after_attempt, bridge_styles, bridge_tsconfig, entry_text, find_globals, globals_message,
    globals_text, host_dir_name, is_ready, keep_waiting, needs_modal_stub, not_ready_message,
    pending_after_line, port_of, proxy_conf, range_message, starting_message, stubs_text,
    tagged_line, ConfigFile, Retry,
};
use render_component::host;
use render_component::json::Json;
use render_component::path;

fn json(text: &str) -> Json {
    parse_json(text).expect("valid JSON")
}

fn texts(j: &Json) -> Vec<String> {
    match j {
        Json::Array(v) => v.iter().filter_map(|x| x.text().map(String::from)).collect(),
        other => panic!("no array: {other:?}"),
    }
}

fn strings(v: &[&str]) -> Vec<String> {
    v.iter().map(|s| s.to_string()).collect()
}

#[test]
fn entry_exports_component_and_module() {
    let content = entry_text(
        "/proj/gallery/gallery.component.ts",
        "/proj",
        "GalleryComponent",
        Some("GalleryModule"),
        true,
    )
    .unwrap();
    assert!(
        content.contains(
            "export { GalleryComponent } from '../../external/gallery/gallery.component';"
        ),
        "got: {content}"
    );
    assert!(
        content.contains("export { GalleryModule } from '../../external/gallery/gallery.module';"),
        "got: {content}"
    );
    assert!(content.starts_with("// Auto-generated by render-component. Do not edit.\n"));
    assert!(content.ends_with("\n"));
}

#[test]
fn entry_is_stable_for_same_input() {
    let make = || entry_text("/proj/a.component.ts", "/proj", "A", Some("M"), false);
    assert_eq!(make(), make(), "same selection must not change entry content (no rebuild)");
    let content = make().unwrap();
    assert!(!content.contains("export { M }"), "no module file, no module export");
}

#[test]
fn entry_outside_the_root_is_refused() {
    assert_eq!(
        entry_text("/other/a.component.ts", "/proj", "A", None, false),
        Err("/other/a.component.ts is not under root /proj".to_string())
    );
}

#[test]
fn stubs_provide_activexmodal_only_for_modal_components() {
    let stubs = stubs_text(Some("export class PlainComponent {}"));
    assert!(stubs.contains("stubProviders = []"), "got: {stubs}");
    assert!(
        !stubs.contains(": Provider"),
        "empty stubs must not use the Provider type (no import → TS2304): {stubs}"
    );
    assert!(!stubs.contains("import"), "empty stubs must have no imports: {stubs}");
    assert!(
        !stubs.contains("@ng-bootstrap"),
        "plain component must not import ng-bootstrap: {stubs}"
    );

    let modal = "private readonly activeModal = inject(NgbActiveModal);";
    assert!(needs_modal_stub(Some(modal)));
    let stubs = stubs_text(Some(modal));
    assert!(stubs.contains("provide: NgbActiveModal"), "got: {stubs}");
    assert!(stubs.contains("@ng-bootstrap/ng-bootstrap"), "got: {stubs}");
    assert!(!needs_modal_stub(None));
}

#[test]
fn strip_jsonc_removes_comments_and_trailing_commas_but_keeps_urls() {
    let input = r#"{
  // line comment
  /* block
     comment */
  "compilerOptions": {
    "baseUrl": ".", // trailing comment
    "paths": {
      "@lib/*": ["projects/lib/src/*",],
      "docs": ["https://example.com/docs"],
    },
  },
}"#;
    let v = parse_json(&strip_jsonc(input)).expect("valid JSON after strip");
    assert_eq!(v.get_at(&["compilerOptions", "baseUrl"]).unwrap().text(), Some("."));
    assert!(matches!(
        v.get_at(&["compilerOptions", "paths", "@lib/*"]),
        Some(Json::Array(_))
    ));
    assert_eq!(
        texts(v.get_at(&["compilerOptions", "paths", "docs"]).unwrap())[0],
        "https://example.com/docs"
    );
    assert_eq!(parse_jsonc(input), Ok(v));
}

#[test]
fn jsonc_corner_cases() {
    assert_eq!(strip_jsonc("[1,2,\n ]"), "[1,2\n ]");
    assert_eq!(strip_jsonc("\"a // b /* c */\""), "\"a // b /* c */\"");
    assert_eq!(strip_jsonc("\"\\\"//\" // x"), "\"\\\"//\" ");
    assert_eq!(strip_jsonc("1 / 2"), "1 / 2");
    assert_eq!(strip_jsonc("/* open"), "");
    assert_eq!(strip_jsonc("plain"), "plain");
}

#[test]
fn strip_ansi_removes_color_codes_but_keeps_text() {
    let raw = "\u{1b}[31m\u{1b}[41;31m✘ \u{1b}[1mERROR\u{1b}[0m: TS2307\u{1b}[0m";
    assert_eq!(strip_ansi(raw), "✘ ERROR: TS2307");
    assert_eq!(strip_ansi("plain line"), "plain line");
    assert_eq!(strip_ansi("a\u{1b}Zb"), "ab");
    assert_eq!(strip_ansi("a\u{1b}[12"), "a");
    assert_eq!(strip_ansi("a\u{1b}"), "a");
}

#[test]
fn json_is_printed_in_both_forms() {
    let v = json("{ \"b\": [1, true, null], \"a\": \"x\\ny\" }");
    assert_eq!(compact_json(&v), "{\"a\":\"x\\ny\",\"b\":[1,true,null]}");
    assert_eq!(
        pretty_json(&json("{\"a\":1}")),
        "{\n  \"a\": 1\n}"
    );
    assert_eq!(json(&compact_json(&v)), v);
    assert!(parse_json("{not json").is_err());
}

#[test]
fn find_workspace_config_reaches_deep_nesting_via_angular_json() {
    let component = "/r/gym/projects/system-modules/document-management/ui/components/ui-payment-code/ui-payment-code/ui-payment-code-detail/x.component.ts";
    let dirs = path::ancestors(component, "/r");
    let present = strings(&["/r/gym/angular.json", "/r/gym/tsconfig.json"]);
    let found = find_workspace_config(&dirs, &present).expect("workspace tsconfig found");
    assert_eq!(found, "/r/gym/tsconfig.json");
}

#[test]
fn find_workspace_config_falls_back_to_nearest_tsconfig() {
    let dirs = path::ancestors("/r/deep/a/b/c/x.ts", "/r");
    let present = strings(&["/r/deep/a/tsconfig.json"]);
    let found = find_workspace_config(&dirs, &present).expect("nearest tsconfig found");
    assert_eq!(found, "/r/deep/a/tsconfig.json");
    assert_eq!(find_workspace_config(&dirs, &vec![]), None);
}

#[test]
fn a_workspace_beats_a_nearer_tsconfig() {
    let dirs = path::ancestors("/r/gym/app/src/x.ts", "/r");
    let present = strings(&[
        "/r/gym/app/tsconfig.json",
        "/r/gym/tsconfig.json",
        "/r/gym/angular.json",
    ]);
    assert_eq!(find_workspace_config(&dirs, &present).unwrap(), "/r/gym/tsconfig.json");
    assert_eq!(
        nearest_file(&dirs, "tsconfig.json", &present).unwrap(),
        "/r/gym/app/tsconfig.json"
    );
}

#[test]
fn detect_angular_range_reads_nearest_package_json() {
    let package = r#"{ "dependencies": { "@angular/core": "^22.0.5" } }"#;
    let packages = read_packages(&vec![None, Some("{broken".to_string()), Some(package.to_string())]);
    assert_eq!(packages.len(), 1);
    assert_eq!(detect_angular_range(&packages), "^22.0.5");
    assert_eq!(detect_angular_range(&vec![]), "^20.0.0");
}

#[test]
fn angular_majors() {
    assert_eq!(angular_major("^22.0.5"), 22);
    assert_eq!(angular_major(">=17 <19"), 17);
    assert_eq!(angular_major("next"), 20);
    assert_eq!(angular_major("99999999999"), 20);
    assert_eq!(range_message("^22.0.5", 22), "[host] target project Angular range: ^22.0.5 (host-ng22)");
    assert_eq!(host_dir_name(22), "host-ng22");
}

#[test]
fn host_packages_follow_the_workspace() {
    let near = json(r#"{ "devDependencies": { "typescript": "~6.0" } }"#);
    let far = json(r#"{ "dependencies": { "typescript": "~5.0", "rxjs": "^7" } }"#);
    let versions = collect_user_versions(&vec![near, far]);
    let host = json(
        r#"{ "dependencies": { "@angular/core": "^20", "rxjs": "^6", "tslib": "^2" },
             "devDependencies": { "typescript": "~5.9", "@angular/cli": "^20" } }"#,
    );
    let patched = patch_angular_versions(host, "^22.0.5", &versions);
    let at = |section: &str, name: &str| {
        patched.get_at(&[section, name]).unwrap().text().unwrap().to_string()
    };
    assert_eq!(at("dependencies", "@angular/core"), "^22.0.5");
    assert_eq!(at("devDependencies", "@angular/cli"), "^22.0.5");
    assert_eq!(at("dependencies", "rxjs"), "^7");
    assert_eq!(at("devDependencies", "typescript"), "~6.0", "the nearest package wins");
    assert_eq!(at("dependencies", "tslib"), "^2");
}

#[test]
fn project_dependencies_are_installed_in_order() {
    let package = json(r#"{ "dependencies": { "zone.js": "~0.15", "a": {}, "m": "1" } }"#);
    assert_eq!(
        project_dependency_install_args(&package),
        vec!["a@latest", "m@1", "zone.js@~0.15"]
    );
    assert!(project_dependency_install_args(&json("{}")).is_empty());
    let mut many: Vec<(String, Json)> = Vec::new();
    for i in 0..130 {
        many.push((format!("p{i:03}"), Json::Text("1".to_string())));
    }
    let package = Json::Object(vec![("dependencies".to_string(), Json::Object(many))]);
    let args = project_dependency_install_args(&package);
    assert_eq!(args.len(), 120);
    assert_eq!(args[119], "p119@1");
}

/// What an installer asks for after an event, and what it logs.
fn step(installer: &mut Installer, event: InstallEvent) -> (String, Vec<String>) {
    let action = installer.next(event);
    let task = match action.task {
        InstallTask::Batch(packages) => format!("batch {}", packages.join(" ")),
        InstallTask::Single(package) => format!("single {package}"),
        InstallTask::Done => "done".to_string(),
        InstallTask::Nothing => "nothing".to_string(),
    };
    (task, action.log)
}

fn finished(success: bool) -> InstallEvent {
    InstallEvent::Ended(success, format!("exit status: {}", if success { 0 } else { 1 }))
}

#[test]
fn a_failed_batch_is_retried_one_by_one() {
    let mut i = Installer::new(strings(&["a@1", "b@1", "c@1"]));
    let (task, log) = step(&mut i, InstallEvent::Begun);
    assert_eq!(task, "batch a@1 b@1 c@1");
    assert_eq!(log, vec![installing_message(3)]);
    assert_eq!(log, vec!["[npm] installing 3 project runtime dependency(ies)..."]);
    let (task, log) = step(&mut i, finished(false));
    assert_eq!(task, "single a@1");
    assert_eq!(
        log,
        vec!["[npm!] batch install of project deps failed (exit status: 1) — retrying one-by-one"]
    );
    assert_eq!(log, vec![batch_failed_message(Ok("exit status: 1"))]);
    let (task, log) = step(&mut i, finished(true));
    assert_eq!((task.as_str(), log.len()), ("single b@1", 0));
    // What is no end of an attempt changes nothing.
    assert_eq!(step(&mut i, InstallEvent::Begun).0, "nothing");
    let (task, log) = step(&mut i, finished(false));
    assert_eq!(task, "single c@1");
    assert_eq!(log, vec!["[npm!] skipped b@1 (install failed — private package?)"]);
    let (task, log) = step(&mut i, InstallEvent::SpawnFailed);
    assert_eq!(task, "done");
    assert_eq!(
        log,
        vec![
            "[npm!] skipped c@1 (install failed — private package?)",
            "[npm] project dependencies: 1 installed, 2 skipped"
        ]
    );
    assert_eq!(step(&mut i, finished(true)).0, "nothing");
}

#[test]
fn an_installation_ends_early() {
    let mut i = Installer::new(vec![]);
    assert_eq!(step(&mut i, InstallEvent::Begun), ("done".to_string(), vec![]));

    let started = || {
        let mut i = Installer::new(strings(&["a@1"]));
        assert_eq!(step(&mut i, finished(true)).0, "nothing");
        assert_eq!(step(&mut i, InstallEvent::Begun).0, "batch a@1");
        i
    };
    let (task, log) = step(&mut started(), finished(true));
    assert_eq!(task, "done");
    assert_eq!(log, vec!["[npm] project dependencies installed"]);
    let (task, log) = step(&mut started(), InstallEvent::SpawnFailed);
    assert_eq!(task, "done");
    assert_eq!(log, vec!["[npm!] cannot spawn npm for project dependencies"]);
    let (task, log) = step(&mut started(), InstallEvent::PipeMissing(Pipe::Stdout));
    assert_eq!(task, "done");
    assert_eq!(log, vec!["[npm!] cannot capture npm stdout"]);
    let (_, log) = step(&mut started(), InstallEvent::PipeMissing(Pipe::Stderr));
    assert_eq!(log, vec!["[npm!] cannot capture npm stderr"]);
    let (task, log) = step(&mut started(), InstallEvent::Broken("gone".to_string()));
    assert_eq!(task, "single a@1");
    assert_eq!(log, vec!["[npm!] batch install error: gone — retrying one-by-one"]);
}

#[test]
fn the_dev_server_is_tried_twice() {
    assert!(matches!(after_attempt(1, "late"), Retry::Again));
    match after_attempt(2, "late") {
        Retry::GiveUp(m) => assert_eq!(
            m,
            "Angular dev-server did not become ready: late — check the logs above"
        ),
        other => panic!("given up: {other:?}"),
    }
    assert_eq!(keep_waiting("http://127.0.0.1:1", 239_999), Ok(()));
    assert_eq!(
        keep_waiting("http://127.0.0.1:1", 240_000),
        Err("timeout waiting for http://127.0.0.1:1".to_string())
    );
    assert!(is_ready(Some("HTTP/1.1 200 OK\r\nDate: now")));
    assert!(!is_ready(Some("HTTP/1.1 404 Not Found\r\n")));
    assert!(!is_ready(Some("")));
    assert!(!is_ready(None));
}

#[test]
fn addresses_and_strings_are_not_stripped() {
    assert_eq!(strip_jsonc("https://example.com"), "https://example.com");
    assert_eq!(strip_jsonc("file:///a // b"), "file:///a ");
    assert_eq!(strip_jsonc("{\"a\": 1, // one\n}"), "{\"a\": 1 \n}");
    // A comma in a string is no trailing one.
    assert_eq!(strip_jsonc("[\",]\",]"), "[\",]\"]");
    assert_eq!(strip_jsonc("[\"\\\",]\", 1,]"), "[\"\\\",]\", 1]");
}

const HOST_ANGULAR: &str = r#"{ "projects": { "host": { "architect": { "build": { "options": {
    "styles": ["src/styles.css"] } } } } } }"#;

#[test]
fn bridge_global_styles_maps_nearest_project() {
    let angular = json(
        r#"{
  "projects": {
    "other": {
      "root": "other",
      "architect": { "build": { "options": { "styles": ["other-only.scss"] } } }
    },
    "app": {
      "root": "",
      "architect": {
        "build": {
          "options": {
            "styles": ["styles.scss", { "input": "assets/scss-v2/main.scss" }],
            "stylePreprocessorOptions": { "includePaths": ["assets"] }
          }
        }
      }
    }
  }
}"#,
    );
    let component = "/r/gym/projects/app/src/lib/x.component.ts";
    let workspace = "/r/gym";
    let wanted = wanted_style_files("/r", component, workspace, &angular);
    assert_eq!(wanted, vec!["/r/gym/styles.scss", "/r/gym/assets/scss-v2/main.scss"]);
    let (plan, log) = plan_global_styles("/r", component, workspace, &angular, &wanted);
    assert!(log.is_empty(), "{log:?}");
    let plan = plan.expect("something to bridge");
    let host = json(HOST_ANGULAR);
    assert!(styles_fit(&host));
    let bridged = bridge_global_styles(host, &plan);
    let options = ["projects", "host", "architect", "build", "options"];
    let options = bridged.get_at(&options).expect("options present");
    let styles = texts(options.get("styles").expect("styles present"));
    assert!(styles.contains(&"./external/gym/styles.scss".to_string()), "{styles:?}");
    assert!(
        styles.contains(&"./external/gym/assets/scss-v2/main.scss".to_string()),
        "{styles:?}"
    );
    assert_eq!(styles[0], "src/styles.css", "the host's own styles stay");
    assert!(
        !styles.iter().any(|s| s.contains("other-only")),
        "longest-prefix project wins"
    );
    let includes = texts(
        options
            .get_at(&["stylePreprocessorOptions", "includePaths"])
            .expect("includePaths present"),
    );
    assert!(includes.contains(&"./external/gym/assets".to_string()), "{includes:?}");
    assert_eq!(
        bridged_styles_message(&plan),
        "[host] bridged 2 global stylesheet(s) and 1 include path(s) from project 'app'"
    );
}

#[test]
fn bridge_global_styles_skips_missing_files() {
    let angular = json(
        r#"{
  "projects": {
    "app": {
      "root": "",
      "architect": { "build": { "options": { "styles": ["ghost.scss", "real.scss"] } } }
    }
  }
}"#,
    );
    let component = "/r/ws/projects/app/src/x.component.ts";
    let present = strings(&["/r/ws/real.scss"]);
    let (plan, logs) =
        plan_global_styles("/r", component, "/r/ws", &angular, &present);
    let bridged = bridge_global_styles(json(HOST_ANGULAR), &plan.unwrap());
    let styles = texts(
        bridged
            .get_at(&["projects", "host", "architect", "build", "options", "styles"])
            .expect("styles present"),
    );
    assert!(
        styles.contains(&"./external/ws/real.scss".to_string()),
        "existing style bridged: {styles:?}"
    );
    assert!(
        !styles.iter().any(|s| s.contains("ghost")),
        "missing style skipped instead of breaking the build: {styles:?}"
    );
    assert!(
        logs.iter().any(|l| l.contains("ghost.scss") && l.contains("skipped")),
        "skip logged: {logs:?}"
    );
}

#[test]
fn styles_that_are_not_there() {
    let none = json("{}");
    let (plan, log) = plan_global_styles("/r", "/r/x.ts", "/r", &none, &vec![]);
    assert!(plan.is_none());
    assert_eq!(log, vec!["[host!] angular.json has no projects — global styles will not load"]);
    let empty = json(r#"{ "projects": { "a": {} } }"#);
    let (plan, log) = plan_global_styles("/r", "/r/x.ts", "/r", &empty, &vec![]);
    assert!(plan.is_none());
    assert_eq!(
        log,
        vec!["[host] angular.json declares no global styles or include paths to bridge"]
    );
    assert!(!styles_fit(&json(r#"{ "projects": [] }"#)));
}

#[test]
fn styles_are_bridged_or_the_reason_is_logged() {
    let component = "/r/ws/src/x.component.ts";
    let present = strings(&["/r/ws/real.scss"]);
    let read = |text: &str| ConfigFile::Read(json(text));
    let run = |angular: Option<ConfigFile>, host: ConfigFile| {
        let angular = angular.map(|a| ("/r/ws/angular.json".to_string(), a));
        assert!(host::styles_fit("/r", component, &angular, &present, &host));
        bridge_styles("/r", component, &angular, &present, host)
    };
    let workspace = r#"{ "projects": { "app": { "targets": { "build": { "options": {
        "styles": ["ghost.scss", "real.scss"] } } } } } }"#;
    let gone = || ConfigFile::Unreadable("denied".to_string());
    let broken = || ConfigFile::Unparsable("eof".to_string());

    let (out, log) = run(None, read(HOST_ANGULAR));
    assert!(out.is_none());
    assert_eq!(log, vec!["[host] no angular.json found — global workspace styles will not load"]);
    let (out, log) = run(Some(gone()), read(HOST_ANGULAR));
    assert!(out.is_none());
    assert_eq!(log, vec!["[host!] cannot read angular.json"]);
    let (out, log) = run(Some(broken()), read(HOST_ANGULAR));
    assert!(out.is_none());
    assert_eq!(log, vec!["[host!] cannot parse angular.json — global styles will not load"]);
    // Nothing is written, so it does not matter what the host holds.
    let (out, log) = run(Some(read("{}")), read(r#"{ "projects": [] }"#));
    assert!(out.is_none());
    assert_eq!(log, vec!["[host!] angular.json has no projects — global styles will not load"]);

    let skipped = "[host] angular.json style 'ghost.scss' does not exist — skipped";
    let (out, log) = run(Some(read(workspace)), gone());
    assert!(out.is_none());
    assert_eq!(log, vec![skipped, "[host!] cannot read host angular.json"]);
    let (out, log) = run(Some(read(workspace)), broken());
    assert!(out.is_none());
    assert_eq!(log, vec![skipped, "[host!] cannot parse host angular.json"]);
    let (out, log) = run(Some(read(workspace)), read(HOST_ANGULAR));
    assert_eq!(log, vec![skipped]);
    let (bridged, line) = out.expect("something to write");
    assert_eq!(
        line,
        "[host] bridged 1 global stylesheet(s) and 0 include path(s) from project 'app'"
    );
    let place = ["projects", "host", "architect", "build", "options", "styles"];
    let styles = texts(bridged.get_at(&place).expect("styles present"));
    assert_eq!(styles, vec!["src/styles.css", "./external/ws/real.scss"]);

    let angular = Some(("/r/ws/angular.json".to_string(), read(workspace)));
    let full = read(r#"{ "projects": [] }"#);
    assert!(!host::styles_fit("/r", component, &angular, &present, &full));
}

const HOST_TSCONFIG: &str =
    r#"{ "compilerOptions": { "strict": true, "module": "es2022" }, "files": ["src/main.ts"] }"#;

#[test]
fn bridge_includes_ambient_declarations_from_tsconfig_include() {
    let config = json(
        r#"{ "compilerOptions": { "baseUrl": ".", "include": ["src/**/*.d.ts"] } }"#,
    );
    let w = Workspace {
        root: "/r".to_string(),
        chain: vec![("/r/gym/tsconfig.json".to_string(), config)],
        present: vec![],
        walked: strings(&["/r/gym/src/typings.d.ts", "/r/gym/tsconfig.json"]),
    };
    let (bridged, _) = bridge_tsconfig_paths(json(HOST_TSCONFIG), &w);
    let files = texts(bridged.get("files").expect("files present"));
    assert!(
        files.iter().any(|f| f == "./external/gym/src/typings.d.ts"),
        "ambient declarations bridged: {files:?}"
    );
}

#[test]
fn bridge_globs_dts_when_tsconfig_declares_none() {
    assert!(!walks_into("node_modules"));
    let w = Workspace {
        root: "/r".to_string(),
        chain: vec![("/r/tsconfig.json".to_string(), json(r#"{ "compilerOptions": {} }"#))],
        present: vec![],
        walked: strings(&["/r/app/src/lib/x.component.ts", "/r/src/typings.d.ts"]),
    };
    let (bridged, log) = bridge_tsconfig_paths(json(HOST_TSCONFIG), &w);
    let files = texts(bridged.get("files").expect("files present"));
    assert!(
        files.iter().any(|f| f == "./external/src/typings.d.ts"),
        "glob fallback picks typings: {files:?}"
    );
    assert!(
        !files.iter().any(|f| f.contains("node_modules")),
        "node_modules excluded from the glob"
    );
    assert!(log.contains(
        &"[host] tsconfig declares no d.ts entries — globbed 1 from the project".to_string()
    ));
}

#[test]
fn bridge_maps_user_paths_and_filters_framework_keys() {
    let base = parse_jsonc(
        r#"{
  "compilerOptions": {
    "baseUrl": ".",
    "strict": false,
    "target": "es2022",
    "paths": {
      "@angular/core": ["node_modules/@angular/core"],
      "@lib/*": ["projects/lib/src/*"],
    }
  }
}"#,
    )
    .unwrap();
    let child = parse_jsonc(
        r#"{
  // app config extends the base
  "extends": "./tsconfig.base.json",
  "compilerOptions": {}
}"#,
    )
    .unwrap();
    let (file, _) = extends_targets("/r/gym/tsconfig.json", &child).unwrap();
    assert_eq!(file, "/r/gym/./tsconfig.base.json");
    assert_eq!(next_config(1, "/r/gym/tsconfig.json", &child, true), Some(file.clone()));
    let w = Workspace {
        root: "/r".to_string(),
        chain: vec![("/r/gym/tsconfig.json".to_string(), child), (file, base)],
        present: vec![],
        walked: vec![],
    };
    let host = json(HOST_TSCONFIG);
    assert!(bridge_fits(&host, &w));
    let (bridged, log) = bridge_tsconfig_paths(host, &w);
    let options = bridged.get("compilerOptions").unwrap();
    let paths = options.get("paths").expect("paths present");
    assert!(paths.get("@lib/*").is_some(), "user paths bridged: {paths:?}");
    assert!(paths.get("@angular/core").is_none(), "framework keys filtered");
    assert_eq!(
        texts(paths.get("@lib/*").unwrap())[0],
        "./external/gym/projects/lib/src/*",
        "targets re-anchored under the config dir inside external/"
    );
    assert_eq!(options.get("strict"), Some(&Json::Bool(false)));
    assert_eq!(options.text_at("target"), Some("es2022"));
    assert_eq!(options.text_at("module"), Some("es2022"));
    assert_eq!(
        log[0],
        "[host] bridged 1 tsconfig path mapping(s) from /r/gym/tsconfig.json (1 framework keys skipped)"
    );
    assert_eq!(log[1], "[host] bridged compiler options: strict, target");
}

#[test]
fn declared_declarations_are_bridged() {
    let config = json(r#"{ "files": ["src/a.d.ts", "src/main.ts", "gone.d.ts"], "include": ["src/**/*.d.ts"] }"#);
    assert_eq!(
        entry_file("/r", "/r/tsconfig.json", "src/a.d.ts"),
        Some("/r/src/a.d.ts".to_string())
    );
    assert_eq!(entry_file("/r", "/r/tsconfig.json", "src/main.ts"), None);
    let w = Workspace {
        root: "/r".to_string(),
        chain: vec![("/r/tsconfig.json".to_string(), config)],
        present: strings(&["/r/src/a.d.ts"]),
        walked: vec![],
    };
    let (bridged, log) = bridge_tsconfig_paths(json(HOST_TSCONFIG), &w);
    assert_eq!(
        texts(bridged.get("files").unwrap()),
        vec!["external/src/a.d.ts", "external/src/**/*.d.ts"]
    );
    assert_eq!(log.last().unwrap(), "[host] included 2 ambient declaration file(s)");
}

#[test]
fn the_child_wins_over_what_it_extends() {
    let child = json(r#"{ "compilerOptions": { "target": "es2020" }, "files": ["b"] }"#);
    let base = json(r#"{ "compilerOptions": { "target": "es5", "strict": true }, "files": ["a"] }"#);
    let merged = load_tsconfig_merged(&vec![
        ("/r/t.json".to_string(), child),
        ("/r/b.json".to_string(), base),
    ])
    .unwrap();
    assert_eq!(merged.get_at(&["compilerOptions", "target"]).unwrap().text(), Some("es2020"));
    assert_eq!(merged.get_at(&["compilerOptions", "strict"]), Some(&Json::Bool(true)));
    assert_eq!(texts(merged.get("files").unwrap()), vec!["b"]);
    assert!(load_tsconfig_merged(&vec![]).is_none());
}

#[test]
fn a_chain_of_configurations_ends() {
    let value = json(r#"{ "extends": "@tsconfig/node" }"#);
    assert_eq!(
        next_config(1, "/r/tsconfig.json", &value, false),
        Some("/r/node_modules/@tsconfig/node.json".to_string())
    );
    assert_eq!(next_config(6, "/r/tsconfig.json", &value, false), None);
    assert_eq!(next_config(1, "/r/tsconfig.json", &json("{}"), false), None);
}

#[test]
fn bridging_tells_what_is_missing() {
    let empty = || Workspace {
        root: "/r".to_string(),
        chain: vec![],
        present: vec![],
        walked: vec![],
    };
    let (out, log) = bridge_tsconfig(None, &empty(), ConfigFile::Read(json("{}")));
    assert!(out.is_none());
    assert_eq!(
        log,
        vec!["[host] no tsconfig.json found near the component — path aliases will not resolve"]
    );
    let (out, log) = bridge_tsconfig(Some("/r/t.json"), &empty(), ConfigFile::Read(json("{}")));
    assert!(out.is_none());
    assert_eq!(
        log,
        vec!["[host!] could not parse /r/t.json (tsconfig) — path aliases will not resolve"]
    );
    let full = Workspace { chain: vec![("/r/t.json".to_string(), json("{}"))], ..empty() };
    let (_, log) =
        bridge_tsconfig(Some("/r/t.json"), &full, ConfigFile::Unreadable("denied".to_string()));
    assert_eq!(log, vec!["[host!] cannot read host tsconfig: denied"]);
    let (_, log) =
        bridge_tsconfig(Some("/r/t.json"), &full, ConfigFile::Unparsable("eof".to_string()));
    assert_eq!(log, vec!["[host!] cannot parse host tsconfig: eof"]);
    let (out, log) = bridge_tsconfig(Some("/r/t.json"), &full, ConfigFile::Read(json("{}")));
    assert!(out.is_some());
    assert_eq!(log[0], "[host] no bridgable tsconfig path mappings found");
}

#[test]
fn globals_are_imported() {
    let walked = strings(&["/r/src/prototypes.ts", "/r/src/a.ts", "/r/lib/prototypes.ts"]);
    let imports = find_globals("/r", &walked);
    assert_eq!(
        imports,
        vec!["../../external/src/prototypes", "../../external/lib/prototypes"]
    );
    assert_eq!(
        globals_text(&imports),
        "import '../../external/src/prototypes';\nimport '../../external/lib/prototypes';\n"
    );
    assert_eq!(globals_text(&vec![]), "// no project globals detected\n");
    assert_eq!(
        globals_message(2),
        "[host] globals: 2 project global module(s) loaded at runtime"
    );
}

#[test]
fn the_proxy_points_at_the_control_server() {
    let conf = proxy_conf(4310);
    assert_eq!(
        compact_json(&conf),
        "{\"/api\":{\"secure\":false,\"target\":\"http://127.0.0.1:4310\"}}"
    );
}

#[test]
fn a_build_is_pending_until_it_settles() {
    assert!(pending_after_line(true, "Building..."));
    assert!(!pending_after_line(
        true,
        "\u{1b}[32mApplication bundle generation complete.\u{1b}[0m [1.2 s]"
    ));
    assert!(!pending_after_line(false, "Building..."));
    assert_eq!(tagged_line("ng", "\u{1b}[1mhi\u{1b}[0m"), "[ng] hi");
}

#[test]
fn dev_server_messages() {
    assert_eq!(port_of("http://127.0.0.1:4200"), Some("4200".to_string()));
    assert_eq!(port_of("https://127.0.0.1:4200"), None);
    assert_eq!(port_of("http://localhost"), None);
    assert_eq!(starting_message(1, 4200), "[ng] starting dev-server (attempt 1, port 4200)...");
    assert_eq!(
        not_ready_message("timeout"),
        "Angular dev-server did not become ready: timeout — check the logs above"
    );
}
