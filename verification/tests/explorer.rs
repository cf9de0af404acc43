use render_component::detect::{classify, ComponentKind};
use render_component::explorer::nav::Found;
use render_component::explorer::style::{parse_hex, style_for_kind, Color, Span};
use render_component::explorer::{
    icon_and_color_for, list_item, log_line_style, popup, popup_fits, prompt_column, Area, Key,
    Launch, Step, TuiApp, DEFAULT_STATUS,
};
use render_component::logs::LogSink;

fn file(name: &str, source: &str) -> Found {
    let kind = classify(&format!("/p/{name}"), Some(source), false);
    Found { name: name.to_string(), is_dir: false, kind }
}

fn dir(name: &str) -> Found {
    Found { name: name.to_string(), is_dir: true, kind: ComponentKind::Other }
}

fn app(found: Vec<Found>) -> TuiApp {
    TuiApp::new("/p".to_string(), "/tmp/none.json".to_string(), found)
}

fn spelled(spans: &[Span]) -> String {
    spans.iter().map(|s| s.content.as_str()).collect()
}

fn drawn_rows(app: &TuiApp) -> Vec<Vec<Span>> {
    app.tree()
        .rows()
        .iter()
        .map(|row| {
            let (icon, color) = icon_and_color_for(row, '\u{e628}', "#3178C6");
            list_item(row, icon, color)
        })
        .collect()
}

#[test]
fn component_files_are_visually_distinct_from_plain_files() {
    let app = app(vec![
        file("gallery.component.ts", "@Component({}) export class A {}"),
        file("helper.ts", "export const x = 1;"),
    ]);
    let rows = drawn_rows(&app);
    let style_at = |needle: &str| {
        rows.iter()
            .flatten()
            .find(|s| s.content.contains(needle))
            .map(|s| s.style)
            .unwrap()
    };
    let component_style = style_at("gallery.component.ts");
    let plain_style = style_at("helper.ts");
    assert_eq!(component_style.fg, Some(Color::Cyan), "Angular components are cyan");
    assert_ne!(component_style, plain_style, "component vs plain styles must differ");
}

#[test]
fn directories_are_bold() {
    let app = app(vec![dir("gallery"), file("helper.ts", "export const x = 1;")]);
    let rows = drawn_rows(&app);
    assert!(rows[0].last().unwrap().style.bold);
    assert!(!rows[1].last().unwrap().style.bold);
}

#[test]
fn tree_renders_depth_indentation_and_expanded_indicator() {
    let mut app = app(vec![dir("gallery")]);
    assert_eq!(app.key(Key::Enter), Step::Activate);
    assert_eq!(app.wanted(), Some("/p/gallery".to_string()));
    assert!(app
        .enter(vec![file("gallery.component.ts", "@Component({}) export class A {}")])
        .is_none());
    let lines: Vec<String> = drawn_rows(&app).iter().map(|r| spelled(r)).collect();
    let gallery_line = lines.iter().find(|l| l.contains("gallery/")).expect("gallery row rendered");
    assert!(
        gallery_line.contains("▾"),
        "expanded dir shows ▾ indicator: {gallery_line}"
    );
    let child_line =
        lines.iter().find(|l| l.contains("gallery.component.ts")).expect("child row rendered");
    let char_pos = |line: &str, needle: char| line.chars().position(|c| c == needle).unwrap();
    assert!(char_pos(child_line, '\u{e628}') > char_pos(gallery_line, '\u{f07c}'));
}

#[test]
fn devicons_render_next_to_names() {
    let mut app = app(vec![dir("gallery")]);
    app.enter(vec![file("gallery.component.ts", "@Component({}) export class A {}")]);
    let lines: Vec<String> = drawn_rows(&app).iter().map(|r| spelled(r)).collect();
    assert!(lines[0].contains("\u{f07c}"), "expanded dir shows folder-open glyph: {}", lines[0]);
    assert!(lines[1].contains('\u{e628}'), "component file shows its devicon glyph: {}", lines[1]);
    assert!(parse_hex("#3178C6").is_some());
}

#[test]
fn hex_parsing_handles_material_colors() {
    assert_eq!(parse_hex("#3178C6"), Some(Color::Rgb(0x31, 0x78, 0xC6)));
    assert_eq!(parse_hex("FF5733"), Some(Color::Rgb(0xFF, 0x57, 0x33)));
    assert_eq!(parse_hex("#XYZ"), None);
    assert_eq!(parse_hex("#12345"), None);
}

#[test]
fn odd_hex_colors() {
    assert_eq!(parse_hex("##00ff00"), Some(Color::Rgb(0, 0xff, 0)));
    assert_eq!(parse_hex("+0000f"), Some(Color::Rgb(0, 0, 0x0f)));
    assert_eq!(parse_hex("-00000"), None);
    assert_eq!(parse_hex("12345g"), None);
    assert_eq!(parse_hex(""), None);
}

#[test]
fn logs_panel_streams_sink_tail() {
    let mut sink = LogSink::new(false);
    sink.push(0, "[npm] added 847 packages in 41s");
    let mut app = app(vec![file("gallery.component.ts", "@Component({}) export class A {}")]);
    let panel = app.log_panel(9, sink.len());
    let lines = sink.range(panel.start, panel.end);
    assert!(
        lines.iter().any(|l| l.contains("added 847 packages")),
        "log line must render in the logs panel"
    );
    assert_eq!(panel.title, " logs (PgUp/PgDn scroll · l saves full log) ");
}

#[test]
fn logs_panel_scrolls_through_full_history() {
    let mut sink = LogSink::new(false);
    for i in 0..40 {
        sink.push(0, &format!("history line {i}"));
    }
    let mut app = app(vec![]);
    let panel = app.log_panel(9, sink.len());
    let text = sink.range(panel.start, panel.end).join("\n");
    assert!(text.contains("history line 39"), "newest line visible at follow");
    assert!(!text.contains("history line 0"), "history beyond the panel is hidden at follow");

    assert_eq!(app.key(Key::Home), Step::Stay);
    let panel = app.log_panel(9, sink.len());
    let text = sink.range(panel.start, panel.end).join("\n");
    assert!(text.contains("history line 0"), "oldest line visible when scrolled to top");
    assert!(!text.contains("history line 39"), "newest line hidden when scrolled to top");
    assert_eq!(panel.title, " logs — 33 lines up (PgDn to follow) ");

    app.key(Key::End);
    assert_eq!(app.log_panel(9, sink.len()).start, 33);
    app.key(Key::PageUp);
    assert_eq!(app.log_panel(9, sink.len()).start, 27);
    app.key(Key::PageDown);
    assert_eq!(app.log_panel(9, sink.len()).start, 33);
}

#[test]
fn error_log_lines_are_red() {
    let style = log_line_style("[ng!] ERROR in src/main.ts: oops");
    assert_eq!(style.fg, Some(Color::Red), "errors are red");
    let ok = log_line_style("[npm] added 847 packages");
    assert_ne!(ok.fg, Some(Color::Red));
    assert_eq!(log_line_style("[npm!] ERR! code").fg, Some(Color::Red));
    assert_eq!(log_line_style("build FAILED").fg, Some(Color::Red));
}

#[test]
fn finder_popup_renders_prompt_and_results() {
    let mut app = app(vec![dir("gallery"), file("helper.ts", "b")]);
    assert_eq!(app.key(Key::Char('/')), Step::OpenFinder);
    app.open_finder(&vec![
        "/p/gallery/gallery.component.ts".to_string(),
        "/p/helper.ts".to_string(),
    ]);
    assert!(app.finding());
    for c in "gal".chars() {
        assert!(app.finder_key(Key::Char(c), false).is_none());
    }
    assert_eq!(app.query(), Some("gal"));
    let rows = app.finder_rows(10);
    assert_eq!(rows.len(), 1);
    assert_eq!(spelled(&rows[0]), "gallery/gallery.component.ts");
}

#[test]
fn unsupported_kinds_have_distinct_styles_and_messages() {
    assert_ne!(style_for_kind(ComponentKind::React), style_for_kind(ComponentKind::Vue));
    assert_eq!(
        ComponentKind::React.unsupported_message(),
        Some("React (.tsx) components are not supported yet")
    );
    assert!(ComponentKind::AngularModule.unsupported_message().is_none());
}

#[test]
fn the_finder_takes_every_key_while_it_is_open() {
    let mut app = app(vec![dir("gallery")]);
    app.open_finder(&vec!["/p/q.ts".to_string(), "/p/r.ts".to_string()]);
    assert!(app.finder_key(Key::Char('q'), false).is_none());
    assert_eq!(app.query(), Some("q"), "q is typed, it does not quit");
    assert!(app.finder_key(Key::Backspace, false).is_none());
    assert_eq!(app.query(), Some(""));
    app.finder_key(Key::Down, false);
    assert_eq!(app.finder_key(Key::Enter, false), Some("/p/r.ts".to_string()));
    assert!(!app.finding());
    assert_eq!(app.status(), DEFAULT_STATUS);

    app.open_finder(&vec!["/p/q.ts".to_string(), "/p/r.ts".to_string()]);
    app.finder_key(Key::Char('n'), true);
    app.finder_key(Key::Char('p'), true);
    assert_eq!(app.query(), Some(""), "control keys move, they do not type");
    app.finder_key(Key::Char('x'), false);
    assert_eq!(app.finder_key(Key::Enter, false), None, "no result, nothing chosen");
    assert!(app.finding());
    app.finder_key(Key::Char('u'), true);
    assert_eq!(app.query(), Some(""));
    app.finder_key(Key::Char('c'), true);
    assert!(!app.finding());
}

#[test]
fn the_finder_keeps_its_cursor_in_view() {
    let mut app = app(vec![]);
    let files: Vec<String> = (0..9).map(|i| format!("/p/f{i}.ts")).collect();
    app.open_finder(&files);
    for _ in 0..6 {
        app.finder_key(Key::Down, false);
    }
    let rows = app.finder_rows(3);
    assert_eq!(rows.len(), 3);
    assert_eq!(spelled(&rows[2]), "f6.ts");
    assert!(rows[2][0].style.bg.is_some(), "the last shown row is the selected one");
    assert!(rows[1][0].style.bg.is_none());
}

#[test]
fn activation_follows_the_kind() {
    let mut app = app(vec![]);
    assert_eq!(app.activate_entry("helper.ts", ComponentKind::Other, Ok(())), Launch::Nothing);
    assert_eq!(app.status(), "not a renderable file");
    assert_eq!(app.activate_entry("b.tsx", ComponentKind::React, Ok(())), Launch::Nothing);
    assert_eq!(app.status(), "React (.tsx) components are not supported yet");
    assert_eq!(app.status_style().fg, Some(Color::Red));
    assert_eq!(
        app.activate_entry(
            "a.component.ts",
            ComponentKind::AngularStandalone,
            Err("boom".to_string())
        ),
        Launch::Nothing
    );
    assert_eq!(app.status(), "invalid component: boom");

    let angular = ComponentKind::AngularStandalone;
    assert_eq!(app.activate_entry("a.component.ts", angular, Ok(())), Launch::Start);
    assert_eq!(app.status(), "starting Angular host — watch the logs panel...");
    assert_eq!(app.activate_entry("a.component.ts", angular, Ok(())), Launch::Nothing);
    assert_eq!(app.status(), "already starting — watch the logs panel...");
    assert_eq!(app.start_finished(Ok("http://127.0.0.1:4200".to_string())), None);
    assert_eq!(
        app.status(),
        "serving at http://127.0.0.1:4200 — select another component to hot-swap"
    );
    assert_eq!(app.status_style().fg, Some(Color::Green));
    assert_eq!(app.activate_entry("b.component.ts", angular, Ok(())), Launch::WriteSelection);
    assert_eq!(app.status(), "switched to b.component.ts (hot-swap)");
}

#[test]
fn a_failed_start_is_told_and_can_be_tried_again() {
    let mut app = app(vec![]);
    let angular = ComponentKind::AngularModule;
    assert_eq!(app.activate_entry("a.component.ts", angular, Ok(())), Launch::Start);
    assert_eq!(
        app.start_finished(Err("no npm".to_string())),
        Some("[tui] startup failed: no npm".to_string())
    );
    assert_eq!(app.status(), "error starting server: no npm");
    assert_eq!(app.activate_entry("a.component.ts", angular, Ok(())), Launch::Start);
}

#[test]
fn saved_logs_are_told() {
    let mut app = app(vec![]);
    assert_eq!(
        app.logs_saved("/tmp/l.log", Ok(25)),
        Some("[tui] dumped 25 log lines to /tmp/l.log".to_string())
    );
    assert_eq!(app.status(), "logs saved: /tmp/l.log (25 lines)");
    assert_eq!(app.logs_saved("/tmp/l.log", Err("full".to_string())), None);
    assert_eq!(app.status(), "error saving logs: full");
}

#[test]
fn keys_of_the_tree() {
    let mut app = app(vec![dir("a"), file("b.ts", "x")]);
    assert_eq!(app.key(Key::Char('q')), Step::Quit);
    assert_eq!(app.key(Key::Char('Q')), Step::Quit);
    assert_eq!(app.key(Key::Char('j')), Step::Stay);
    assert_eq!(app.tree().cursor(), 1);
    assert_eq!(app.key(Key::Char('k')), Step::Stay);
    assert_eq!(app.tree().cursor(), 0);
    assert_eq!(app.key(Key::Right), Step::Expand);
    app.expand(vec![file("c.ts", "x")]);
    assert_eq!(app.tree().rows().len(), 3);
    app.key(Key::Left);
    assert_eq!(app.tree().rows().len(), 2);
    assert_eq!(app.key(Key::Char('l')), Step::SaveLogs);
    assert_eq!(app.key(Key::Char('x')), Step::Stay);
    assert_eq!(app.root_label(), "/p");
    assert_eq!(app.selection_file(), "/tmp/none.json");
}

#[test]
fn clicks_are_mapped_to_rows() {
    let mut app = app(vec![dir("a"), file("b.ts", "x"), file("c.ts", "x")]);
    app.click(4, 0);
    assert_eq!(app.tree().cursor(), 2);
    app.click(2, 1);
    assert_eq!(app.tree().cursor(), 1);
    app.click(1, 0);
    assert_eq!(app.tree().cursor(), 1, "the border is no row");
    app.click(60, 0);
    assert_eq!(app.tree().cursor(), 1, "there is no such row");
}

#[test]
fn the_popup_lies_within_the_screen() {
    let area = Area { x: 0, y: 0, width: 80, height: 30 };
    assert!(popup_fits(area));
    assert_eq!(popup(area), Area { x: 16, y: 6, width: 48, height: 12 });
    let small = Area { x: 0, y: 0, width: 40, height: 10 };
    assert_eq!(popup(small), Area { x: 5, y: 1, width: 30, height: 6 });
    assert!(!popup_fits(Area { x: 0, y: 0, width: 31, height: 30 }));
    assert!(!popup_fits(Area { x: 0, y: 0, width: 80, height: 7 }));
    let inner = Area { x: 17, y: 7, width: 46, height: 10 };
    assert_eq!(prompt_column(inner, "gal"), 22);
    assert_eq!(prompt_column(inner, &"x".repeat(90)), 62);
}

#[test]
fn folders_have_their_own_glyphs() {
    let app = app(vec![dir("a"), file("b.ts", "x")]);
    let rows = app.tree().rows();
    assert_eq!(
        icon_and_color_for(&rows[0], 'x', "#ffffff"),
        ('\u{f07b}', Color::Rgb(0x6C, 0x99, 0xD9))
    );
    assert_eq!(icon_and_color_for(&rows[1], 'x', "#010203"), ('x', Color::Rgb(1, 2, 3)));
    assert_eq!(icon_and_color_for(&rows[1], 'x', "blue"), ('x', Color::White));
    assert_eq!(spelled(&drawn_rows(&app)[0]), "\u{f07b} ▸ a/");
}
