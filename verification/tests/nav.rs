use render_component::detect::{classify, ComponentKind};
use render_component::explorer::nav::{load_children, Entry, Found, Nav};
use render_component::path::{parent, same};

fn dir(name: &str) -> Found {
    Found { name: name.to_string(), is_dir: true, kind: ComponentKind::Other }
}

fn file(name: &str, source: &str) -> Found {
    let kind = classify(&format!("/p/{name}"), Some(source), false);
    Found { name: name.to_string(), is_dir: false, kind }
}

/// What a directory of the tree below holds.
///
/// /p
///   gallery/
///     gallery.component.ts
///     photo-card/
///       photo-card.component.ts
///   badges/
///     badge.component.ts
///   helper.ts
///   Button.tsx
fn contents(path: &str) -> Vec<Found> {
    match path {
        "/p" => vec![
            file("helper.ts", "export const x = 1;"),
            dir("gallery"),
            file("Button.tsx", "export const Button = () => null;"),
            dir("badges"),
        ],
        "/p/gallery" => vec![
            file("gallery.component.ts", "@Component({}) export class A {}"),
            dir("photo-card"),
        ],
        "/p/gallery/photo-card" => {
            vec![file("photo-card.component.ts", "@Component({}) export class B {}")]
        }
        "/p/badges" => vec![file("badge.component.ts", "@Component({}) export class C {}")],
        other => panic!("no directory {other}"),
    }
}

fn open() -> Nav {
    Nav::open("/p".to_string(), contents("/p"))
}

fn wanted(nav: &Nav) -> Vec<Found> {
    match nav.wanted() {
        Some(path) => contents(&path),
        None => vec![],
    }
}

fn toggle(nav: &mut Nav) -> Option<Entry> {
    let found = wanted(nav);
    nav.toggle(found)
}

fn names(nav: &Nav) -> Vec<(String, usize)> {
    nav.rows()
        .iter()
        .map(|r| (r.entry.name.clone(), r.depth))
        .collect()
}

#[test]
fn initial_rows_are_root_children_at_depth_zero() {
    let nav = open();
    assert_eq!(
        names(&nav),
        vec![
            ("badges".into(), 0),
            ("gallery".into(), 0),
            ("Button.tsx".into(), 0),
            ("helper.ts".into(), 0),
        ]
    );
}

#[test]
fn enter_expands_directory_in_place() {
    let mut nav = open();
    nav.move_down();
    let selected = toggle(&mut nav);
    assert!(selected.is_none(), "entering a folder selects nothing");
    assert_eq!(
        names(&nav),
        vec![
            ("badges".into(), 0),
            ("gallery".into(), 0),
            ("photo-card".into(), 1),
            ("gallery.component.ts".into(), 1),
            ("Button.tsx".into(), 0),
            ("helper.ts".into(), 0),
        ]
    );
}

#[test]
fn enter_again_collapses_in_place() {
    let mut nav = open();
    nav.move_down();
    toggle(&mut nav);
    toggle(&mut nav);
    assert_eq!(names(&nav).len(), 4, "collapsed back to root children");
}

#[test]
fn nested_expansion_shows_depth() {
    let mut nav = open();
    nav.move_down();
    toggle(&mut nav);
    nav.move_down();
    toggle(&mut nav);
    assert_eq!(
        names(&nav),
        vec![
            ("badges".into(), 0),
            ("gallery".into(), 0),
            ("photo-card".into(), 1),
            ("photo-card.component.ts".into(), 2),
            ("gallery.component.ts".into(), 1),
            ("Button.tsx".into(), 0),
            ("helper.ts".into(), 0),
        ]
    );
}

#[test]
fn selecting_a_file_returns_it_without_side_effects() {
    let mut nav = open();
    nav.move_down();
    toggle(&mut nav);
    nav.move_down();
    nav.move_down();
    let entry = toggle(&mut nav).expect("file returned");
    assert_eq!(entry.name, "gallery.component.ts");
    assert_eq!(entry.path, "/p/gallery/gallery.component.ts");
    assert_eq!(entry.kind, ComponentKind::AngularStandalone);
    assert_eq!(names(&nav).len(), 6, "tree unchanged by file selection");
}

#[test]
fn left_on_child_jumps_to_parent_row() {
    let mut nav = open();
    nav.move_down();
    toggle(&mut nav);
    nav.move_down();
    toggle(&mut nav);
    nav.move_down();
    nav.collapse_or_parent();
    assert_eq!(
        nav.selected().unwrap().entry.name,
        "photo-card",
        "cursor on parent dir row"
    );
}

#[test]
fn left_on_expanded_dir_collapses_it() {
    let mut nav = open();
    nav.move_down();
    toggle(&mut nav);
    nav.collapse_or_parent();
    assert_eq!(names(&nav).len(), 4, "collapsed");
}

#[test]
fn right_expands_collapsed_dir() {
    let mut nav = open();
    nav.move_down();
    let found = wanted(&nav);
    nav.expand(found);
    assert!(names(&nav).iter().any(|(n, _)| n == "gallery.component.ts"));
}

#[test]
fn cursor_clamps_after_collapse_below_cursor() {
    let mut nav = open();
    nav.move_down();
    toggle(&mut nav);
    nav.move_down();
    nav.move_down();
    nav.move_down();
    nav.move_down();
    assert!(nav.cursor() < nav.rows().len());
    nav.move_up();
    nav.move_up();
    nav.move_up();
    toggle(&mut nav);
    assert!(nav.cursor() < nav.rows().len(), "cursor clamped after collapse");
}

#[test]
fn component_kinds_are_preserved_in_tree_rows() {
    let mut nav = open();
    nav.move_down();
    toggle(&mut nav);
    let row = nav
        .rows()
        .iter()
        .find(|r| r.entry.name == "gallery.component.ts")
        .unwrap();
    assert_eq!(row.entry.kind, ComponentKind::AngularStandalone);
    assert_eq!(row.depth, 1);
}

#[test]
fn a_directory_reopens_with_what_was_open_in_it() {
    let mut nav = open();
    nav.move_down();
    toggle(&mut nav);
    nav.move_down();
    toggle(&mut nav);
    let before = names(&nav);
    nav.move_up();
    toggle(&mut nav);
    assert_eq!(names(&nav).len(), 4);
    toggle(&mut nav);
    assert_eq!(names(&nav), before, "toggling twice restores the tree");
}

#[test]
fn the_cursor_stays_on_a_row() {
    let mut nav = open();
    nav.move_up();
    assert_eq!(nav.cursor(), 0);
    for _ in 0..9 {
        nav.move_down();
    }
    assert_eq!(nav.cursor(), 3);
    nav.set_cursor(1);
    assert_eq!(nav.cursor(), 1);
    nav.set_cursor(99);
    assert!(nav.cursor() < nav.rows().len());
}

#[test]
fn an_empty_root_has_no_rows() {
    let mut nav = Nav::open("/p".to_string(), vec![]);
    assert!(nav.rows().is_empty());
    assert!(nav.selected().is_none());
    assert!(nav.wanted().is_none());
    assert!(nav.toggle(vec![]).is_none());
    nav.collapse_or_parent();
    assert_eq!(nav.cursor(), 0);
}

#[test]
fn children_are_sorted_directories_first() {
    let found = vec![
        file("b.ts", "x"),
        dir("z"),
        file("a.ts", "x"),
        dir("y"),
    ];
    let kids = load_children("/p", &found);
    let names: Vec<&str> = kids.iter().map(|k| k.name.as_str()).collect();
    assert_eq!(names, vec!["y", "z", "a.ts", "b.ts"]);
    assert_eq!(kids[0].path, "/p/y");
}

#[test]
fn closing_and_opening_again_restores_the_rows() {
    let mut nav = open();
    nav.move_down();
    toggle(&mut nav);
    nav.move_down();
    toggle(&mut nav);
    nav.move_up();
    let before: Vec<(String, usize, bool)> =
        nav.rows().iter().map(|r| (r.entry.path.clone(), r.depth, r.expanded)).collect();
    assert_eq!(before.len(), 7);
    let cursor = nav.cursor();
    assert!(nav.selected().unwrap().expanded);
    assert!(toggle(&mut nav).is_none());
    assert!(!nav.selected().unwrap().expanded);
    assert_eq!(nav.cursor(), cursor);
    assert!(toggle(&mut nav).is_none());
    let after: Vec<(String, usize, bool)> =
        nav.rows().iter().map(|r| (r.entry.path.clone(), r.depth, r.expanded)).collect();
    assert_eq!(after, before);
    assert_eq!(nav.cursor(), cursor);
}

#[test]
fn every_row_has_its_directory_before_it() {
    let mut nav = open();
    nav.move_down();
    toggle(&mut nav);
    nav.move_down();
    toggle(&mut nav);
    let rows = nav.rows();
    assert_eq!(rows[0].depth, 0);
    for (i, row) in rows.iter().enumerate() {
        assert!(rows[..i].iter().all(|r| r.entry.path != row.entry.path));
        assert!(!row.expanded || row.entry.is_dir);
        if i > 0 && row.depth > rows[i - 1].depth {
            assert_eq!(row.depth, rows[i - 1].depth + 1);
            assert!(rows[i - 1].expanded);
        }
        let holder = rows[..i].iter().rev().find(|r| r.depth < row.depth);
        let place = holder.map_or("/p", |r| r.entry.path.as_str());
        assert_eq!(row.entry.path, format!("{place}/{}", row.entry.name));
    }
}

#[test]
fn a_relative_root_makes_the_same_tree() {
    for (root, gallery) in [("p", "p/gallery"), ("p/", "p/gallery"), ("", "gallery"), (".", "./gallery")] {
        let mut nav = Nav::open(root.to_string(), contents("/p"));
        let before = names(&nav);
        nav.set_cursor(1);
        assert_eq!(nav.wanted().as_deref(), Some(gallery), "{root}");
        nav.toggle(contents("/p/gallery"));
        assert_eq!(nav.rows()[2].entry.path, format!("{gallery}/photo-card"));
        assert_eq!(nav.rows()[2].depth, 1);
        assert_eq!(parent(&nav.rows()[2].entry.path).as_deref(), Some(gallery));
        assert!(same(&parent(gallery).unwrap(), root), "{root}");
        nav.toggle(vec![]);
        assert_eq!(names(&nav), before);
        assert_eq!(nav.cursor(), 1);
    }
}
