use render_component::explorer::finder::{index_files, result_line, score, search, searches, Finder};
use render_component::explorer::style::Color;

fn fixture() -> Vec<String> {
    // What a walk that leaves out the noise hands over, in no order.
    [
        "/p/helper.ts",
        "/p/gallery/photo-card/photo-card.component.ts",
        "/p/gallery/gallery.component.ts",
        "/p/Button.tsx",
    ]
    .iter()
    .map(|s| s.to_string())
    .collect()
}

#[test]
fn index_collects_files_relative_and_skips_noise() {
    assert!(!searches("node_modules"));
    assert!(!searches(".hidden"));
    assert!(!searches("dist"));
    assert!(searches("gallery"));
    let items = index_files("/p", &fixture());
    let displays: Vec<&str> = items.iter().map(|i| i.display.as_str()).collect();
    assert_eq!(
        displays,
        vec![
            "Button.tsx",
            "gallery/gallery.component.ts",
            "gallery/photo-card/photo-card.component.ts",
            "helper.ts",
        ]
    );
}

#[test]
fn files_outside_the_root_are_not_indexed() {
    let files = vec!["/q/a.ts".to_string(), "/p".to_string(), "/p/a.ts".to_string()];
    let items = index_files("/p", &files);
    assert_eq!(items.len(), 1);
    assert_eq!(items[0].path, "/p/a.ts");
}

#[test]
fn empty_query_lists_everything_in_index_order() {
    let finder = Finder::open("/p", &fixture());
    assert_eq!(finder.result_count(), 4);
    assert_eq!(finder.selected_path(), Some("/p/Button.tsx"));
}

#[test]
fn subsequence_scores_and_reports_positions() {
    let (s, idx) = score("gll", "src/gallery.component.ts").unwrap();
    assert!(s > 0);
    let text: Vec<char> = "src/gallery.component.ts".chars().collect();
    assert_eq!(text[idx[0]], 'g');
    assert_eq!(text[idx[1]], 'l');
    assert_eq!(text[idx[2]], 'l');
}

#[test]
fn non_subsequence_fails() {
    assert!(score("xyz", "gallery.component.ts").is_none());
}

#[test]
fn smart_case_requires_exact_case_for_uppercase_queries() {
    assert!(score("G", "gallery.component.ts").is_none());
    assert!(score("G", "Gallery.component.ts").is_some());
    assert!(score("g", "Gallery.component.ts").is_some());
}

#[test]
fn basename_and_boundaries_rank_file_matches_higher() {
    let (in_dir, dirname) = score("gal", "assets/gallery/icons.ts").unwrap();
    let (in_name, filename) = score("gal", "assets/icons/gallery.ts").unwrap();
    assert!(filename > dirname, "basename match must outrank dirname match");
    assert!(in_name > in_dir, "basename match must outrank dirname match");

    let (at_boundary, boundary) = score("comp", "my-component.ts").unwrap();
    let (in_word, mid) = score("comp", "xcomponent.ts").unwrap();
    assert!(boundary > mid, "word-boundary match must outrank mid-word match");
    assert!(at_boundary > in_word, "word-boundary match must outrank mid-word match");
}

#[test]
fn search_orders_by_score_and_keeps_empty_query_order() {
    let mut finder = Finder::open("/p", &fixture());
    finder.push('g');
    finder.push('a');
    finder.push('l');
    let top = finder.item_display(finder.results[0].index).to_string();
    assert_eq!(top, "gallery/gallery.component.ts", "got: {top}");
    assert!(finder.result_count() >= 2);

    finder.pop();
    assert_eq!(finder.result_count(), 2);
    finder.pop();
    assert_eq!(finder.result_count(), 2);
    finder.pop();
    assert_eq!(finder.result_count(), 4);
    assert_eq!(finder.results[0].score, 0);
}

#[test]
fn cursor_navigation_clamps_at_bounds() {
    let mut finder = Finder::open("/p", &fixture());
    finder.move_down();
    finder.move_down();
    finder.move_down();
    assert_eq!(finder.cursor(), 3);
    finder.move_down();
    assert_eq!(finder.cursor(), 3);
    finder.move_up();
    assert_eq!(finder.cursor(), 2);
    finder.move_up();
    finder.move_up();
    finder.move_up();
    assert_eq!(finder.cursor(), 0);
}

#[test]
fn selected_path_follows_query_results() {
    let mut finder = Finder::open("/p", &fixture());
    finder.push('p');
    finder.push('h');
    let selected = finder.selected_path().unwrap().to_string();
    assert!(selected.ends_with("photo-card.component.ts"), "got: {selected:?}");
    finder.clear();
    assert_eq!(finder.cursor(), 0);
}

#[test]
fn result_line_groups_highlighted_chars() {
    let spans = result_line("gallery.ts", &[0, 1, 2], true);
    assert_eq!(spans.len(), 2, "one highlighted chunk + one plain chunk");
    assert!(spans[0].style.bg.is_some(), "selection background present");
    assert_eq!(spans[0].style.fg, Some(Color::Cyan));
    assert!(spans[0].style.bold);
    assert_eq!(spans[0].content, "gal");
    assert_eq!(spans[1].content, "lery.ts");
}

#[test]
fn a_result_line_spells_the_path() {
    for places in [vec![], vec![2], vec![0, 3, 4], vec![6]] {
        let spans = result_line("a/bcd.t", &places, false);
        let text: String = spans.iter().map(|s| s.content.as_str()).collect();
        assert_eq!(text, "a/bcd.t");
    }
    assert!(result_line("", &[], false).is_empty());
}

#[test]
fn scores_are_exact() {
    assert_eq!(score("", "x.ts"), Some((0, vec![])));
    let (one, places) = score("x", "x.ts").unwrap();
    assert_eq!(places, vec![0]);
    let (two, places) = score("xt", "x.ts").unwrap();
    assert_eq!(places, vec![0, 2]);
    assert!(two > one, "a longer match at a boundary scores more");
}

#[test]
fn equal_scores_rank_the_shorter_path_first() {
    let files = vec!["/p/abcdef.ts".to_string(), "/p/abc.ts".to_string()];
    let items = index_files("/p", &files);
    let found = search("abc", &items);
    assert_eq!(found.len(), 2);
    assert_eq!(found[0].score, found[1].score);
    assert_eq!(items[found[0].index].display, "abc.ts");
}

#[test]
fn letters_outside_ascii_are_told_by_case() {
    // An upper-case letter that is not ASCII makes the query exact.
    assert!(score("É", "été.ts").is_none());
    assert!(score("É", "École.ts").is_some());
    // Otherwise case does not count.
    assert_eq!(score("é", "É").map(|r| r.1), Some(vec![0]));
    assert!(score("é", "École.ts").is_some());
    assert!(score("é", "ecole.ts").is_none());
}

#[test]
fn no_result_selects_nothing() {
    let mut finder = Finder::open("/p", &fixture());
    for c in "zzz".chars() {
        finder.push(c);
    }
    assert_eq!(finder.result_count(), 0);
    assert_eq!(finder.selected_path(), None);
    finder.move_down();
    assert_eq!(finder.cursor(), 0);
    assert_eq!(finder.asked_text(), "zzz");
}

#[test]
fn the_selected_path_is_the_root_with_what_is_shown() {
    let mut finder = Finder::open("/p", &fixture());
    for _ in 0..finder.result_count() {
        let index = finder.result_at(finder.cursor()).index;
        let shown = format!("/p/{}", finder.item_display(index));
        assert_eq!(finder.selected_path(), Some(shown.as_str()));
        finder.move_down();
    }
}

#[test]
fn the_selected_path_lies_below_a_relative_root_too() {
    for (root, file, shown) in [
        ("p", "p/a/b.ts", "a/b.ts"),
        ("p/", "p/a.ts", "a.ts"),
        (".", "./a.ts", "a.ts"),
        ("../p", "../p/a.ts", "a.ts"),
        ("", "a/b.ts", "a/b.ts"),
    ] {
        let finder = Finder::open(root, &vec![file.to_string()]);
        assert_eq!(finder.item_display(0), shown, "{root}");
        assert_eq!(finder.selected_path(), Some(file), "{root}");
    }
}

#[test]
fn lower_case_text_matches_at_the_same_places() {
    let (camel, places) = score("gc", "src/galleryCard.ts").unwrap();
    let (lower, same) = score("gc", "src/gallerycard.ts").unwrap();
    assert_eq!(places, same);
    assert_eq!(camel, lower + 8);
    assert!(score("xyz", "src/galleryCard.ts").is_none());
    assert!(score("xyz", "src/gallerycard.ts").is_none());
}

#[test]
fn a_longer_query_lists_no_more() {
    let mut finder = Finder::open("/p", &fixture());
    let mut listed: Vec<usize> = finder.results.iter().map(|r| r.index).collect();
    for c in ['b', 'u', 'T'] {
        finder.push(c);
        let now: Vec<usize> = finder.results.iter().map(|r| r.index).collect();
        assert!(now.iter().all(|i| listed.contains(i)), "{c}");
        listed = now;
    }
    assert!(listed.is_empty());
}

#[test]
fn taking_a_character_off_undoes_adding_it() {
    let results = |f: &Finder| -> Vec<(usize, i64, Vec<usize>)> {
        f.results.iter().map(|r| (r.index, r.score, r.indices.clone())).collect()
    };
    let mut finder = Finder::open("/p", &fixture());
    let everything = results(&finder);
    finder.pop();
    assert_eq!(finder.asked_text(), "");
    assert_eq!(results(&finder), everything);
    finder.push('g');
    let found = results(&finder);
    finder.push('B');
    assert_ne!(results(&finder), found);
    finder.pop();
    assert_eq!(finder.asked_text(), "g");
    assert_eq!(results(&finder), found);
}
