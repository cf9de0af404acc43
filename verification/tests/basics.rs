use render_component::host::clean::parse_json;
use render_component::json::{can_set, set_member, set_path, Json};
use render_component::path;
use render_component::scan::balanced_block;
use render_component::sort::sort_texts;
use render_component::text::{
    before, chars_of, integer_text, natural, number_text, split, text_of, trim,
};

fn strings(v: &[&str]) -> Vec<String> {
    v.iter().map(|s| s.to_string()).collect()
}

#[test]
fn numbers_are_written_and_read() {
    assert_eq!(number_text(0), "0");
    assert_eq!(number_text(u64::MAX), "18446744073709551615");
    assert_eq!(integer_text(-8), "-8");
    assert_eq!(integer_text(i128::MIN), "-170141183460469231731687303715884105728");
    assert_eq!(natural("18446744073709551615"), Some(u64::MAX));
    assert_eq!(natural("18446744073709551616"), None);
    assert_eq!(natural("-1"), None);
    assert_eq!(natural("1.0"), None);
    assert_eq!(natural(""), None);
    assert_eq!(parse_json("{\"a\":3}").unwrap().natural_at("a"), Some(3));
    assert_eq!(parse_json("{\"a\":3.5}").unwrap().natural_at("a"), None);
    assert_eq!(parse_json("{\"a\":1e3}").unwrap().natural_at("a"), None);
}

#[test]
fn texts_are_cut_and_trimmed() {
    assert_eq!(text_of(trim(&chars_of(" \u{a0}\tä b\n"))), "ä b");
    assert_eq!(split(&chars_of("a,,b"), ','), vec!["a", "", "b"]);
    assert!(before(&chars_of("Z"), &chars_of("a")));
    assert!(before(&chars_of("a"), &chars_of("ab")));
    assert!(!before(&chars_of("a"), &chars_of("a")));
    assert_eq!(sort_texts(&strings(&["b", "Z", "a", "ab"])), vec!["Z", "a", "ab", "b"]);
}

#[test]
fn blocks_are_balanced_outside_strings() {
    let s = chars_of("f({ a: ')', b: (1) }) rest");
    let (inner, end) = balanced_block(&s, 1, '(', ')').unwrap();
    assert_eq!(inner, "{ a: ')', b: (1) }");
    assert_eq!(s[end + 1..].iter().collect::<String>().trim(), "rest");
    assert!(balanced_block(&chars_of("(()"), 0, '(', ')').is_none());
    assert!(balanced_block(&chars_of("|a|"), 0, '|', '|').is_none());
}

#[test]
fn paths_go_by_their_components() {
    assert_eq!(path::file_name("/a/b.ts"), Some("b.ts".to_string()));
    assert_eq!(path::file_name("/a/.."), None);
    assert_eq!(path::parent("/a/b"), Some("/a".to_string()));
    assert_eq!(path::parent("/"), None);
    assert_eq!(path::parent("a"), Some("".to_string()));
    assert_eq!(path::join("/a", "b"), "/a/b");
    assert_eq!(path::join("/a/", "b"), "/a/b");
    assert_eq!(path::join("/a", "/b"), "/b");
    assert_eq!(path::strip_prefix("/a/b/c", "/a"), Some("b/c".to_string()));
    assert_eq!(path::strip_prefix("/ab/c", "/a"), None);
    assert_eq!(path::strip_prefix("/a//b/./c", "/a/b"), Some("c".to_string()));
    assert_eq!(path::extension("/a/b.d.ts"), Some("ts".to_string()));
    assert_eq!(path::extension("/a/.env"), None);
    assert!(path::is_absolute("/a"));
    assert!(!path::is_absolute("a"));
    assert_eq!(path::json_file("/a/base"), "/a/base.json");
    assert_eq!(path::json_file("/a/tsconfig.base"), "/a/tsconfig.base");
    assert_eq!(path::ancestors("/r/a/x.ts", "/r"), vec!["/r/a", "/r"]);
}

#[test]
fn members_keep_their_place() {
    let j = parse_json("{\"a\":1,\"b\":2}").unwrap();
    let j = set_member(j, "a", Json::Bool(true));
    let j = set_member(j, "c", Json::Null);
    match &j {
        Json::Object(o) => {
            let keys: Vec<&str> = o.iter().map(|(k, _)| k.as_str()).collect();
            assert_eq!(keys, vec!["a", "b", "c"]);
        }
        other => panic!("{other:?}"),
    }
    assert_eq!(j.get("a"), Some(&Json::Bool(true)));
    assert_eq!(j.duplicate(), j);
    assert!(can_set(&j, &["c", "x", "y"]));
    assert!(!can_set(&j, &["b", "x"]));
    let j = set_path(j, &["c", "x", "y"], Json::Bool(false));
    assert_eq!(j.get_at(&["c", "x", "y"]), Some(&Json::Bool(false)));
}

#[test]
fn json_values_survive_printing_and_reading() {
    for text in [
        "null",
        "true",
        "-12",
        "1.5",
        "\"a\\\"b\\u0001\"",
        "[]",
        "{}",
        "{\"a\":[{\"b\":null}]}",
    ] {
        let value = parse_json(text).unwrap();
        let printed = render_component::host::clean::compact_json(&value);
        assert_eq!(parse_json(&printed), Ok(value), "{text}");
    }
    let err = parse_json("[1,").unwrap_err();
    assert!(err.contains("EOF"), "{err}");
}
