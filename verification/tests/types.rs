use render_component::json::Json;
use render_component::pipeline_types::{
    extract_type_def, fake_enum, fake_number, fake_string, fake_value, first_union_alternative,
    interface_fields, parse_component_inputs, searched_files, strip_line_comment, TypeIndex,
    MAX_READS,
};
use render_component::text::chars_of;

fn index(sources: &[&str]) -> TypeIndex {
    let mut index = TypeIndex::new("/p".to_string(), "/p/a/x.component.ts".to_string());
    for s in sources {
        index.add_source(Some(s.to_string()));
    }
    index
}

fn made_up(ty: &str, hint: &str, sources: &[&str]) -> Json {
    fake_value(ty, hint, &mut index(sources), 0)
}

#[test]
fn inputs_are_parsed() {
    let inputs = parse_component_inputs(
        "a = input.required<User>(); b = input<string>('x'); c = model<number>();",
    );
    let seen: Vec<(&str, bool, Option<&str>, bool)> = inputs
        .iter()
        .map(|i| (i.name.as_str(), i.required, i.generic.as_deref(), i.has_default))
        .collect();
    assert_eq!(
        seen,
        vec![
            ("a", true, Some("User"), false),
            ("b", false, Some("string"), true),
            ("c", false, Some("number"), false),
        ]
    );
}

#[test]
fn other_words_declare_no_input() {
    assert!(parse_component_inputs("total = inputs.length;").is_empty());
    assert!(parse_component_inputs("a = input; b = modelOf(1); c = input.requiredOf<T>();").is_empty());
    assert_eq!(parse_component_inputs("a = input(1);")[0].name, "a");
    assert!(parse_component_inputs("a = input.required();")[0].required);
}

#[test]
fn definitions_are_found_by_name() {
    let source = "export interface User { id: string; } enum Kind { A = 'a', B }";
    let user = extract_type_def(source, "User").unwrap();
    assert!(!user.is_enum);
    assert!(user.body.contains("id: string"));
    let kind = extract_type_def(source, "Kind").unwrap();
    assert!(kind.is_enum);
    assert!(extract_type_def(source, "Use").is_none());
    assert!(extract_type_def("interface Open { a: string;", "Open").is_none());
}

#[test]
fn fields_of_an_interface() {
    let fields = interface_fields("\n  id: string; // key\n  readonly name?: string;\n  tags: { a: number };\n");
    let seen: Vec<(&str, &str)> = fields.iter().map(|(n, t)| (n.as_str(), t.as_str())).collect();
    assert_eq!(seen, vec![("id", "string"), ("name", "string"), ("tags", "{ a: number }")]);
    assert_eq!(strip_line_comment("a: string; // note"), "a: string; ");
    let fields = interface_fields("año: número;");
    assert_eq!(fields, vec![("año".to_string(), "número".to_string())]);
}

#[test]
fn a_union_stands_for_its_first_alternative() {
    assert_eq!(first_union_alternative(&chars_of("null | string | number")), "string");
    assert_eq!(first_union_alternative(&chars_of("undefined | null")), "undefined | null");
    assert_eq!(first_union_alternative(&chars_of("Map<a | b, c>")), "Map<a | b, c>");
}

#[test]
fn a_union_of_literals_is_a_union() {
    let text = |t: &str| Json::Text(t.to_string());
    assert_eq!(made_up("'a' | 'b'", "kind", &[]), text("a"));
    assert_eq!(made_up("\"x\" | null", "kind", &[]), text("x"));
    assert_eq!(made_up("'a|b'", "kind", &[]), text("a|b"));
    assert_eq!(made_up("'a'b'", "kind", &[]), text("a'b"));
    assert_eq!(made_up("null | 'b'", "kind", &[]), text("b"));
}

#[test]
fn simple_types_are_made_up() {
    assert_eq!(made_up("string", "email", &[]), Json::Text("user@example.com".to_string()));
    assert_eq!(made_up("boolean", "x", &[]), Json::Bool(true));
    assert!(matches!(made_up("number", "total", &[]), Json::Number(_)));
    assert_eq!(fake_string("UserName"), "Sample name");
    assert_eq!(fake_string("createdAt"), "2026-01-15");
    assert_eq!(made_up("number", "total", &[]), Json::Number(fake_number("total")));
}

#[test]
fn interfaces_are_made_up_from_the_nearest_source() {
    let near = "interface A { id: string; }";
    let far = "interface A { email: string; }";
    let value = made_up("A", "a", &[near, far]);
    assert_eq!(value.text_at("id"), Some("id-1024"));
    assert_eq!(value.text_at("email"), None);
}

#[test]
fn an_enum_is_made_up_from_its_first_member() {
    assert_eq!(fake_enum("A = 'a', B = 'b'"), Json::Text("a".to_string()));
    assert_eq!(made_up("Kind", "k", &["enum Kind { A = 'a', B }"]), Json::Text("a".to_string()));
    assert_eq!(fake_enum("A, B = 'b'"), Json::Number("0".to_string()));
    assert_eq!(fake_enum(" A = 5, B = 'b'"), Json::Number("5".to_string()));
    assert_eq!(fake_enum("A = '1'"), Json::Text("1".to_string()));
    assert_eq!(fake_enum(""), Json::Number("0".to_string()));
}

#[test]
fn types_that_refer_to_themselves_end() {
    let value = made_up("Node", "n", &["interface Node { id: string; next: Node; }"]);
    assert_eq!(value.text_at("id"), Some("id-1024"));
    assert!(value.get("next").is_some());
}

#[test]
fn what_is_found_is_remembered() {
    let mut index = index(&["interface A { id: string; }"]);
    assert!(index.resolve("A").is_some());
    assert!(index.resolve("A").is_some());
    assert!(index.resolve("B").is_none());
    index.add_source(Some("interface B { x: number; }".to_string()));
    assert!(index.resolve("B").is_some(), "a new source is searched too");
}

#[test]
fn reading_is_bounded() {
    let mut index = TypeIndex::new("/p".to_string(), "/p/a/x.component.ts".to_string());
    for _ in 0..MAX_READS {
        assert!(!index.full());
        index.add_source(None);
    }
    assert!(index.full());
    index.add_source(Some("interface A { id: string; }".to_string()));
    assert!(index.resolve("A").is_none());
}

#[test]
fn directories_are_searched_up_to_the_root() {
    let index = TypeIndex::new("/p".to_string(), "/p/a/b/x.component.ts".to_string());
    assert_eq!(index.search_dirs(), vec!["/p/a/b", "/p/a", "/p"]);
    let names = vec![
        "z.ts".to_string(),
        "a.ts".to_string(),
        "a.spec.ts".to_string(),
        "b.html".to_string(),
    ];
    assert_eq!(searched_files("/p/a", &names), vec!["/p/a/a.ts", "/p/a/z.ts"]);
}
