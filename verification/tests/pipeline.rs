use render_component::json::Json;
use render_component::pipeline::{
    class_name_after, extract_decorator_block, extract_required_inputs, extract_string_array,
    extract_string_value, find_key, is_decidable, list_is_readable, module_class_name,
    referenced_files, try_validate, validate, ComponentInfo, PipelineError, Strategy, StyleRef,
    TemplateRef,
};
use render_component::pipeline_types::TypeIndex;
use render_component::text::chars_of;

const GALLERY: &str = r#"
import { Component } from '@angular/core';

@Component({
  selector: 'app-gallery',
  standalone: true,
  templateUrl: './gallery.component.html',
  styleUrls: ['./gallery.component.scss'],
})
export class GalleryComponent {}
"#;

/// Validate a component in `/p`, where the files of these names are.
fn check(
    name: &str,
    source: &str,
    present: &[&str],
    module: Option<&str>,
) -> Result<ComponentInfo, PipelineError> {
    let component = format!("/p/{name}");
    let files = referenced_files(&component, source);
    let there: Vec<String> = files
        .into_iter()
        .filter(|f| present.iter().any(|p| f.ends_with(p)))
        .collect();
    let source = Ok(source.to_string());
    assert!(is_decidable(&component, &source, &there));
    let module = module.map(|m| Ok(m.to_string()));
    let mut index = TypeIndex::new("/p".to_string(), component.clone());
    validate(&component, &source, &there, &module, &mut index)
}

#[test]
fn valid_standalone_component_resolves_files() {
    let info = check(
        "gallery.component.ts",
        GALLERY,
        &["gallery.component.html", "gallery.component.scss"],
        None,
    )
    .expect("valid component");
    assert_eq!(info.class_name, "GalleryComponent");
    assert_eq!(info.strategy, Strategy::Standalone);
    match &info.template {
        TemplateRef::File(p) => assert!(p.ends_with("gallery.component.html")),
        TemplateRef::Inline => panic!("a file"),
    }
    assert_eq!(info.styles.len(), 1);
}

#[test]
fn module_strategy_when_sibling_module_declares_component() {
    let source = GALLERY
        .replace("GalleryComponent", "BadgeComponent")
        .replace("gallery.component", "badge.component");
    let info = check(
        "badge.component.ts",
        &source,
        &["badge.component.html", "badge.component.scss"],
        Some("@NgModule({}) export class BadgeModule {}"),
    )
    .expect("valid module component");
    assert_eq!(info.strategy, Strategy::Module);
    assert_eq!(info.module_class_name.as_deref(), Some("BadgeModule"));
}

#[test]
fn broken_decorator_is_typed_parse_error() {
    let err = check(
        "broken.component.ts",
        "@Component({ selector: 'app-broken', templateUrl: 'x.html' export class BrokenComponent {}",
        &[],
        None,
    )
    .unwrap_err();
    assert!(matches!(err, PipelineError::Parse(_)), "got: {err:?}");
}

#[test]
fn missing_template_file_is_early_error() {
    let err = check(
        "ghost.component.ts",
        &GALLERY.replace("GalleryComponent", "GhostComponent"),
        &[],
        None,
    )
    .unwrap_err();
    assert!(
        matches!(&err, PipelineError::TemplateMissing(p) if p.ends_with("gallery.component.html")),
        "got: {err:?}"
    );
}

#[test]
fn missing_style_file_is_early_error() {
    let err = check(
        "nostyle.component.ts",
        &GALLERY.replace("GalleryComponent", "NoStyleComponent"),
        &["gallery.component.html"],
        None,
    )
    .unwrap_err();
    assert!(
        matches!(&err, PipelineError::StyleMissing(p) if p.ends_with("gallery.component.scss")),
        "got: {err:?}"
    );
}

#[test]
fn source_without_decorator_is_rejected() {
    assert!(matches!(
        check("helper.component.ts", "export const x = 1;", &[], None),
        Err(PipelineError::NotAComponent)
    ));
}

fn value<'a>(info: &'a ComponentInfo, name: &str) -> Option<&'a Json> {
    info.input_values.iter().find(|(n, _)| n == name).map(|(_, v)| v)
}

#[test]
fn input_values_generated_from_workspace_interfaces() {
    let component = "/p/gym/projects/app/cal/cal.component.ts";
    let source = r#"
import { CalendarUser } from './calendar-user.interface';

@Component({ selector: 'app-cal', template: '<p>{{ user().name }}</p>' })
export class CalComponent {
  user = input.required<CalendarUser>();
  count = model<number>(5);
  items = input<CalendarItem[]>();
  active = input.required<boolean>();
}
"#;
    let mut index = TypeIndex::new("/p".to_string(), component.to_string());
    assert_eq!(index.search_dirs()[0], "/p/gym/projects/app/cal");
    index.add_source(Some(
        "export interface CalendarUser { id: string; name: string; email: string; active: boolean; }"
            .to_string(),
    ));
    let info =
        validate(component, &Ok(source.to_string()), &vec![], &None, &mut index).expect("valid");
    let user = value(&info, "user").expect("user value");
    assert_eq!(user.text_at("id"), Some("id-1024"));
    assert_eq!(user.text_at("name"), Some("Sample name"));
    assert_eq!(user.text_at("email"), Some("user@example.com"));
    assert_eq!(user.get("active"), Some(&Json::Bool(true)));
    assert!(value(&info, "count").is_none());
    assert!(value(&info, "items").is_some());
    assert_eq!(value(&info, "active"), Some(&Json::Bool(true)));
}

#[test]
fn required_signal_inputs_are_extracted() {
    let source = r#"
@Component({ selector: 'app-state', template: '<div>{{ state.id }}</div>' })
export class StateComponent {
  state = input.required<DashboardState>();
  label = input.required<string>();
  optional = input<string>();
}
"#;
    let info = check("state.component.ts", source, &[], None).expect("valid");
    assert_eq!(info.required_inputs, vec!["state", "label"], "optional excluded");
}

#[test]
fn inline_template_and_styles_are_accepted() {
    let info = check(
        "inline.component.ts",
        "@Component({ template: '<p>hi</p>', styles: ['p {}'] })\nexport class InlineComponent {}",
        &[],
        None,
    )
    .expect("inline component valid");
    assert_eq!(info.template, TemplateRef::Inline);
    assert_eq!(info.styles, vec![StyleRef::Inline]);
}

#[test]
fn errors_are_told() {
    assert_eq!(
        PipelineError::NotAComponent.message(),
        "not an Angular component: no @Component decorator found"
    );
    assert_eq!(PipelineError::Parse("x".to_string()).message(), "unparseable component: x");
    assert_eq!(
        PipelineError::TemplateMissing("/a.html".to_string()).message(),
        "template file not found: /a.html"
    );
    assert_eq!(
        PipelineError::StyleMissing("/a.scss".to_string()).message(),
        "style file not found: /a.scss"
    );
}

#[test]
fn each_parse_error() {
    let mut index = TypeIndex::new("/p".to_string(), "/p/a.component.ts".to_string());
    let unreadable = Err("denied".to_string());
    let err = validate("/p/a.component.ts", &unreadable, &vec![], &None, &mut index).unwrap_err();
    assert_eq!(err, PipelineError::Parse("cannot read /p/a.component.ts: denied".to_string()));

    let err = check("a.component.ts", "@Component({ template: '' ", &[], None).unwrap_err();
    assert_eq!(err, PipelineError::Parse("unbalanced @Component(...) block".to_string()));

    let err = check("a.component.ts", "@Component({ template: '' })", &[], None).unwrap_err();
    assert_eq!(err, PipelineError::Parse("no class found after @Component".to_string()));
}

#[test]
fn the_decorator_is_read_by_its_keys() {
    let source = chars_of("@Component({ selector: 'a', styleUrls: ['x.css', \"y.css\"] }) class A");
    let (open, end) = extract_decorator_block(&source).unwrap();
    let block = &source[open..end];
    assert!(find_key(block, "selector").is_some());
    assert!(find_key(block, "template").is_none());
    assert_eq!(extract_string_value(block, "selector"), Some("a".to_string()));
    assert!(list_is_readable(block, "styleUrls"));
    assert_eq!(extract_string_array(block, "styleUrls"), vec!["x.css", "y.css"]);
    assert_eq!(class_name_after(&source, end), Some("A".to_string()));
    assert_eq!(module_class_name("export class M$1 {}"), Some("M$1".to_string()));
    assert_eq!(module_class_name("class M {}"), None);
    let inputs = chars_of("a = input.required(); b = input.required<string>();");
    assert_eq!(extract_required_inputs(&inputs), vec!["a", "b"]);
    assert!(extract_required_inputs(&chars_of("a = input.requiredOnes;")).is_empty());
}

#[test]
fn brackets_in_strings_do_not_close_a_list() {
    let block = chars_of("k: ['a]b', 'c']");
    assert!(list_is_readable(&block, "k"));
    assert_eq!(extract_string_array(&block, "k"), vec!["a]b", "c"]);
}

#[test]
fn a_list_that_ends_in_an_escape_is_not_told() {
    let run = |source: &str| {
        let mut index = TypeIndex::new("/p".to_string(), "/p/a.component.ts".to_string());
        let source = Ok(source.to_string());
        try_validate("/p/a.component.ts", &source, &vec![], &None, &mut index)
    };
    let cut = r"@Component({ template: '', styles: [`'` \] }) class A {}";
    assert!(run(cut).is_none());
    let whole = "@Component({ template: '', styles: ['a'] }) class A {}";
    let info = run(whole).expect("told").expect("valid");
    assert_eq!(info.class_name, "A");
    assert_eq!(info.styles, vec![StyleRef::Inline]);
}

#[test]
fn referenced_files_lie_beside_the_component() {
    assert_eq!(
        referenced_files("/p/gallery.component.ts", GALLERY),
        vec!["/p/./gallery.component.html", "/p/./gallery.component.scss"]
    );
}
