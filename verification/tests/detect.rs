use render_component::detect::{
    classify, is_component_file, module_place, sibling_module, ComponentKind,
};

#[test]
fn standalone_when_no_sibling_module() {
    let kind = classify(
        "/p/gallery.component.ts",
        Some("import { Component } from '@angular/core'; @Component({}) export class GalleryComponent {}"),
        false,
    );
    assert_eq!(kind, ComponentKind::AngularStandalone);
}

#[test]
fn module_kind_when_sibling_module_exists() {
    let kind = classify(
        "/p/badge.component.ts",
        Some("@Component({}) export class BadgeComponent {}"),
        true,
    );
    assert_eq!(kind, ComponentKind::AngularModule);
    let module = classify("/p/badge.module.ts", Some("export class BadgeModule {}"), false);
    assert_eq!(module, ComponentKind::AngularModuleFile);
}

#[test]
fn ts_without_decorator_is_other() {
    let kind = classify("/p/helper.component.ts", Some("export const x = 1;"), false);
    assert_eq!(kind, ComponentKind::Other);
}

#[test]
fn future_framework_extensions_are_highlighted_but_not_renderable() {
    let react = classify("/p/Button.tsx", Some("export const Button = () => null;"), false);
    let svelte = classify("/p/Card.svelte", Some("<p>card</p>"), false);
    let vue = classify("/p/Badge.vue", Some("<template><p></p></template>"), false);
    assert_eq!(react, ComponentKind::React);
    assert_eq!(svelte, ComponentKind::Svelte);
    assert_eq!(vue, ComponentKind::Vue);
    for kind in [ComponentKind::React, ComponentKind::Svelte, ComponentKind::Vue] {
        assert!(kind.highlighted());
        assert!(!kind.renderable());
        assert!(kind.unsupported_message().is_some(), "{kind:?} needs a message");
    }
}

#[test]
fn plain_files_are_other_and_inert() {
    let plain = classify("/p/helper.ts", Some("export const x = 1;"), false);
    let html = classify("/p/gallery.component.html", Some("<p>x</p>"), false);
    assert_eq!(plain, ComponentKind::Other);
    assert_eq!(html, ComponentKind::Other);
    assert!(!ComponentKind::Other.highlighted());
    assert!(!ComponentKind::Other.renderable());
}

#[test]
fn unreadable_components_are_other() {
    assert_eq!(classify("/p/a.component.ts", None, true), ComponentKind::Other);
    assert_eq!(classify("/", None, false), ComponentKind::Other);
}

#[test]
fn the_module_of_a_component_lies_beside_it() {
    assert!(is_component_file("/p/a.component.ts"));
    assert!(!is_component_file("/p/a.module.ts"));
    assert_eq!(module_place("/p/q/a.component.ts"), Some("/p/q/a.module.ts".to_string()));
    assert_eq!(module_place("/p/q/a.ts"), None);
    assert_eq!(sibling_module("/p/a.component.ts", true), Some("/p/a.module.ts".to_string()));
    assert_eq!(sibling_module("/p/a.component.ts", false), None);
}

#[test]
fn kinds_are_named_and_refused_one_by_one() {
    assert_eq!(ComponentKind::AngularStandalone.as_str(), "angular-standalone");
    assert_eq!(ComponentKind::AngularModule.as_str(), "angular-module");
    assert_eq!(ComponentKind::Vue.as_str(), "vue");
    assert_eq!(
        ComponentKind::AngularModuleFile.unsupported_message(),
        Some("Module file: select a *.component.ts instead")
    );
    assert_eq!(ComponentKind::Other.unsupported_message(), None);
    for kind in [
        ComponentKind::AngularStandalone,
        ComponentKind::AngularModule,
        ComponentKind::AngularModuleFile,
        ComponentKind::React,
        ComponentKind::Svelte,
        ComponentKind::Vue,
        ComponentKind::Other,
    ] {
        assert_eq!(
            kind.unsupported_message().is_some(),
            kind.highlighted() && !kind.renderable()
        );
    }
}
