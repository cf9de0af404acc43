//! What kind of source file a path names.

use crate::path;
use crate::text;
use vstd::prelude::*;

verus! {

/// What kind of source file this is. It decides how the explorer shows a file
/// and whether the file can be rendered.
#[derive(Debug, Clone, Copy, PartialEq, Eq, Structural)]
pub enum ComponentKind {
    /// An Angular component without a sibling `.module.ts`.
    AngularStandalone,
    /// An Angular component whose sibling `.module.ts` declares it.
    AngularModule,
    /// An `*.module.ts` file itself: highlighted, but not directly renderable.
    AngularModuleFile,
    React,
    Svelte,
    Vue,
    Other,
}

impl ComponentKind {
    pub open spec fn is_renderable(self) -> bool {
        self is AngularStandalone || self is AngularModule
    }

    pub open spec fn is_highlighted(self) -> bool {
        !(self is Other)
    }

    pub open spec fn refusal(self) -> Option<Seq<char>> {
        match self {
            ComponentKind::React => Some("React (.tsx) components are not supported yet"@),
            ComponentKind::Svelte => Some("Svelte (.svelte) components are not supported yet"@),
            ComponentKind::Vue => Some("Vue (.vue) components are not supported yet"@),
            ComponentKind::AngularModuleFile => Some(
                "Module file: select a *.component.ts instead"@,
            ),
            _ => None,
        }
    }

    pub open spec fn name(self) -> Seq<char> {
        match self {
            ComponentKind::AngularStandalone => "angular-standalone"@,
            ComponentKind::AngularModule => "angular-module"@,
            ComponentKind::AngularModuleFile => "angular-module-file"@,
            ComponentKind::React => "react"@,
            ComponentKind::Svelte => "svelte"@,
            ComponentKind::Vue => "vue"@,
            ComponentKind::Other => "other"@,
        }
    }

    /// The name of this kind in what agents are told.
    pub fn as_str(self) -> (r: &'static str)
        ensures
            r@ == self.name(),
    {
        match self {
            ComponentKind::AngularStandalone => "angular-standalone",
            ComponentKind::AngularModule => "angular-module",
            ComponentKind::AngularModuleFile => "angular-module-file",
            ComponentKind::React => "react",
            ComponentKind::Svelte => "svelte",
            ComponentKind::Vue => "vue",
            ComponentKind::Other => "other",
        }
    }

    /// Only Angular components are renderable.
    pub fn renderable(self) -> (r: bool)
        ensures
            r == self.is_renderable(),
    {
        matches!(self, ComponentKind::AngularStandalone | ComponentKind::AngularModule)
    }

    /// Whether the explorer highlights this kind as a component-related file.
    pub fn highlighted(self) -> (r: bool)
        ensures
            r == self.is_highlighted(),
    {
        !matches!(self, ComponentKind::Other)
    }

    /// The message shown when a highlighted file that cannot be rendered is
    /// selected.
    pub fn unsupported_message(self) -> (r: Option<&'static str>)
        ensures
            text::opt_str(r) == self.refusal(),
    {
        match self {
            ComponentKind::React => Some("React (.tsx) components are not supported yet"),
            ComponentKind::Svelte => Some("Svelte (.svelte) components are not supported yet"),
            ComponentKind::Vue => Some("Vue (.vue) components are not supported yet"),
            ComponentKind::AngularModuleFile => Some(
                "Module file: select a *.component.ts instead",
            ),
            _ => None,
        }
    }
}

/// What can be rendered is highlighted, and a highlighted file is refused with
/// a message exactly when it cannot be rendered.
pub proof fn refused_iff_highlighted_and_not_renderable(kind: ComponentKind)
    ensures
        kind.is_renderable() ==> kind.is_highlighted(),
        kind.refusal() is Some <==> kind.is_highlighted() && !kind.is_renderable(),
{
}

/// Whether a path names a file that is read to classify it.
pub open spec fn is_component_name(path: Seq<char>) -> bool {
    path::name_of(path) matches Some(name) && text::ends(name, ".component.ts"@)
}

/// The place of the module of `foo.component.ts`: `foo.module.ts` beside it.
pub open spec fn module_of(component: Seq<char>) -> Option<Seq<char>> {
    match path::name_of(component) {
        Some(name) => if text::ends(name, ".component.ts"@) {
            Some(
                path::renamed(
                    component,
                    name.take(name.len() - ".component.ts"@.len()) + ".module.ts"@,
                ),
            )
        } else {
            None
        },
        None => None,
    }
}

/// The kind of a file, by its path, what it holds where it could be read, and
/// whether the module beside it exists.
pub open spec fn kind_of(path: Seq<char>, source: Option<Seq<char>>, module_exists: bool) -> ComponentKind {
    match path::name_of(path) {
        Some(name) => if text::ends(name, ".component.ts"@) {
            match source {
                Some(s) => if !text::has(s, "@Component"@) {
                    ComponentKind::Other
                } else if module_exists {
                    ComponentKind::AngularModule
                } else {
                    ComponentKind::AngularStandalone
                },
                None => ComponentKind::Other,
            }
        } else if text::ends(name, ".module.ts"@) {
            ComponentKind::AngularModuleFile
        } else if text::ends(name, ".tsx"@) {
            ComponentKind::React
        } else if text::ends(name, ".svelte"@) {
            ComponentKind::Svelte
        } else if text::ends(name, ".vue"@) {
            ComponentKind::Vue
        } else {
            ComponentKind::Other
        },
        None => ComponentKind::Other,
    }
}

/// Whether a path names a file that is read to classify it.
pub fn is_component_file(path: &str) -> (r: bool)
    ensures
        r == is_component_name(path@),
{
    match path::file_name(path) {
        Some(name) => {
            let name: Vec<char> = text::chars_of(name.as_str());
            text::ends_with(name.as_slice(), ".component.ts")
        },
        None => false,
    }
}

/// The place of the module of a component.
pub fn module_place(component: &str) -> (r: Option<String>)
    ensures
        text::opt(r) == module_of(component@),
{
    match path::file_name(component) {
        Some(name) => {
            let name: Vec<char> = text::chars_of(name.as_str());
            match text::strip_suffix(name.as_slice(), ".component.ts") {
                Some(base) => {
                    let base: String = text::text_of(base);
                    let module: String = text::cat(base.as_str(), ".module.ts");
                    Some(path::with_name(component, module.as_str()))
                },
                None => None,
            }
        },
        None => None,
    }
}

/// The module of a component, `exists` telling whether there is a file in its
/// place.
pub fn sibling_module(component: &str, exists: bool) -> (r: Option<String>)
    ensures
        text::opt(r) == (if exists {
            module_of(component@)
        } else {
            None
        }),
{
    if exists {
        module_place(component)
    } else {
        None
    }
}

/// Classify a source file by framework and role. `source` is what the file
/// holds, where it is read and can be; `module_exists` tells whether there is a
/// file in the place of its module.
pub fn classify(path: &str, source: Option<&str>, module_exists: bool) -> (r: ComponentKind)
    ensures
        r == kind_of(path@, text::opt_str(source), module_exists),
{
    let name: Vec<char> = match path::file_name(path) {
        Some(name) => text::chars_of(name.as_str()),
        None => {
            return ComponentKind::Other;
        },
    };
    let name: &[char] = name.as_slice();
    if text::ends_with(name, ".component.ts") {
        match source {
            Some(source) => {
                let source: Vec<char> = text::chars_of(source);
                if !text::contains(source.as_slice(), "@Component") {
                    ComponentKind::Other
                } else if module_exists {
                    ComponentKind::AngularModule
                } else {
                    ComponentKind::AngularStandalone
                }
            },
            None => ComponentKind::Other,
        }
    } else if text::ends_with(name, ".module.ts") {
        ComponentKind::AngularModuleFile
    } else if text::ends_with(name, ".tsx") {
        ComponentKind::React
    } else if text::ends_with(name, ".svelte") {
        ComponentKind::Svelte
    } else if text::ends_with(name, ".vue") {
        ComponentKind::Vue
    } else {
        ComponentKind::Other
    }
}

/// Only a `*.component.ts` file that could be read and holds the decorator is
/// renderable, and the file beside it decides how.
pub proof fn renderable_iff_decorated(
    path: Seq<char>,
    source: Option<Seq<char>>,
    module_exists: bool,
)
    ensures
        kind_of(path, source, module_exists).is_renderable() <==> is_component_name(path) && (
        source matches Some(s) && text::has(s, "@Component"@)),
        kind_of(path, source, module_exists).is_renderable() ==> (kind_of(
            path,
            source,
            module_exists,
        ) is AngularModule <==> module_exists),
{
}

/// Whether a text can stand before the ending of a file name: it is not empty and
/// holds no slash.
pub open spec fn is_stem(stem: Seq<char>) -> bool {
    stem.len() > 0 && !stem.contains('/')
}

proof fn stem_and_ending_are_a_name(dir: Seq<char>, stem: Seq<char>, ending: Seq<char>)
    requires
        is_stem(stem),
        !ending.contains('/'),
        ending.len() > 2,
    ensures
        path::is_name(stem + ending),
        stem + ending != ".."@,
        path::name_of(path::join_of(dir, stem + ending)) == Some(stem + ending),
        text::ends(stem + ending, ending),
{
    reveal_strlit(".");
    reveal_strlit("..");
    let name = stem + ending;
    assert forall|i: int| 0 <= i < name.len() implies name[i] != '/' by {
        if i < stem.len() {
            assert(name[i] == stem[i]);
            assert(stem.contains(stem[i]));
        } else {
            assert(name[i] == ending[i - stem.len()]);
            assert(ending.contains(ending[i - stem.len()]));
        }
    }
    path::name_of_entry(dir, name);
    assert(name.subrange(name.len() - ending.len(), name.len() as int) =~= ending);
}

proof fn endings_part(name: Seq<char>, a: Seq<char>, b: Seq<char>, i: int)
    requires
        text::ends(name, a),
        0 <= i < a.len(),
        i < b.len(),
        a[a.len() - 1 - i] != b[b.len() - 1 - i],
    ensures
        !text::ends(name, b),
{
    let n = name.len() as int;
    assert(name.subrange(n - a.len(), n)[a.len() - 1 - i] == name[n - 1 - i]);
    if text::ends(name, b) {
        assert(name.subrange(n - b.len(), n)[b.len() - 1 - i] == name[n - 1 - i]);
    }
}

/// What a file is goes by its name, in whatever directory it lies: the files of
/// React, Svelte and Vue are told by their extensions, a module by `.module.ts`.
pub proof fn kinds_go_by_names(
    dir: Seq<char>,
    stem: Seq<char>,
    source: Option<Seq<char>>,
    module_exists: bool,
)
    requires
        is_stem(stem),
    ensures
        kind_of(path::join_of(dir, stem + ".tsx"@), source, module_exists) == ComponentKind::React,
        kind_of(path::join_of(dir, stem + ".svelte"@), source, module_exists)
            == ComponentKind::Svelte,
        kind_of(path::join_of(dir, stem + ".vue"@), source, module_exists) == ComponentKind::Vue,
        kind_of(path::join_of(dir, stem + ".module.ts"@), source, module_exists)
            == ComponentKind::AngularModuleFile,
        kind_of(path::join_of(dir, stem + ".html"@), source, module_exists) == ComponentKind::Other,
{
    reveal_strlit(".tsx");
    reveal_strlit(".svelte");
    reveal_strlit(".vue");
    reveal_strlit(".module.ts");
    reveal_strlit(".component.ts");
    reveal_strlit(".html");
    stem_and_ending_are_a_name(dir, stem, ".tsx"@);
    endings_part(stem + ".tsx"@, ".tsx"@, ".component.ts"@, 0);
    endings_part(stem + ".tsx"@, ".tsx"@, ".module.ts"@, 0);
    stem_and_ending_are_a_name(dir, stem, ".svelte"@);
    endings_part(stem + ".svelte"@, ".svelte"@, ".component.ts"@, 0);
    endings_part(stem + ".svelte"@, ".svelte"@, ".module.ts"@, 0);
    endings_part(stem + ".svelte"@, ".svelte"@, ".tsx"@, 0);
    stem_and_ending_are_a_name(dir, stem, ".vue"@);
    endings_part(stem + ".vue"@, ".vue"@, ".component.ts"@, 0);
    endings_part(stem + ".vue"@, ".vue"@, ".module.ts"@, 0);
    endings_part(stem + ".vue"@, ".vue"@, ".tsx"@, 0);
    endings_part(stem + ".vue"@, ".vue"@, ".svelte"@, 1);
    stem_and_ending_are_a_name(dir, stem, ".module.ts"@);
    endings_part(stem + ".module.ts"@, ".module.ts"@, ".component.ts"@, 3);
    stem_and_ending_are_a_name(dir, stem, ".html"@);
    endings_part(stem + ".html"@, ".html"@, ".component.ts"@, 0);
    endings_part(stem + ".html"@, ".html"@, ".module.ts"@, 0);
    endings_part(stem + ".html"@, ".html"@, ".tsx"@, 0);
    endings_part(stem + ".html"@, ".html"@, ".svelte"@, 0);
    endings_part(stem + ".html"@, ".html"@, ".vue"@, 0);
}

/// A component file is one by its name, and is a component by its decorator: with
/// a module beside it, it belongs to the module, without one it stands alone. The
/// module is looked for beside it, under the name of the component.
pub proof fn components_are_told_by_name_and_decorator(
    dir: Seq<char>,
    stem: Seq<char>,
    source: Seq<char>,
)
    requires
        is_stem(stem),
    ensures
        is_component_name(path::join_of(dir, stem + ".component.ts"@)),
        text::has(source, "@Component"@) ==> kind_of(
            path::join_of(dir, stem + ".component.ts"@),
            Some(source),
            true,
        ) == ComponentKind::AngularModule,
        text::has(source, "@Component"@) ==> kind_of(
            path::join_of(dir, stem + ".component.ts"@),
            Some(source),
            false,
        ) == ComponentKind::AngularStandalone,
        !text::has(source, "@Component"@) ==> kind_of(
            path::join_of(dir, stem + ".component.ts"@),
            Some(source),
            true,
        ) == ComponentKind::Other,
        path::is_whole(dir) ==> module_of(path::join_of(dir, stem + ".component.ts"@)) == Some(
            path::join_of(dir, stem + ".module.ts"@),
        ),
{
    reveal_strlit(".component.ts");
    reveal_strlit(".module.ts");
    let name = stem + ".component.ts"@;
    stem_and_ending_are_a_name(dir, stem, ".component.ts"@);
    assert(name.take(name.len() - ".component.ts"@.len()) =~= stem);
    if path::is_whole(dir) {
        path::renamed_entry(dir, name, stem + ".module.ts"@);
    }
}

} // verus!
