//! Bridging the TypeScript configuration of a workspace into the host: path
//! aliases, type-checking options and ambient declarations.

use crate::json;
use crate::json::{Json, JsonView};
use crate::path;
use crate::text;
use vstd::prelude::*;

verus! {

pub type Members = Seq<(Seq<char>, JsonView)>;

// ---------------------------------------------------------------------------
// The chain of configurations
// ---------------------------------------------------------------------------

/// How many configurations of a chain are read.
pub const MAX_CHAIN: usize = 6;

/// The file that a configuration extends, seen from its own directory.
pub open spec fn extended_file(from: Seq<char>, ext: Seq<char>) -> Seq<char> {
    path::as_json_file(path::join_of(path::dir_of(from), ext))
}

/// The file that a configuration extends, as part of a package next to it.
pub open spec fn extended_package(from: Seq<char>, ext: Seq<char>) -> Seq<char> {
    path::as_json_file(
        path::join_of(path::join_of(path::dir_of(from), "node_modules"@), ext),
    )
}

/// What a configuration extends.
pub open spec fn extends_of(value: JsonView) -> Option<Seq<char>> {
    json::as_text(json::field(value, "extends"@))
}

/// What a configuration extends: the file that is tried first, and the one that
/// is tried if there is no such file.
pub fn extends_targets(from: &str, value: &Json) -> (r: Option<(String, String)>)
    ensures
        match r {
            Some((file, package)) => extends_of(value@) matches Some(ext) && file@ == extended_file(
                from@,
                ext,
            ) && package@ == extended_package(from@, ext),
            None => extends_of(value@) is None,
        },
{
    match value.get("extends") {
        Some(v) => match v {
            Json::Text(ext) => {
                let dir: String = path::directory(from);
                let file: String = path::join(dir.as_str(), ext.as_str());
                let packages: String = path::join(dir.as_str(), "node_modules");
                let package: String = path::join(packages.as_str(), ext.as_str());
                Some((path::json_file(file.as_str()), path::json_file(package.as_str())))
            },
            _ => None,
        },
        None => None,
    }
}

/// The configuration to read next, `file_exists` telling whether the file that
/// is tried first is there: none once so many have been read.
pub fn next_config(chain_len: usize, from: &str, value: &Json, file_exists: bool) -> (r: Option<
    String,
>)
    ensures
        text::opt(r) == (match extends_of(value@) {
            Some(ext) => if chain_len >= MAX_CHAIN {
                None
            } else if file_exists {
                Some(extended_file(from@, ext))
            } else {
                Some(extended_package(from@, ext))
            },
            None => None,
        }),
        chain_len >= 6 ==> r is None,
        chain_len < 6 && extends_of(value@) is Some ==> r is Some,
{
    match extends_targets(from, value) {
        Some((file, package)) => {
            if chain_len >= MAX_CHAIN {
                None
            } else if file_exists {
                Some(file)
            } else {
                Some(package)
            }
        },
        None => None,
    }
}

/// A section whose members are merged one by one.
pub open spec fn merges(key: Seq<char>) -> bool {
    key == "compilerOptions"@ || key == "angularCompilerOptions"@
}

/// The members of `base` with those of `child` over them.
pub open spec fn overlaid(base: Members, child: Members) -> Members
    decreases child.len(),
{
    if child.len() == 0 {
        base
    } else {
        json::inserted(overlaid(base, child.drop_last()), child.last().0, child.last().1)
    }
}

/// The configuration so far with one member of the child over it.
pub open spec fn with_child_member(out: Members, key: Seq<char>, value: JsonView) -> Members {
    match (value, json::member(out, key)) {
        (JsonView::Object(c), Some(JsonView::Object(b))) => if merges(key) {
            json::inserted(out, key, JsonView::Object(overlaid(b, c)))
        } else {
            json::inserted(out, key, value)
        },
        _ => json::inserted(out, key, value),
    }
}

/// The configuration so far with the members of the child over it.
pub open spec fn with_child(out: Members, child: Members) -> Members
    decreases child.len(),
{
    if child.len() == 0 {
        out
    } else {
        with_child_member(
            with_child(out, child.drop_last()),
            child.last().0,
            child.last().1,
        )
    }
}

pub open spec fn members_or_none(j: JsonView) -> Members {
    match j {
        JsonView::Object(o) => o,
        _ => Seq::empty(),
    }
}

/// A configuration that extends `base`: what it says itself counts, and options
/// are merged one by one.
pub open spec fn merge_of(child: JsonView, base: JsonView) -> JsonView {
    JsonView::Object(with_child(members_or_none(base), members_or_none(child)))
}

/// The configuration that the chain from its `i`-th link on makes.
pub open spec fn merged_from(values: Seq<JsonView>, i: int) -> JsonView
    decreases values.len() - i,
{
    if i < 0 || i >= values.len() - 1 {
        values[i]
    } else {
        merge_of(values[i], merged_from(values, i + 1))
    }
}

/// The values of a chain, child first.
pub open spec fn chain_values(chain: Seq<(String, Json)>) -> Seq<JsonView> {
    Seq::new(chain.len(), |i: int| chain[i].1@)
}

fn overlay(base: &mut Vec<(String, Json)>, child: &Vec<(String, Json)>)
    ensures
        json::members(final(base)@) == overlaid(
            json::members(old(base)@),
            json::members(child@),
        ),
{
    let ghost start = json::members(base@);
    let ghost all = json::members(child@);
    let mut i: usize = 0;
    assert(all.take(0) =~= Seq::<(Seq<char>, JsonView)>::empty());
    while i < child.len()
        invariant
            i <= child.len(),
            all == json::members(child@),
            json::members(base@) == overlaid(start, all.take(i as int)),
        decreases child.len() - i,
    {
        proof {
            assert(all.take(i + 1).drop_last() =~= all.take(i as int));
            assert(all.take(i + 1).last() == all[i as int]);
        }
        let key: String = child[i].0.clone();
        let value: Json = child[i].1.duplicate();
        json::put(base, key, value);
        i = i + 1;
    }
    assert(all.take(all.len() as int) =~= all);
}

fn is_merged_section(key: &str) -> (r: bool)
    ensures
        r == merges(key@),
{
    text::equal(key, "compilerOptions") || text::equal(key, "angularCompilerOptions")
}

fn put_child_member(out: &mut Vec<(String, Json)>, key: &str, value: &Json)
    ensures
        json::members(final(out)@) == with_child_member(
            json::members(old(out)@),
            key@,
            value@,
        ),
{
    let combined: Option<Json> = match value {
        Json::Object(c) => {
            proof {
                json::object_view(*c);
            }
            match json::lookup(out.as_slice(), key) {
                Some(b) => match b {
                    Json::Object(b) => {
                        proof {
                            json::object_view(*b);
                        }
                        if is_merged_section(key) {
                            let mut both: Vec<(String, Json)> = json::duplicate_members(b);
                            overlay(&mut both, c);
                            proof {
                                json::object_view(both);
                            }
                            Some(Json::Object(both))
                        } else {
                            None
                        }
                    },
                    _ => None,
                },
                None => None,
            }
        },
        _ => None,
    };
    match combined {
        Some(j) => json::put(out, key.to_string(), j),
        None => json::put(out, key.to_string(), value.duplicate()),
    }
}

/// A configuration that extends `base`.
pub fn merge_tsconfig(child: &Json, base: Json) -> (r: Json)
    ensures
        r@ == merge_of(child@, base@),
{
    let mut out: Vec<(String, Json)> = match base {
        Json::Object(o) => {
            proof {
                json::object_view(o);
            }
            o
        },
        _ => {
            let o: Vec<(String, Json)> = Vec::new();
            assert(json::members(o@) =~= Seq::<(Seq<char>, JsonView)>::empty());
            o
        },
    };
    let ghost start = json::members(out@);
    match child {
        Json::Object(c) => {
            proof {
                json::object_view(*c);
            }
            let ghost all = json::members(c@);
            let mut i: usize = 0;
            assert(all.take(0) =~= Seq::<(Seq<char>, JsonView)>::empty());
            while i < c.len()
                invariant
                    i <= c.len(),
                    all == json::members(c@),
                    json::members(out@) == with_child(start, all.take(i as int)),
                decreases c.len() - i,
            {
                proof {
                    assert(all.take(i + 1).drop_last() =~= all.take(i as int));
                    assert(all.take(i + 1).last() == all[i as int]);
                }
                put_child_member(&mut out, c[i].0.as_str(), &c[i].1);
                i = i + 1;
            }
            assert(all.take(all.len() as int) =~= all);
        },
        _ => {},
    }
    proof {
        json::object_view(out);
    }
    Json::Object(out)
}

/// The configuration that a chain makes, child first.
pub fn load_tsconfig_merged(chain: &Vec<(String, Json)>) -> (r: Option<Json>)
    ensures
        match r {
            Some(j) => chain@.len() > 0 && j@ == merged_from(chain_values(chain@), 0),
            None => chain@.len() == 0,
        },
{
    if chain.len() == 0 {
        return None;
    }
    let ghost values = chain_values(chain@);
    let mut i: usize = chain.len() - 1;
    let mut acc: Json = chain[i].1.duplicate();
    while i > 0
        invariant
            i < chain.len(),
            values == chain_values(chain@),
            acc@ == merged_from(values, i as int),
        decreases i,
    {
        i = i - 1;
        acc = merge_tsconfig(&chain[i].1, acc);
    }
    Some(acc)
}

/// What the child says counts: a member that it has, and that is not merged,
/// is what it says.
pub proof fn child_wins(out: Members, child: Members, key: Seq<char>)
    requires
        json::keys_differ(child),
        json::member(child, key) is Some,
        !merges(key),
    ensures
        json::member(with_child(out, child), key) == json::member(child, key),
    decreases child.len(),
{
    let head = child.drop_last();
    let m = child.last();
    json::member_from_is_least(child, key, 0);
    let i = json::member_from(child, key, 0)->0;
    json::insert_then_read(with_child(out, head), m.0, m.1, key);
    if i < child.len() - 1 {
        assert forall|a: int, b: int| 0 <= a < b < head.len() implies (#[trigger] head[a]).0 != (
        #[trigger] head[b]).0 by {
            assert(head[a] == child[a] && head[b] == child[b]);
        }
        assert(head[i] == child[i]);
        assert forall|j: int| 0 <= j < i implies head[j].0 != key by {
            assert(head[j] == child[j]);
        }
        json::member_from_found(head, key, 0, i);
        child_wins(out, head, key);
        assert(child[i].0 != child[child.len() - 1].0);
        with_child_member_keeps_others(with_child(out, head), m.0, m.1, key);
    }
}

proof fn with_child_member_keeps_others(
    out: Members,
    key: Seq<char>,
    value: JsonView,
    other: Seq<char>,
)
    requires
        other != key,
    ensures
        json::member(with_child_member(out, key, value), other) == json::member(out, other),
{
    json::insert_then_read(out, key, value, other);
    if let (JsonView::Object(c), Some(JsonView::Object(b))) = (value, json::member(out, key)) {
        json::insert_then_read(out, key, JsonView::Object(overlaid(b, c)), other);
    }
}

/// What the child does not mention is inherited.
pub proof fn base_is_inherited(out: Members, child: Members, key: Seq<char>)
    requires
        json::member(child, key) is None,
    ensures
        json::member(with_child(out, child), key) == json::member(out, key),
    decreases child.len(),
{
    if child.len() > 0 {
        let head = child.drop_last();
        json::member_from_is_least(child, key, 0);
        json::member_from_is_least(head, key, 0);
        if let Some(i) = json::member_from(head, key, 0) {
            assert(child[i] == head[i]);
        }
        base_is_inherited(out, head, key);
        assert(child[child.len() - 1].0 != key);
        with_child_member_keeps_others(
            with_child(out, head),
            child.last().0,
            child.last().1,
            key,
        );
    }
}

// ---------------------------------------------------------------------------
// Path aliases
// ---------------------------------------------------------------------------

/// A key that belongs to the framework: the host has its own.
pub open spec fn is_framework_key(key: Seq<char>) -> bool {
    text::starts(key, "@angular"@) || key == "rxjs"@ || key == "tslib"@ || key == "zone.js"@
}

/// The place in the host of a file under the root.
pub open spec fn in_host(rel: Seq<char>) -> Seq<char> {
    "./external/"@ + text::replaced(rel, '\\', '/')
}

/// The target of an alias in the host: targets are seen from the base directory,
/// and that from the directory of the configuration.
pub open spec fn target_of(
    root: Seq<char>,
    config_dir: Seq<char>,
    base_url: Seq<char>,
    v: Seq<char>,
) -> Seq<char> {
    let base = if base_url == "."@ {
        Seq::empty()
    } else {
        base_url
    };
    let full = if path::absolute(base) {
        path::join_of(base, v)
    } else {
        path::join_of(path::join_of(config_dir, base), v)
    };
    match path::relative_to(full, root) {
        Some(rel) => in_host(rel),
        None => in_host(v),
    }
}

/// The targets in the host of the texts among the values.
pub open spec fn targets_of(
    root: Seq<char>,
    config_dir: Seq<char>,
    base_url: Seq<char>,
    values: Seq<JsonView>,
) -> Seq<Seq<char>>
    decreases values.len(),
{
    if values.len() == 0 {
        Seq::empty()
    } else {
        let earlier = targets_of(root, config_dir, base_url, values.drop_last());
        match values.last() {
            JsonView::Text(v) => earlier.push(target_of(root, config_dir, base_url, v)),
            _ => earlier,
        }
    }
}

/// The aliases in the host, by those of the workspace.
pub open spec fn aliases_of(
    root: Seq<char>,
    config_dir: Seq<char>,
    base_url: Seq<char>,
    paths: Members,
) -> Members
    decreases paths.len(),
{
    if paths.len() == 0 {
        Seq::empty()
    } else {
        let earlier = aliases_of(root, config_dir, base_url, paths.drop_last());
        let m = paths.last();
        match m.1 {
            JsonView::Array(values) => {
                let targets = targets_of(root, config_dir, base_url, values);
                if is_framework_key(m.0) || targets.len() == 0 {
                    earlier
                } else {
                    json::inserted(earlier, m.0, json::text_array(targets))
                }
            },
            _ => earlier,
        }
    }
}

/// How many aliases belong to the framework.
pub open spec fn framework_keys(paths: Members) -> nat
    decreases paths.len(),
{
    if paths.len() == 0 {
        0
    } else {
        framework_keys(paths.drop_last()) + (if is_framework_key(paths.last().0) {
            1nat
        } else {
            0
        })
    }
}

fn framework_key(key: &str) -> (r: bool)
    ensures
        r == is_framework_key(key@),
{
    let chars: Vec<char> = text::chars_of(key);
    text::starts_with(chars.as_slice(), "@angular") || text::equal(key, "rxjs") || text::equal(
        key,
        "tslib",
    ) || text::equal(key, "zone.js")
}

/// The place in the host of a file under the root.
pub fn host_place(rel: &str) -> (r: String)
    ensures
        r@ == in_host(rel@),
{
    let chars: Vec<char> = text::chars_of(rel);
    let rel: Vec<char> = text::replace(chars.as_slice(), '\\', '/');
    let rel: String = text::text_of(rel.as_slice());
    text::cat("./external/", rel.as_str())
}

fn map_target(root: &str, config_dir: &str, base_url: &str, v: &str) -> (r: String)
    ensures
        r@ == target_of(root@, config_dir@, base_url@, v@),
{
    let base: String = if text::equal(base_url, ".") {
        String::new()
    } else {
        base_url.to_string()
    };
    assert(base_url@ == "."@ ==> base@ =~= Seq::<char>::empty());
    let full: String = if path::is_absolute(base.as_str()) {
        path::join(base.as_str(), v)
    } else {
        let dir: String = path::join(config_dir, base.as_str());
        path::join(dir.as_str(), v)
    };
    match path::strip_prefix(full.as_str(), root) {
        Some(rel) => host_place(rel.as_str()),
        None => host_place(v),
    }
}

fn map_targets(root: &str, config_dir: &str, base_url: &str, values: &Vec<Json>) -> (r: Vec<
    String,
>)
    ensures
        text::texts(r@) == targets_of(root@, config_dir@, base_url@, json::items(values@)),
{
    let ghost all = json::items(values@);
    let mut out: Vec<String> = Vec::new();
    let mut i: usize = 0;
    assert(all.take(0) =~= Seq::<JsonView>::empty());
    assert(text::texts(out@) =~= Seq::<Seq<char>>::empty());
    while i < values.len()
        invariant
            i <= values.len(),
            all == json::items(values@),
            text::texts(out@) == targets_of(root@, config_dir@, base_url@, all.take(i as int)),
        decreases values.len() - i,
    {
        proof {
            assert(all.take(i + 1).drop_last() =~= all.take(i as int));
            assert(all.take(i + 1).last() == values@[i as int]@);
        }
        match &values[i] {
            Json::Text(v) => {
                let ghost before = text::texts(out@);
                let target: String = map_target(root, config_dir, base_url, v.as_str());
                let ghost new = target@;
                out.push(target);
                assert(text::texts(out@) =~= before.push(new));
            },
            _ => {},
        }
        i = i + 1;
    }
    assert(all.take(all.len() as int) =~= all);
    out
}

fn map_aliases(root: &str, config_dir: &str, base_url: &str, paths: &Vec<(String, Json)>) -> (r: (
    Vec<(String, Json)>,
    u64,
))
    requires
        paths.len() <= u64::MAX,
    ensures
        json::members(r.0@) == aliases_of(
            root@,
            config_dir@,
            base_url@,
            json::members(paths@),
        ),
        r.1 == framework_keys(json::members(paths@)),
{
    let ghost all = json::members(paths@);
    let mut out: Vec<(String, Json)> = Vec::new();
    let mut skipped: u64 = 0;
    let mut i: usize = 0;
    assert(all.take(0) =~= Seq::<(Seq<char>, JsonView)>::empty());
    assert(json::members(out@) =~= Seq::<(Seq<char>, JsonView)>::empty());
    while i < paths.len()
        invariant
            i <= paths.len() <= u64::MAX,
            all == json::members(paths@),
            json::members(out@) == aliases_of(
                root@,
                config_dir@,
                base_url@,
                all.take(i as int),
            ),
            skipped == framework_keys(all.take(i as int)),
            skipped <= i,
        decreases paths.len() - i,
    {
        proof {
            assert(all.take(i + 1).drop_last() =~= all.take(i as int));
            assert(all.take(i + 1).last() == all[i as int]);
        }
        if framework_key(paths[i].0.as_str()) {
            skipped = skipped + 1;
        } else {
            match &paths[i].1 {
                Json::Array(values) => {
                    proof {
                        json::array_view(*values);
                    }
                    let targets: Vec<String> = map_targets(root, config_dir, base_url, values);
                    assert(text::texts(targets@).len() == targets@.len());
                    if targets.len() > 0 {
                        let key: String = paths[i].0.clone();
                        json::put(&mut out, key, json::array_of_texts(&targets));
                    }
                },
                _ => {},
            }
        }
        i = i + 1;
    }
    assert(all.take(all.len() as int) =~= all);
    (out, skipped)
}

/// No alias of the framework is bridged.
pub proof fn framework_is_filtered(
    root: Seq<char>,
    config_dir: Seq<char>,
    base_url: Seq<char>,
    paths: Members,
    key: Seq<char>,
)
    requires
        is_framework_key(key),
    ensures
        json::member(aliases_of(root, config_dir, base_url, paths), key) is None,
    decreases paths.len(),
{
    if paths.len() > 0 {
        framework_is_filtered(root, config_dir, base_url, paths.drop_last(), key);
        let earlier = aliases_of(root, config_dir, base_url, paths.drop_last());
        let m = paths.last();
        if let JsonView::Array(values) = m.1 {
            json::insert_then_read(
                earlier,
                m.0,
                json::text_array(targets_of(root, config_dir, base_url, values)),
                key,
            );
        }
    }
}

// ---------------------------------------------------------------------------
// Options
// ---------------------------------------------------------------------------

/// The options that decide how strictly types are checked.
pub open spec fn bridged_options() -> Seq<Seq<char>> {
    seq![
        "strict"@,
        "noImplicitAny"@,
        "strictNullChecks"@,
        "strictFunctionTypes"@,
        "strictBindCallApply"@,
        "strictPropertyInitialization"@,
        "noImplicitThis"@,
        "useUnknownInCatchVariables"@,
        "alwaysStrict"@,
        "exactOptionalPropertyTypes"@,
        "noImplicitReturns"@,
        "noFallthroughCasesInSwitch"@,
        "noImplicitOverride"@,
        "experimentalDecorators"@,
        "emitDecoratorMetadata"@,
        "useDefineForClassFields"@,
        "target"@,
        "lib"@,
        "esModuleInterop"@,
        "allowSyntheticDefaultImports"@,
        "resolveJsonModule"@,
        "skipLibCheck"@,
        "isolatedModules"@,
    ]
}

fn option_names() -> (r: Vec<String>)
    ensures
        text::texts(r@) == bridged_options(),
{
    let mut v: Vec<String> = Vec::new();
    v.push("strict".to_string());
    v.push("noImplicitAny".to_string());
    v.push("strictNullChecks".to_string());
    v.push("strictFunctionTypes".to_string());
    v.push("strictBindCallApply".to_string());
    v.push("strictPropertyInitialization".to_string());
    v.push("noImplicitThis".to_string());
    v.push("useUnknownInCatchVariables".to_string());
    v.push("alwaysStrict".to_string());
    v.push("exactOptionalPropertyTypes".to_string());
    v.push("noImplicitReturns".to_string());
    v.push("noFallthroughCasesInSwitch".to_string());
    v.push("noImplicitOverride".to_string());
    v.push("experimentalDecorators".to_string());
    v.push("emitDecoratorMetadata".to_string());
    v.push("useDefineForClassFields".to_string());
    v.push("target".to_string());
    v.push("lib".to_string());
    v.push("esModuleInterop".to_string());
    v.push("allowSyntheticDefaultImports".to_string());
    v.push("resolveJsonModule".to_string());
    v.push("skipLibCheck".to_string());
    v.push("isolatedModules".to_string());
    assert(text::texts(v@) =~= bridged_options());
    v
}

/// A compiler option of a configuration.
pub open spec fn option_of(config: JsonView, name: Seq<char>) -> Option<JsonView> {
    match json::field(config, "compilerOptions"@) {
        Some(o) => json::field(o, name),
        None => None,
    }
}

/// A configuration to which compiler options can be added.
pub open spec fn takes_options(config: JsonView) -> bool {
    json::extensible(config) && json::extensible(
        json::member_or_null(config, "compilerOptions"@),
    )
}

/// The configuration once a compiler option is set.
pub open spec fn with_option(config: JsonView, name: Seq<char>, value: JsonView) -> JsonView {
    json::with_member(
        config,
        "compilerOptions"@,
        json::with_member(json::member_or_null(config, "compilerOptions"@), name, value),
    )
}

/// The options among the names from the `i`-th on that a configuration sets.
pub open spec fn options_from(merged: JsonView, names: Seq<Seq<char>>, i: int) -> Seq<Seq<char>>
    decreases names.len() - i,
{
    if i < 0 || i >= names.len() {
        Seq::empty()
    } else if option_of(merged, names[i]) is Some {
        seq![names[i]] + options_from(merged, names, i + 1)
    } else {
        options_from(merged, names, i + 1)
    }
}

/// The configuration once the options of the names are set as `merged` sets
/// them.
pub open spec fn with_options(config: JsonView, merged: JsonView, names: Seq<Seq<char>>) -> JsonView
    decreases names.len(),
{
    if names.len() == 0 {
        config
    } else {
        let earlier = with_options(config, merged, names.drop_last());
        match option_of(merged, names.last()) {
            Some(v) => with_option(earlier, names.last(), v),
            None => earlier,
        }
    }
}

proof fn option_keeps_taking(config: JsonView, name: Seq<char>, value: JsonView)
    requires
        takes_options(config),
    ensures
        takes_options(with_option(config, name, value)),
        with_option(config, name, value) is Object,
{
    let inner = json::with_member(json::member_or_null(config, "compilerOptions"@), name, value);
    match config {
        JsonView::Object(o) => {
            json::insert_then_read(o, "compilerOptions"@, inner, "compilerOptions"@);
        },
        _ => {
            let o = Seq::<(Seq<char>, JsonView)>::empty();
            json::insert_then_read(o, "compilerOptions"@, inner, "compilerOptions"@);
            assert(json::inserted(o, "compilerOptions"@, inner) =~= seq![
                ("compilerOptions"@, inner),
            ]);
        },
    }
}

/// A compiler option that was set is read back, and so is every other one as it
/// was.
pub proof fn option_is_read_back(
    config: JsonView,
    name: Seq<char>,
    value: JsonView,
    other: Seq<char>,
)
    requires
        takes_options(config),
    ensures
        option_of(with_option(config, name, value), name) == Some(value),
        other != name ==> option_of(with_option(config, name, value), other) == option_of(
            config,
            other,
        ),
{
    let inner0 = json::member_or_null(config, "compilerOptions"@);
    let inner = json::with_member(inner0, name, value);
    let none = Seq::<(Seq<char>, JsonView)>::empty();
    match inner0 {
        JsonView::Object(o) => {
            json::insert_then_read(o, name, value, other);
        },
        _ => {
            json::insert_then_read(none, name, value, other);
            assert(json::inserted(none, name, value) =~= seq![(name, value)]);
        },
    }
    match config {
        JsonView::Object(o) => {
            json::insert_then_read(o, "compilerOptions"@, inner, "compilerOptions"@);
        },
        _ => {
            json::insert_then_read(none, "compilerOptions"@, inner, "compilerOptions"@);
            assert(json::inserted(none, "compilerOptions"@, inner) =~= seq![
                ("compilerOptions"@, inner),
            ]);
        },
    }
}

fn get_option<'a>(config: &'a Json, name: &str) -> (r: Option<&'a Json>)
    ensures
        match r {
            Some(v) => option_of(config@, name@) == Some(v@),
            None => option_of(config@, name@) is None,
        },
{
    match config.get("compilerOptions") {
        Some(o) => o.get(name),
        None => None,
    }
}

fn set_option(config: Json, name: &str, value: Json) -> (r: Json)
    requires
        takes_options(config@),
    ensures
        r@ == with_option(config@, name@, value@),
        takes_options(r@),
        r@ is Object,
{
    proof {
        option_keeps_taking(config@, name@, value@);
    }
    let inner: Json = match config.get("compilerOptions") {
        Some(o) => o.duplicate(),
        None => Json::Null,
    };
    let inner: Json = json::set_member(inner, name, value);
    json::set_member(config, "compilerOptions", inner)
}

proof fn options_are_listed(merged: JsonView, names: Seq<Seq<char>>, i: int)
    requires
        0 <= i < names.len(),
        option_of(merged, names[i]) is Some,
    ensures
        options_from(merged, names, 0).len() > 0,
{
    options_are_listed_from(merged, names, 0, i);
}

proof fn options_are_listed_from(merged: JsonView, names: Seq<Seq<char>>, from: int, i: int)
    requires
        0 <= from <= i < names.len(),
        option_of(merged, names[i]) is Some,
    ensures
        options_from(merged, names, from).len() > 0,
    decreases i - from,
{
    if from < i {
        options_are_listed_from(merged, names, from + 1, i);
    }
}

// ---------------------------------------------------------------------------
// Ambient declarations
// ---------------------------------------------------------------------------

/// A file that declares or patches globals, and that nothing imports.
pub open spec fn declares_globals(raw: Seq<char>) -> bool {
    text::ends(raw, ".d.ts"@) || text::ends(raw, "prototypes.ts"@)
}

/// An entry of a configuration as a path under the root; nothing where it lies
/// outside.
pub open spec fn entry_under_root(
    root: Seq<char>,
    config: Seq<char>,
    raw: Seq<char>,
) -> Option<Seq<char>> {
    let joined = text::without_prefix(
        text::replaced(path::join_of(path::dir_of(config), raw), '\\', '/'),
        "./"@,
    );
    let prefix = text::replaced(root, '\\', '/') + "/"@;
    if text::starts(joined, prefix) {
        Some(joined.skip(prefix.len() as int))
    } else {
        None
    }
}

/// The declarations so far with an entry of a configuration added: a pattern as
/// it is, a file where it is present.
pub open spec fn with_entry(
    out: Seq<Seq<char>>,
    root: Seq<char>,
    config: Seq<char>,
    entry: JsonView,
    present: Seq<Seq<char>>,
) -> Seq<Seq<char>> {
    match entry {
        JsonView::Text(raw) => match entry_under_root(root, config, raw) {
            Some(rel) => if declares_globals(raw) && !out.contains("external/"@ + rel) && (
            raw.contains('*') || present.contains(path::join_of(root, rel))) {
                out.push("external/"@ + rel)
            } else {
                out
            },
            None => out,
        },
        _ => out,
    }
}

pub open spec fn with_entries(
    out: Seq<Seq<char>>,
    root: Seq<char>,
    config: Seq<char>,
    entries: Seq<JsonView>,
    present: Seq<Seq<char>>,
) -> Seq<Seq<char>>
    decreases entries.len(),
{
    if entries.len() == 0 {
        out
    } else {
        with_entry(
            with_entries(out, root, config, entries.drop_last(), present),
            root,
            config,
            entries.last(),
            present,
        )
    }
}

/// The entries of a list of a configuration.
pub open spec fn entries_of(value: JsonView, key: Seq<char>) -> Seq<JsonView> {
    match json::field(value, key) {
        Some(JsonView::Array(a)) => a,
        _ => Seq::empty(),
    }
}

/// The declarations that one configuration lists.
pub open spec fn with_config(
    out: Seq<Seq<char>>,
    root: Seq<char>,
    config: Seq<char>,
    value: JsonView,
    present: Seq<Seq<char>>,
) -> Seq<Seq<char>> {
    with_entries(
        with_entries(out, root, config, entries_of(value, "files"@), present),
        root,
        config,
        entries_of(value, "include"@),
        present,
    )
}

/// The declarations that the first `n` configurations of a chain list.
pub open spec fn declared_by(
    root: Seq<char>,
    files: Seq<Seq<char>>,
    values: Seq<JsonView>,
    present: Seq<Seq<char>>,
    n: int,
) -> Seq<Seq<char>>
    decreases n,
{
    if n <= 0 {
        Seq::empty()
    } else {
        with_config(
            declared_by(root, files, values, present, n - 1),
            root,
            files[n - 1],
            values[n - 1],
            present,
        )
    }
}

pub open spec fn chain_files(chain: Seq<(String, Json)>) -> Seq<Seq<char>> {
    Seq::new(chain.len(), |i: int| chain[i].0@)
}

fn locate_entry(root: &str, config: &str, raw: &str) -> (r: Option<String>)
    ensures
        text::opt(r) == entry_under_root(root@, config@, raw@),
{
    let dir: String = path::directory(config);
    let joined: String = path::join(dir.as_str(), raw);
    let joined: Vec<char> = text::chars_of(joined.as_str());
    let joined: Vec<char> = text::replace(joined.as_slice(), '\\', '/');
    let rest: &[char] = match text::strip_prefix(joined.as_slice(), "./") {
        Some(rest) => rest,
        None => joined.as_slice(),
    };
    let root_chars: Vec<char> = text::chars_of(root);
    let root_chars: Vec<char> = text::replace(root_chars.as_slice(), '\\', '/');
    let prefix: String = text::text_of(root_chars.as_slice());
    let prefix: String = text::cat(prefix.as_str(), "/");
    match text::strip_prefix(rest, prefix.as_str()) {
        Some(rel) => Some(text::text_of(rel)),
        None => None,
    }
}

/// The file that has to be looked for before an entry of a configuration is
/// taken, where one has.
pub fn entry_file(root: &str, config: &str, raw: &str) -> (r: Option<String>)
    ensures
        text::opt(r) == (match entry_under_root(root@, config@, raw@) {
            Some(rel) => if declares_globals(raw@) && !raw@.contains('*') {
                Some(path::join_of(root@, rel))
            } else {
                None
            },
            None => None,
        }),
{
    let chars: Vec<char> = text::chars_of(raw);
    let s: &[char] = chars.as_slice();
    let wanted: bool = (text::ends_with(s, ".d.ts") || text::ends_with(s, "prototypes.ts"))
        && !text::contains_char(s, '*');
    match locate_entry(root, config, raw) {
        Some(rel) => if wanted {
            Some(path::join(root, rel.as_str()))
        } else {
            None
        },
        None => None,
    }
}

fn push_entry(
    out: &mut Vec<String>,
    root: &str,
    config: &str,
    entry: &Json,
    present: &Vec<String>,
)
    ensures
        text::texts(final(out)@) == with_entry(
            text::texts(old(out)@),
            root@,
            config@,
            entry@,
            text::texts(present@),
        ),
{
    match entry {
        Json::Text(raw) => {
            let chars: Vec<char> = text::chars_of(raw.as_str());
            let s: &[char] = chars.as_slice();
            match locate_entry(root, config, raw.as_str()) {
                Some(rel) => {
                    let mapped: String = text::cat("external/", rel.as_str());
                    if (text::ends_with(s, ".d.ts") || text::ends_with(s, "prototypes.ts"))
                        && !text::among(out, mapped.as_str()) {
                        let file: String = path::join(root, rel.as_str());
                        if text::contains_char(s, '*') || text::among(present, file.as_str()) {
                            let ghost before = text::texts(out@);
                            let ghost new = mapped@;
                            out.push(mapped);
                            assert(text::texts(out@) =~= before.push(new));
                        }
                    }
                },
                None => {},
            }
        },
        _ => {},
    }
}

fn push_entries(
    out: &mut Vec<String>,
    root: &str,
    config: &str,
    value: &Json,
    key: &str,
    present: &Vec<String>,
)
    ensures
        text::texts(final(out)@) == with_entries(
            text::texts(old(out)@),
            root@,
            config@,
            entries_of(value@, key@),
            text::texts(present@),
        ),
{
    let ghost start = text::texts(out@);
    let ghost files = text::texts(present@);
    match value.get(key) {
        Some(v) => match v {
            Json::Array(a) => {
                proof {
                    json::array_view(*a);
                }
                let ghost all = json::items(a@);
                let mut i: usize = 0;
                assert(all.take(0) =~= Seq::<JsonView>::empty());
                while i < a.len()
                    invariant
                        i <= a.len(),
                        all == json::items(a@),
                        files == text::texts(present@),
                        text::texts(out@) == with_entries(
                            start,
                            root@,
                            config@,
                            all.take(i as int),
                            files,
                        ),
                    decreases a.len() - i,
                {
                    proof {
                        assert(all.take(i + 1).drop_last() =~= all.take(i as int));
                        assert(all.take(i + 1).last() == a@[i as int]@);
                    }
                    push_entry(out, root, config, &a[i], present);
                    i = i + 1;
                }
                assert(all.take(all.len() as int) =~= all);
            },
            _ => {},
        },
        None => {},
    }
}

/// The ambient declarations that the configurations of a chain list, as files of
/// the host: patterns are kept, files are taken where they are present.
pub fn declarations_from_configs(
    root: &str,
    chain: &Vec<(String, Json)>,
    present: &Vec<String>,
) -> (r: Vec<String>)
    ensures
        text::texts(r@) == declared_by(
            root@,
            chain_files(chain@),
            chain_values(chain@),
            text::texts(present@),
            chain@.len() as int,
        ),
{
    let ghost names = chain_files(chain@);
    let ghost values = chain_values(chain@);
    let ghost files = text::texts(present@);
    let mut out: Vec<String> = Vec::new();
    let mut i: usize = 0;
    assert(text::texts(out@) =~= Seq::<Seq<char>>::empty());
    while i < chain.len()
        invariant
            i <= chain.len(),
            names == chain_files(chain@),
            values == chain_values(chain@),
            files == text::texts(present@),
            text::texts(out@) == declared_by(root@, names, values, files, i as int),
        decreases chain.len() - i,
    {
        let config: &str = chain[i].0.as_str();
        push_entries(&mut out, root, config, &chain[i].1, "files", present);
        push_entries(&mut out, root, config, &chain[i].1, "include", present);
        i = i + 1;
    }
    out
}

/// How many ambient declarations are taken from the tree of the project.
pub const MAX_DECLARATIONS: usize = 120;

/// A directory that is not searched for declarations and globals.
pub open spec fn is_build_dir(name: Seq<char>) -> bool {
    name == "node_modules"@ || name == "dist"@ || name == ".git"@ || name == ".angular"@
}

/// Whether something of this name is searched for declarations and globals.
pub fn walks_into(name: &str) -> (r: bool)
    ensures
        r == !is_build_dir(name@),
{
    !(text::equal(name, "node_modules") || text::equal(name, "dist") || text::equal(name, ".git")
        || text::equal(name, ".angular"))
}

/// The place of a file under the root; empty where it is not under it.
pub open spec fn rel_or_empty(root: Seq<char>, file: Seq<char>) -> Seq<char> {
    match path::relative_to(file, root) {
        Some(rel) => rel,
        None => Seq::empty(),
    }
}

/// A file that declares globals, by its name.
pub open spec fn is_ambient(file: Seq<char>) -> bool {
    path::name_of(file) matches Some(name) && (text::ends(name, ".d.ts"@) || name
        == "prototypes.ts"@)
}

/// The declarations among the files that were found in the tree of the project.
pub open spec fn globbed(root: Seq<char>, walked: Seq<Seq<char>>) -> Seq<Seq<char>>
    decreases walked.len(),
{
    if walked.len() == 0 {
        Seq::empty()
    } else {
        let earlier = globbed(root, walked.drop_last());
        let file = walked.last();
        let place = in_host(rel_or_empty(root, file));
        if is_ambient(file) && earlier.len() < MAX_DECLARATIONS && !earlier.contains(place) {
            earlier.push(place)
        } else {
            earlier
        }
    }
}

/// The place of a file under the root; empty where it is not under it.
pub fn relative_or_empty(root: &str, file: &str) -> (r: String)
    ensures
        r@ == rel_or_empty(root@, file@),
{
    match path::strip_prefix(file, root) {
        Some(rel) => rel,
        None => {
            let none: String = String::new();
            assert(none@ =~= Seq::<char>::empty());
            none
        },
    }
}

/// The ambient declarations in the tree of the project, `walked` being what was
/// found in it.
pub fn glob_ambient_declarations(root: &str, walked: &Vec<String>) -> (r: Vec<String>)
    ensures
        text::texts(r@) == globbed(root@, text::texts(walked@)),
{
    let ghost all = text::texts(walked@);
    let mut out: Vec<String> = Vec::new();
    let mut i: usize = 0;
    assert(all.take(0) =~= Seq::<Seq<char>>::empty());
    assert(text::texts(out@) =~= Seq::<Seq<char>>::empty());
    while i < walked.len()
        invariant
            i <= walked.len(),
            all == text::texts(walked@),
            text::texts(out@) == globbed(root@, all.take(i as int)),
        decreases walked.len() - i,
    {
        proof {
            assert(all.take(i + 1).drop_last() =~= all.take(i as int));
            assert(all.take(i + 1).last() == walked@[i as int]@);
            assert(text::texts(out@).len() == out@.len());
        }
        let ambient: bool = match path::file_name(walked[i].as_str()) {
            Some(name) => {
                let chars: Vec<char> = text::chars_of(name.as_str());
                text::ends_with(chars.as_slice(), ".d.ts") || text::equal(
                    name.as_str(),
                    "prototypes.ts",
                )
            },
            None => false,
        };
        if ambient && out.len() < MAX_DECLARATIONS {
            let rel: String = relative_or_empty(root, walked[i].as_str());
            let place: String = host_place(rel.as_str());
            if !text::among(&out, place.as_str()) {
                let ghost before = text::texts(out@);
                let ghost new = place@;
                out.push(place);
                assert(text::texts(out@) =~= before.push(new));
            }
        }
        i = i + 1;
    }
    assert(all.take(all.len() as int) =~= all);
    out
}

// ---------------------------------------------------------------------------
// The bridge
// ---------------------------------------------------------------------------

/// What the bridge needs to know of the workspace.
pub struct Workspace {
    /// The root of the project.
    pub root: String,
    /// The configuration that governs the component, and those it extends, child
    /// first, each with its file.
    pub chain: Vec<(String, Json)>,
    /// The files that the configurations list and that are present.
    pub present: Vec<String>,
    /// What was found in the tree of the project.
    pub walked: Vec<String>,
}

#[verifier::ext_equal]
pub struct WorkspaceView {
    pub root: Seq<char>,
    pub files: Seq<Seq<char>>,
    pub values: Seq<JsonView>,
    pub present: Seq<Seq<char>>,
    pub walked: Seq<Seq<char>>,
}

impl View for Workspace {
    type V = WorkspaceView;

    open spec fn view(&self) -> WorkspaceView {
        WorkspaceView {
            root: self.root@,
            files: chain_files(self.chain@),
            values: chain_values(self.chain@),
            present: text::texts(self.present@),
            walked: text::texts(self.walked@),
        }
    }
}

/// The configuration that governs the component, with what it extends.
pub open spec fn merged_of(w: WorkspaceView) -> JsonView {
    merged_from(w.values, 0)
}

/// The directory that targets of aliases are seen from.
pub open spec fn base_url_of(merged: JsonView) -> Seq<char> {
    match json::as_text(option_of(merged, "baseUrl"@)) {
        Some(b) => b,
        None => "."@,
    }
}

/// The aliases of the workspace.
pub open spec fn paths_of(merged: JsonView) -> Members {
    match option_of(merged, "paths"@) {
        Some(JsonView::Object(o)) => o,
        _ => Seq::empty(),
    }
}

/// The aliases in the host.
pub open spec fn bridged_aliases(w: WorkspaceView) -> Members {
    aliases_of(
        w.root,
        path::dir_of(w.files[0]),
        base_url_of(merged_of(w)),
        paths_of(merged_of(w)),
    )
}

/// The names of the options that are bridged.
pub open spec fn bridged_flags(w: WorkspaceView) -> Seq<Seq<char>> {
    options_from(merged_of(w), bridged_options(), 0)
}

/// The ambient declarations that the configurations list.
pub open spec fn listed_declarations(w: WorkspaceView) -> Seq<Seq<char>> {
    declared_by(w.root, w.files, w.values, w.present, w.values.len() as int)
}

/// The ambient declarations: those that the configurations list, or else those
/// in the tree.
pub open spec fn declarations_of(w: WorkspaceView) -> Seq<Seq<char>> {
    if listed_declarations(w).len() == 0 {
        globbed(w.root, w.walked)
    } else {
        listed_declarations(w)
    }
}

/// The configuration of the host with the aliases.
pub open spec fn with_aliases(host: JsonView, w: WorkspaceView) -> JsonView {
    if bridged_aliases(w).len() == 0 {
        host
    } else {
        with_option(host, "paths"@, JsonView::Object(bridged_aliases(w)))
    }
}

/// The configuration of the host with aliases, options and declarations.
pub open spec fn bridged(host: JsonView, w: WorkspaceView) -> JsonView {
    let checked = with_options(with_aliases(host, w), merged_of(w), bridged_options());
    if declarations_of(w).len() == 0 {
        checked
    } else {
        json::with_member(checked, "files"@, json::text_array(declarations_of(w)))
    }
}

/// Whether what is bridged can be written into the configuration of the host.
pub open spec fn can_bridge(host: JsonView, w: WorkspaceView) -> bool {
    &&& bridged_aliases(w).len() > 0 || bridged_flags(w).len() > 0 ==> takes_options(host)
    &&& declarations_of(w).len() > 0 ==> json::extensible(host)
}

/// What is logged of the aliases.
pub open spec fn aliases_line(w: WorkspaceView) -> Seq<char> {
    if bridged_aliases(w).len() == 0 {
        "[host] no bridgable tsconfig path mappings found"@
    } else {
        "[host] bridged "@ + text::decimal(bridged_aliases(w).len())
            + " tsconfig path mapping(s) from "@ + w.files[0] + " ("@ + text::decimal(
            framework_keys(paths_of(merged_of(w))),
        ) + " framework keys skipped)"@
    }
}

/// What is logged of the options.
pub open spec fn options_line(w: WorkspaceView) -> Seq<char> {
    "[host] bridged compiler options: "@ + (if bridged_flags(w).len() == 0 {
        "none found"@
    } else {
        text::joined(bridged_flags(w), ", "@)
    })
}

/// What is logged of the declarations.
pub open spec fn declarations_lines(w: WorkspaceView) -> Seq<Seq<char>> {
    let n = declarations_of(w).len();
    if n == 0 {
        seq![
            "[host] no ambient declaration files found (globals like prototype patches will not type-check)"@,
        ]
    } else {
        let included = "[host] included "@ + text::decimal(n) + " ambient declaration file(s)"@;
        if listed_declarations(w).len() == 0 {
            seq![
                "[host] tsconfig declares no d.ts entries — globbed "@ + text::decimal(n)
                    + " from the project"@,
                included,
            ]
        } else {
            seq![included]
        }
    }
}

/// What is logged of the bridge.
pub open spec fn bridge_lines(w: WorkspaceView) -> Seq<Seq<char>> {
    seq![aliases_line(w), options_line(w)] + declarations_lines(w)
}

fn bridge_aliases(host: Json, w: &Workspace, merged: &Json) -> (r: (Json, String))
    requires
        w.chain@.len() > 0,
        merged@ == merged_of(w@),
        bridged_aliases(w@).len() > 0 ==> takes_options(host@),
    ensures
        r.0@ == with_aliases(host@, w@),
        r.1@ == aliases_line(w@),
        takes_options(host@) ==> takes_options(r.0@),
        bridged_aliases(w@).len() > 0 ==> r.0@ is Object && takes_options(r.0@),
{
    let base_url: String = match get_option(merged, "baseUrl") {
        Some(v) => match v {
            Json::Text(b) => b.clone(),
            _ => ".".to_string(),
        },
        None => ".".to_string(),
    };
    let config: &str = w.chain[0].0.as_str();
    let config_dir: String = path::directory(config);
    let none: Vec<(String, Json)> = Vec::new();
    assert(json::members(none@) =~= Seq::<(Seq<char>, JsonView)>::empty());
    let paths: &Vec<(String, Json)> = match get_option(merged, "paths") {
        Some(v) => match v {
            Json::Object(o) => {
                proof {
                    json::object_view(*o);
                }
                o
            },
            _ => &none,
        },
        None => &none,
    };
    let (aliases, skipped): (Vec<(String, Json)>, u64) = map_aliases(
        w.root.as_str(),
        config_dir.as_str(),
        base_url.as_str(),
        paths,
    );
    assert(json::members(aliases@) == bridged_aliases(w@));
    assert(json::members(aliases@).len() == aliases@.len());
    if aliases.len() == 0 {
        return (host, "[host] no bridgable tsconfig path mappings found".to_string());
    }
    let count: String = text::number_text(aliases.len() as u64);
    let head: String = text::cat5(
        "[host] bridged ",
        count.as_str(),
        " tsconfig path mapping(s) from ",
        config,
        " (",
    );
    let line: String = text::cat3(
        head.as_str(),
        text::number_text(skipped).as_str(),
        " framework keys skipped)",
    );
    proof {
        json::object_view(aliases);
    }
    (set_option(host, "paths", Json::Object(aliases)), line)
}

fn bridge_options(host: Json, merged: &Json) -> (r: (Json, Vec<String>))
    requires
        options_from(merged@, bridged_options(), 0).len() > 0 ==> takes_options(host@),
    ensures
        r.0@ == with_options(host@, merged@, bridged_options()),
        text::texts(r.1@) == options_from(merged@, bridged_options(), 0),
        host@ is Object ==> r.0@ is Object,
        r.1@.len() > 0 ==> r.0@ is Object,
        r.1@.len() == 0 ==> r.0@ == host@,
{
    let names: Vec<String> = option_names();
    let ghost all = bridged_options();
    let ghost start = host@;
    let mut host: Json = host;
    let mut found: Vec<String> = Vec::new();
    let mut i: usize = 0;
    assert(all.take(0) =~= Seq::<Seq<char>>::empty());
    assert(text::texts(found@) =~= Seq::<Seq<char>>::empty());
    assert(text::texts(found@) + options_from(merged@, all, 0) =~= options_from(merged@, all, 0));
    while i < names.len()
        invariant
            i <= names.len(),
            text::texts(names@) == all,
            all == bridged_options(),
            host@ == with_options(start, merged@, all.take(i as int)),
            text::texts(found@) + options_from(merged@, all, i as int) == options_from(
                merged@,
                all,
                0,
            ),
            options_from(merged@, all, 0).len() > 0 ==> takes_options(host@),
            start is Object ==> host@ is Object,
            found@.len() > 0 ==> host@ is Object,
            found@.len() == 0 ==> host@ == start,
        decreases names.len() - i,
    {
        proof {
            assert(all[i as int] == names@[i as int]@);
            assert(all.take(i + 1).drop_last() =~= all.take(i as int));
            assert(all.take(i + 1).last() == all[i as int]);
        }
        match get_option(merged, names[i].as_str()) {
            Some(v) => {
                proof {
                    options_are_listed(merged@, all, i as int);
                }
                host = set_option(host, names[i].as_str(), v.duplicate());
                let ghost before = text::texts(found@);
                let ghost rest = options_from(merged@, all, i + 1);
                found.push(names[i].clone());
                proof {
                    assert(text::texts(found@) =~= before.push(all[i as int]));
                    assert(before + (seq![all[i as int]] + rest) =~= text::texts(found@) + rest);
                }
            },
            None => {},
        }
        i = i + 1;
    }
    assert(all.take(all.len() as int) =~= all);
    assert(text::texts(found@) + Seq::<Seq<char>>::empty() =~= text::texts(found@));
    (host, found)
}

/// Bridge the configuration of a workspace into that of the host, so that the
/// aliases in its components resolve, and its components compile as strictly as
/// in the workspace and with its globals: the configuration of the host as it is
/// to be written, and what is to be logged.
pub fn bridge_tsconfig_paths(host: Json, w: &Workspace) -> (r: (Json, Vec<String>))
    requires
        w.chain@.len() > 0,
        can_bridge(host@, w@),
    ensures
        r.0@ == bridged(host@, w@),
        text::texts(r.1@) == bridge_lines(w@),
{
    let ghost start = host@;
    let merged: Json = match load_tsconfig_merged(&w.chain) {
        Some(m) => m,
        None => Json::Null,
    };
    let mut log: Vec<String> = Vec::new();
    let (aliased, line): (Json, String) = bridge_aliases(host, w, &merged);
    let ghost with_paths = aliased@;
    log.push(line);
    let (checked, flags): (Json, Vec<String>) = bridge_options(aliased, &merged);
    assert(text::texts(flags@).len() == flags@.len());
    let listed: String = if flags.len() == 0 {
        "none found".to_string()
    } else {
        text::join(flags.as_slice(), ", ")
    };
    log.push(text::cat("[host] bridged compiler options: ", listed.as_str()));
    let mut declarations: Vec<String> = declarations_from_configs(
        w.root.as_str(),
        &w.chain,
        &w.present,
    );
    assert(text::texts(declarations@) == listed_declarations(w@));
    assert(text::texts(declarations@).len() == declarations@.len());
    if declarations.len() == 0 {
        declarations = glob_ambient_declarations(w.root.as_str(), &w.walked);
        assert(text::texts(declarations@).len() == declarations@.len());
        if declarations.len() > 0 {
            log.push(
                text::cat3(
                    "[host] tsconfig declares no d.ts entries — globbed ",
                    text::number_text(declarations.len() as u64).as_str(),
                    " from the project",
                ),
            );
        }
    }
    assert(text::texts(declarations@) == declarations_of(w@));
    if declarations.len() == 0 {
        log.push(
            "[host] no ambient declaration files found (globals like prototype patches will not type-check)".to_string(),
        );
        assert(text::texts(log@) =~= bridge_lines(w@));
        return (checked, log);
    }
    log.push(
        text::cat3(
            "[host] included ",
            text::number_text(declarations.len() as u64).as_str(),
            " ambient declaration file(s)",
        ),
    );
    assert(text::texts(log@) =~= bridge_lines(w@));
    assert(json::extensible(checked@));
    (json::set_member(checked, "files", json::array_of_texts(&declarations)), log)
}

/// Whether what is bridged can be written into the configuration of the host.
pub fn bridge_fits(host: &Json, w: &Workspace) -> (r: bool)
    requires
        w.chain@.len() > 0,
    ensures
        r == can_bridge(host@, w@),
{
    let merged: Json = match load_tsconfig_merged(&w.chain) {
        Some(m) => m,
        None => Json::Null,
    };
    let blank: Json = Json::Null;
    let (aliased, _): (Json, String) = bridge_aliases(blank, w, &merged);
    let (_, flags): (Json, Vec<String>) = bridge_options(Json::Null, &merged);
    assert(text::texts(flags@).len() == flags@.len());
    let writes_options: bool = flags.len() > 0 || match aliased {
        Json::Object(_) => true,
        _ => false,
    };
    let listed: Vec<String> = declarations_from_configs(w.root.as_str(), &w.chain, &w.present);
    assert(text::texts(listed@).len() == listed@.len());
    let writes_files: bool = if listed.len() > 0 {
        true
    } else {
        let found: Vec<String> = glob_ambient_declarations(w.root.as_str(), &w.walked);
        assert(text::texts(found@).len() == found@.len());
        found.len() > 0
    };
    let extensible: bool = match host {
        Json::Object(_) => true,
        Json::Null => true,
        _ => false,
    };
    let takes: bool = extensible && match host.get("compilerOptions") {
        Some(o) => match o {
            Json::Object(_) => true,
            Json::Null => true,
            _ => false,
        },
        None => true,
    };
    (!writes_options || takes) && (!writes_files || extensible)
}

/// The message where no configuration governs the component.
pub fn no_config_message() -> (r: String)
    ensures
        r@ == "[host] no tsconfig.json found near the component — path aliases will not resolve"@,
{
    "[host] no tsconfig.json found near the component — path aliases will not resolve".to_string()
}

/// The message where the configuration that governs the component cannot be
/// read.
pub fn unreadable_config_message(config: &str) -> (r: String)
    ensures
        r@ == "[host!] could not parse "@ + config@
            + " (tsconfig) — path aliases will not resolve"@,
{
    text::cat3(
        "[host!] could not parse ",
        config,
        " (tsconfig) — path aliases will not resolve",
    )
}

/// Bridging leaves alone what it does not name: every member of the host's
/// configuration but its options and its files is as it was.
pub proof fn plumbing_stays(host: JsonView, w: WorkspaceView, key: Seq<char>)
    requires
        host is Object,
        key != "compilerOptions"@,
        key != "files"@,
    ensures
        json::field(bridged(host, w), key) == json::field(host, key),
{
    option_keeps_members(host, "paths"@, JsonView::Object(bridged_aliases(w)), key);
    let aliased = with_aliases(host, w);
    options_keep_members(aliased, merged_of(w), bridged_options(), key);
    let checked = with_options(aliased, merged_of(w), bridged_options());
    if let JsonView::Object(o) = checked {
        json::insert_then_read(o, "files"@, json::text_array(declarations_of(w)), key);
    }
}

proof fn option_keeps_members(
    config: JsonView,
    name: Seq<char>,
    value: JsonView,
    key: Seq<char>,
)
    requires
        config is Object,
        key != "compilerOptions"@,
    ensures
        with_option(config, name, value) is Object,
        json::field(with_option(config, name, value), key) == json::field(config, key),
{
    let inner = json::with_member(json::member_or_null(config, "compilerOptions"@), name, value);
    if let JsonView::Object(o) = config {
        json::insert_then_read(o, "compilerOptions"@, inner, key);
    }
}

proof fn options_keep_members(
    config: JsonView,
    merged: JsonView,
    names: Seq<Seq<char>>,
    key: Seq<char>,
)
    requires
        config is Object,
        key != "compilerOptions"@,
    ensures
        with_options(config, merged, names) is Object,
        json::field(with_options(config, merged, names), key) == json::field(config, key),
    decreases names.len(),
{
    if names.len() > 0 {
        options_keep_members(config, merged, names.drop_last(), key);
        if let Some(v) = option_of(merged, names.last()) {
            option_keeps_members(
                with_options(config, merged, names.drop_last()),
                names.last(),
                v,
                key,
            );
        }
    }
}

/// An option that the workspace sets, and that is bridged, has the value that
/// the workspace gives it.
pub proof fn workspace_options_win(config: JsonView, merged: JsonView, names: Seq<Seq<char>>, i: int)
    requires
        takes_options(config),
        0 <= i < names.len(),
        option_of(merged, names[i]) is Some,
        forall|a: int, b: int| 0 <= a < b < names.len() ==> #[trigger] names[a] != #[trigger] names[b],
    ensures
        option_of(with_options(config, merged, names), names[i]) == option_of(merged, names[i]),
        takes_options(with_options(config, merged, names)),
    decreases names.len(),
{
    let head = names.drop_last();
    options_keep_taking(config, merged, head);
    options_keep_taking(config, merged, names);
    let earlier = with_options(config, merged, head);
    let last = names[names.len() - 1];
    if i < names.len() - 1 {
        assert forall|a: int, b: int| 0 <= a < b < head.len() implies #[trigger] head[a]
            != #[trigger] head[b] by {
            assert(names[a] != names[b]);
        }
        assert(head[i] == names[i]);
        workspace_options_win(config, merged, head, i);
        assert(names[i] != last);
        if let Some(v) = option_of(merged, last) {
            option_is_read_back(earlier, last, v, names[i]);
        }
    } else {
        option_is_read_back(earlier, last, option_of(merged, last)->0, last);
    }
}

proof fn options_keep_taking(config: JsonView, merged: JsonView, names: Seq<Seq<char>>)
    requires
        takes_options(config),
    ensures
        takes_options(with_options(config, merged, names)),
    decreases names.len(),
{
    if names.len() > 0 {
        options_keep_taking(config, merged, names.drop_last());
        if let Some(v) = option_of(merged, names.last()) {
            option_keeps_taking(
                with_options(config, merged, names.drop_last()),
                names.last(),
                v,
            );
        }
    }
}

// ---------------------------------------------------------------------------
// Where aliases lead
// ---------------------------------------------------------------------------

/// A path as the host names it: names with slashes between them, and no
/// backslash.
pub open spec fn is_place(p: Seq<char>) -> bool {
    path::is_plain(p) && !p.contains('\\')
}

/// Two such paths, with a slash between them, make another one.
pub proof fn places_join(a: Seq<char>, b: Seq<char>)
    requires
        is_place(a),
        is_place(b),
    ensures
        is_place(a + "/"@ + b),
{
    reveal_strlit("/");
    path::plain_paths_join(a, b);
    let p = a + "/"@ + b;
    assert forall|i: int| 0 <= i < p.len() implies p[i] != '\\' by {
        if i < a.len() {
            assert(p[i] == a[i]);
            assert(a.contains(a[i]));
        } else if i > a.len() {
            assert(p[i] == b[i - a.len() - 1]);
            assert(b.contains(b[i - a.len() - 1]));
        }
    }
}

/// Joining a path that is joined already is joining the names behind it.
pub proof fn joins_in_a_row(root: Seq<char>, a: Seq<char>, b: Seq<char>)
    requires
        path::is_plain(a),
        path::is_plain(b),
    ensures
        path::join_of(path::join_of(root, a), b) == path::join_of(root, a + "/"@ + b),
{
    reveal_strlit("/");
    path::plain_has_no_slash_around(a);
    path::plain_has_no_slash_around(b);
    path::plain_paths_join(a, b);
    path::plain_has_no_slash_around(a + "/"@ + b);
    let front = path::fronted(root);
    let mid = path::join_of(root, a);
    assert(mid =~= front + a);
    assert(mid.last() == a.last());
    assert(path::join_of(mid, b) =~= front + (a + "/"@ + b));
    assert(path::join_of(root, a + "/"@ + b) =~= front + (a + "/"@ + b));
}

/// What lies under the root is found there, and stands below `./external` in the
/// host.
pub proof fn place_under_the_root(root: Seq<char>, rel: Seq<char>)
    requires
        is_place(rel),
    ensures
        path::relative_to(path::join_of(root, rel), root) == Some(rel),
        in_host(rel) == "./external/"@ + rel,
{
    path::joined_path_is_taken_apart(root, rel);
    text::nothing_to_replace(rel, '\\', '/');
}

/// The target of an alias is seen from the base directory, and that from the
/// directory of the configuration: in the host it stands below `./external`, with
/// the directory, the base directory and the target one behind the other.
pub proof fn targets_are_seen_from_the_base(
    root: Seq<char>,
    rel: Seq<char>,
    base: Seq<char>,
    v: Seq<char>,
)
    requires
        is_place(rel),
        is_place(base),
        is_place(v),
    ensures
        target_of(root, path::join_of(root, rel), base, v) == "./external/"@ + (rel + "/"@ + base
            + "/"@ + v),
        target_of(root, path::join_of(root, rel), "."@, v) == "./external/"@ + (rel + "/"@ + v),
        target_of(root, root, base, v) == "./external/"@ + (base + "/"@ + v),
        target_of(root, root, "."@, v) == "./external/"@ + v,
{
    reveal_strlit("/");
    reveal_strlit(".");
    path::plain_has_no_slash_around(rel);
    path::plain_has_no_slash_around(base);
    path::plain_has_no_slash_around(v);
    assert(base != "."@) by {
        if base == "."@ {
            text::char_from_is_least(base, '/', 0);
            assert(path::name_end(base, 0) == 1);
            assert(base.subrange(0, 1) =~= "."@);
            assert(path::names_from(base, 1) =~= Seq::<(int, int)>::empty());
        }
    }
    let dir = path::join_of(root, rel);
    // From a directory below the root.
    places_join(rel, base);
    places_join(rel + "/"@ + base, v);
    joins_in_a_row(root, rel, base);
    joins_in_a_row(root, rel + "/"@ + base, v);
    place_under_the_root(root, rel + "/"@ + base + "/"@ + v);
    // From that directory, with no base directory.
    let none = Seq::<char>::empty();
    places_join(rel, v);
    joins_in_a_row(root, rel, v);
    place_under_the_root(root, rel + "/"@ + v);
    assert(dir.len() > 0 && dir.last() == rel.last());
    assert(path::join_of(path::join_of(dir, none), v) =~= path::join_of(dir, v));
    // From the root.
    places_join(base, v);
    joins_in_a_row(root, base, v);
    place_under_the_root(root, base + "/"@ + v);
    place_under_the_root(root, v);
    assert(path::join_of(path::join_of(root, none), v) =~= path::join_of(root, v));
}

/// Different base directories lead to different targets, and so do different
/// targets in the same one.
pub proof fn different_bases_lead_elsewhere(
    root: Seq<char>,
    rel: Seq<char>,
    base: Seq<char>,
    other: Seq<char>,
    v: Seq<char>,
    w: Seq<char>,
)
    requires
        is_place(rel),
        is_place(base),
        is_place(other),
        is_place(v),
        is_place(w),
    ensures
        base != other ==> target_of(root, path::join_of(root, rel), base, v) != target_of(
            root,
            path::join_of(root, rel),
            other,
            v,
        ),
        v != w ==> target_of(root, path::join_of(root, rel), base, v) != target_of(
            root,
            path::join_of(root, rel),
            base,
            w,
        ),
{
    targets_are_seen_from_the_base(root, rel, base, v);
    targets_are_seen_from_the_base(root, rel, other, v);
    targets_are_seen_from_the_base(root, rel, base, w);
    let front = "./external/"@ + rel + "/"@;
    let a = "./external/"@ + (rel + "/"@ + base + "/"@ + v);
    let b = "./external/"@ + (rel + "/"@ + other + "/"@ + v);
    let c = "./external/"@ + (rel + "/"@ + base + "/"@ + w);
    assert(a =~= front + base + ("/"@ + v));
    assert(b =~= front + other + ("/"@ + v));
    let n = front.len() as int;
    if a == b {
        assert(base.len() == other.len());
        assert(a.subrange(n, n + base.len()) =~= base);
        assert(b.subrange(n, n + other.len()) =~= other);
    }
    assert(a =~= front + base + "/"@ + v);
    assert(c =~= front + base + "/"@ + w);
    if a == c {
        let m = (front + base + "/"@).len() as int;
        assert(a.skip(m) =~= v);
        assert(c.skip(m) =~= w);
    }
}

/// A base directory that is given from the root of the disk counts as it is,
/// wherever the configuration stands.
pub proof fn absolute_bases_stand_alone(
    root: Seq<char>,
    config_dir: Seq<char>,
    base: Seq<char>,
    v: Seq<char>,
)
    requires
        path::absolute(root),
        is_place(base),
        is_place(v),
    ensures
        target_of(root, config_dir, path::join_of(root, base), v) == "./external/"@ + (base + "/"@
            + v),
{
    reveal_strlit("/");
    reveal_strlit(".");
    path::plain_has_no_slash_around(base);
    let full = path::join_of(root, base);
    assert(full[0] == root[0]);
    places_join(base, v);
    joins_in_a_row(root, base, v);
    place_under_the_root(root, base + "/"@ + v);
}

proof fn targets_follow_the_values(
    root: Seq<char>,
    config_dir: Seq<char>,
    base_url: Seq<char>,
    values: Seq<Seq<char>>,
)
    ensures
        targets_of(root, config_dir, base_url, values.map_values(|v: Seq<char>| JsonView::Text(v)))
            == values.map_values(|v: Seq<char>| target_of(root, config_dir, base_url, v)),
    decreases values.len(),
{
    let texts = values.map_values(|v: Seq<char>| JsonView::Text(v));
    if values.len() > 0 {
        let head = values.drop_last();
        targets_follow_the_values(root, config_dir, base_url, head);
        assert(texts.drop_last() =~= head.map_values(|v: Seq<char>| JsonView::Text(v)));
    }
    assert(targets_of(root, config_dir, base_url, texts) =~= values.map_values(
        |v: Seq<char>| target_of(root, config_dir, base_url, v),
    ));
}

/// Every alias of the workspace that is not the framework's is kept under its
/// name, with as many targets, in the same order, each where it lies in the host.
pub proof fn aliases_are_kept(
    root: Seq<char>,
    config_dir: Seq<char>,
    base_url: Seq<char>,
    paths: Members,
    k: int,
    values: Seq<Seq<char>>,
)
    requires
        json::keys_differ(paths),
        0 <= k < paths.len(),
        paths[k].1 == JsonView::Array(values.map_values(|v: Seq<char>| JsonView::Text(v))),
        values.len() > 0,
        !text::starts(paths[k].0, "@angular"@),
        paths[k].0 != "rxjs"@,
        paths[k].0 != "tslib"@,
        paths[k].0 != "zone.js"@,
    ensures
        json::member(aliases_of(root, config_dir, base_url, paths), paths[k].0) == Some(
            JsonView::Array(
                values.map_values(
                    |v: Seq<char>| JsonView::Text(target_of(root, config_dir, base_url, v)),
                ),
            ),
        ),
    decreases paths.len(),
{
    let head = paths.drop_last();
    let last = paths[paths.len() - 1];
    let earlier = aliases_of(root, config_dir, base_url, head);
    if k < paths.len() - 1 {
        assert(head[k] == paths[k]);
        assert forall|i: int, j: int| 0 <= i < j < head.len() implies (#[trigger] head[i]).0 != (
        #[trigger] head[j]).0 by {
            assert(paths[i].0 != paths[j].0);
        }
        aliases_are_kept(root, config_dir, base_url, head, k, values);
        assert(paths[k].0 != last.0);
        if let JsonView::Array(more) = last.1 {
            json::insert_then_read(
                earlier,
                last.0,
                json::text_array(targets_of(root, config_dir, base_url, more)),
                paths[k].0,
            );
        }
    } else {
        targets_follow_the_values(root, config_dir, base_url, values);
        let targets = values.map_values(|v: Seq<char>| target_of(root, config_dir, base_url, v));
        json::insert_then_read(earlier, last.0, json::text_array(targets), last.0);
        assert(json::text_array(targets) == JsonView::Array(
            values.map_values(
                |v: Seq<char>| JsonView::Text(target_of(root, config_dir, base_url, v)),
            ),
        )) by {
            assert(json::text_array(targets)->Array_0 =~= values.map_values(
                |v: Seq<char>| JsonView::Text(target_of(root, config_dir, base_url, v)),
            ));
        }
    }
}

proof fn options_leave_others(
    config: JsonView,
    merged: JsonView,
    names: Seq<Seq<char>>,
    other: Seq<char>,
)
    requires
        takes_options(config),
        !names.contains(other),
    ensures
        option_of(with_options(config, merged, names), other) == option_of(config, other),
        takes_options(with_options(config, merged, names)),
    decreases names.len(),
{
    options_keep_taking(config, merged, names);
    if names.len() > 0 {
        let head = names.drop_last();
        assert forall|i: int| 0 <= i < head.len() implies head[i] != other by {
            assert(names[i] == head[i]);
        }
        options_leave_others(config, merged, head, other);
        assert(names.contains(names[names.len() - 1]));
        if let Some(v) = option_of(merged, names.last()) {
            option_is_read_back(with_options(config, merged, head), names.last(), v, other);
        }
    }
}

/// The aliases are no option that is taken over as it is.
proof fn paths_is_no_flag()
    ensures
        !bridged_options().contains("paths"@),
{
    reveal_strlit("strict");
    reveal_strlit("noImplicitAny");
    reveal_strlit("strictNullChecks");
    reveal_strlit("strictFunctionTypes");
    reveal_strlit("strictBindCallApply");
    reveal_strlit("strictPropertyInitialization");
    reveal_strlit("noImplicitThis");
    reveal_strlit("useUnknownInCatchVariables");
    reveal_strlit("alwaysStrict");
    reveal_strlit("exactOptionalPropertyTypes");
    reveal_strlit("noImplicitReturns");
    reveal_strlit("noFallthroughCasesInSwitch");
    reveal_strlit("noImplicitOverride");
    reveal_strlit("experimentalDecorators");
    reveal_strlit("emitDecoratorMetadata");
    reveal_strlit("useDefineForClassFields");
    reveal_strlit("target");
    reveal_strlit("lib");
    reveal_strlit("esModuleInterop");
    reveal_strlit("allowSyntheticDefaultImports");
    reveal_strlit("resolveJsonModule");
    reveal_strlit("skipLibCheck");
    reveal_strlit("isolatedModules");
    reveal_strlit("paths");
    let names = bridged_options();
    assert forall|i: int| 0 <= i < names.len() implies names[i].len() != 5 by {}
}

/// In the host an alias of the workspace leads to where its target lies: below
/// `./external`, the directory of the configuration, its base directory and the
/// target one behind the other.
pub proof fn aliases_reach_the_host(
    host: JsonView,
    w: WorkspaceView,
    rel: Seq<char>,
    base: Seq<char>,
    k: int,
    v: Seq<char>,
)
    requires
        takes_options(host),
        w.files.len() > 0,
        path::dir_of(w.files[0]) == path::join_of(w.root, rel),
        is_place(rel),
        is_place(base),
        is_place(v),
        option_of(merged_of(w), "baseUrl"@) == Some(JsonView::Text(base)),
        option_of(merged_of(w), "paths"@) matches Some(JsonView::Object(paths)) && json::keys_differ(
            paths,
        ) && 0 <= k < paths.len() && paths[k].1 == JsonView::Array(seq![JsonView::Text(v)])
            && !text::starts(paths[k].0, "@angular"@) && paths[k].0 != "rxjs"@ && paths[k].0
            != "tslib"@ && paths[k].0 != "zone.js"@,
    ensures
        option_of(bridged(host, w), "paths"@) matches Some(JsonView::Object(aliases))
            && json::member(aliases, (option_of(merged_of(w), "paths"@)->0->Object_0)[k].0) == Some(
            JsonView::Array(
                seq![JsonView::Text("./external/"@ + (rel + "/"@ + base + "/"@ + v))],
            ),
        ),
{
    let paths = option_of(merged_of(w), "paths"@)->0->Object_0;
    let key = paths[k].0;
    let dir = path::join_of(w.root, rel);
    let values = seq![v];
    assert(values.map_values(|v: Seq<char>| JsonView::Text(v)) =~= seq![JsonView::Text(v)]);
    aliases_are_kept(w.root, dir, base, paths, k, values);
    targets_are_seen_from_the_base(w.root, rel, base, v);
    assert(values.map_values(
        |v: Seq<char>| JsonView::Text(target_of(w.root, dir, base, v)),
    ) =~= seq![JsonView::Text("./external/"@ + (rel + "/"@ + base + "/"@ + v))]);
    let aliases = bridged_aliases(w);
    assert(aliases == aliases_of(w.root, dir, base, paths));
    assert(json::member(aliases, key) is Some);
    json::member_from_is_least(aliases, key, 0);
    assert(aliases.len() > 0);
    option_is_read_back(host, "paths"@, JsonView::Object(aliases), "paths"@);
    option_keeps_taking(host, "paths"@, JsonView::Object(aliases));
    let aliased = with_aliases(host, w);
    paths_is_no_flag();
    options_leave_others(aliased, merged_of(w), bridged_options(), "paths"@);
    let checked = with_options(aliased, merged_of(w), bridged_options());
    reveal_strlit("files");
    reveal_strlit("compilerOptions");
    assert("files"@.len() != "compilerOptions"@.len());
    options_keep_members(aliased, merged_of(w), bridged_options(), "files"@);
    if let JsonView::Object(o) = checked {
        json::insert_then_read(
            o,
            "files"@,
            json::text_array(declarations_of(w)),
            "compilerOptions"@,
        );
    }
}

/// A configuration extends the file that it names, seen from its own directory; a
/// name without an extension stands for a JSON file.
pub proof fn extended_files_lie_beside(dir: Seq<char>, name: Seq<char>, file: Seq<char>)
    requires
        path::is_whole(dir),
        path::is_name(name),
        name != ".."@,
        path::is_name(file),
        !file.contains('.'),
    ensures
        extended_file(path::join_of(dir, name), file) == path::join_of(dir, file) + ".json"@,
        extended_package(path::join_of(dir, name), file) == path::join_of(
            path::join_of(dir, "node_modules"@),
            file,
        ) + ".json"@,
{
    path::renamed_entry(dir, name, file);
    path::no_dot_no_extension(dir, file);
    path::no_dot_no_extension(path::join_of(dir, "node_modules"@), file);
}

/// A file with an extension is extended under the name that is given.
pub proof fn extended_files_keep_their_extension(
    dir: Seq<char>,
    name: Seq<char>,
    stem: Seq<char>,
    ext: Seq<char>,
)
    requires
        path::is_whole(dir),
        path::is_name(name),
        name != ".."@,
        stem.len() > 0,
        !stem.contains('/'),
        !ext.contains('/'),
        !ext.contains('.'),
        stem + seq!['.'] + ext != ".."@,
    ensures
        extended_file(path::join_of(dir, name), stem + seq!['.'] + ext) == path::join_of(
            dir,
            stem + seq!['.'] + ext,
        ),
{
    path::renamed_entry(dir, name, name);
    path::extension_of_entry(dir, stem, ext);
}

/// Every declaration file in the tree is listed, where it lies in the host, as long
/// as there are not too many.
pub proof fn declarations_in_the_tree_are_listed(root: Seq<char>, walked: Seq<Seq<char>>, k: int)
    requires
        0 <= k < walked.len(),
        path::name_of(walked[k]) matches Some(name) && (text::ends(name, ".d.ts"@) || name
            == "prototypes.ts"@),
        globbed(root, walked).len() < 120,
    ensures
        globbed(root, walked).contains(in_host(rel_or_empty(root, walked[k]))),
    decreases walked.len(),
{
    let head = walked.drop_last();
    let earlier = globbed(root, head);
    let all = globbed(root, walked);
    let place = in_host(rel_or_empty(root, walked[k]));
    if k < walked.len() - 1 {
        assert(head[k] == walked[k]);
        declarations_in_the_tree_are_listed(root, head, k);
        let m = choose|m: int| 0 <= m < earlier.len() && earlier[m] == place;
        assert(all[m] == place);
    } else {
        assert(walked.last() == walked[k]);
        if !earlier.contains(place) {
            assert(all[all.len() - 1] == place);
        }
    }
}

/// A file under the root lies below `./external` in the host, at its path from the
/// root.
pub proof fn files_lie_below_external(root: Seq<char>, rel: Seq<char>)
    requires
        is_place(rel),
    ensures
        in_host(rel_or_empty(root, path::join_of(root, rel))) == "./external/"@ + rel,
{
    place_under_the_root(root, rel);
}

/// A declaration file that a configuration lists and that is there is taken over:
/// it lies below `external`, with the directory of the configuration and the entry
/// one behind the other.
pub proof fn listed_declarations_are_taken_over(
    out: Seq<Seq<char>>,
    root: Seq<char>,
    dir: Seq<char>,
    name: Seq<char>,
    entry: Seq<char>,
    present: Seq<Seq<char>>,
)
    requires
        path::absolute(root),
        root.last() != '/',
        !root.contains('\\'),
        is_place(dir),
        is_place(entry),
        path::is_name(name),
        name != ".."@,
        text::ends(entry, ".d.ts"@) || text::ends(entry, "prototypes.ts"@),
        present.contains(path::join_of(root, dir + "/"@ + entry)),
        path::is_whole(path::join_of(root, dir)),
    ensures
        with_entry(
            out,
            root,
            path::join_of(path::join_of(root, dir), name),
            JsonView::Text(entry),
            present,
        ).contains("external/"@ + (dir + "/"@ + entry)),
{
    reveal_strlit("/");
    reveal_strlit("./");
    let config_dir = path::join_of(root, dir);
    let config = path::join_of(config_dir, name);
    let rel = dir + "/"@ + entry;
    path::renamed_entry(config_dir, name, name);
    path::plain_has_no_slash_around(dir);
    path::plain_has_no_slash_around(entry);
    places_join(dir, entry);
    path::plain_has_no_slash_around(rel);
    joins_in_a_row(root, dir, entry);
    let joined = path::join_of(root, rel);
    assert(joined =~= root + "/"@ + rel);
    assert forall|i: int| 0 <= i < joined.len() implies joined[i] != '\\' by {
        if i < root.len() {
            assert(joined[i] == root[i]);
            assert(root.contains(root[i]));
        } else if i > root.len() {
            assert(joined[i] == rel[i - root.len() - 1]);
            assert(rel.contains(rel[i - root.len() - 1]));
        }
    }
    text::nothing_to_replace(joined, '\\', '/');
    text::nothing_to_replace(root, '\\', '/');
    assert(!text::starts(joined, "./"@)) by {
        if text::starts(joined, "./"@) {
            assert(joined.subrange(0, 2)[0] == '.');
            assert(joined[0] == root[0]);
        }
    }
    let prefix = root + "/"@;
    assert(joined.subrange(0, prefix.len() as int) =~= prefix);
    assert(joined.skip(prefix.len() as int) =~= rel);
    let place = "external/"@ + rel;
    if !out.contains(place) {
        assert(out.push(place)[out.len() as int] == place);
    }
}

proof fn overlay_is_read(base: Members, child: Members, key: Seq<char>)
    requires
        json::keys_differ(child),
    ensures
        json::member(overlaid(base, child), key) == (match json::member(child, key) {
            Some(v) => Some(v),
            None => json::member(base, key),
        }),
    decreases child.len(),
{
    json::member_from_is_least(child, key, 0);
    if child.len() > 0 {
        let head = child.drop_last();
        let last = child[child.len() - 1];
        assert forall|a: int, b: int| 0 <= a < b < head.len() implies (#[trigger] head[a]).0 != (
        #[trigger] head[b]).0 by {
            assert(child[a].0 != child[b].0);
        }
        overlay_is_read(base, head, key);
        json::insert_then_read(overlaid(base, head), last.0, last.1, key);
        json::member_from_is_least(head, key, 0);
        if last.0 == key {
            assert forall|j: int| 0 <= j < child.len() - 1 implies child[j].0 != key by {
                assert(child[j].0 != last.0);
            }
            json::member_from_found(child, key, 0, child.len() - 1);
        } else if let Some(i) = json::member_from(child, key, 0) {
            assert(head[i] == child[i]);
            assert forall|j: int| 0 <= j < i implies head[j].0 != key by {
                assert(head[j] == child[j]);
            }
            json::member_from_found(head, key, 0, i);
        } else if let Some(i) = json::member_from(head, key, 0) {
            assert(head[i] == child[i]);
        }
    }
}

proof fn merged_section_is_read(
    out: Members,
    child: Members,
    key: Seq<char>,
    b: Members,
    c: Members,
)
    requires
        json::keys_differ(child),
        merges(key),
        json::member(child, key) == Some(JsonView::Object(c)),
        json::member(out, key) == Some(JsonView::Object(b)),
    ensures
        json::member(with_child(out, child), key) == Some(JsonView::Object(overlaid(b, c))),
    decreases child.len(),
{
    let head = child.drop_last();
    let m = child.last();
    json::member_from_is_least(child, key, 0);
    let i = json::member_from(child, key, 0)->0;
    json::member_from_is_least(head, key, 0);
    if i < child.len() - 1 {
        assert forall|x: int, y: int| 0 <= x < y < head.len() implies (#[trigger] head[x]).0 != (
        #[trigger] head[y]).0 by {
            assert(head[x] == child[x] && head[y] == child[y]);
        }
        assert(head[i] == child[i]);
        assert forall|j: int| 0 <= j < i implies head[j].0 != key by {
            assert(head[j] == child[j]);
        }
        json::member_from_found(head, key, 0, i);
        merged_section_is_read(out, head, key, b, c);
        assert(child[i].0 != child[child.len() - 1].0);
        with_child_member_keeps_others(with_child(out, head), m.0, m.1, key);
    } else {
        if let Some(j) = json::member_from(head, key, 0) {
            assert(head[j] == child[j]);
        }
        base_is_inherited(out, head, key);
        json::insert_then_read(with_child(out, head), key, JsonView::Object(overlaid(b, c)), key);
    }
}

/// The compiler options of a configuration that extends another one are merged one
/// by one: what the configuration sets counts, and what it does not set is
/// inherited.
pub proof fn options_are_merged_one_by_one(
    child: Members,
    base: Members,
    c: Members,
    b: Members,
    name: Seq<char>,
)
    requires
        json::keys_differ(child),
        json::keys_differ(c),
        json::member(child, "compilerOptions"@) == Some(JsonView::Object(c)),
        json::member(base, "compilerOptions"@) == Some(JsonView::Object(b)),
    ensures
        option_of(merge_of(JsonView::Object(child), JsonView::Object(base)), name) == (
        match json::member(c, name) {
            Some(v) => Some(v),
            None => json::member(b, name),
        }),
{
    merged_section_is_read(base, child, "compilerOptions"@, b, c);
    overlay_is_read(b, c, name);
}

/// A configuration without options of its own has those of the one that it extends.
pub proof fn options_are_inherited(child: Members, base: JsonView, name: Seq<char>)
    requires
        json::member(child, "compilerOptions"@) is None,
        base is Object,
    ensures
        option_of(merge_of(JsonView::Object(child), base), name) == option_of(base, name),
{
    base_is_inherited(base->Object_0, child, "compilerOptions"@);
}

/// No more declarations of the tree are listed than are allowed.
pub proof fn listed_declarations_are_bounded(root: Seq<char>, walked: Seq<Seq<char>>)
    ensures
        globbed(root, walked).len() <= 120,
    decreases walked.len(),
{
    if walked.len() > 0 {
        listed_declarations_are_bounded(root, walked.drop_last());
    }
}

/// The options of the Angular compiler are merged one by one, too.
pub proof fn angular_options_are_merged_one_by_one(
    child: Members,
    base: Members,
    c: Members,
    b: Members,
    name: Seq<char>,
)
    requires
        json::keys_differ(child),
        json::keys_differ(c),
        json::member(child, "angularCompilerOptions"@) == Some(JsonView::Object(c)),
        json::member(base, "angularCompilerOptions"@) == Some(JsonView::Object(b)),
    ensures
        json::field(merge_of(JsonView::Object(child), JsonView::Object(base)), "angularCompilerOptions"@)
            matches Some(o) && json::field(o, name) == (match json::member(c, name) {
            Some(v) => Some(v),
            None => json::member(b, name),
        }),
{
    merged_section_is_read(base, child, "angularCompilerOptions"@, b, c);
    overlay_is_read(b, c, name);
}

/// The options that are said to be bridged are those that are set.
pub proof fn set_options_are_told(merged: JsonView, names: Seq<Seq<char>>, from: int, name: Seq<char>)
    requires
        0 <= from <= names.len(),
    ensures
        options_from(merged, names, from).contains(name) <==> option_of(merged, name) is Some
            && names.skip(from).contains(name),
    decreases names.len() - from,
{
    if from < names.len() {
        set_options_are_told(merged, names, from + 1, name);
        let here = options_from(merged, names, from);
        let rest = options_from(merged, names, from + 1);
        let s = names.skip(from);
        let t = names.skip(from + 1);
        assert(s =~= seq![names[from]] + t);
        if rest.contains(name) {
            let m = choose|m: int| 0 <= m < rest.len() && rest[m] == name;
            if option_of(merged, names[from]) is Some {
                assert(here[m + 1] == name);
            }
        }
        if t.contains(name) {
            let m = choose|m: int| 0 <= m < t.len() && t[m] == name;
            assert(s[m + 1] == name);
        }
        if s.contains(name) {
            let m = choose|m: int| 0 <= m < s.len() && s[m] == name;
            if m > 0 {
                assert(t[m - 1] == name);
            } else if option_of(merged, name) is Some {
                assert(here[0] == name);
            }
        }
        if here.contains(name) {
            let m = choose|m: int| 0 <= m < here.len() && here[m] == name;
            if option_of(merged, names[from]) is Some {
                if m == 0 {
                    assert(s[0] == name);
                } else {
                    assert(rest[m - 1] == name);
                }
            }
        }
    }
}

} // verus!
