//! The packages of the project: which versions it asks for, and which of them
//! the host takes over.

use crate::host::clean;
use crate::json;
use crate::json::{Json, JsonView};
use crate::path;
use crate::sort;
use crate::text;
use vstd::prelude::*;

verus! {

// ---------------------------------------------------------------------------
// Finding files on the way up
// ---------------------------------------------------------------------------

/// The file `name` of the first of the directories from the `i`-th on that has
/// one, `present` being the files that there are.
pub open spec fn nearest_from(
    dirs: Seq<Seq<char>>,
    name: Seq<char>,
    present: Seq<Seq<char>>,
    i: int,
) -> Option<Seq<char>>
    decreases dirs.len() - i,
{
    if i < 0 || i >= dirs.len() {
        None
    } else if present.contains(path::join_of(dirs[i], name)) {
        Some(path::join_of(dirs[i], name))
    } else {
        nearest_from(dirs, name, present, i + 1)
    }
}

/// The file `name` of the first of the directories that has one.
pub fn nearest_file(dirs: &Vec<String>, name: &str, present: &Vec<String>) -> (r: Option<String>)
    ensures
        text::opt(r) == nearest_from(text::texts(dirs@), name@, text::texts(present@), 0),
{
    let ghost all = text::texts(dirs@);
    let ghost files = text::texts(present@);
    let mut i: usize = 0;
    while i < dirs.len()
        invariant
            i <= dirs.len(),
            all == text::texts(dirs@),
            files == text::texts(present@),
            nearest_from(all, name@, files, 0) == nearest_from(all, name@, files, i as int),
        decreases dirs.len() - i,
    {
        assert(all[i as int] == dirs@[i as int]@);
        let file: String = path::join(dirs[i].as_str(), name);
        if text::among(present, file.as_str()) {
            return Some(file);
        }
        i = i + 1;
    }
    None
}

/// The configuration that governs a component among the directories from the
/// `i`-th on: that of the first directory that is a workspace, `nearest` being
/// the nearest one so far.
pub open spec fn workspace_from(
    dirs: Seq<Seq<char>>,
    present: Seq<Seq<char>>,
    nearest: Option<Seq<char>>,
    i: int,
) -> Option<Seq<char>>
    decreases dirs.len() - i,
{
    if i < 0 || i >= dirs.len() {
        nearest
    } else {
        let ts = path::join_of(dirs[i], "tsconfig.json"@);
        if present.contains(ts) && present.contains(path::join_of(dirs[i], "angular.json"@)) {
            Some(ts)
        } else {
            workspace_from(
                dirs,
                present,
                if nearest is None && present.contains(ts) {
                    Some(ts)
                } else {
                    nearest
                },
                i + 1,
            )
        }
    }
}

/// The `tsconfig.json` that governs a component, `dirs` being the directories
/// around it, nearest first: that of the nearest directory with an
/// `angular.json`, which marks a workspace; else the nearest one.
pub fn find_workspace_config(dirs: &Vec<String>, present: &Vec<String>) -> (r: Option<String>)
    ensures
        text::opt(r) == workspace_from(text::texts(dirs@), text::texts(present@), None, 0),
{
    let ghost all = text::texts(dirs@);
    let ghost files = text::texts(present@);
    let mut nearest: Option<String> = None;
    let mut i: usize = 0;
    while i < dirs.len()
        invariant
            i <= dirs.len(),
            all == text::texts(dirs@),
            files == text::texts(present@),
            workspace_from(all, files, None, 0) == workspace_from(
                all,
                files,
                text::opt(nearest),
                i as int,
            ),
        decreases dirs.len() - i,
    {
        assert(all[i as int] == dirs@[i as int]@);
        let ts: String = path::join(dirs[i].as_str(), "tsconfig.json");
        let angular: String = path::join(dirs[i].as_str(), "angular.json");
        let has_ts: bool = text::among(present, ts.as_str());
        if has_ts && text::among(present, angular.as_str()) {
            return Some(ts);
        }
        if nearest.is_none() && has_ts {
            nearest = Some(ts);
        }
        i = i + 1;
    }
    nearest
}

/// A workspace wins over a nearer configuration; without one, the nearest
/// configuration is taken.
pub proof fn workspace_wins(dirs: Seq<Seq<char>>, present: Seq<Seq<char>>, k: int)
    requires
        0 <= k < dirs.len(),
        present.contains(path::join_of(dirs[k], "tsconfig.json"@)),
        present.contains(path::join_of(dirs[k], "angular.json"@)),
        forall|j: int|
            0 <= j < k ==> !(present.contains(
                path::join_of(#[trigger] dirs[j], "tsconfig.json"@),
            ) && present.contains(path::join_of(dirs[j], "angular.json"@))),
    ensures
        workspace_from(dirs, present, None, 0) == Some(
            path::join_of(dirs[k], "tsconfig.json"@),
        ),
{
    workspace_found(dirs, present, None, 0, k);
}

proof fn workspace_found(
    dirs: Seq<Seq<char>>,
    present: Seq<Seq<char>>,
    nearest: Option<Seq<char>>,
    i: int,
    k: int,
)
    requires
        0 <= i <= k < dirs.len(),
        present.contains(path::join_of(dirs[k], "tsconfig.json"@)),
        present.contains(path::join_of(dirs[k], "angular.json"@)),
        forall|j: int|
            i <= j < k ==> !(present.contains(
                path::join_of(#[trigger] dirs[j], "tsconfig.json"@),
            ) && present.contains(path::join_of(dirs[j], "angular.json"@))),
    ensures
        workspace_from(dirs, present, nearest, i) == Some(
            path::join_of(dirs[k], "tsconfig.json"@),
        ),
    decreases k - i,
{
    if i < k {
        let ts = path::join_of(dirs[i], "tsconfig.json"@);
        workspace_found(
            dirs,
            present,
            if nearest is None && present.contains(ts) {
                Some(ts)
            } else {
                nearest
            },
            i + 1,
            k,
        );
    }
}

// ---------------------------------------------------------------------------
// Versions
// ---------------------------------------------------------------------------

/// The values that the readable ones among the texts hold, in order.
pub open spec fn readable(raws: Seq<Option<Seq<char>>>) -> Seq<JsonView>
    decreases raws.len(),
{
    if raws.len() == 0 {
        Seq::empty()
    } else {
        let earlier = readable(raws.drop_last());
        match raws.last() {
            Some(raw) => match json::json_read(raw) {
                Ok(j) => earlier.push(j),
                Err(_) => earlier,
            },
            None => earlier,
        }
    }
}

pub open spec fn raw_texts(v: Seq<Option<String>>) -> Seq<Option<Seq<char>>> {
    v.map_values(|t: Option<String>| text::opt(t))
}

/// The package files around a component that can be read, nearest first: what
/// cannot be read, or is no JSON, is left out.
pub fn read_packages(raws: &Vec<Option<String>>) -> (r: Vec<Json>)
    ensures
        json::items(r@) == readable(raw_texts(raws@)),
{
    let ghost all = raw_texts(raws@);
    let mut out: Vec<Json> = Vec::new();
    let mut i: usize = 0;
    assert(all.take(0) =~= Seq::<Option<Seq<char>>>::empty());
    assert(json::items(out@) =~= Seq::<JsonView>::empty());
    while i < raws.len()
        invariant
            i <= raws.len(),
            all == raw_texts(raws@),
            json::items(out@) == readable(all.take(i as int)),
        decreases raws.len() - i,
    {
        proof {
            assert(all.take(i + 1).drop_last() =~= all.take(i as int));
            assert(all.take(i + 1).last() == text::opt(raws@[i as int]));
        }
        match &raws[i] {
            Some(raw) => match clean::parse_json(raw.as_str()) {
                Ok(j) => {
                    let ghost before = json::items(out@);
                    let ghost new = j@;
                    out.push(j);
                    assert(json::items(out@) =~= before.push(new));
                },
                Err(_) => {},
            },
            None => {},
        }
        i = i + 1;
    }
    assert(all.take(all.len() as int) =~= all);
    out
}

/// The range that a section of a package file gives for Angular.
pub open spec fn angular_in(package: JsonView, section: Seq<char>) -> Option<Seq<char>> {
    match json::field(package, section) {
        Some(s) => json::as_text(json::field(s, "@angular/core"@)),
        None => None,
    }
}

/// The range that the first of the packages from the `i`-th on that names
/// Angular gives for it.
pub open spec fn range_from(packages: Seq<JsonView>, i: int) -> Seq<char>
    decreases packages.len() - i,
{
    if i < 0 || i >= packages.len() {
        "^20.0.0"@
    } else {
        match angular_in(packages[i], "dependencies"@) {
            Some(range) => range,
            None => match angular_in(packages[i], "devDependencies"@) {
                Some(range) => range,
                None => range_from(packages, i + 1),
            },
        }
    }
}

fn find_angular(package: &Json, section: &str) -> (r: Option<String>)
    ensures
        text::opt(r) == angular_in(package@, section@),
{
    match package.get(section) {
        Some(s) => match s.get("@angular/core") {
            Some(v) => match v {
                Json::Text(t) => Some(t.clone()),
                _ => None,
            },
            None => None,
        },
        None => None,
    }
}

/// The version range of `@angular/core` that the nearest package file gives;
/// `^20.0.0` where none does.
pub fn detect_angular_range(packages: &Vec<Json>) -> (r: String)
    ensures
        r@ == range_from(json::items(packages@), 0),
{
    let ghost all = json::items(packages@);
    let mut i: usize = 0;
    while i < packages.len()
        invariant
            i <= packages.len(),
            all == json::items(packages@),
            range_from(all, 0) == range_from(all, i as int),
        decreases packages.len() - i,
    {
        assert(all[i as int] == packages@[i as int]@);
        match find_angular(&packages[i], "dependencies") {
            Some(range) => {
                return range;
            },
            None => {},
        }
        match find_angular(&packages[i], "devDependencies") {
            Some(range) => {
                return range;
            },
            None => {},
        }
        i = i + 1;
    }
    "^20.0.0".to_string()
}

/// The first digit from `i` on.
pub open spec fn digit_from(s: Seq<char>, i: int) -> int
    decreases s.len() - i,
{
    if 0 <= i < s.len() && !text::is_digit(s[i]) {
        digit_from(s, i + 1)
    } else {
        i
    }
}

/// Where the digits from `i` on end.
pub open spec fn digits_end(s: Seq<char>, i: int) -> int
    decreases s.len() - i,
{
    if 0 <= i < s.len() && text::is_digit(s[i]) {
        digits_end(s, i + 1)
    } else {
        i
    }
}

/// The number that digits make.
pub open spec fn number_of(s: Seq<char>) -> nat
    decreases s.len(),
{
    if s.len() == 0 {
        0
    } else {
        10 * number_of(s.drop_last()) + (s.last() as int - '0' as int) as nat
    }
}

/// The first number in a version range; 20 where there is none, or none of a
/// sensible size.
pub open spec fn major_of(range: Seq<char>) -> nat {
    let start = digit_from(range, 0);
    let digits = range.subrange(start, digits_end(range, start));
    if digits.len() == 0 || number_of(digits) > u32::MAX {
        20
    } else {
        number_of(digits)
    }
}

proof fn longer_is_no_smaller(s: Seq<char>, i: int)
    requires
        0 <= i <= s.len(),
        forall|k: int| 0 <= k < s.len() ==> text::is_digit(#[trigger] s[k]),
    ensures
        number_of(s.take(i)) <= number_of(s),
    decreases s.len() - i,
{
    if i < s.len() {
        assert(s.take(i + 1).drop_last() =~= s.take(i));
        longer_is_no_smaller(s, i + 1);
    } else {
        assert(s.take(i) =~= s);
    }
}

/// The major version that a range starts with.
pub fn angular_major(range: &str) -> (r: u32)
    ensures
        r == major_of(range@),
{
    let s: Vec<char> = text::chars_of(range);
    let mut start: usize = 0;
    while start < s.len() && !text::digit(s[start])
        invariant
            start <= s.len(),
            digit_from(s@, 0) == digit_from(s@, start as int),
        decreases s.len() - start,
    {
        start = start + 1;
    }
    let mut end: usize = start;
    while end < s.len() && text::digit(s[end])
        invariant
            start <= end <= s.len(),
            digits_end(s@, start as int) == digits_end(s@, end as int),
            forall|k: int| start <= k < end ==> text::is_digit(#[trigger] s@[k]),
        decreases s.len() - end,
    {
        end = end + 1;
    }
    if start == end {
        return 20;
    }
    let digits: &[char] = vstd::slice::slice_subrange(s.as_slice(), start, end);
    let mut value: u64 = 0;
    let mut i: usize = 0;
    assert(digits@.take(0) =~= Seq::<char>::empty());
    while i < digits.len()
        invariant
            i <= digits.len(),
            value <= u32::MAX,
            value == number_of(digits@.take(i as int)),
            digits@.len() > 0,
            range@ == s@,
            digits@ == s@.subrange(digit_from(s@, 0), digits_end(s@, digit_from(s@, 0))),
            forall|k: int| 0 <= k < digits@.len() ==> text::is_digit(#[trigger] digits@[k]),
        decreases digits.len() - i,
    {
        proof {
            assert(digits@.take(i + 1).drop_last() =~= digits@.take(i as int));
            assert(text::is_digit(digits@[i as int]));
        }
        value = 10 * value + (digits[i] as u64 - 48);
        if value > u32::MAX as u64 {
            proof {
                longer_is_no_smaller(digits@, i + 1);
            }
            return 20;
        }
        i = i + 1;
    }
    assert(digits@.take(digits@.len() as int) =~= digits@);
    value as u32
}

/// The members of a section of a package file, where it is an object.
pub open spec fn section_of(package: JsonView, section: Seq<char>) -> Option<
    Seq<(Seq<char>, JsonView)>,
> {
    match json::field(package, section) {
        Some(JsonView::Object(o)) => Some(o),
        _ => None,
    }
}

/// The versions with those of `more` added that are not there yet.
pub open spec fn adopted(
    have: Seq<(Seq<char>, JsonView)>,
    more: Seq<(Seq<char>, JsonView)>,
) -> Seq<(Seq<char>, JsonView)>
    decreases more.len(),
{
    if more.len() == 0 {
        have
    } else {
        let earlier = adopted(have, more.drop_last());
        let m = more.last();
        if json::member(earlier, m.0) is Some {
            earlier
        } else {
            earlier.push(m)
        }
    }
}

/// The versions with those of a section added that are not there yet.
pub open spec fn with_section(
    have: Seq<(Seq<char>, JsonView)>,
    package: JsonView,
    section: Seq<char>,
) -> Seq<(Seq<char>, JsonView)> {
    match section_of(package, section) {
        Some(more) => adopted(have, more),
        None => have,
    }
}

/// The versions that the first `n` packages ask for; the nearest one counts.
pub open spec fn versions_of(packages: Seq<JsonView>, n: int) -> Seq<(Seq<char>, JsonView)>
    decreases n,
{
    if n <= 0 || n > packages.len() {
        Seq::empty()
    } else {
        with_section(
            with_section(
                versions_of(packages, n - 1),
                packages[n - 1],
                "dependencies"@,
            ),
            packages[n - 1],
            "devDependencies"@,
        )
    }
}

fn adopt_section(have: &mut Vec<(String, Json)>, package: &Json, section: &str)
    ensures
        json::members(final(have)@) == with_section(
            json::members(old(have)@),
            package@,
            section@,
        ),
{
    match package.get(section) {
        Some(v) => match v {
            Json::Object(o) => {
                proof {
                    json::object_view(*o);
                }
                let ghost more = json::members(o@);
                let ghost start = json::members(have@);
                let mut i: usize = 0;
                assert(more.take(0) =~= Seq::<(Seq<char>, JsonView)>::empty());
                while i < o.len()
                    invariant
                        i <= o.len(),
                        more == json::members(o@),
                        json::members(have@) == adopted(start, more.take(i as int)),
                    decreases o.len() - i,
                {
                    proof {
                        assert(more.take(i + 1).drop_last() =~= more.take(i as int));
                        assert(more.take(i + 1).last() == more[i as int]);
                    }
                    let known: bool = json::lookup(have.as_slice(), o[i].0.as_str()).is_some();
                    if !known {
                        let ghost before = json::members(have@);
                        let key: String = o[i].0.clone();
                        let value: Json = o[i].1.duplicate();
                        let ghost new = (key@, value@);
                        have.push((key, value));
                        assert(json::members(have@) =~= before.push(new));
                    }
                    i = i + 1;
                }
                assert(more.take(more.len() as int) =~= more);
            },
            _ => {},
        },
        None => {},
    }
}

/// All the versions that the package files around a component ask for, those of
/// `dependencies` and `devDependencies` together; the nearest file counts.
pub fn collect_user_versions(packages: &Vec<Json>) -> (r: Vec<(String, Json)>)
    ensures
        json::members(r@) == versions_of(json::items(packages@), packages@.len() as int),
{
    let ghost all = json::items(packages@);
    let mut out: Vec<(String, Json)> = Vec::new();
    let mut i: usize = 0;
    assert(json::members(out@) =~= Seq::<(Seq<char>, JsonView)>::empty());
    while i < packages.len()
        invariant
            i <= packages.len(),
            all == json::items(packages@),
            json::members(out@) == versions_of(all, i as int),
        decreases packages.len() - i,
    {
        assert(all[i as int] == packages@[i as int]@);
        adopt_section(&mut out, &packages[i], "dependencies");
        adopt_section(&mut out, &packages[i], "devDependencies");
        i = i + 1;
    }
    out
}

/// A version that was adopted is never replaced by one of a later section.
pub proof fn nearest_version_wins(
    have: Seq<(Seq<char>, JsonView)>,
    more: Seq<(Seq<char>, JsonView)>,
    name: Seq<char>,
)
    requires
        json::member(have, name) is Some,
    ensures
        json::member(adopted(have, more), name) == json::member(have, name),
    decreases more.len(),
{
    if more.len() > 0 {
        nearest_version_wins(have, more.drop_last(), name);
        let earlier = adopted(have, more.drop_last());
        let m = more.last();
        if json::member(earlier, m.0) is None {
            assert(json::inserted(earlier, m.0, m.1) =~= earlier.push(m));
            json::insert_then_read(earlier, m.0, m.1, name);
        }
    }
}

/// A version of the host: that of the project's Angular for the packages of
/// Angular, that which the project asks for where it does, else as it was.
pub open spec fn patched_version(
    m: (Seq<char>, JsonView),
    range: Seq<char>,
    versions: Seq<(Seq<char>, JsonView)>,
) -> (Seq<char>, JsonView) {
    if text::starts(m.0, "@angular/"@) {
        (m.0, JsonView::Text(range))
    } else {
        match json::member(versions, m.0) {
            Some(v) => (m.0, v),
            None => m,
        }
    }
}

/// A section of the host's package file with the project's versions.
pub open spec fn patched_section(
    package: JsonView,
    section: Seq<char>,
    range: Seq<char>,
    versions: Seq<(Seq<char>, JsonView)>,
) -> JsonView {
    match section_of(package, section) {
        Some(o) => json::with_member(
            package,
            section,
            JsonView::Object(
                o.map_values(|m: (Seq<char>, JsonView)| patched_version(m, range, versions)),
            ),
        ),
        None => package,
    }
}

/// The host's package file with the project's versions.
pub open spec fn patched(
    package: JsonView,
    range: Seq<char>,
    versions: Seq<(Seq<char>, JsonView)>,
) -> JsonView {
    patched_section(
        patched_section(package, "dependencies"@, range, versions),
        "devDependencies"@,
        range,
        versions,
    )
}

fn patch_section(package: Json, section: &str, range: &str, versions: &Vec<(String, Json)>) -> (r:
    Json)
    ensures
        r@ == patched_section(package@, section@, range@, json::members(versions@)),
{
    let ghost vs = json::members(versions@);
    let new: Option<Json> = match package.get(section) {
        Some(v) => match v {
            Json::Object(o) => {
                proof {
                    json::object_view(*o);
                }
                let ghost all = json::members(o@);
                let mut out: Vec<(String, Json)> = Vec::new();
                let mut i: usize = 0;
                while i < o.len()
                    invariant
                        i <= o.len(),
                        out@.len() == i,
                        all == json::members(o@),
                        vs == json::members(versions@),
                        forall|k: int|
                            0 <= k < i ==> ((#[trigger] out@[k]).0@, out@[k].1@)
                                == patched_version(all[k], range@, vs),
                    decreases o.len() - i,
                {
                    let name: Vec<char> = text::chars_of(o[i].0.as_str());
                    let value: Json = if text::starts_with(name.as_slice(), "@angular/") {
                        Json::Text(range.to_string())
                    } else {
                        match json::lookup(versions.as_slice(), o[i].0.as_str()) {
                            Some(v) => v.duplicate(),
                            None => o[i].1.duplicate(),
                        }
                    };
                    let key: String = o[i].0.clone();
                    out.push((key, value));
                    i = i + 1;
                }
                proof {
                    json::object_view(out);
                    assert(json::members(out@) =~= all.map_values(
                        |m: (Seq<char>, JsonView)| patched_version(m, range@, vs),
                    ));
                }
                Some(Json::Object(out))
            },
            _ => None,
        },
        None => None,
    };
    match new {
        Some(n) => json::set_member(package, section, n),
        None => package,
    }
}

/// Point every `@angular/*` package of the host at the project's range, and take
/// over any other version that the project asks for.
pub fn patch_angular_versions(package: Json, range: &str, versions: &Vec<(String, Json)>) -> (r:
    Json)
    ensures
        r@ == patched(package@, range@, json::members(versions@)),
{
    let one: Json = patch_section(package, "dependencies", range, versions);
    patch_section(one, "devDependencies", range, versions)
}

// ---------------------------------------------------------------------------
// Installing
// ---------------------------------------------------------------------------

/// How many packages of a project are installed at most.
pub const MAX_INSTALLS: usize = 120;

/// What npm is asked for: a package at the range that the project gives, at the
/// latest version where it gives none.
pub open spec fn install_arg(m: (Seq<char>, JsonView)) -> Seq<char> {
    m.0 + "@"@ + (match m.1 {
        JsonView::Text(t) => t,
        _ => "latest"@,
    })
}

/// What npm is asked for, in order, as far as so many packages are installed.
pub open spec fn install_args_of(package: JsonView) -> Seq<Seq<char>> {
    match section_of(package, "dependencies"@) {
        Some(o) => {
            let all = sort::sorted(
                o.map_values(|m: (Seq<char>, JsonView)| install_arg(m)),
                sort::text_le(),
            );
            if all.len() > MAX_INSTALLS {
                all.take(MAX_INSTALLS as int)
            } else {
                all
            }
        },
        None => Seq::empty(),
    }
}

/// The runtime dependencies of a project, each as `name@range`.
pub fn project_dependency_install_args(package: &Json) -> (r: Vec<String>)
    ensures
        text::texts(r@) == install_args_of(package@),
{
    let mut args: Vec<String> = Vec::new();
    match package.get("dependencies") {
        Some(v) => match v {
            Json::Object(o) => {
                proof {
                    json::object_view(*o);
                }
                let ghost all = json::members(o@);
                let mut i: usize = 0;
                while i < o.len()
                    invariant
                        i <= o.len(),
                        args@.len() == i,
                        all == json::members(o@),
                        forall|k: int| 0 <= k < i ==> #[trigger] args@[k]@ == install_arg(all[k]),
                    decreases o.len() - i,
                {
                    let range: &str = match &o[i].1 {
                        Json::Text(t) => t.as_str(),
                        _ => "latest",
                    };
                    args.push(text::cat3(o[i].0.as_str(), "@", range));
                    i = i + 1;
                }
                assert(text::texts(args@) =~= all.map_values(
                    |m: (Seq<char>, JsonView)| install_arg(m),
                ));
                let mut sorted: Vec<String> = sort::sort_texts(&args);
                if sorted.len() > MAX_INSTALLS {
                    let ghost before = text::texts(sorted@);
                    sorted.truncate(MAX_INSTALLS);
                    assert(text::texts(sorted@) =~= before.take(MAX_INSTALLS as int));
                }
                return sorted;
            },
            _ => {},
        },
        None => {},
    }
    assert(text::texts(args@) =~= Seq::<Seq<char>>::empty());
    args
}

// ---------------------------------------------------------------------------
// What is found and taken over
// ---------------------------------------------------------------------------

/// The first of the directories that has the file gives it; where none has it,
/// there is none.
pub proof fn nearest_directory_gives_the_file(
    dirs: Seq<Seq<char>>,
    name: Seq<char>,
    present: Seq<Seq<char>>,
    i: int,
    k: int,
)
    requires
        0 <= i <= k <= dirs.len(),
        forall|j: int|
            i <= j < k ==> !present.contains(path::join_of(#[trigger] dirs[j], name)),
    ensures
        k < dirs.len() && present.contains(path::join_of(dirs[k], name)) ==> nearest_from(
            dirs,
            name,
            present,
            i,
        ) == Some(path::join_of(dirs[k], name)),
        k == dirs.len() ==> nearest_from(dirs, name, present, i) is None,
    decreases k - i,
{
    if i < k {
        assert(!present.contains(path::join_of(dirs[i], name)));
        nearest_directory_gives_the_file(dirs, name, present, i + 1, k);
    }
}

/// The range for Angular is that of the first package that names it, its
/// dependencies before its development dependencies; packages before it that do not
/// name it do not count.
pub proof fn first_range_counts(packages: Seq<JsonView>, i: int, k: int)
    requires
        0 <= i <= k <= packages.len(),
        forall|j: int|
            i <= j < k ==> angular_in(#[trigger] packages[j], "dependencies"@) is None && angular_in(
                packages[j],
                "devDependencies"@,
            ) is None,
    ensures
        k < packages.len() ==> (angular_in(packages[k], "dependencies"@) matches Some(range)
            ==> range_from(packages, i) == range),
        k < packages.len() && angular_in(packages[k], "dependencies"@) is None ==> (angular_in(
            packages[k],
            "devDependencies"@,
        ) matches Some(range) ==> range_from(packages, i) == range),
        k == packages.len() ==> range_from(packages, i) == "^20.0.0"@,
    decreases k - i,
{
    if i < k {
        assert(angular_in(packages[i], "dependencies"@) is None);
        first_range_counts(packages, i + 1, k);
    }
}

proof fn digits_are_found(s: Seq<char>, i: int, n: int)
    requires
        0 <= i <= n <= s.len(),
        forall|k: int| i <= k < n ==> !text::is_digit(#[trigger] s[k]),
        n < s.len() ==> text::is_digit(s[n]),
    ensures
        digit_from(s, i) == n,
    decreases n - i,
{
    if i < n {
        assert(!text::is_digit(s[i]));
        digits_are_found(s, i + 1, n);
    }
}

proof fn digits_stop(s: Seq<char>, i: int, n: int)
    requires
        0 <= i <= n <= s.len(),
        forall|k: int| i <= k < n ==> text::is_digit(#[trigger] s[k]),
        n < s.len() ==> !text::is_digit(s[n]),
    ensures
        digits_end(s, i) == n,
    decreases n - i,
{
    if i < n {
        assert(text::is_digit(s[i]));
        digits_stop(s, i + 1, n);
    }
}

/// Digits denote the number that they are the decimal form of.
proof fn decimal_is_the_number(n: nat)
    ensures
        number_of(text::decimal(n)) == n,
        text::decimal(n).len() > 0,
        forall|i: int| 0 <= i < text::decimal(n).len() ==> '0' <= #[trigger] text::decimal(n)[i]
            <= '9',
    decreases n,
{
    if n < 10 {
        assert(text::decimal(n).drop_last() =~= Seq::<char>::empty());
        assert(number_of(Seq::<char>::empty()) == 0);
    } else {
        decimal_is_the_number(n / 10);
        assert(text::decimal(n).drop_last() =~= text::decimal(n / 10));
    }
}

/// The major version of a range is its first number, with anything but digits
/// before it and no digit right behind it.
pub proof fn major_is_the_first_number(front: Seq<char>, n: nat, rest: Seq<char>)
    requires
        n <= u32::MAX,
        forall|i: int| 0 <= i < front.len() ==> #[trigger] front[i] < '0' || front[i] > '9',
        rest.len() > 0 ==> rest[0] < '0' || rest[0] > '9',
    ensures
        major_of(front + text::decimal(n) + rest) == n,
{
    let d = text::decimal(n);
    let s = front + d + rest;
    let a = front.len() as int;
    let b = a + d.len();
    decimal_is_the_number(n);
    assert forall|k: int| 0 <= k < a implies !text::is_digit(#[trigger] s[k]) by {
        assert(s[k] == front[k]);
    }
    assert forall|k: int| a <= k < b implies text::is_digit(#[trigger] s[k]) by {
        assert(s[k] == d[k - a]);
    }
    if b < s.len() {
        assert(s[b] == rest[0]);
    }
    digits_are_found(s, 0, a);
    digits_stop(s, a, b);
    assert(s.subrange(a, b) =~= d);
}

/// A range without a digit stands for the version 20.
pub proof fn no_number_stands_for_twenty(range: Seq<char>)
    requires
        forall|i: int| 0 <= i < range.len() ==> #[trigger] range[i] < '0' || range[i] > '9',
    ensures
        major_of(range) == 20,
{
    digits_are_found(range, 0, range.len() as int);
    assert(range.subrange(range.len() as int, range.len() as int).len() == 0);
}

/// A version that is not there yet is taken over as the package gives it.
pub proof fn missing_versions_are_taken_over(
    have: Seq<(Seq<char>, JsonView)>,
    more: Seq<(Seq<char>, JsonView)>,
    name: Seq<char>,
)
    requires
        json::member(have, name) is None,
        json::keys_differ(more),
    ensures
        json::member(adopted(have, more), name) == json::member(more, name),
    decreases more.len(),
{
    json::member_from_is_least(more, name, 0);
    if more.len() > 0 {
        let head = more.drop_last();
        let last = more[more.len() - 1];
        let earlier = adopted(have, head);
        assert forall|i: int, j: int| 0 <= i < j < head.len() implies (#[trigger] head[i]).0 != (
        #[trigger] head[j]).0 by {
            assert(more[i].0 != more[j].0);
        }
        missing_versions_are_taken_over(have, head, name);
        json::member_from_is_least(head, name, 0);
        if let Some(i) = json::member_from(head, name, 0) {
            assert forall|j: int| 0 <= j < i implies more[j].0 != name by {
                assert(head[j] == more[j]);
            }
            assert(head[i] == more[i]);
            json::member_from_found(more, name, 0, i);
        } else {
            assert forall|j: int| 0 <= j < head.len() implies more[j].0 != name by {
                assert(head[j] == more[j]);
            }
            if last.0 == name {
                json::member_from_found(more, name, 0, more.len() - 1);
            }
        }
        if json::member(earlier, last.0) is None {
            pushed_member_is_read(earlier, last, name);
        }
    }
}

proof fn pushed_member_is_read(
    o: Seq<(Seq<char>, JsonView)>,
    m: (Seq<char>, JsonView),
    name: Seq<char>,
)
    requires
        json::member(o, m.0) is None,
    ensures
        json::member(o.push(m), name) == (if m.0 == name {
            Some(m.1)
        } else {
            json::member(o, name)
        }),
{
    json::member_from_is_least(o, m.0, 0);
    assert(json::inserted(o, m.0, m.1) =~= o.push(m));
    json::insert_then_read(o, m.0, m.1, name);
}

/// In the host's package file the packages of Angular have the range of the
/// project, every other one has the version of the project where there is one, and
/// the rest stays as it is; no package is added or lost.
pub proof fn project_versions_are_patched_in(
    package: JsonView,
    section: Seq<char>,
    range: Seq<char>,
    versions: Seq<(Seq<char>, JsonView)>,
    o: Seq<(Seq<char>, JsonView)>,
    k: int,
)
    requires
        json::field(package, section) == Some(JsonView::Object(o)),
        0 <= k < o.len(),
    ensures
        json::field(patched_section(package, section, range, versions), section) matches Some(
            JsonView::Object(p),
        ) && p.len() == o.len() && p[k].0 == o[k].0 && (text::starts(o[k].0, "@angular/"@)
            ==> p[k].1 == JsonView::Text(range)) && (!text::starts(o[k].0, "@angular/"@) ==> p[k].1
            == (match json::member(versions, o[k].0) {
            Some(v) => v,
            None => o[k].1,
        })),
{
    let p = o.map_values(|m: (Seq<char>, JsonView)| patched_version(m, range, versions));
    if let JsonView::Object(all) = package {
        json::insert_then_read(all, section, JsonView::Object(p), section);
    }
}

/// Each runtime dependency of a project is asked for by its name and its range, as
/// long as there are not too many; nothing else is.
pub proof fn dependencies_are_asked_for(package: JsonView, o: Seq<(Seq<char>, JsonView)>, k: int)
    requires
        json::field(package, "dependencies"@) == Some(JsonView::Object(o)),
        o.len() <= 120,
        0 <= k < o.len(),
    ensures
        install_args_of(package).len() == o.len(),
        o[k].1 matches JsonView::Text(range) ==> install_args_of(package).contains(
            o[k].0 + "@"@ + range,
        ),
{
    let all = o.map_values(|m: (Seq<char>, JsonView)| install_arg(m));
    sort::sorted_is_permutation(all, sort::text_le());
    sort::sorted_holds_the_same(all, sort::text_le());
    assert(all[k] == install_arg(o[k]));
    assert(sort::sorted(all, sort::text_le()).contains(all[k]));
}

/// Where no directory holds both files of a workspace, the nearest configuration is
/// taken; where there is none at all, there is none.
pub proof fn nearest_configuration_is_the_last_resort(
    dirs: Seq<Seq<char>>,
    present: Seq<Seq<char>>,
    k: int,
)
    requires
        0 <= k <= dirs.len(),
        forall|j: int|
            0 <= j < dirs.len() ==> !(present.contains(
                path::join_of(#[trigger] dirs[j], "tsconfig.json"@),
            ) && present.contains(path::join_of(dirs[j], "angular.json"@))),
        forall|j: int|
            0 <= j < k ==> !present.contains(path::join_of(#[trigger] dirs[j], "tsconfig.json"@)),
    ensures
        k < dirs.len() && present.contains(path::join_of(dirs[k], "tsconfig.json"@))
            ==> workspace_from(dirs, present, None, 0) == Some(
            path::join_of(dirs[k], "tsconfig.json"@),
        ),
        k == dirs.len() ==> workspace_from(dirs, present, None, 0) is None,
{
    last_resort_from(dirs, present, 0, k);
}

proof fn last_resort_from(dirs: Seq<Seq<char>>, present: Seq<Seq<char>>, i: int, k: int)
    requires
        0 <= i <= k <= dirs.len(),
        forall|j: int|
            i <= j < dirs.len() ==> !(present.contains(
                path::join_of(#[trigger] dirs[j], "tsconfig.json"@),
            ) && present.contains(path::join_of(dirs[j], "angular.json"@))),
        forall|j: int|
            i <= j < k ==> !present.contains(path::join_of(#[trigger] dirs[j], "tsconfig.json"@)),
    ensures
        k < dirs.len() && present.contains(path::join_of(dirs[k], "tsconfig.json"@))
            ==> workspace_from(dirs, present, None, i) == Some(
            path::join_of(dirs[k], "tsconfig.json"@),
        ),
        k == dirs.len() ==> workspace_from(dirs, present, None, i) is None,
    decreases k - i,
{
    if i < k {
        assert(!present.contains(path::join_of(dirs[i], "tsconfig.json"@)));
        last_resort_from(dirs, present, i + 1, k);
    } else if k < dirs.len() && present.contains(path::join_of(dirs[k], "tsconfig.json"@)) {
        assert(!present.contains(path::join_of(dirs[k], "angular.json"@)));
        found_one_is_kept(dirs, present, path::join_of(dirs[k], "tsconfig.json"@), k + 1);
    }
}

proof fn found_one_is_kept(
    dirs: Seq<Seq<char>>,
    present: Seq<Seq<char>>,
    nearest: Seq<char>,
    i: int,
)
    requires
        0 <= i <= dirs.len(),
        forall|j: int|
            i <= j < dirs.len() ==> !(present.contains(
                path::join_of(#[trigger] dirs[j], "tsconfig.json"@),
            ) && present.contains(path::join_of(dirs[j], "angular.json"@))),
    ensures
        workspace_from(dirs, present, Some(nearest), i) == Some(nearest),
    decreases dirs.len() - i,
{
    if i < dirs.len() {
        assert(!(present.contains(path::join_of(dirs[i], "tsconfig.json"@)) && present.contains(
            path::join_of(dirs[i], "angular.json"@),
        )));
        found_one_is_kept(dirs, present, nearest, i + 1);
    }
}

/// No more packages are asked for than are allowed, and as many as there are where
/// there are fewer.
pub proof fn asked_packages_are_bounded(package: JsonView, o: Seq<(Seq<char>, JsonView)>)
    requires
        json::field(package, "dependencies"@) == Some(JsonView::Object(o)),
    ensures
        install_args_of(package).len() == (if o.len() < 120 {
            o.len()
        } else {
            120
        }),
{
    sort::sorted_is_permutation(
        o.map_values(|m: (Seq<char>, JsonView)| install_arg(m)),
        sort::text_le(),
    );
}

/// What was taken over stays when more packages are looked at.
pub proof fn known_versions_stay(
    have: Seq<(Seq<char>, JsonView)>,
    more: Seq<(Seq<char>, JsonView)>,
    name: Seq<char>,
)
    requires
        json::member(have, name) is Some,
    ensures
        json::member(adopted(have, more), name) == json::member(have, name),
    decreases more.len(),
{
    if more.len() > 0 {
        known_versions_stay(have, more.drop_last(), name);
        let earlier = adopted(have, more.drop_last());
        let all = adopted(have, more);
        json::member_from_is_least(earlier, name, 0);
        let i = json::member_from(earlier, name, 0)->0;
        assert forall|j: int| 0 <= j < i implies all[j].0 != name by {
            assert(all[j] == earlier[j]);
        }
        assert(all[i] == earlier[i]);
        json::member_from_found(all, name, 0, i);
    }
}

/// The first package decides on the version of what it depends on, before those
/// that follow and before what it needs for development.
pub proof fn first_package_decides(
    packages: Seq<JsonView>,
    n: int,
    o: Seq<(Seq<char>, JsonView)>,
    k: int,
)
    requires
        1 <= n <= packages.len(),
        json::field(packages[0], "dependencies"@) == Some(JsonView::Object(o)),
        json::keys_differ(o),
        0 <= k < o.len(),
    ensures
        json::member(versions_of(packages, n), o[k].0) == Some(o[k].1),
    decreases n,
{
    let name = o[k].0;
    let none = Seq::<(Seq<char>, JsonView)>::empty();
    let earlier = versions_of(packages, n - 1);
    let between = with_section(earlier, packages[n - 1], "dependencies"@);
    if n == 1 {
        json::member_from_is_least(none, name, 0);
        json::members_are_read(o, k);
        missing_versions_are_taken_over(none, o, name);
    } else {
        first_package_decides(packages, n - 1, o, k);
        if let Some(more) = section_of(packages[n - 1], "dependencies"@) {
            known_versions_stay(earlier, more, name);
        }
    }
    if let Some(more) = section_of(packages[n - 1], "devDependencies"@) {
        known_versions_stay(between, more, name);
    }
}

} // verus!
