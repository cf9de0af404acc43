//! JSON values as the library reads and builds them.

use crate::text;
use serde_json::{Number, Value};
use vstd::prelude::*;

verus! {

/// A JSON value. An object is the list of its members, in the order in which
/// they were added; no key stands twice in an object that the functions below
/// have built.
#[derive(Debug, PartialEq)]
pub enum Json {
    Null,
    Bool(bool),
    /// A number, by its JSON text.
    Number(String),
    Text(String),
    Array(Vec<Json>),
    Object(Vec<(String, Json)>),
}

/// What a JSON value holds.
#[verifier::ext_equal]
pub enum JsonView {
    Null,
    Bool(bool),
    Number(Seq<char>),
    Text(Seq<char>),
    Array(Seq<JsonView>),
    Object(Seq<(Seq<char>, JsonView)>),
}

impl Json {
    pub open spec fn view(self) -> JsonView
        decreases self,
    {
        match self {
            Json::Null => JsonView::Null,
            Json::Bool(b) => JsonView::Bool(b),
            Json::Number(t) => JsonView::Number(t@),
            Json::Text(t) => JsonView::Text(t@),
            Json::Array(v) => JsonView::Array(
                Seq::new(
                    v@.len(),
                    |i: int|
                        if 0 <= i < v@.len() {
                            v@[i].view()
                        } else {
                            JsonView::Null
                        },
                ),
            ),
            Json::Object(v) => JsonView::Object(
                Seq::new(
                    v@.len(),
                    |i: int|
                        if 0 <= i < v@.len() {
                            (v@[i].0@, v@[i].1.view())
                        } else {
                            (Seq::empty(), JsonView::Null)
                        },
                ),
            ),
        }
    }
}

/// What a list of JSON values holds.
pub open spec fn items(v: Seq<Json>) -> Seq<JsonView> {
    Seq::new(v.len(), |i: int| v[i]@)
}

/// What the members of an object hold.
pub open spec fn members(v: Seq<(String, Json)>) -> Seq<(Seq<char>, JsonView)> {
    Seq::new(v.len(), |i: int| (v[i].0@, v[i].1@))
}

pub proof fn array_view(v: Vec<Json>)
    ensures
        Json::Array(v)@ == JsonView::Array(items(v@)),
{
    let seen = Json::Array(v)@->Array_0;
    assert forall|i: int| 0 <= i < v@.len() implies #[trigger] seen[i] == items(v@)[i] by {
        assert(seen[i] == v@[i]@);
    }
    assert(seen =~= items(v@));
}

pub proof fn object_view(v: Vec<(String, Json)>)
    ensures
        Json::Object(v)@ == JsonView::Object(members(v@)),
{
    let seen = Json::Object(v)@->Object_0;
    assert forall|i: int| 0 <= i < v@.len() implies #[trigger] seen[i] == members(v@)[i] by {
        assert(seen[i] == (v@[i].0@, v@[i].1@));
    }
    assert(seen =~= members(v@));
}

// ---------------------------------------------------------------------------
// Objects
// ---------------------------------------------------------------------------

/// The position of the first member from `from` on whose key is `key`.
pub open spec fn member_from(o: Seq<(Seq<char>, JsonView)>, key: Seq<char>, from: int) -> Option<int>
    decreases o.len() - from,
{
    if from < 0 || from >= o.len() {
        None
    } else if o[from].0 == key {
        Some(from)
    } else {
        member_from(o, key, from + 1)
    }
}

/// The value of a key.
pub open spec fn member(o: Seq<(Seq<char>, JsonView)>, key: Seq<char>) -> Option<JsonView> {
    match member_from(o, key, 0) {
        Some(i) => Some(o[i].1),
        None => None,
    }
}

/// The members once `key` has the value `value`: a key that is there keeps its
/// place, a new one comes last.
pub open spec fn inserted(
    o: Seq<(Seq<char>, JsonView)>,
    key: Seq<char>,
    value: JsonView,
) -> Seq<(Seq<char>, JsonView)> {
    match member_from(o, key, 0) {
        Some(i) => o.update(i, (key, value)),
        None => o.push((key, value)),
    }
}

/// The value of a key of an object; a value of another form has no members.
pub open spec fn field(j: JsonView, key: Seq<char>) -> Option<JsonView> {
    match j {
        JsonView::Object(o) => member(o, key),
        _ => None,
    }
}

/// The value that a path of keys leads to.
pub open spec fn field_at(j: JsonView, path: Seq<Seq<char>>) -> Option<JsonView>
    decreases path.len(),
{
    if path.len() == 0 {
        Some(j)
    } else {
        match field(j, path[0]) {
            Some(inner) => field_at(inner, path.skip(1)),
            None => None,
        }
    }
}

/// The text of a text value.
pub open spec fn as_text(j: Option<JsonView>) -> Option<Seq<char>> {
    match j {
        Some(JsonView::Text(t)) => Some(t),
        _ => None,
    }
}

/// The number of a number value that is natural and fits in 64 bits.
pub open spec fn as_natural(j: Option<JsonView>) -> Option<nat> {
    match j {
        Some(JsonView::Number(t)) => text::natural_of(t),
        _ => None,
    }
}

/// A natural number as a value.
pub open spec fn natural_value(n: nat) -> JsonView {
    JsonView::Number(text::decimal(n))
}

/// A text as a value, or null where there is none.
pub open spec fn text_or_null(t: Option<Seq<char>>) -> JsonView {
    match t {
        Some(t) => JsonView::Text(t),
        None => JsonView::Null,
    }
}

/// A value that members can be added to: an object, or null, which becomes one.
pub open spec fn extensible(j: JsonView) -> bool {
    j is Object || j is Null
}

/// The value once its member `key` is `value`.
pub open spec fn with_member(j: JsonView, key: Seq<char>, value: JsonView) -> JsonView {
    match j {
        JsonView::Object(o) => JsonView::Object(inserted(o, key, value)),
        _ => JsonView::Object(seq![(key, value)]),
    }
}

/// The member `key`, or null where there is none.
pub open spec fn member_or_null(j: JsonView, key: Seq<char>) -> JsonView {
    match field(j, key) {
        Some(v) => v,
        None => JsonView::Null,
    }
}

/// Whether the member at the end of `path` can be set: every value on the way
/// is an object, null or absent.
pub open spec fn settable(j: JsonView, path: Seq<Seq<char>>) -> bool
    decreases path.len(),
{
    path.len() > 0 ==> extensible(j) && settable(member_or_null(j, path[0]), path.skip(1))
}

/// The value once the member at the end of `path` is `value`.
pub open spec fn with_path(j: JsonView, path: Seq<Seq<char>>, value: JsonView) -> JsonView
    decreases path.len(),
{
    if path.len() == 0 {
        value
    } else {
        with_member(j, path[0], with_path(member_or_null(j, path[0]), path.skip(1), value))
    }
}

pub proof fn member_from_is_least(o: Seq<(Seq<char>, JsonView)>, key: Seq<char>, from: int)
    requires
        0 <= from,
    ensures
        match member_from(o, key, from) {
            Some(i) => from <= i < o.len() && o[i].0 == key && forall|j: int|
                from <= j < i ==> o[j].0 != key,
            None => forall|j: int| from <= j < o.len() ==> o[j].0 != key,
        },
    decreases o.len() - from,
{
    if from < o.len() && o[from].0 != key {
        member_from_is_least(o, key, from + 1);
    }
}

/// A search for a key finds the position that satisfies what is said of the
/// least one.
pub proof fn member_from_found(o: Seq<(Seq<char>, JsonView)>, key: Seq<char>, from: int, i: int)
    requires
        0 <= from <= i < o.len(),
        o[i].0 == key,
        forall|j: int| from <= j < i ==> o[j].0 != key,
    ensures
        member_from(o, key, from) == Some(i),
    decreases i - from,
{
    if from < i {
        member_from_found(o, key, from + 1, i);
    }
}

/// Reading a key back gives what was inserted there, and every other key is
/// read as before.
pub proof fn insert_then_read(
    o: Seq<(Seq<char>, JsonView)>,
    key: Seq<char>,
    value: JsonView,
    other: Seq<char>,
)
    ensures
        member(inserted(o, key, value), key) == Some(value),
        other != key ==> member(inserted(o, key, value), other) == member(o, other),
{
    let n = inserted(o, key, value);
    member_from_is_least(o, key, 0);
    member_from_is_least(n, key, 0);
    member_from_is_least(o, other, 0);
    member_from_is_least(n, other, 0);
    match member_from(o, key, 0) {
        Some(i) => {
            assert forall|j: int| 0 <= j < i implies n[j].0 != key by {
                assert(n[j] == o[j]);
            }
            member_from_found(n, key, 0, i);
            if other != key {
                match member_from(o, other, 0) {
                    Some(k) => {
                        assert(n[k] == o[k]);
                        assert forall|j: int| 0 <= j < k implies n[j].0 != other by {
                            if j != i {
                                assert(n[j] == o[j]);
                            }
                        }
                        member_from_found(n, other, 0, k);
                    },
                    None => {
                        match member_from(n, other, 0) {
                            Some(k) => {
                                if k != i {
                                    assert(n[k] == o[k]);
                                }
                            },
                            None => {},
                        }
                    },
                }
            }
        },
        None => {
            let last = o.len() as int;
            assert forall|j: int| 0 <= j < last implies n[j].0 != key by {
                assert(n[j] == o[j]);
            }
            member_from_found(n, key, 0, last);
            if other != key {
                match member_from(o, other, 0) {
                    Some(k) => {
                        assert(n[k] == o[k]);
                        assert forall|j: int| 0 <= j < k implies n[j].0 != other by {
                            assert(n[j] == o[j]);
                        }
                        member_from_found(n, other, 0, k);
                    },
                    None => {
                        match member_from(n, other, 0) {
                            Some(k) => {
                                if k < last {
                                    assert(n[k] == o[k]);
                                }
                            },
                            None => {},
                        }
                    },
                }
            }
        },
    }
}

/// A key occurs at most once.
pub open spec fn keys_differ(o: Seq<(Seq<char>, JsonView)>) -> bool {
    forall|i: int, j: int| 0 <= i < j < o.len() ==> (#[trigger] o[i]).0 != (#[trigger] o[j]).0
}

/// Insertion keeps the keys of an object apart.
pub proof fn insert_keeps_keys_apart(
    o: Seq<(Seq<char>, JsonView)>,
    key: Seq<char>,
    value: JsonView,
)
    requires
        keys_differ(o),
    ensures
        keys_differ(inserted(o, key, value)),
{
    member_from_is_least(o, key, 0);
}

/// The position of the first member whose key is `key`.
pub fn find_member(o: &[(String, Json)], key: &str) -> (r: Option<usize>)
    ensures
        text::position(r) == member_from(members(o@), key@, 0),
        r matches Some(i) ==> i < o@.len() && o@[i as int].0@ == key@,
{
    let mut i: usize = 0;
    while i < o.len()
        invariant
            i <= o.len(),
            member_from(members(o@), key@, 0) == member_from(members(o@), key@, i as int),
        decreases o.len() - i,
    {
        assert(members(o@)[i as int].0 == o@[i as int].0@);
        if text::equal(o[i].0.as_str(), key) {
            return Some(i);
        }
        i = i + 1;
    }
    None
}

/// The value of a key in a list of members.
pub fn lookup<'a>(o: &'a [(String, Json)], key: &str) -> (r: Option<&'a Json>)
    ensures
        match r {
            Some(v) => member(members(o@), key@) == Some(v@),
            None => member(members(o@), key@) is None,
        },
{
    match find_member(o, key) {
        Some(i) => {
            assert(members(o@)[i as int].1 == o@[i as int].1@);
            Some(&o[i].1)
        },
        None => None,
    }
}

/// Set the value of a key in a list of members.
pub fn put(o: &mut Vec<(String, Json)>, key: String, value: Json)
    ensures
        members(final(o)@) == inserted(members(old(o)@), key@, value@),
{
    let ghost before = o@;
    let ghost new = (key@, value@);
    match find_member(o.as_slice(), key.as_str()) {
        Some(i) => {
            o.set(i, (key, value));
            assert(members(o@) =~= members(before).update(i as int, new));
        },
        None => {
            o.push((key, value));
            assert(members(o@) =~= members(before).push(new));
        },
    }
}

impl Json {
    /// The value of a key of an object.
    pub fn get(&self, key: &str) -> (r: Option<&Json>)
        ensures
            match r {
                Some(v) => field(self@, key@) == Some(v@),
                None => field(self@, key@) is None,
            },
    {
        match self {
            Json::Object(o) => {
                proof {
                    object_view(*o);
                }
                lookup(o.as_slice(), key)
            },
            _ => None,
        }
    }

    /// The value that a path of keys leads to.
    pub fn get_at(&self, path: &[&str]) -> (r: Option<&Json>)
        ensures
            match r {
                Some(v) => field_at(self@, keys(path@)) == Some(v@),
                None => field_at(self@, keys(path@)) is None,
            },
    {
        let mut here: &Json = self;
        let mut i: usize = 0;
        assert(keys(path@).skip(0) =~= keys(path@));
        while i < path.len()
            invariant
                i <= path.len(),
                field_at(self@, keys(path@)) == field_at(here@, keys(path@).skip(i as int)),
            decreases path.len() - i,
        {
            let ghost rest = keys(path@).skip(i as int);
            assert(rest[0] == path@[i as int]@);
            assert(rest.skip(1) =~= keys(path@).skip(i + 1));
            match here.get(path[i]) {
                Some(inner) => {
                    here = inner;
                },
                None => {
                    return None;
                },
            }
            i = i + 1;
        }
        Some(here)
    }

    /// The text of a text value.
    pub fn text(&self) -> (r: Option<&str>)
        ensures
            match r {
                Some(t) => self@ == JsonView::Text(t@),
                None => !(self@ is Text),
            },
    {
        match self {
            Json::Text(t) => Some(t.as_str()),
            _ => None,
        }
    }

    /// The number of a number value that is natural and fits in 64 bits.
    pub fn natural(&self) -> (r: Option<u64>)
        ensures
            match r {
                Some(n) => as_natural(Some(self@)) == Some(n as nat),
                None => as_natural(Some(self@)) is None,
            },
    {
        match self {
            Json::Number(t) => text::natural(t.as_str()),
            _ => None,
        }
    }

    /// The text of a member, where it is a text.
    pub fn text_at(&self, key: &str) -> (r: Option<&str>)
        ensures
            text::opt_str(r) == as_text(field(self@, key@)),
    {
        match self.get(key) {
            Some(v) => v.text(),
            None => None,
        }
    }

    /// The number of a member, where it is natural and fits in 64 bits.
    pub fn natural_at(&self, key: &str) -> (r: Option<u64>)
        ensures
            match r {
                Some(n) => as_natural(field(self@, key@)) == Some(n as nat),
                None => as_natural(field(self@, key@)) is None,
            },
    {
        match self.get(key) {
            Some(v) => v.natural(),
            None => None,
        }
    }

    /// A copy.
    pub fn duplicate(&self) -> (r: Json)
        ensures
            r@ == self@,
        decreases self,
    {
        match self {
            Json::Null => Json::Null,
            Json::Bool(b) => Json::Bool(*b),
            Json::Number(t) => Json::Number(t.clone()),
            Json::Text(t) => Json::Text(t.clone()),
            Json::Array(v) => {
                let mut out: Vec<Json> = Vec::new();
                let mut i: usize = 0;
                while i < v.len()
                    invariant
                        i <= v.len(),
                        out@.len() == i,
                        self matches Json::Array(w) && w == v,
                        forall|k: int| 0 <= k < i ==> #[trigger] out@[k]@ == v@[k]@,
                    decreases v.len() - i,
                {
                    out.push(v[i].duplicate());
                    i = i + 1;
                }
                proof {
                    array_view(*v);
                    array_view(out);
                    assert(items(out@) =~= items(v@));
                }
                Json::Array(out)
            },
            Json::Object(v) => {
                let out: Vec<(String, Json)> = duplicate_members(v);
                proof {
                    object_view(*v);
                    object_view(out);
                }
                Json::Object(out)
            },
        }
    }
}

/// A copy of a list of members.
pub fn duplicate_members(v: &Vec<(String, Json)>) -> (r: Vec<(String, Json)>)
    ensures
        members(r@) == members(v@),
    decreases v,
{
    let mut out: Vec<(String, Json)> = Vec::new();
    let mut i: usize = 0;
    while i < v.len()
        invariant
            i <= v.len(),
            out@.len() == i,
            forall|k: int|
                0 <= k < i ==> (#[trigger] out@[k]).0@ == v@[k].0@ && out@[k].1@ == v@[k].1@,
        decreases v.len() - i,
    {
        let key: String = v[i].0.clone();
        let value: Json = v[i].1.duplicate();
        out.push((key, value));
        i = i + 1;
    }
    assert(members(out@) =~= members(v@));
    out
}

/// The texts of a path of keys.
pub open spec fn keys(path: Seq<&str>) -> Seq<Seq<char>> {
    path.map_values(|k: &str| k@)
}

/// Set the member `key` of an object, or of null, which becomes an object.
pub fn set_member(j: Json, key: &str, value: Json) -> (r: Json)
    requires
        extensible(j@),
    ensures
        r@ == with_member(j@, key@, value@),
{
    let ghost before = j@;
    let ghost new = value@;
    match j {
        Json::Object(o) => {
            proof {
                object_view(o);
            }
            let mut o: Vec<(String, Json)> = o;
            put(&mut o, key.to_string(), value);
            proof {
                object_view(o);
            }
            Json::Object(o)
        },
        _ => {
            let mut o: Vec<(String, Json)> = Vec::new();
            o.push((key.to_string(), value));
            proof {
                object_view(o);
                assert(members(o@) =~= seq![(key@, new)]);
            }
            Json::Object(o)
        },
    }
}

/// Set the member at the end of a path of keys.
pub fn set_path(j: Json, path: &[&str], value: Json) -> (r: Json)
    requires
        settable(j@, keys(path@)),
    ensures
        r@ == with_path(j@, keys(path@), value@),
    decreases path@.len(),
{
    if path.len() == 0 {
        return value;
    }
    let rest: &[&str] = vstd::slice::slice_subrange(path, 1, path.len());
    proof {
        assert(keys(path@)[0] == path@[0]@);
        assert(keys(rest@) =~= keys(path@).skip(1));
    }
    let inner: Json = match j.get(path[0]) {
        Some(v) => v.duplicate(),
        None => Json::Null,
    };
    let inner: Json = set_path(inner, rest, value);
    set_member(j, path[0], inner)
}

/// Whether the member at the end of a path of keys can be set.
pub fn can_set(j: &Json, path: &[&str]) -> (r: bool)
    ensures
        r == settable(j@, keys(path@)),
    decreases path@.len(),
{
    if path.len() == 0 {
        return true;
    }
    let rest: &[&str] = vstd::slice::slice_subrange(path, 1, path.len());
    proof {
        assert(keys(path@)[0] == path@[0]@);
        assert(keys(rest@) =~= keys(path@).skip(1));
    }
    match j {
        Json::Object(_) => match j.get(path[0]) {
            Some(v) => can_set(v, rest),
            None => can_set(&Json::Null, rest),
        },
        Json::Null => can_set(&Json::Null, rest),
        _ => false,
    }
}

/// No members.
pub fn no_members() -> (r: Vec<(String, Json)>)
    ensures
        members(r@) == Seq::<(Seq<char>, JsonView)>::empty(),
{
    let r: Vec<(String, Json)> = Vec::new();
    assert(members(r@) =~= Seq::<(Seq<char>, JsonView)>::empty());
    r
}

/// Append a member.
pub fn append(o: &mut Vec<(String, Json)>, key: &str, value: Json)
    ensures
        members(final(o)@) == members(old(o)@).push((key@, value@)),
{
    let ghost before = members(o@);
    let ghost new = (key@, value@);
    o.push((key.to_string(), value));
    assert(members(o@) =~= before.push(new));
}

/// The object with these members.
pub fn object(o: Vec<(String, Json)>) -> (r: Json)
    ensures
        r@ == JsonView::Object(members(o@)),
{
    proof {
        object_view(o);
    }
    Json::Object(o)
}

/// The array with one value.
pub fn singleton(v: Json) -> (r: Json)
    ensures
        r@ == JsonView::Array(seq![v@]),
{
    let ghost view = v@;
    let mut a: Vec<Json> = Vec::new();
    a.push(v);
    proof {
        array_view(a);
        assert(items(a@) =~= seq![view]);
    }
    Json::Array(a)
}

/// The array with these values.
pub fn array(v: Vec<Json>) -> (r: Json)
    ensures
        r@ == JsonView::Array(items(v@)),
{
    proof {
        array_view(v);
    }
    Json::Array(v)
}

/// A text as a value.
pub fn text_value(t: &str) -> (r: Json)
    ensures
        r@ == JsonView::Text(t@),
{
    Json::Text(t.to_string())
}

/// A text as a value, or null where there is none.
pub fn optional_text(t: Option<&str>) -> (r: Json)
    ensures
        r@ == text_or_null(text::opt_str(t)),
{
    match t {
        Some(t) => text_value(t),
        None => Json::Null,
    }
}

/// A natural number as a value.
pub fn number_value(n: u64) -> (r: Json)
    ensures
        r@ == natural_value(n as nat),
{
    Json::Number(text::number_text(n))
}

/// A list of texts as a JSON array.
pub open spec fn text_array(v: Seq<Seq<char>>) -> JsonView {
    JsonView::Array(v.map_values(|t: Seq<char>| JsonView::Text(t)))
}

pub fn array_of_texts(v: &Vec<String>) -> (r: Json)
    ensures
        r@ == text_array(text::texts(v@)),
{
    let mut out: Vec<Json> = Vec::new();
    let mut i: usize = 0;
    while i < v.len()
        invariant
            i <= v.len(),
            out@.len() == i,
            forall|k: int| 0 <= k < i ==> #[trigger] out@[k]@ == JsonView::Text(v@[k]@),
        decreases v.len() - i,
    {
        out.push(Json::Text(v[i].clone()));
        i = i + 1;
    }
    proof {
        array_view(out);
        assert(items(out@) =~= text::texts(v@).map_values(|t: Seq<char>| JsonView::Text(t)));
    }
    Json::Array(out)
}

// ---------------------------------------------------------------------------
// Reading and printing
// ---------------------------------------------------------------------------

/// What `serde_json::from_str` reads from a text: the value, with the members
/// of each object by key in ascending order, or the message of its error.
pub uninterp spec fn json_read(text: Seq<char>) -> Result<JsonView, Seq<char>>;

/// What `serde_json::to_string` prints of a value.
pub uninterp spec fn json_compact(j: JsonView) -> Seq<char>;

/// What `serde_json::to_string_pretty` prints of a value.
pub uninterp spec fn json_pretty(j: JsonView) -> Seq<char>;

/// The keys of an object come in ascending order, each once.
pub open spec fn keys_ascend(o: Seq<(Seq<char>, JsonView)>) -> bool {
    forall|i: int, j: int|
        0 <= i < j < o.len() ==> text::text_less((#[trigger] o[i]).0, (#[trigger] o[j]).0)
}

/// Whether an object starts with a key that `serde_json` keeps for itself: it
/// reads such an object as the value that it stands for.
pub open spec fn is_marked(o: Seq<(Seq<char>, JsonView)>) -> bool {
    o.len() > 0 && (o[0].0 == "$serde_json::private::RawValue"@ || o[0].0
        == "$serde_json::private::Number"@)
}

/// An object whose first key is short does not start with such a key.
pub proof fn short_keys_are_plain(o: Seq<(Seq<char>, JsonView)>)
    requires
        o.len() > 0 ==> o[0].0.len() < 28,
    ensures
        !is_marked(o),
{
    reveal_strlit("$serde_json::private::RawValue");
    reveal_strlit("$serde_json::private::Number");
}

/// How deep a value may nest to be read back.
pub const MAX_NESTING: u64 = 100;

/// Whether a value has the form in which it is read back once it was printed:
/// its numbers are natural, its keys ascend, none of its objects starts with a
/// key that `serde_json` keeps for itself, and it nests no more than `levels`
/// deep.
pub open spec fn reads_back(j: JsonView, levels: nat) -> bool
    decreases levels,
{
    match j {
        JsonView::Number(t) => text::natural_of(t) matches Some(n) && t == text::decimal(n),
        JsonView::Array(v) => levels > 0 && forall|i: int|
            0 <= i < v.len() ==> reads_back(#[trigger] v[i], (levels - 1) as nat),
        JsonView::Object(o) => levels > 0 && keys_ascend(o) && !is_marked(o) && forall|i: int|
            0 <= i < o.len() ==> reads_back((#[trigger] o[i]).1, (levels - 1) as nat),
        _ => true,
    }
}

/// `serde_json::Value`, which is handed from the parser to the conversion and
/// from the conversion to the printers.
#[verifier::external_type_specification]
#[verifier::external_body]
pub struct ExValue(Value);

/// The form of a `serde_json::Value` in this library; nothing is claimed of it.
#[verifier::external_body]
fn from_value(v: Value) -> Json {
    match v {
        Value::Null => Json::Null,
        Value::Bool(b) => Json::Bool(b),
        Value::Number(n) => Json::Number(n.to_string()),
        Value::String(t) => Json::Text(t),
        Value::Array(a) => Json::Array(a.into_iter().map(from_value).collect()),
        Value::Object(o) => Json::Object(o.into_iter().map(|(k, v)| (k, from_value(v))).collect()),
    }
}

/// The `serde_json::Value` of a value of this library, with null in the place of
/// a number whose text is none; nothing is claimed of it.
#[verifier::external_body]
fn to_value(j: &Json) -> Value {
    match j {
        Json::Null => Value::Null,
        Json::Bool(b) => Value::Bool(*b),
        Json::Number(t) => t.parse::<Number>().map(Value::Number).unwrap_or(Value::Null),
        Json::Text(t) => Value::String(t.clone()),
        Json::Array(a) => Value::Array(a.iter().map(to_value).collect()),
        Json::Object(o) => Value::Object(o.iter().map(|(k, v)| (k.clone(), to_value(v))).collect()),
    }
}

/// `serde_json::from_str` into a `serde_json::Value`: what it reads, or its
/// error's message, depends on the text alone.
#[verifier::external_body]
pub(crate) fn read(text: &str) -> (r: Result<Json, String>)
    ensures
        match r {
            Ok(j) => json_read(text@) == Ok::<JsonView, Seq<char>>(j@),
            Err(e) => json_read(text@) == Err::<JsonView, Seq<char>>(e@),
        },
{
    match serde_json::from_str::<Value>(text) {
        Ok(v) => Ok(from_value(v)),
        Err(e) => Err(e.to_string()),
    }
}

/// `serde_json::to_string` of a `serde_json::Value`, which does not fail: what
/// it prints depends on the value alone, holds no line break, and is read back
/// by `serde_json::from_str` where the value has the form for it. Nothing is
/// said of reading back other values, such as those with fractions.
#[verifier::external_body]
pub(crate) fn compact(j: &Json) -> (r: String)
    ensures
        r@ == json_compact(j@),
        !r@.contains('\n'),
        reads_back(j@, MAX_NESTING as nat) ==> (json_read(r@) == Ok::<JsonView, Seq<char>>(j@)),
{
    serde_json::to_string(&to_value(j)).unwrap_or_default()
}

/// `serde_json::to_string_pretty` of a `serde_json::Value`, which does not
/// fail: what it prints depends on the value alone.
#[verifier::external_body]
pub(crate) fn pretty(j: &Json) -> (r: String)
    ensures
        r@ == json_pretty(j@),
{
    serde_json::to_string_pretty(&to_value(j)).unwrap_or_default()
}

/// In an object whose keys differ each member is read under its key.
pub proof fn members_are_read(o: Seq<(Seq<char>, JsonView)>, i: int)
    requires
        keys_differ(o),
        0 <= i < o.len(),
    ensures
        field(JsonView::Object(o), o[i].0) == Some(o[i].1),
        member(o, o[i].0) == Some(o[i].1),
{
    assert forall|j: int| 0 <= j < i implies o[j].0 != o[i].0 by {
        assert(o[j].0 != o[i].0);
    }
    member_from_found(o, o[i].0, 0, i);
}

/// What was set at the end of a path is read there.
pub proof fn path_is_read_back(j: JsonView, path: Seq<Seq<char>>, value: JsonView)
    ensures
        field_at(with_path(j, path, value), path) == Some(value),
    decreases path.len(),
{
    if path.len() > 0 {
        let inner = with_path(member_or_null(j, path[0]), path.skip(1), value);
        path_is_read_back(member_or_null(j, path[0]), path.skip(1), value);
        match j {
            JsonView::Object(o) => {
                insert_then_read(o, path[0], inner, path[0]);
            },
            _ => {
                let none = Seq::<(Seq<char>, JsonView)>::empty();
                insert_then_read(none, path[0], inner, path[0]);
                assert(inserted(none, path[0], inner) =~= seq![(path[0], inner)]);
            },
        }
    }
}

/// Setting what a path leads to leaves every other member of the value as it was.
pub proof fn other_members_stay(
    j: JsonView,
    path: Seq<Seq<char>>,
    value: JsonView,
    other: Seq<char>,
)
    requires
        path.len() > 0,
        extensible(j),
        other != path[0],
    ensures
        field(with_path(j, path, value), other) == field(j, other),
{
    let inner = with_path(member_or_null(j, path[0]), path.skip(1), value);
    match j {
        JsonView::Object(o) => {
            insert_then_read(o, path[0], inner, other);
        },
        _ => {
            let none = Seq::<(Seq<char>, JsonView)>::empty();
            insert_then_read(none, path[0], inner, other);
            assert(inserted(none, path[0], inner) =~= seq![(path[0], inner)]);
            member_from_is_least(none, other, 0);
        },
    }
}

} // verus!
