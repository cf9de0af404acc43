//! Fictional typed data for component inputs.
//!
//! `name = input.required<T>()`, `name = input<T>(d)` and `name = model<T>(d)`
//! declarations are read from a component's source, the types they mention are
//! looked up in the sources around it, nearest first, and a value is made up for
//! each by its type and the name of the field it fills. The same source gives
//! the same data.

use crate::json;
use crate::json::{Json, JsonView};
use crate::path;
use crate::scan;
use crate::scan::Cut;
use crate::sort;
use crate::text;
use vstd::prelude::*;

verus! {

// ---------------------------------------------------------------------------
// Input declarations
// ---------------------------------------------------------------------------

/// An input declaration of a component.
#[derive(Debug, Clone)]
pub struct ParsedInput {
    pub name: String,
    pub required: bool,
    pub generic: Option<String>,
    pub has_default: bool,
}

/// What an input declaration says.
#[verifier::ext_equal]
pub struct InputView {
    pub name: Seq<char>,
    pub required: bool,
    pub generic: Option<Seq<char>>,
    pub has_default: bool,
}

impl View for ParsedInput {
    type V = InputView;

    open spec fn view(&self) -> InputView {
        InputView {
            name: self.name@,
            required: self.required,
            generic: match self.generic {
                Some(g) => Some(g@),
                None => None,
            },
            has_default: self.has_default,
        }
    }
}

/// The identifier that ends where the text before `at`, without the white space
/// at its end, ends.
pub open spec fn name_before(s: Seq<char>, at: int) -> Seq<char> {
    let end = text::before_space(s, at);
    s.subrange(text::ident_start(s, end), end)
}

/// Whether the function `name` is called at `at`: behind its name stand its type
/// arguments or its arguments.
pub open spec fn is_called(s: Seq<char>, name: Seq<char>, at: int) -> bool {
    let end = at + name.len();
    text::occurs_at(s, name, at) && end < s.len() && (s[end] == '<' || s[end] == '(')
}

/// The function that an input is declared with, where one is called at `at`: its
/// name, and whether it makes the input a required one.
pub open spec fn declared_with(s: Seq<char>, at: int) -> Option<(Seq<char>, bool)> {
    if is_called(s, "input.required"@, at) {
        Some(("input.required"@, true))
    } else if is_called(s, "input"@, at) {
        Some(("input"@, false))
    } else if is_called(s, "model"@, at) {
        Some(("model"@, false))
    } else {
        None
    }
}

/// The input that is declared by the `=` at `eq`.
pub open spec fn declaration_at(s: Seq<char>, eq: int) -> Option<InputView> {
    let name = name_before(s, eq);
    let start = text::past_space(s, eq + 1);
    match declared_with(s, start) {
        Some((token, required)) => if name.len() > 0 {
            let pos = start + token.len();
            let (generic, call) = match scan::block_at(s, pos, '<', '>') {
                Some((inner, close)) => (Some(inner), close + 1),
                None => (None, pos),
            };
            Some(
                InputView {
                    name,
                    required,
                    generic,
                    has_default: match scan::block_at(s, call, '(', ')') {
                        Some((inner, _)) => text::trimmed(inner).len() > 0,
                        None => false,
                    },
                },
            )
        } else {
            None
        },
        None => None,
    }
}

/// Whether an input of this name is among the declarations.
pub open spec fn declares(inputs: Seq<InputView>, name: Seq<char>) -> bool {
    exists|k: int| 0 <= k < inputs.len() && (#[trigger] inputs[k]).name == name
}

/// The inputs that are declared before `to`; of two declarations of one name
/// the first counts.
pub open spec fn inputs_before(s: Seq<char>, to: int) -> Seq<InputView>
    decreases to,
{
    if to <= 0 || to > s.len() {
        Seq::empty()
    } else {
        let earlier = inputs_before(s, to - 1);
        if s[to - 1] != '=' {
            earlier
        } else {
            match declaration_at(s, to - 1) {
                Some(input) => if declares(earlier, input.name) {
                    earlier
                } else {
                    earlier.push(input)
                },
                None => earlier,
            }
        }
    }
}

/// The inputs that a source declares.
pub open spec fn inputs_of(s: Seq<char>) -> Seq<InputView> {
    inputs_before(s, s.len() as int)
}

pub open spec fn inputs_view(v: Seq<ParsedInput>) -> Seq<InputView> {
    v.map_values(|i: ParsedInput| i@)
}

fn is_declared(inputs: &Vec<ParsedInput>, name: &str) -> (r: bool)
    ensures
        r == declares(inputs_view(inputs@), name@),
{
    let mut k: usize = 0;
    while k < inputs.len()
        invariant
            k <= inputs.len(),
            forall|j: int| 0 <= j < k ==> (#[trigger] inputs_view(inputs@)[j]).name != name@,
        decreases inputs.len() - k,
    {
        assert(inputs_view(inputs@)[k as int].name == inputs@[k as int].name@);
        if text::equal(inputs[k].name.as_str(), name) {
            return true;
        }
        k = k + 1;
    }
    false
}

/// Where the name of the function ends that is called at `at`, where `name` is.
pub fn calls(s: &[char], name: &str, at: usize) -> (r: Option<usize>)
    ensures
        match r {
            Some(end) => is_called(s@, name@, at as int) && end == at + name@.len() && end < s.len(),
            None => !is_called(s@, name@, at as int),
        },
{
    let name: Vec<char> = text::chars_of(name);
    if text::stands_at(s, name.as_slice(), at) && name.len() < s.len() - at {
        let end: usize = at + name.len();
        if s[end] == '<' || s[end] == '(' {
            return Some(end);
        }
    }
    None
}

/// The input that is declared by the `=` at `eq`.
fn parse_declaration(s: &[char], eq: usize) -> (r: Option<ParsedInput>)
    requires
        eq < s.len(),
    ensures
        match r {
            Some(i) => declaration_at(s@, eq as int) == Some(i@),
            None => declaration_at(s@, eq as int) is None,
        },
{
    let end: usize = text::drop_space(s, eq);
    let begin: usize = text::back_ident(s, end);
    let start: usize = text::skip_space(s, eq + 1);
    let token: (usize, bool) = match calls(s, "input.required", start) {
        Some(pos) => (pos, true),
        None => match calls(s, "input", start) {
            Some(pos) => (pos, false),
            None => match calls(s, "model", start) {
                Some(pos) => (pos, false),
                None => {
                    return None;
                },
            },
        },
    };
    if begin == end {
        return None;
    }
    let mut pos: usize = token.0;
    let mut generic: Option<String> = None;
    match scan::balanced_block(s, pos, '<', '>') {
        Some((inner, close)) => {
            generic = Some(inner);
            pos = close + 1;
        },
        None => {},
    }
    let has_default: bool = match scan::balanced_block(s, pos, '(', ')') {
        Some((inner, _)) => {
            let inner: Vec<char> = text::chars_of(inner.as_str());
            text::trim(inner.as_slice()).len() > 0
        },
        None => false,
    };
    let name: String = text::text_of(vstd::slice::slice_subrange(s, begin, end));
    Some(ParsedInput { name, required: token.1, generic, has_default })
}

/// The inputs that a source declares by `name = input.required<T>()`,
/// `name = input<T>(d)` or `name = model<T>(d)`.
pub fn parse_component_inputs(source: &str) -> (r: Vec<ParsedInput>)
    ensures
        inputs_view(r@) == inputs_of(source@),
{
    let s: Vec<char> = text::chars_of(source);
    let mut out: Vec<ParsedInput> = Vec::new();
    let mut i: usize = 0;
    while i < s.len()
        invariant
            i <= s.len(),
            s@ == source@,
            inputs_view(out@) == inputs_before(source@, i as int),
        decreases s.len() - i,
    {
        if s[i] == '=' {
            match parse_declaration(s.as_slice(), i) {
                Some(input) => {
                    if !is_declared(&out, input.name.as_str()) {
                        let ghost before = out@;
                        let ghost new = input@;
                        out.push(input);
                        assert(inputs_view(out@) =~= inputs_view(before).push(new));
                    }
                },
                None => {},
            }
        }
        i = i + 1;
    }
    out
}

/// No two inputs of a source have the same name.
pub proof fn input_names_differ(s: Seq<char>, to: int)
    ensures
        forall|i: int, j: int|
            0 <= i < j < inputs_before(s, to).len() ==> (#[trigger] inputs_before(s, to)[i]).name
                != (#[trigger] inputs_before(s, to)[j]).name,
    decreases to,
{
    if 0 < to <= s.len() {
        input_names_differ(s, to - 1);
    }
}

// ---------------------------------------------------------------------------
// Type definitions
// ---------------------------------------------------------------------------

/// The body of an `interface`, `type`, `enum` or `class`.
#[derive(Debug)]
pub struct TypeDefBody {
    pub body: String,
    pub is_enum: bool,
}

/// What the body of a definition says.
#[verifier::ext_equal]
pub struct DefView {
    pub body: Seq<char>,
    pub is_enum: bool,
}

impl View for TypeDefBody {
    type V = DefView;

    open spec fn view(&self) -> DefView {
        DefView { body: self.body@, is_enum: self.is_enum }
    }
}

/// The keywords that start a definition, in the order in which they are tried.
#[derive(Clone, Copy)]
pub enum Keyword {
    Interface,
    Enum,
    Class,
    Type,
}

pub open spec fn keyword_text(k: Keyword) -> Seq<char> {
    match k {
        Keyword::Interface => "interface"@,
        Keyword::Enum => "enum"@,
        Keyword::Class => "class"@,
        Keyword::Type => "type"@,
    }
}

/// How the search for the definition that starts with one keyword ends.
#[verifier::ext_equal]
pub enum Search {
    /// The definition is there.
    Found(DefView),
    /// A definition starts, and its block does not close: the search is over.
    Unclosed,
    /// There is none; the next keyword is tried.
    Absent,
}

/// Whether a name may end at `at`.
pub open spec fn name_ends(s: Seq<char>, at: int) -> bool {
    at >= s.len() || text::is_space(s[at]) || s[at] == '{' || s[at] == '=' || s[at] == '<'
}

/// The block in braces that opens at `at`, as the body of a definition.
pub open spec fn braced(s: Seq<char>, at: int, is_enum: bool) -> Search {
    match scan::block_at(s, at, '{', '}') {
        Some((body, _)) => Search::Found(DefView { body, is_enum }),
        None => Search::Unclosed,
    }
}

/// The definition that starts at `at` with the keyword `k`.
pub open spec fn definition_at(s: Seq<char>, at: int, k: Keyword) -> Search {
    if k is Type {
        match text::char_from(s, '=', at) {
            Some(eq) => {
                let rhs = text::past_space(s, eq + 1);
                if rhs < s.len() && s[rhs] == '{' {
                    braced(s, rhs, false)
                } else {
                    let end = match text::char_from(s, ';', eq + 1) {
                        Some(e) => e,
                        None => s.len() as int,
                    };
                    Search::Found(
                        DefView { body: text::trimmed(s.subrange(eq + 1, end)), is_enum: false },
                    )
                }
            },
            None => Search::Absent,
        }
    } else {
        match text::char_from(s, '{', at) {
            Some(brace) => braced(s, brace, k is Enum),
            None => Search::Absent,
        }
    }
}

/// The search for `needle`, the keyword and the name, from `from` on.
pub open spec fn search_from(s: Seq<char>, needle: Seq<char>, k: Keyword, from: int) -> Search
    decreases s.len() - from,
    when needle.len() > 0 && 0 <= from
    via search_from_decreases
{
    match text::first_from(s, needle, from) {
        Some(at) => if name_ends(s, at + needle.len()) {
            definition_at(s, at, k)
        } else {
            search_from(s, needle, k, at + needle.len())
        },
        None => Search::Absent,
    }
}

#[via_fn]
proof fn search_from_decreases(s: Seq<char>, needle: Seq<char>, k: Keyword, from: int) {
    text::first_from_is_least(s, needle, from);
}

/// The search for the definition of `name` that starts with the keyword `k`.
pub open spec fn search(s: Seq<char>, name: Seq<char>, k: Keyword) -> Search {
    search_from(s, keyword_text(k) + " "@ + name, k, 0)
}

pub open spec fn search_result(r: Search) -> Option<DefView> {
    match r {
        Search::Found(def) => Some(def),
        _ => None,
    }
}

/// The definition of `name` in a source: that of an interface, else that of an
/// enum, a class or a type, in this order.
pub open spec fn definition_of(s: Seq<char>, name: Seq<char>) -> Option<DefView> {
    if !(search(s, name, Keyword::Interface) is Absent) {
        search_result(search(s, name, Keyword::Interface))
    } else if !(search(s, name, Keyword::Enum) is Absent) {
        search_result(search(s, name, Keyword::Enum))
    } else if !(search(s, name, Keyword::Class) is Absent) {
        search_result(search(s, name, Keyword::Class))
    } else {
        search_result(search(s, name, Keyword::Type))
    }
}

/// How the search for a definition ends.
pub enum Outcome {
    Found(TypeDefBody),
    Unclosed,
    Absent,
}

impl View for Outcome {
    type V = Search;

    open spec fn view(&self) -> Search {
        match self {
            Outcome::Found(def) => Search::Found(def@),
            Outcome::Unclosed => Search::Unclosed,
            Outcome::Absent => Search::Absent,
        }
    }
}

fn find_braced(s: &[char], at: usize, is_enum: bool) -> (r: Outcome)
    ensures
        r@ == braced(s@, at as int, is_enum),
{
    match scan::balanced_block(s, at, '{', '}') {
        Some((body, _)) => Outcome::Found(TypeDefBody { body, is_enum }),
        None => Outcome::Unclosed,
    }
}

fn find_definition_at(s: &[char], at: usize, k: Keyword) -> (r: Outcome)
    requires
        at <= s.len(),
    ensures
        r@ == definition_at(s@, at as int, k),
{
    match k {
        Keyword::Type => match text::find_char(s, '=', at) {
            Some(eq) => {
                let rhs: usize = text::skip_space(s, eq + 1);
                if rhs < s.len() && s[rhs] == '{' {
                    find_braced(s, rhs, false)
                } else {
                    let end: usize = match text::find_char(s, ';', eq + 1) {
                        Some(e) => e,
                        None => s.len(),
                    };
                    let body: &[char] = text::trim(vstd::slice::slice_subrange(s, eq + 1, end));
                    Outcome::Found(TypeDefBody { body: text::text_of(body), is_enum: false })
                }
            },
            None => Outcome::Absent,
        },
        Keyword::Enum => match text::find_char(s, '{', at) {
            Some(brace) => find_braced(s, brace, true),
            None => Outcome::Absent,
        },
        _ => match text::find_char(s, '{', at) {
            Some(brace) => find_braced(s, brace, false),
            None => Outcome::Absent,
        },
    }
}

fn search_keyword(s: &[char], name: &str, k: Keyword) -> (r: Outcome)
    ensures
        r@ == search(s@, name@, k),
{
    let word: &str = match k {
        Keyword::Interface => "interface",
        Keyword::Enum => "enum",
        Keyword::Class => "class",
        Keyword::Type => "type",
    };
    let needle: String = text::cat3(word, " ", name);
    let needle: Vec<char> = text::chars_of(needle.as_str());
    proof {
        reveal_strlit(" ");
    }
    let mut from: usize = 0;
    loop
        invariant
            needle.len() > 0,
            from <= s.len(),
            needle@ == keyword_text(k) + " "@ + name@,
            search(s@, name@, k) == search_from(s@, needle@, k, from as int),
        decreases s.len() - from,
    {
        match text::find(s, needle.as_slice(), from) {
            Some(at) => {
                let after: usize = at + needle.len();
                if after >= s.len() || text::space(s[after]) || s[after] == '{' || s[after] == '='
                    || s[after] == '<' {
                    return find_definition_at(s, at, k);
                }
                from = after;
            },
            None => {
                return Outcome::Absent;
            },
        }
    }
}

/// The definition of `name` in a source.
pub fn extract_type_def(content: &str, name: &str) -> (r: Option<TypeDefBody>)
    ensures
        match r {
            Some(def) => definition_of(content@, name@) == Some(def@),
            None => definition_of(content@, name@) is None,
        },
{
    let s: Vec<char> = text::chars_of(content);
    match search_keyword(s.as_slice(), name, Keyword::Interface) {
        Outcome::Found(def) => Some(def),
        Outcome::Unclosed => None,
        Outcome::Absent => match search_keyword(s.as_slice(), name, Keyword::Enum) {
            Outcome::Found(def) => Some(def),
            Outcome::Unclosed => None,
            Outcome::Absent => match search_keyword(s.as_slice(), name, Keyword::Class) {
                Outcome::Found(def) => Some(def),
                Outcome::Unclosed => None,
                Outcome::Absent => match search_keyword(s.as_slice(), name, Keyword::Type) {
                    Outcome::Found(def) => Some(def),
                    _ => None,
                },
            },
        },
    }
}

// ---------------------------------------------------------------------------
// Members of a definition
// ---------------------------------------------------------------------------

/// A line without its comment. A `//` right behind a colon, as in an address,
/// starts no comment, and one that starts the line leaves nothing.
pub open spec fn without_comment(line: Seq<char>) -> Seq<char> {
    let l = text::trimmed_start(line);
    if text::starts(l, "//"@) {
        Seq::empty()
    } else {
        match text::first_from(l, "//"@, 0) {
            Some(i) => if i > 0 && !text::ends(l.take(i), ":"@) {
                l.take(i)
            } else {
                line
            },
            None => line,
        }
    }
}

/// The lines of a text without their comments, as one line.
pub open spec fn cleaned(s: Seq<char>) -> Seq<char> {
    text::joined(text::split_on(s, '\n').map_values(|l: Seq<char>| without_comment(l)), " "@)
}

pub fn strip_line_comment(line: &str) -> (r: String)
    ensures
        r@ == without_comment(line@),
{
    let whole: Vec<char> = text::chars_of(line);
    let l: &[char] = text::trim_start(whole.as_slice());
    if text::starts_with(l, "//") {
        return String::new();
    }
    let slashes: Vec<char> = text::chars_of("//");
    match text::find(l, slashes.as_slice(), 0) {
        Some(i) => {
            if i > 0 && !text::ends_with(text::head(l, i), ":") {
                return text::text_of(text::head(l, i));
            }
        },
        None => {},
    }
    line.to_string()
}

pub fn cleaned_line(s: &[char]) -> (r: String)
    ensures
        r@ == cleaned(s@),
{
    let lines: Vec<String> = text::split(s, '\n');
    let mut out: Vec<String> = Vec::new();
    let mut i: usize = 0;
    while i < lines.len()
        invariant
            i <= lines.len(),
            out@.len() == i,
            forall|k: int| 0 <= k < i ==> #[trigger] out@[k]@ == without_comment(lines@[k]@),
        decreases lines.len() - i,
    {
        out.push(strip_line_comment(lines[i].as_str()));
        i = i + 1;
    }
    assert(text::texts(out@) =~= text::texts(lines@).map_values(
        |l: Seq<char>| without_comment(l),
    ));
    text::join(out.as_slice(), " ")
}

/// The name and the type of the member that a piece of a body declares.
pub open spec fn member_of(part: Seq<char>) -> Option<(Seq<char>, Seq<char>)> {
    let t = text::trimmed(part);
    if t.len() == 0 || text::starts(t, "//"@) || text::starts(t, "*"@) {
        None
    } else {
        let c = text::trimmed(text::without_suffix(cleaned(t), ";"@));
        let c = text::trimmed(text::without_prefix(c, "readonly "@));
        match text::char_from(c, ':', 0) {
            Some(colon) => {
                let label = text::trimmed(
                    text::without_trailing(text::trimmed(c.take(colon)), '?'),
                );
                let name = label.take(text::ident_end(label, 0));
                let rest = text::trimmed(c.skip(colon + 1));
                let ty = match text::char_from(rest, '=', 0) {
                    Some(eq) => text::trimmed(rest.take(eq)),
                    None => rest,
                };
                if name.len() > 0 && ty.len() > 0 {
                    Some((name, ty))
                } else {
                    None
                }
            },
            None => None,
        }
    }
}

/// The members that the pieces of a body declare.
pub open spec fn members_of(parts: Seq<Seq<char>>) -> Seq<(Seq<char>, Seq<char>)>
    decreases parts.len(),
{
    if parts.len() == 0 {
        Seq::empty()
    } else {
        let earlier = members_of(parts.drop_last());
        match member_of(parts.last()) {
            Some(m) => earlier.push(m),
            None => earlier,
        }
    }
}

/// The members that the body of an interface, a class or an object type
/// declares.
pub open spec fn fields_of(body: Seq<char>) -> Seq<(Seq<char>, Seq<char>)> {
    members_of(scan::pieces(body, Cut::Members))
}

pub open spec fn pairs(v: Seq<(String, String)>) -> Seq<(Seq<char>, Seq<char>)> {
    v.map_values(|p: (String, String)| (p.0@, p.1@))
}

/// The member that a piece of a body declares.
pub fn parse_field(part: &str) -> (r: Option<(String, String)>)
    ensures
        match r {
            Some((name, ty)) => member_of(part@) == Some((name@, ty@)),
            None => member_of(part@) is None,
        },
{
    let part: Vec<char> = text::chars_of(part);
    let t: &[char] = text::trim(part.as_slice());
    if t.len() == 0 || text::starts_with(t, "//") || text::starts_with(t, "*") {
        return None;
    }
    let line: String = cleaned_line(t);
    let line: Vec<char> = text::chars_of(line.as_str());
    let c: &[char] = match text::strip_suffix(line.as_slice(), ";") {
        Some(rest) => rest,
        None => line.as_slice(),
    };
    let c: &[char] = text::trim(c);
    let c: &[char] = match text::strip_prefix(c, "readonly ") {
        Some(rest) => rest,
        None => c,
    };
    let c: &[char] = text::trim(c);
    match text::find_char(c, ':', 0) {
        Some(colon) => {
            let label: &[char] = text::trim(
                text::trim_trailing(text::trim(text::head(c, colon)), '?'),
            );
            let name: &[char] = text::head(label, text::skip_ident(label, 0));
            let rest: &[char] = text::trim(text::tail(c, colon + 1));
            let ty: &[char] = match text::find_char(rest, '=', 0) {
                Some(eq) => text::trim(text::head(rest, eq)),
                None => rest,
            };
            if name.len() > 0 && ty.len() > 0 {
                Some((text::text_of(name), text::text_of(ty)))
            } else {
                None
            }
        },
        None => None,
    }
}

/// The members that the body of an interface, a class or an object type
/// declares.
pub fn interface_fields(body: &str) -> (r: Vec<(String, String)>)
    ensures
        pairs(r@) == fields_of(body@),
{
    let chars: Vec<char> = text::chars_of(body);
    let parts: Vec<String> = scan::cut_pieces(chars.as_slice(), Cut::Members);
    let mut out: Vec<(String, String)> = Vec::new();
    let mut i: usize = 0;
    let ghost all = text::texts(parts@);
    assert(all.take(0) =~= Seq::<Seq<char>>::empty());
    while i < parts.len()
        invariant
            i <= parts.len(),
            all == text::texts(parts@),
            pairs(out@) == members_of(all.take(i as int)),
        decreases parts.len() - i,
    {
        proof {
            assert(all.take(i + 1).drop_last() =~= all.take(i as int));
            assert(all.take(i + 1).last() == parts@[i as int]@);
        }
        match parse_field(parts[i].as_str()) {
            Some(m) => {
                let ghost before = out@;
                let ghost new = (m.0@, m.1@);
                out.push(m);
                assert(pairs(out@) =~= pairs(before).push(new));
            },
            None => {},
        }
        i = i + 1;
    }
    assert(all.take(all.len() as int) =~= all);
    out
}

// ---------------------------------------------------------------------------
// Unions
// ---------------------------------------------------------------------------

/// An alternative that a value can be made up for.
pub open spec fn usable(alt: Seq<char>) -> bool {
    alt.len() > 0 && alt != "null"@ && alt != "undefined"@
}

/// The first usable one of the alternatives from the `i`-th on.
pub open spec fn usable_from(alts: Seq<Seq<char>>, i: int) -> Option<Seq<char>>
    decreases alts.len() - i,
{
    if i < 0 || i >= alts.len() {
        None
    } else if usable(text::trimmed(alts[i])) {
        Some(text::trimmed(alts[i]))
    } else {
        usable_from(alts, i + 1)
    }
}

/// The first alternative of a union other than `null` and `undefined`; the type
/// itself where there is none.
pub open spec fn alternative(ty: Seq<char>) -> Seq<char> {
    match usable_from(scan::pieces(ty, Cut::Union), 0) {
        Some(alt) => alt,
        None => text::trimmed(ty),
    }
}

proof fn usable_is_trimmed_piece(alts: Seq<Seq<char>>, i: int)
    requires
        0 <= i,
    ensures
        usable_from(alts, i) matches Some(alt) ==> exists|k: int|
            i <= k < alts.len() && alt == text::trimmed(#[trigger] alts[k]),
    decreases alts.len() - i,
{
    if i < alts.len() && !usable(text::trimmed(alts[i])) {
        usable_is_trimmed_piece(alts, i + 1);
    }
}

/// An alternative of a trimmed type is the type itself or shorter than it.
pub proof fn alternative_is_shorter(ty: Seq<char>)
    requires
        text::trimmed(ty) == ty,
    ensures
        alternative(ty) == ty || alternative(ty).len() < ty.len(),
{
    let parts = scan::pieces(ty, Cut::Union);
    usable_is_trimmed_piece(parts, 0);
    scan::pieces_fit(ty, 0, 0, 0, None, Cut::Union);
    if let Some(alt) = usable_from(parts, 0) {
        let k = choose|k: int| 0 <= k < parts.len() && alt == text::trimmed(#[trigger] parts[k]);
        text::trimmed_is_no_longer(parts[k]);
    }
}

pub fn first_union_alternative(ty: &[char]) -> (r: String)
    ensures
        r@ == alternative(ty@),
{
    let parts: Vec<String> = scan::cut_pieces(ty, Cut::Union);
    let ghost all = text::texts(parts@);
    let mut i: usize = 0;
    while i < parts.len()
        invariant
            i <= parts.len(),
            all == text::texts(parts@),
            usable_from(all, 0) == usable_from(all, i as int),
            all == scan::pieces(ty@, Cut::Union),
        decreases parts.len() - i,
    {
        assert(all[i as int] == parts@[i as int]@);
        let part: Vec<char> = text::chars_of(parts[i].as_str());
        let alt: &[char] = text::trim(part.as_slice());
        if alt.len() > 0 && !text::reads(alt, "null") && !text::reads(alt, "undefined") {
            return text::text_of(alt);
        }
        i = i + 1;
    }
    text::text_of(text::trim(ty))
}

// ---------------------------------------------------------------------------
// The types around a component
// ---------------------------------------------------------------------------

/// How many files of a directory are searched.
pub const FILES_PER_DIR: usize = 40;

/// How many files are read for one search.
pub const MAX_READS: usize = 200;

/// A file in which types are looked up: TypeScript, and no test.
pub open spec fn is_type_source(file: Seq<char>) -> bool {
    path::extension_of(file) == Some("ts"@) && !text::has(file, ".spec."@)
}

/// The names of the files of `dir` in which types are looked up.
pub open spec fn source_names(dir: Seq<char>, names: Seq<Seq<char>>) -> Seq<Seq<char>>
    decreases names.len(),
{
    if names.len() == 0 {
        Seq::empty()
    } else {
        let earlier = source_names(dir, names.drop_last());
        if is_type_source(path::join_of(dir, names.last())) {
            earlier.push(names.last())
        } else {
            earlier
        }
    }
}

/// The files of `dir` that are searched: the first ones by name.
pub open spec fn searched(dir: Seq<char>, names: Seq<Seq<char>>) -> Seq<Seq<char>> {
    let all = sort::sorted(source_names(dir, names), sort::text_le());
    all.take(if all.len() < FILES_PER_DIR { all.len() as int } else { FILES_PER_DIR as int }).map_values(
        |n: Seq<char>| path::join_of(dir, n),
    )
}

/// The files of `dir` that are searched, `names` being what the directory
/// holds.
pub fn searched_files(dir: &str, names: &Vec<String>) -> (r: Vec<String>)
    ensures
        text::texts(r@) == searched(dir@, text::texts(names@)),
{
    let ghost all = text::texts(names@);
    let mut kept: Vec<String> = Vec::new();
    let mut i: usize = 0;
    assert(all.take(0) =~= Seq::<Seq<char>>::empty());
    assert(text::texts(kept@) =~= Seq::<Seq<char>>::empty());
    while i < names.len()
        invariant
            i <= names.len(),
            all == text::texts(names@),
            text::texts(kept@) == source_names(dir@, all.take(i as int)),
        decreases names.len() - i,
    {
        proof {
            assert(all.take(i + 1).drop_last() =~= all.take(i as int));
            assert(all.take(i + 1).last() == names@[i as int]@);
        }
        let file: String = path::join(dir, names[i].as_str());
        let chars: Vec<char> = text::chars_of(file.as_str());
        let is_ts: bool = match path::extension(file.as_str()) {
            Some(e) => text::equal(e.as_str(), "ts"),
            None => false,
        };
        if is_ts && !text::contains(chars.as_slice(), ".spec.") {
            let ghost before = text::texts(kept@);
            kept.push(names[i].clone());
            assert(text::texts(kept@) =~= before.push(names@[i as int]@));
        }
        i = i + 1;
    }
    assert(all.take(all.len() as int) =~= all);
    let ordered: Vec<String> = sort::sort_texts(&kept);
    let ghost files = text::texts(ordered@);
    let mut out: Vec<String> = Vec::new();
    let mut k: usize = 0;
    while k < ordered.len() && k < FILES_PER_DIR
        invariant
            k <= ordered.len(),
            k <= FILES_PER_DIR,
            files == text::texts(ordered@),
            text::texts(out@) == files.take(k as int).map_values(
                |n: Seq<char>| path::join_of(dir@, n),
            ),
        decreases ordered.len() - k,
    {
        let ghost before = text::texts(out@);
        out.push(path::join(dir, ordered[k].as_str()));
        assert(text::texts(out@) =~= before.push(path::join_of(dir@, files[k as int])));
        k = k + 1;
        assert(text::texts(out@) =~= files.take(k as int).map_values(
            |n: Seq<char>| path::join_of(dir@, n),
        ));
    }
    out
}

/// The definition of `name` in the first source from the `i`-th on that has
/// one.
pub open spec fn definition_from(sources: Seq<Seq<char>>, name: Seq<char>, i: int) -> Option<
    DefView,
>
    decreases sources.len() - i,
{
    if i < 0 || i >= sources.len() {
        None
    } else if definition_of(sources[i], name) is Some {
        definition_of(sources[i], name)
    } else {
        definition_from(sources, name, i + 1)
    }
}

/// The definition of `name` in the nearest source that has one.
pub open spec fn resolved(sources: Seq<Seq<char>>, name: Seq<char>) -> Option<DefView> {
    definition_from(sources, name, 0)
}

/// The sources in which types are looked up, nearest to the component first,
/// with what earlier searches have found.
pub struct TypeIndex {
    root: String,
    component: String,
    reads: usize,
    sources: Vec<String>,
    defs: Vec<(String, TypeDefBody)>,
    missing: Vec<String>,
}

impl TypeIndex {
    /// The directory that bounds the search.
    pub closed spec fn root_path(&self) -> Seq<char> {
        self.root@
    }

    /// The component that the search starts from.
    pub closed spec fn component_path(&self) -> Seq<char> {
        self.component@
    }

    /// The sources, nearest first.
    pub closed spec fn source_texts(&self) -> Seq<Seq<char>> {
        text::texts(self.sources@)
    }

    /// How many files have been read or tried.
    pub closed spec fn read_count(&self) -> nat {
        self.reads as nat
    }

    /// What is remembered of earlier searches is what a search finds, and no
    /// more files have been read than allowed.
    pub closed spec fn wf(&self) -> bool {
        &&& self.reads <= MAX_READS
        &&& self.sources@.len() <= self.reads
        &&& forall|k: int|
            0 <= k < self.defs@.len() ==> resolved(
                text::texts(self.sources@),
                (#[trigger] self.defs@[k]).0@,
            ) == Some(self.defs@[k].1@)
        &&& forall|k: int|
            0 <= k < self.missing@.len() ==> resolved(
                text::texts(self.sources@),
                (#[trigger] self.missing@[k])@,
            ) is None
    }

    /// An index without sources.
    pub fn new(root: String, component: String) -> (r: TypeIndex)
        ensures
            r.wf(),
            r.root_path() == root@,
            r.component_path() == component@,
            r.source_texts() == Seq::<Seq<char>>::empty(),
            r.read_count() == 0,
    {
        let r = TypeIndex {
            root,
            component,
            reads: 0,
            sources: Vec::new(),
            defs: Vec::new(),
            missing: Vec::new(),
        };
        assert(text::texts(r.sources@) =~= Seq::<Seq<char>>::empty());
        r
    }

    /// The directories that are searched, nearest first.
    pub fn search_dirs(&self) -> (r: Vec<String>)
        ensures
            text::texts(r@) == path::dirs_around(self.component_path(), self.root_path()),
    {
        path::ancestors(self.component.as_str(), self.root.as_str())
    }

    /// Whether no further file is read.
    pub fn full(&self) -> (r: bool)
        requires
            self.wf(),
        ensures
            r == (self.read_count() == MAX_READS),
            r == (self.read_count() >= 200),
    {
        self.reads == MAX_READS
    }

    /// Note the next file: its content, or that it could not be read. Once the
    /// allowed number of files has been noted nothing changes.
    pub fn add_source(&mut self, content: Option<String>)
        requires
            old(self).wf(),
        ensures
            final(self).wf(),
            final(self).root_path() == old(self).root_path(),
            final(self).component_path() == old(self).component_path(),
            old(self).read_count() == MAX_READS ==> final(self).source_texts() == old(
                self,
            ).source_texts() && final(self).read_count() == MAX_READS,
            old(self).read_count() < MAX_READS ==> final(self).read_count() == old(
                self,
            ).read_count() + 1 && final(self).source_texts() == match content {
                Some(c) => old(self).source_texts().push(c@),
                None => old(self).source_texts(),
            },
    {
        if self.reads == MAX_READS {
            return;
        }
        self.reads = self.reads + 1;
        match content {
            Some(c) => {
                let ghost before = self.sources@;
                self.sources.push(c);
                self.defs = Vec::new();
                self.missing = Vec::new();
                assert(text::texts(self.sources@) =~= text::texts(before).push(c@));
            },
            None => {},
        }
    }

    fn remembered(&self, name: &str) -> (r: Option<usize>)
        ensures
            match r {
                Some(k) => k < self.defs@.len() && self.defs@[k as int].0@ == name@,
                None => forall|k: int|
                    0 <= k < self.defs@.len() ==> (#[trigger] self.defs@[k]).0@ != name@,
            },
    {
        let mut k: usize = 0;
        while k < self.defs.len()
            invariant
                k <= self.defs.len(),
                forall|j: int| 0 <= j < k ==> (#[trigger] self.defs@[j]).0@ != name@,
            decreases self.defs.len() - k,
        {
            if text::equal(self.defs[k].0.as_str(), name) {
                return Some(k);
            }
            k = k + 1;
        }
        None
    }

    fn known_missing(&self, name: &str) -> (r: bool)
        ensures
            r <==> exists|k: int|
                0 <= k < self.missing@.len() && (#[trigger] self.missing@[k])@ == name@,
    {
        let mut k: usize = 0;
        while k < self.missing.len()
            invariant
                k <= self.missing.len(),
                forall|j: int| 0 <= j < k ==> (#[trigger] self.missing@[j])@ != name@,
            decreases self.missing.len() - k,
        {
            if text::equal(self.missing[k].as_str(), name) {
                return true;
            }
            k = k + 1;
        }
        false
    }

    /// The definition of `name` in the nearest source that has one.
    fn search(&self, name: &str) -> (r: Option<TypeDefBody>)
        ensures
            match r {
                Some(def) => resolved(self.source_texts(), name@) == Some(def@),
                None => resolved(self.source_texts(), name@) is None,
            },
    {
        let ghost all = text::texts(self.sources@);
        let mut i: usize = 0;
        while i < self.sources.len()
            invariant
                i <= self.sources.len(),
                all == text::texts(self.sources@),
                resolved(all, name@) == definition_from(all, name@, i as int),
            decreases self.sources.len() - i,
        {
            assert(all[i as int] == self.sources@[i as int]@);
            match extract_type_def(self.sources[i].as_str(), name) {
                Some(def) => {
                    return Some(def);
                },
                None => {},
            }
            i = i + 1;
        }
        None
    }

    /// The definition of `name` in the nearest source that has one. What is
    /// found, or found missing, is remembered.
    pub fn resolve(&mut self, name: &str) -> (r: Option<TypeDefBody>)
        requires
            old(self).wf(),
        ensures
            final(self).wf(),
            final(self).root_path() == old(self).root_path(),
            final(self).component_path() == old(self).component_path(),
            final(self).source_texts() == old(self).source_texts(),
            final(self).read_count() == old(self).read_count(),
            match r {
                Some(def) => resolved(old(self).source_texts(), name@) == Some(def@),
                None => resolved(old(self).source_texts(), name@) is None,
            },
    {
        match self.remembered(name) {
            Some(k) => {
                return Some(
                    TypeDefBody {
                        body: self.defs[k].1.body.clone(),
                        is_enum: self.defs[k].1.is_enum,
                    },
                );
            },
            None => {},
        }
        if self.known_missing(name) {
            return None;
        }
        let found: Option<TypeDefBody> = self.search(name);
        match &found {
            Some(def) => {
                let entry: (String, TypeDefBody) = (
                    name.to_string(),
                    TypeDefBody { body: def.body.clone(), is_enum: def.is_enum },
                );
                self.defs.push(entry);
            },
            None => {
                self.missing.push(name.to_string());
            },
        }
        found
    }
}

/// The nearest definition counts: where an earlier source defines a name, what
/// later sources say of it does not matter.
pub proof fn nearest_definition_wins(
    near: Seq<Seq<char>>,
    far: Seq<Seq<char>>,
    name: Seq<char>,
    i: int,
)
    requires
        0 <= i,
    ensures
        definition_from(near, name, i) is Some ==> definition_from(near + far, name, i)
            == definition_from(near, name, i),
    decreases near.len() - i,
{
    if i < near.len() {
        assert((near + far)[i] == near[i]);
        nearest_definition_wins(near, far, name, i + 1);
    }
}

// ---------------------------------------------------------------------------
// Made-up values
// ---------------------------------------------------------------------------

/// The text made up for a field, by its name in lower case.
pub open spec fn sample_text(n: Seq<char>) -> Seq<char> {
    if text::has(n, "id"@) {
        "id-1024"@
    } else if text::has(n, "email"@) || text::has(n, "mail"@) {
        "user@example.com"@
    } else if text::has(n, "url"@) || text::has(n, "link"@) || text::has(n, "href"@) {
        "https://example.com"@
    } else if text::has(n, "date"@) || text::has(n, "fecha"@) || text::ends(n, "at"@) {
        "2026-01-15"@
    } else if text::has(n, "name"@) || text::has(n, "title"@) || text::has(n, "label"@) {
        "Sample name"@
    } else if text::has(n, "desc"@) {
        "Sample description"@
    } else if text::has(n, "img"@) || text::has(n, "photo"@) || text::has(n, "icon"@) || text::has(
        n,
        "avatar"@,
    ) {
        "https://example.com/image.png"@
    } else if text::has(n, "color"@) {
        "#3178C6"@
    } else {
        "Sample text"@
    }
}

/// The number made up for a field, by its name in lower case.
pub open spec fn sample_number(n: Seq<char>) -> Seq<char> {
    if text::has(n, "total"@) || text::has(n, "count"@) || text::has(n, "cantidad"@) || text::has(
        n,
        "size"@,
    ) {
        "10"@
    } else {
        "1"@
    }
}

/// The text made up for a field whose name in lower case is given.
pub fn sample_text_for(lowered: &str) -> (r: String)
    ensures
        r@ == sample_text(lowered@),
{
    let chars: Vec<char> = text::chars_of(lowered);
    let n: &[char] = chars.as_slice();
    let r: &str = if text::contains(n, "id") {
        "id-1024"
    } else if text::contains(n, "email") || text::contains(n, "mail") {
        "user@example.com"
    } else if text::contains(n, "url") || text::contains(n, "link") || text::contains(n, "href") {
        "https://example.com"
    } else if text::contains(n, "date") || text::contains(n, "fecha") || text::ends_with(n, "at") {
        "2026-01-15"
    } else if text::contains(n, "name") || text::contains(n, "title") || text::contains(
        n,
        "label",
    ) {
        "Sample name"
    } else if text::contains(n, "desc") {
        "Sample description"
    } else if text::contains(n, "img") || text::contains(n, "photo") || text::contains(n, "icon")
        || text::contains(n, "avatar") {
        "https://example.com/image.png"
    } else if text::contains(n, "color") {
        "#3178C6"
    } else {
        "Sample text"
    };
    r.to_string()
}

/// The number made up for a field whose name in lower case is given.
pub fn sample_number_for(lowered: &str) -> (r: String)
    ensures
        r@ == sample_number(lowered@),
{
    let chars: Vec<char> = text::chars_of(lowered);
    let n: &[char] = chars.as_slice();
    let r: &str = if text::contains(n, "total") || text::contains(n, "count") || text::contains(
        n,
        "cantidad",
    ) || text::contains(n, "size") {
        "10"
    } else {
        "1"
    };
    r.to_string()
}

/// The text made up for a field.
pub fn fake_string(field: &str) -> (r: String)
    ensures
        r@ == sample_text(text::lowercase(field@)),
{
    sample_text_for(field.to_lowercase().as_str())
}

/// The number made up for a field.
pub fn fake_number(field: &str) -> (r: String)
    ensures
        r@ == sample_number(text::lowercase(field@)),
{
    sample_number_for(field.to_lowercase().as_str())
}

/// A type without the white space around it and the commas behind it.
pub open spec fn type_text(ty: Seq<char>) -> Seq<char> {
    text::trimmed(text::without_trailing(text::trimmed(ty), ','))
}

/// A string literal that is read as a type: it starts and ends with the same
/// quote.
pub open spec fn is_literal(t: Seq<char>) -> bool {
    t.len() >= 2 && (t[0] == '\'' || t[0] == '"') && t.last() == t[0]
}

/// A type that is read as a union: a bar stands outside its strings and brackets,
/// and one of its alternatives can be made up.
pub open spec fn is_union(t: Seq<char>) -> bool {
    t.contains('|') && alternative(t) != t
}

/// Where the name of a type ends: before its arguments, a blank or a bar.
pub open spec fn base_end(s: Seq<char>, i: int) -> int
    decreases s.len() - i,
{
    if 0 <= i < s.len() && s[i] != '<' && s[i] != ' ' && s[i] != '|' {
        base_end(s, i + 1)
    } else {
        i
    }
}

/// The name by which a type is looked up.
pub open spec fn base_name(t: Seq<char>) -> Seq<char> {
    let bare = text::trimmed(text::without_prefixes(t, "readonly "@));
    bare.take(base_end(bare, 0))
}

/// What a member of an enum stands for: the text or the natural number that it
/// is given, and zero where it is given none. What is in quotes is a text, and so
/// is what does not start with a digit.
pub open spec fn member_value(part: Seq<char>) -> JsonView {
    let p = text::trimmed(part);
    match text::char_from(p, '=', 0) {
        Some(eq) => {
            let given = text::trimmed(p.skip(eq + 1));
            let v = text::without_around(text::without_around(given, '\''), '"');
            if v != given || (v.len() > 0 && !text::numeric(v[0])) {
                JsonView::Text(v)
            } else {
                match text::natural_of(v) {
                    Some(n) => json::natural_value(n),
                    None => JsonView::Number("0"@),
                }
            }
        },
        None => JsonView::Number("0"@),
    }
}

/// The value made up for an enum: that of its first member.
pub open spec fn enum_value(body: Seq<char>) -> JsonView {
    member_value(text::split_on(body, ',')[0])
}

pub open spec fn no_members() -> JsonView {
    JsonView::Object(Seq::empty())
}

/// The value made up for a type whose form alone decides.
pub open spec fn simple_value(t: Seq<char>, hint: Seq<char>) -> Option<JsonView> {
    if is_literal(t) {
        Some(JsonView::Text(t.subrange(1, t.len() - 1)))
    } else if t == "string"@ {
        Some(JsonView::Text(sample_text(text::lowercase(hint))))
    } else if t == "number"@ {
        Some(JsonView::Number(sample_number(text::lowercase(hint))))
    } else if t == "boolean"@ || t == "bool"@ {
        Some(JsonView::Bool(true))
    } else if t == "Date"@ {
        Some(JsonView::Text("2026-01-15T10:00:00Z"@))
    } else if t == "any"@ || t == "unknown"@ || t == "object"@ || text::starts(t, "Record<"@)
        || text::starts(t, "Map<"@) || text::starts(t, "Set<"@) {
        Some(no_members())
    } else {
        None
    }
}

/// The value made up for the type `ty` of the field `hint`, `depth` levels
/// deep; nothing is made up below the fifth level.
pub open spec fn value_for(ty: Seq<char>, hint: Seq<char>, sources: Seq<Seq<char>>, depth: int) -> JsonView
    decreases 5 - depth, ty.len() + 1, 0int,
    via value_for_decreases
{
    let t = type_text(ty);
    if depth > 4 || text::trimmed(cleaned(t)).len() == 0 {
        JsonView::Null
    } else if text::ends(t, "[]"@) {
        JsonView::Array(seq![value_for(t.take(t.len() - "[]"@.len()), hint, sources, depth + 1)])
    } else if text::starts(t, "Array<"@) && text::ends(t.skip("Array<"@.len() as int), ">"@) {
        let rest = t.skip("Array<"@.len() as int);
        JsonView::Array(
            seq![value_for(rest.take(rest.len() - ">"@.len()), hint, sources, depth + 1)],
        )
    } else if is_union(t) {
        value_for(alternative(t), hint, sources, depth)
    } else if simple_value(t, hint) is Some {
        simple_value(t, hint)->0
    } else if base_name(t).len() == 0 {
        no_members()
    } else {
        match resolved(sources, base_name(t)) {
            Some(def) => if def.is_enum {
                enum_value(def.body)
            } else {
                JsonView::Object(values_for(fields_of(def.body), sources, depth))
            },
            None => no_members(),
        }
    }
}

/// The values made up for the members of a type that is `depth` levels deep.
pub open spec fn values_for(
    fields: Seq<(Seq<char>, Seq<char>)>,
    sources: Seq<Seq<char>>,
    depth: int,
) -> Seq<(Seq<char>, JsonView)>
    decreases 5 - depth, 0nat, fields.len() as int,
{
    if fields.len() == 0 || depth > 4 {
        Seq::empty()
    } else {
        let f = fields.last();
        json::inserted(
            values_for(fields.drop_last(), sources, depth),
            f.0,
            value_for(f.1, f.0, sources, depth + 1),
        )
    }
}

#[via_fn]
proof fn value_for_decreases(
    ty: Seq<char>,
    hint: Seq<char>,
    sources: Seq<Seq<char>>,
    depth: int,
) {
    type_text_is_shorter(ty);
    alternative_is_shorter(type_text(ty));
}

proof fn trailing_is_shorter(s: Seq<char>, c: char)
    ensures
        text::without_trailing(s, c).len() <= s.len(),
    decreases s.len(),
{
    if s.len() > 0 && s.last() == c {
        trailing_is_shorter(s.drop_last(), c);
    }
}

proof fn type_text_is_shorter(ty: Seq<char>)
    ensures
        type_text(ty).len() <= ty.len(),
        text::trimmed(type_text(ty)) == type_text(ty),
{
    let a = text::trimmed(ty);
    text::trimmed_is_no_longer(ty);
    trailing_is_shorter(a, ',');
    text::trimmed_is_no_longer(text::without_trailing(a, ','));
    text::trimmed_twice(text::without_trailing(a, ','));
}

fn find_base_end(s: &[char]) -> (r: usize)
    ensures
        r == base_end(s@, 0),
        r <= s@.len(),
{
    let mut i: usize = 0;
    while i < s.len() && s[i] != '<' && s[i] != ' ' && s[i] != '|'
        invariant
            i <= s.len(),
            base_end(s@, 0) == base_end(s@, i as int),
        decreases s.len() - i,
    {
        i = i + 1;
    }
    i
}

/// What a member of an enum stands for.
fn value_of_member(part: &str) -> (r: Json)
    ensures
        r@ == member_value(part@),
{
    let part: Vec<char> = text::chars_of(part);
    let p: &[char] = text::trim(part.as_slice());
    match text::find_char(p, '=', 0) {
        Some(eq) => {
            let given: &[char] = text::trim(text::tail(p, eq + 1));
            let v: &[char] = text::trim_around(text::trim_around(given, '\''), '"');
            if !text::same(v, given) || (v.len() > 0 && !v[0].is_numeric()) {
                return Json::Text(text::text_of(v));
            }
            let digits: String = text::text_of(v);
            match text::natural(digits.as_str()) {
                Some(n) => json::number_value(n),
                None => Json::Number("0".to_string()),
            }
        },
        None => Json::Number("0".to_string()),
    }
}

/// The value made up for an enum: that of its first member.
pub fn fake_enum(body: &str) -> (r: Json)
    ensures
        r@ == enum_value(body@),
{
    let chars: Vec<char> = text::chars_of(body);
    let parts: Vec<String> = text::split(chars.as_slice(), ',');
    proof {
        assert(text::split_on(body@, ',').len() > 0);
        assert(text::texts(parts@).len() == parts@.len());
        assert(text::texts(parts@)[0] == parts@[0]@);
    }
    value_of_member(parts[0].as_str())
}

fn empty_object() -> (r: Json)
    ensures
        r@ == no_members(),
{
    let o: Vec<(String, Json)> = Vec::new();
    proof {
        json::object_view(o);
        assert(json::members(o@) =~= Seq::<(Seq<char>, JsonView)>::empty());
    }
    Json::Object(o)
}

fn one_item(j: Json) -> (r: Json)
    ensures
        r@ == JsonView::Array(seq![j@]),
{
    let ghost held = j@;
    let mut v: Vec<Json> = Vec::new();
    v.push(j);
    proof {
        json::array_view(v);
        assert(json::items(v@) =~= seq![held]);
    }
    Json::Array(v)
}

fn literal(t: &[char]) -> (r: bool)
    ensures
        r == is_literal(t@),
{
    t.len() >= 2 && (t[0] == '\'' || t[0] == '"') && t[t.len() - 1] == t[0]
}

fn fake_simple(t: &[char], hint: &str) -> (r: Option<Json>)
    ensures
        match r {
            Some(j) => simple_value(t@, hint@) == Some(j@),
            None => simple_value(t@, hint@) is None,
        },
{
    if literal(t) {
        let inner: &[char] = vstd::slice::slice_subrange(t, 1, t.len() - 1);
        Some(Json::Text(text::text_of(inner)))
    } else if text::reads(t, "string") {
        Some(Json::Text(fake_string(hint)))
    } else if text::reads(t, "number") {
        Some(Json::Number(fake_number(hint)))
    } else if text::reads(t, "boolean") || text::reads(t, "bool") {
        Some(Json::Bool(true))
    } else if text::reads(t, "Date") {
        Some(Json::Text("2026-01-15T10:00:00Z".to_string()))
    } else if text::reads(t, "any") || text::reads(t, "unknown") || text::reads(t, "object")
        || text::starts_with(t, "Record<") || text::starts_with(t, "Map<") || text::starts_with(
        t,
        "Set<",
    ) {
        Some(empty_object())
    } else {
        None
    }
}

/// Make up a JSON value for a TypeScript type, by the type and the name of the
/// field it fills.
pub fn fake_value(ty: &str, field_hint: &str, index: &mut TypeIndex, depth: usize) -> (r: Json)
    requires
        old(index).wf(),
    ensures
        final(index).wf(),
        final(index).root_path() == old(index).root_path(),
        final(index).component_path() == old(index).component_path(),
        final(index).source_texts() == old(index).source_texts(),
        final(index).read_count() == old(index).read_count(),
        r@ == value_for(ty@, field_hint@, old(index).source_texts(), depth as int),
    decreases (if depth > 4 { 0int } else { 5 - depth }), ty@.len(),
{
    proof {
        type_text_is_shorter(ty@);
        alternative_is_shorter(type_text(ty@));
    }
    let ghost sources = index.source_texts();
    let whole: Vec<char> = text::chars_of(ty);
    let t: &[char] = text::trim(text::trim_trailing(text::trim(whole.as_slice()), ','));
    if depth > 4 {
        return Json::Null;
    }
    let line: String = cleaned_line(t);
    let line: Vec<char> = text::chars_of(line.as_str());
    if text::trim(line.as_slice()).len() == 0 {
        return Json::Null;
    }
    match text::strip_suffix(t, "[]") {
        Some(inner) => {
            let inner: String = text::text_of(inner);
            return one_item(fake_value(inner.as_str(), field_hint, index, depth + 1));
        },
        None => {},
    }
    match text::strip_prefix(t, "Array<") {
        Some(rest) => match text::strip_suffix(rest, ">") {
            Some(inner) => {
                let inner: String = text::text_of(inner);
                return one_item(fake_value(inner.as_str(), field_hint, index, depth + 1));
            },
            None => {},
        },
        None => {},
    }
    if text::contains_char(t, '|') {
        let alt: String = first_union_alternative(t);
        if !text::reads(t, alt.as_str()) {
            return fake_value(alt.as_str(), field_hint, index, depth);
        }
    }
    match fake_simple(t, field_hint) {
        Some(j) => {
            return j;
        },
        None => {},
    }
    let bare: &[char] = text::trim(text::trim_prefixes(t, "readonly "));
    let base: String = text::text_of(text::head(bare, find_base_end(bare)));
    let base_chars: Vec<char> = text::chars_of(base.as_str());
    if base_chars.len() == 0 {
        return empty_object();
    }
    match index.resolve(base.as_str()) {
        Some(def) => {
            if def.is_enum {
                return fake_enum(def.body.as_str());
            }
            let fields: Vec<(String, String)> = interface_fields(def.body.as_str());
            let ghost all = pairs(fields@);
            let mut out: Vec<(String, Json)> = Vec::new();
            let mut i: usize = 0;
            assert(all.take(0) =~= Seq::<(Seq<char>, Seq<char>)>::empty());
            assert(json::members(out@) =~= Seq::<(Seq<char>, JsonView)>::empty());
            while i < fields.len()
                invariant
                    i <= fields.len(),
                    depth <= 4,
                    all == pairs(fields@),
                    index.wf(),
                    index.root_path() == old(index).root_path(),
                    index.component_path() == old(index).component_path(),
                    index.source_texts() == old(index).source_texts(),
                    index.read_count() == old(index).read_count(),
                    sources == old(index).source_texts(),
                    json::members(out@) == values_for(all.take(i as int), sources, depth as int),
                decreases fields.len() - i,
            {
                proof {
                    assert(all.take(i + 1).drop_last() =~= all.take(i as int));
                    assert(all.take(i + 1).last() == all[i as int]);
                }
                let name: String = fields[i].0.clone();
                let value: Json = fake_value(
                    fields[i].1.as_str(),
                    fields[i].0.as_str(),
                    index,
                    depth + 1,
                );
                json::put(&mut out, name, value);
                i = i + 1;
            }
            proof {
                json::object_view(out);
                assert(all.take(all.len() as int) =~= all);
            }
            Json::Object(out)
        },
        None => empty_object(),
    }
}

/// Whether a value nests no more than `n` levels of lists and members.
pub open spec fn nests_at_most(j: JsonView, n: nat) -> bool
    decreases n,
{
    match j {
        JsonView::Array(v) => v.len() == 0 || (n > 0 && forall|i: int|
            0 <= i < v.len() ==> nests_at_most(#[trigger] v[i], (n - 1) as nat)),
        JsonView::Object(o) => o.len() == 0 || (n > 0 && forall|i: int|
            0 <= i < o.len() ==> nests_at_most((#[trigger] o[i]).1, (n - 1) as nat)),
        _ => true,
    }
}

/// A made-up value nests at most five levels, whatever the types refer to, so
/// that types that refer to themselves are made up too.
pub proof fn made_up_values_are_shallow(
    ty: Seq<char>,
    hint: Seq<char>,
    sources: Seq<Seq<char>>,
    depth: int,
)
    requires
        0 <= depth <= 5,
    ensures
        nests_at_most(value_for(ty, hint, sources, depth), (5 - depth) as nat),
    decreases 5 - depth, ty.len() + 1, 0int,
{
    type_text_is_shorter(ty);
    let t = type_text(ty);
    alternative_is_shorter(t);
    if depth > 4 || text::trimmed(cleaned(t)).len() == 0 {
    } else if text::ends(t, "[]"@) {
        let inner = t.take(t.len() - "[]"@.len());
        made_up_values_are_shallow(inner, hint, sources, depth + 1);
        assert(nests_at_most(
            JsonView::Array(seq![value_for(inner, hint, sources, depth + 1)]),
            (5 - depth) as nat,
        ));
    } else if text::starts(t, "Array<"@) && text::ends(t.skip("Array<"@.len() as int), ">"@) {
        let rest = t.skip("Array<"@.len() as int);
        let inner = rest.take(rest.len() - ">"@.len());
        made_up_values_are_shallow(inner, hint, sources, depth + 1);
        assert(nests_at_most(
            JsonView::Array(seq![value_for(inner, hint, sources, depth + 1)]),
            (5 - depth) as nat,
        ));
    } else if is_union(t) {
        made_up_values_are_shallow(alternative(t), hint, sources, depth);
    } else if simple_value(t, hint) is Some || base_name(t).len() == 0 {
    } else {
        match resolved(sources, base_name(t)) {
            Some(def) => {
                if def.is_enum {
                    assert(nests_at_most(enum_value(def.body), (5 - depth) as nat));
                } else {
                    let members = values_for(fields_of(def.body), sources, depth);
                    made_up_members_are_shallow(fields_of(def.body), sources, depth);
                    assert(value_for(ty, hint, sources, depth) == JsonView::Object(members));
                }
            },
            None => {},
        }
    }
}

proof fn made_up_members_are_shallow(
    fields: Seq<(Seq<char>, Seq<char>)>,
    sources: Seq<Seq<char>>,
    depth: int,
)
    requires
        0 <= depth <= 4,
    ensures
        forall|i: int|
            0 <= i < values_for(fields, sources, depth).len() ==> nests_at_most(
                (#[trigger] values_for(fields, sources, depth)[i]).1,
                (4 - depth) as nat,
            ),
    decreases 5 - depth, 0nat, fields.len() as int,
{
    if fields.len() > 0 {
        let f = fields.last();
        let earlier = values_for(fields.drop_last(), sources, depth);
        made_up_members_are_shallow(fields.drop_last(), sources, depth);
        made_up_values_are_shallow(f.1, f.0, sources, depth + 1);
        json::member_from_is_least(earlier, f.0, 0);
    }
}

// ---------------------------------------------------------------------------
// What is made up
// ---------------------------------------------------------------------------

/// Whether a text is one line and holds no slash, so that nothing in it is a
/// comment.
pub open spec fn is_line(s: Seq<char>) -> bool {
    !s.contains('\n') && !s.contains('/')
}

/// A line without a comment stays as it is.
pub proof fn line_without_comment_is_kept(s: Seq<char>)
    requires
        is_line(s),
    ensures
        without_comment(s) == s,
        cleaned(s) == s,
{
    reveal_strlit("//");
    let l = text::trimmed_start(s);
    text::past_space_bounds(s, 0);
    assert(without_comment(s) == s) by {
        assert forall|i: int| !text::occurs_at(l, "//"@, i) by {
            if text::occurs_at(l, "//"@, i) {
                assert(l.subrange(i, i + 2)[0] == '/');
                assert(l[i] == '/');
                assert(s[i + text::past_space(s, 0)] == '/');
            }
        }
        text::first_from_is_least(l, "//"@, 0);
    }
    text::nothing_to_split(s, '\n');
    let lines = text::split_on(s, '\n').map_values(|l: Seq<char>| without_comment(l));
    assert(lines =~= seq![s]);
}

/// A comment at the end of a line is left out, unless it stands right behind a
/// colon.
pub proof fn comment_is_left_out(code: Seq<char>, comment: Seq<char>)
    requires
        code.len() > 0,
        !text::is_space(code[0]),
        is_line(code),
        code.last() != ':',
    ensures
        without_comment(code + "//"@ + comment) == code,
{
    reveal_strlit("//");
    reveal_strlit(":");
    let l = code + "//"@ + comment;
    let n = code.len() as int;
    text::past_space_bounds(l, 0);
    assert(l[0] == code[0]);
    assert(l.skip(0) =~= l);
    assert(text::trimmed_start(l) == l);
    assert(l.subrange(n, n + 2) =~= "//"@);
    assert(text::occurs_at(l, "//"@, n));
    assert forall|i: int| 0 <= i < n implies !text::occurs_at(l, "//"@, i) by {
        if text::occurs_at(l, "//"@, i) {
            assert(l.subrange(i, i + 2)[0] == '/');
            assert(code[i] == l[i]);
            assert(code.contains(code[i]));
        }
    }
    text::first_from_is_least(l, "//"@, 0);
    assert(l.take(n) =~= code);
    assert(!text::ends(code, ":"@)) by {
        if text::ends(code, ":"@) {
            assert(code.subrange(n - 1, n)[0] == ':');
        }
    }
}

/// A type that stands between white space, with no comma and no comment, is read
/// as it is written.
proof fn type_is_read_as_written(a: Seq<char>, t: Seq<char>, b: Seq<char>)
    requires
        text::is_blank(a),
        text::is_blank(b),
        text::is_tight(t),
        t.last() != ',',
    ensures
        type_text(a + t + b) == t,
{
    text::trimming_leaves_the_middle(a, t, b);
    text::nothing_to_trim(t);
}

proof fn line_is_not_blank(t: Seq<char>)
    requires
        text::is_tight(t),
        is_line(t),
    ensures
        text::trimmed(cleaned(t)).len() > 0,
{
    line_without_comment_is_kept(t);
    text::nothing_to_trim(t);
}

/// White space around a type does not count.
pub proof fn space_around_a_type_does_not_count(
    a: Seq<char>,
    t: Seq<char>,
    b: Seq<char>,
    hint: Seq<char>,
    sources: Seq<Seq<char>>,
    depth: int,
)
    requires
        text::is_blank(a),
        text::is_blank(b),
        text::is_tight(t),
        t.last() != ',',
    ensures
        value_for(a + t + b, hint, sources, depth) == value_for(t, hint, sources, depth),
{
    let none = Seq::<char>::empty();
    type_is_read_as_written(a, t, b);
    assert(none + t + none =~= t);
    type_is_read_as_written(none, t, none);
}

/// The type of a list, written with brackets behind the type of its items, is
/// made up as a list of one item, which is what is made up for the type of the
/// items, one level deeper.
pub proof fn brackets_make_a_list(
    inner: Seq<char>,
    hint: Seq<char>,
    sources: Seq<Seq<char>>,
    depth: int,
)
    requires
        depth <= 4,
        inner.len() > 0,
        !text::is_space(inner[0]),
        is_line(inner),
    ensures
        value_for(inner + "[]"@, hint, sources, depth) == JsonView::Array(
            seq![value_for(inner, hint, sources, depth + 1)],
        ),
{
    reveal_strlit("[]");
    let t = inner + "[]"@;
    let none = Seq::<char>::empty();
    assert(t[t.len() - 1] == ']');
    assert(t[0] == inner[0]);
    assert(none + t + none =~= t);
    type_is_read_as_written(none, t, none);
    assert(is_line(t)) by {
        assert forall|i: int| 0 <= i < t.len() implies t[i] != '\n' && t[i] != '/' by {
            if i < inner.len() {
                assert(t[i] == inner[i]);
                assert(inner.contains(inner[i]));
            }
        }
    }
    line_is_not_blank(t);
    assert(t.subrange(t.len() - 2, t.len() as int) =~= "[]"@);
    assert(t.take(t.len() - 2) =~= inner);
}

/// Whatever else it holds, a type that ends in brackets once it is trimmed, and
/// of which something is left when its comments are taken out, is made up as a
/// list of one item, which is what is made up for the text before the brackets,
/// one level deeper.
pub proof fn types_in_brackets_make_a_list(
    ty: Seq<char>,
    hint: Seq<char>,
    sources: Seq<Seq<char>>,
    depth: int,
)
    requires
        depth <= 4,
        text::trimmed(ty).len() >= 2,
        text::trimmed(ty)[text::trimmed(ty).len() - 2] == '[',
        text::trimmed(ty)[text::trimmed(ty).len() - 1] == ']',
        !text::is_blank(cleaned(text::trimmed(ty))),
    ensures
        value_for(ty, hint, sources, depth) matches JsonView::Array(v) && v.len() == 1 && v[0]
            == value_for(
            text::trimmed(ty).take(text::trimmed(ty).len() - 2),
            hint,
            sources,
            depth + 1,
        ),
{
    reveal_strlit("[]");
    let t = text::trimmed(ty);
    text::trimmed_twice(ty);
    assert(text::without_trailing(t, ',') == t);
    assert(type_text(ty) == t);
    let c = cleaned(t);
    text::past_space_bounds(c, 0);
    let d = text::trimmed_start(c);
    text::before_space_bounds(d, d.len() as int);
    assert(text::trimmed(c).len() > 0) by {
        if text::trimmed(c).len() == 0 {
            let i = choose|i: int| 0 <= i < c.len() && !text::is_space(#[trigger] c[i]);
            let k = text::past_space(c, 0);
            assert(k <= i);
            assert(d[i - k] == c[i]);
        }
    }
    assert(t.subrange(t.len() - 2, t.len() as int) =~= "[]"@);
}

/// The type of a list, written by its name around the type of its items, is made
/// up as a list of one item, too.
pub proof fn named_lists_make_a_list(
    inner: Seq<char>,
    hint: Seq<char>,
    sources: Seq<Seq<char>>,
    depth: int,
)
    requires
        depth <= 4,
        is_line(inner),
    ensures
        value_for("Array<"@ + inner + ">"@, hint, sources, depth) == JsonView::Array(
            seq![value_for(inner, hint, sources, depth + 1)],
        ),
{
    reveal_strlit("[]");
    reveal_strlit("Array<");
    reveal_strlit(">");
    let t = "Array<"@ + inner + ">"@;
    let none = Seq::<char>::empty();
    assert(t[t.len() - 1] == '>');
    assert(t[0] == 'A');
    assert(none + t + none =~= t);
    type_is_read_as_written(none, t, none);
    assert(is_line(t)) by {
        assert forall|i: int| 0 <= i < t.len() implies t[i] != '\n' && t[i] != '/' by {
            if 6 <= i < 6 + inner.len() {
                assert(t[i] == inner[i - 6]);
                assert(inner.contains(inner[i - 6]));
            }
        }
    }
    line_is_not_blank(t);
    assert(!text::ends(t, "[]"@)) by {
        if text::ends(t, "[]"@) {
            assert(t.subrange(t.len() - 2, t.len() as int)[1] == ']');
        }
    }
    assert(t.subrange(0, 6) =~= "Array<"@);
    let rest = t.skip(6);
    assert(rest.subrange(rest.len() - 1, rest.len() as int) =~= ">"@);
    assert(rest.take(rest.len() - 1) =~= inner);
}

proof fn line_type_is_read(t: Seq<char>)
    requires
        text::is_tight(t),
        is_line(t),
        t.last() != ',',
    ensures
        type_text(t) == t,
        text::trimmed(cleaned(t)).len() > 0,
{
    let none = Seq::<char>::empty();
    assert(none + t + none =~= t);
    type_is_read_as_written(none, t, none);
    line_is_not_blank(t);
}

/// Nothing is made up below the fifth level.
pub proof fn nothing_is_made_up_below(ty: Seq<char>, hint: Seq<char>, sources: Seq<Seq<char>>, depth: int)
    requires
        depth > 4,
    ensures
        value_for(ty, hint, sources, depth) == JsonView::Null,
{
}

/// A string literal stands for the text between its quotes, bars and all.
pub proof fn literals_stand_for_themselves(
    quote: char,
    v: Seq<char>,
    hint: Seq<char>,
    sources: Seq<Seq<char>>,
    depth: int,
)
    requires
        depth <= 4,
        quote == '\'' || quote == '"',
        scan::fits_in_quotes(v, quote),
        is_line(v),
    ensures
        value_for(seq![quote] + v + seq![quote], hint, sources, depth) == JsonView::Text(v),
{
    let t = seq![quote] + v + seq![quote];
    let none = Seq::<char>::empty();
    assert(t[0] == quote && t[t.len() - 1] == quote);
    assert(is_line(t)) by {
        assert forall|i: int| 0 <= i < t.len() implies t[i] != '\n' && t[i] != '/' by {
            if 0 < i < t.len() - 1 {
                assert(t[i] == v[i - 1]);
                assert(v.contains(v[i - 1]));
            }
        }
    }
    line_type_is_read(t);
    reveal_strlit("[]");
    reveal_strlit("Array<");
    reveal_strlit("null");
    reveal_strlit("undefined");
    assert(!text::ends(t, "[]"@)) by {
        if text::ends(t, "[]"@) {
            assert(t.subrange(t.len() - 2, t.len() as int)[1] == ']');
        }
    }
    assert(!text::starts(t, "Array<"@)) by {
        if text::starts(t, "Array<"@) {
            assert(t.subrange(0, 6)[0] == 'A');
        }
    }
    scan::strings_are_not_parted(none, quote, v, none, Cut::Union);
    assert(none + seq![quote] + v + seq![quote] + none =~= t);
    text::nothing_to_trim(t);
    assert(usable(t));
    assert(scan::pieces(t, Cut::Union) == seq![t]);
    assert(alternative(t) == t);
    assert(t.subrange(1, t.len() - 1) =~= v);
}

/// Whether a type is a plain word: ASCII letters, digits, underscores and dollar
/// signs.
pub open spec fn is_word(t: Seq<char>) -> bool {
    t.len() > 0 && forall|i: int|
        0 <= i < t.len() ==> 'a' <= #[trigger] t[i] <= 'z' || 'A' <= t[i] <= 'Z' || '0' <= t[i]
            <= '9' || t[i] == '_' || t[i] == '$'
}

proof fn words_are_read(t: Seq<char>, hint: Seq<char>, sources: Seq<Seq<char>>, depth: int)
    requires
        depth <= 4,
        is_word(t),
    ensures
        value_for(t, hint, sources, depth) == (if simple_value(t, hint) is Some {
            simple_value(t, hint)->0
        } else {
            match resolved(sources, t) {
                Some(def) => if def.is_enum {
                    enum_value(def.body)
                } else {
                    JsonView::Object(values_for(fields_of(def.body), sources, depth))
                },
                None => no_members(),
            }
        }),
        !is_literal(t),
        !text::starts(t, "Record<"@),
        !text::starts(t, "Map<"@),
        !text::starts(t, "Set<"@),
{
    assert forall|i: int| 0 <= i < t.len() implies !text::is_space(#[trigger] t[i]) && t[i] != '/'
        && t[i] != '\n' && t[i] != '|' && t[i] != '<' && t[i] != ' ' && t[i] != ']' by {}
    assert(t[0] != '\'');
    assert(text::is_tight(t));
    assert(t[t.len() - 1] != ',');
    line_type_is_read(t);
    reveal_strlit("[]");
    reveal_strlit("Array<");
    reveal_strlit("Record<");
    reveal_strlit("Map<");
    reveal_strlit("Set<");
    reveal_strlit("readonly ");
    assert(!text::ends(t, "[]"@)) by {
        if text::ends(t, "[]"@) {
            assert(t.subrange(t.len() - 2, t.len() as int)[1] == ']');
        }
    }
    assert(!text::starts(t, "Array<"@)) by {
        if text::starts(t, "Array<"@) {
            assert(t.subrange(0, 6)[5] == '<');
        }
    }
    assert(!text::starts(t, "Record<"@)) by {
        if text::starts(t, "Record<"@) {
            assert(t.subrange(0, 7)[6] == '<');
        }
    }
    assert(!text::starts(t, "Map<"@)) by {
        if text::starts(t, "Map<"@) {
            assert(t.subrange(0, 4)[3] == '<');
        }
    }
    assert(!text::starts(t, "Set<"@)) by {
        if text::starts(t, "Set<"@) {
            assert(t.subrange(0, 4)[3] == '<');
        }
    }
    assert(!text::starts(t, "readonly "@)) by {
        if text::starts(t, "readonly "@) {
            assert(t.subrange(0, 9)[8] == ' ');
        }
    }
    text::nothing_to_trim(t);
    base_of_a_word(t, 0);
    assert(t.take(t.len() as int) =~= t);
    assert(base_name(t) == t);
}

proof fn base_of_a_word(t: Seq<char>, i: int)
    requires
        0 <= i <= t.len(),
        forall|k: int| 0 <= k < t.len() ==> #[trigger] t[k] != '<' && t[k] != ' ' && t[k] != '|',
    ensures
        base_end(t, i) == t.len(),
    decreases t.len() - i,
{
    if i < t.len() {
        assert(t[i] != '<');
        base_of_a_word(t, i + 1);
    }
}

proof fn string_is_simple(hint: Seq<char>)
    ensures
        is_word("string"@),
        simple_value("string"@, hint) == Some(
            JsonView::Text(sample_text(text::lowercase(hint))),
        ),
{
    reveal_strlit("string");
}

proof fn number_is_simple(hint: Seq<char>)
    ensures
        is_word("number"@),
        simple_value("number"@, hint) == Some(
            JsonView::Number(sample_number(text::lowercase(hint))),
        ),
{
    reveal_strlit("number");
    reveal_strlit("string");
    assert("number"@[0] != "string"@[0]);
}

proof fn boolean_is_simple(hint: Seq<char>)
    ensures
        is_word("boolean"@),
        simple_value("boolean"@, hint) == Some(JsonView::Bool(true)),
{
    reveal_strlit("boolean");
    reveal_strlit("string");
    reveal_strlit("number");
}

proof fn bool_is_simple(hint: Seq<char>)
    ensures
        is_word("bool"@),
        simple_value("bool"@, hint) == Some(JsonView::Bool(true)),
{
    reveal_strlit("bool");
    reveal_strlit("string");
    reveal_strlit("number");
}

proof fn date_is_simple(hint: Seq<char>)
    ensures
        is_word("Date"@),
        simple_value("Date"@, hint) == Some(
            JsonView::Text("2026-01-15T10:00:00Z"@),
        ),
{
    reveal_strlit("Date");
    reveal_strlit("string");
    reveal_strlit("number");
    reveal_strlit("boolean");
    reveal_strlit("bool");
    assert("Date"@[0] != "bool"@[0]);
}

proof fn any_is_simple(hint: Seq<char>)
    ensures
        is_word("any"@),
        simple_value("any"@, hint) == Some(JsonView::Object(Seq::empty())),
{
    reveal_strlit("any");
    reveal_strlit("string");
    reveal_strlit("number");
    reveal_strlit("boolean");
    reveal_strlit("bool");
    reveal_strlit("Date");
}

proof fn unknown_is_simple(hint: Seq<char>)
    ensures
        is_word("unknown"@),
        simple_value("unknown"@, hint) == Some(JsonView::Object(Seq::empty())),
{
    reveal_strlit("unknown");
    reveal_strlit("string");
    reveal_strlit("number");
    reveal_strlit("boolean");
    reveal_strlit("bool");
    reveal_strlit("Date");
    reveal_strlit("any");
    assert("unknown"@[0] != "boolean"@[0]);
}

proof fn object_is_simple(hint: Seq<char>)
    ensures
        is_word("object"@),
        simple_value("object"@, hint) == Some(JsonView::Object(Seq::empty())),
{
    reveal_strlit("object");
    reveal_strlit("string");
    reveal_strlit("number");
    reveal_strlit("boolean");
    reveal_strlit("bool");
    reveal_strlit("Date");
    reveal_strlit("any");
    reveal_strlit("unknown");
    assert("object"@[0] != "string"@[0]);
    assert("object"@[0] != "number"@[0]);
}

/// The types that come with the language are made up by their names: a text, a
/// number, true, a point in time, and an object without members for what can be
/// anything.
pub proof fn simple_types_are_made_up(hint: Seq<char>, sources: Seq<Seq<char>>, depth: int)
    requires
        depth <= 4,
    ensures
        value_for("string"@, hint, sources, depth) matches JsonView::Text(x) && x.len() > 0,
        value_for("number"@, hint, sources, depth) matches JsonView::Number(n) && (n == "1"@ || n
            == "10"@),
        value_for("boolean"@, hint, sources, depth) == JsonView::Bool(true),
        value_for("bool"@, hint, sources, depth) == JsonView::Bool(true),
        value_for("Date"@, hint, sources, depth) is Text,
        value_for("any"@, hint, sources, depth) == JsonView::Object(Seq::empty()),
        value_for("unknown"@, hint, sources, depth) == JsonView::Object(Seq::empty()),
        value_for("object"@, hint, sources, depth) == JsonView::Object(Seq::empty()),
{
    string_is_simple(hint);
    words_are_read("string"@, hint, sources, depth);
    number_is_simple(hint);
    words_are_read("number"@, hint, sources, depth);
    boolean_is_simple(hint);
    words_are_read("boolean"@, hint, sources, depth);
    bool_is_simple(hint);
    words_are_read("bool"@, hint, sources, depth);
    date_is_simple(hint);
    words_are_read("Date"@, hint, sources, depth);
    any_is_simple(hint);
    words_are_read("any"@, hint, sources, depth);
    unknown_is_simple(hint);
    words_are_read("unknown"@, hint, sources, depth);
    object_is_simple(hint);
    words_are_read("object"@, hint, sources, depth);
    sample_texts_fit_the_field(text::lowercase(hint));
}

/// The text made up for a field fits what its name says: an identifier, an
/// address of mail or of the web, a day, a name, a picture, a colour. It is never
/// empty.
pub proof fn sample_texts_fit_the_field(n: Seq<char>)
    ensures
        sample_text(n).len() > 0,
        text::has(n, "id"@) ==> text::starts(sample_text(n), "id-"@),
        !text::has(n, "id"@) && text::has(n, "mail"@) ==> sample_text(n).contains('@'),
        !text::has(n, "id"@) && !text::has(n, "mail"@) && (text::has(n, "url"@) || text::has(
            n,
            "link"@,
        ) || text::has(n, "href"@)) ==> text::starts(sample_text(n), "https://"@),
        !text::has(n, "id"@) && !text::has(n, "mail"@) && !text::has(n, "url"@) && !text::has(
            n,
            "link"@,
        ) && !text::has(n, "href"@) && (text::has(n, "date"@) || text::has(n, "fecha"@)
            || text::ends(n, "at"@)) ==> sample_text(n).len() == 10 && sample_text(n)[4] == '-'
            && sample_text(n)[7] == '-',
{
    reveal_strlit("id-1024");
    reveal_strlit("id-");
    reveal_strlit("user@example.com");
    reveal_strlit("https://example.com");
    reveal_strlit("https://");
    reveal_strlit("2026-01-15");
    reveal_strlit("Sample name");
    reveal_strlit("Sample description");
    reveal_strlit("https://example.com/image.png");
    reveal_strlit("#3178C6");
    reveal_strlit("Sample text");
    reveal_strlit("email");
    reveal_strlit("mail");
    assert("id-1024"@.subrange(0, 3) =~= "id-"@);
    assert("user@example.com"@[4] == '@');
    assert("https://example.com"@.subrange(0, 8) =~= "https://"@);
    if text::has(n, "email"@) {
        let i = choose|i: int| text::occurs_at(n, "email"@, i);
        let m = n.subrange(i, i + 5);
        assert(n.subrange(i + 1, i + 5) =~= m.subrange(1, 5));
        assert("email"@.subrange(1, 5) =~= "mail"@);
        assert(text::occurs_at(n, "mail"@, i + 1));
    }
}

/// Of a union the first alternative other than `null` and `undefined` counts.
pub proof fn first_alternative_counts(
    a: Seq<char>,
    b: Seq<char>,
    hint: Seq<char>,
    sources: Seq<Seq<char>>,
    depth: int,
)
    requires
        depth <= 4,
        is_word(a),
        is_word(b),
    ensures
        a != "null"@ && a != "undefined"@ ==> value_for(a + " | "@ + b, hint, sources, depth)
            == value_for(a, hint, sources, depth),
        (a == "null"@ || a == "undefined"@) && b != "null"@ && b != "undefined"@ ==> value_for(
            a + " | "@ + b,
            hint,
            sources,
            depth,
        ) == value_for(b, hint, sources, depth),
{
    reveal_strlit(" | ");
    reveal_strlit("[]");
    reveal_strlit(">");
    let t = a + " | "@ + b;
    let n = a.len() as int;
    assert(t[0] == a[0]);
    assert(t[t.len() - 1] == b[b.len() - 1]);
    assert forall|i: int| 0 <= i < t.len() implies t[i] != '\n' && t[i] != '/' by {
        if i < n {
            assert(t[i] == a[i]);
        } else if i >= n + 3 {
            assert(t[i] == b[i - n - 3]);
        }
    }
    line_type_is_read(t);
    assert(!text::ends(t, "[]"@)) by {
        if text::ends(t, "[]"@) {
            assert(t.subrange(t.len() - 2, t.len() as int)[1] == ']');
        }
    }
    reveal_strlit("Array<");
    assert(!text::starts(t, "Array<"@)) by {
        if text::starts(t, "Array<"@) {
            assert(t.subrange(0, 6)[5] == '<');
            assert(t[5] == '<');
            if n > 5 {
                assert(a[5] == '<');
            }
        }
    }
    assert(t[n + 1] == '|');
    let x = a + seq![' '];
    let y = seq![' '] + b;
    assert(t =~= x + seq!['|'] + y);
    assert(scan::is_uncut(x, Cut::Union)) by {
        assert forall|i: int| 0 <= i < x.len() implies {
            let c = #[trigger] x[i];
            &&& c != '\'' && c != '"' && c != '`'
            &&& c != '(' && c != ')' && c != '{' && c != '}' && c != '[' && c != ']'
            &&& c != '|' && c != '<' && c != '>'
        } by {
            if i < n {
                assert(x[i] == a[i]);
            }
        }
    }
    assert(scan::is_uncut(y, Cut::Union)) by {
        assert forall|i: int| 0 <= i < y.len() implies {
            let c = #[trigger] y[i];
            &&& c != '\'' && c != '"' && c != '`'
            &&& c != '(' && c != ')' && c != '{' && c != '}' && c != '[' && c != ']'
            &&& c != '|' && c != '<' && c != '>'
        } by {
            if i > 0 {
                assert(y[i] == b[i - 1]);
            }
        }
    }
    scan::separators_part_pieces(x, '|', y, Cut::Union);
    scan::plain_text_is_one_piece(y, Cut::Union);
    let parts = scan::pieces(t, Cut::Union);
    assert(parts =~= seq![x, y]);
    let none = Seq::<char>::empty();
    assert(none + a + seq![' '] =~= x);
    assert(seq![' '] + b + none =~= y);
    assert(text::is_space(' '));
    text::trimming_leaves_the_middle(none, a, seq![' ']);
    text::trimming_leaves_the_middle(seq![' '], b, none);
    assert(parts[0] == x && parts[1] == y);
    reveal_with_fuel(usable_from, 3);
    assert(a.len() < t.len() && b.len() < t.len());
}

/// What is made up for a member of a definition is the value made up for its
/// type, one level deeper; each member has one.
proof fn members_are_made_up(
    fields: Seq<(Seq<char>, Seq<char>)>,
    sources: Seq<Seq<char>>,
    depth: int,
    k: int,
)
    requires
        depth <= 4,
        0 <= k < fields.len(),
        forall|i: int, j: int|
            0 <= i < j < fields.len() ==> (#[trigger] fields[i]).0 != (#[trigger] fields[j]).0,
    ensures
        json::member(values_for(fields, sources, depth), fields[k].0) == Some(
            value_for(fields[k].1, fields[k].0, sources, depth + 1),
        ),
    decreases fields.len(),
{
    let head = fields.drop_last();
    let last = fields[fields.len() - 1];
    let earlier = values_for(head, sources, depth);
    let value = value_for(last.1, last.0, sources, depth + 1);
    json::insert_then_read(earlier, last.0, value, fields[k].0);
    if k < fields.len() - 1 {
        assert forall|i: int, j: int| 0 <= i < j < head.len() implies (#[trigger] head[i]).0 != (
        #[trigger] head[j]).0 by {
            assert(fields[i].0 != fields[j].0);
        }
        assert(head[k] == fields[k]);
        members_are_made_up(head, sources, depth, k);
        assert(fields[k].0 != last.0);
    }
}

/// Whether a word is the name of a type that comes with the language.
pub open spec fn is_built_in(name: Seq<char>) -> bool {
    ||| name == "string"@
    ||| name == "number"@
    ||| name == "boolean"@
    ||| name == "bool"@
    ||| name == "Date"@
    ||| name == "any"@
    ||| name == "unknown"@
    ||| name == "object"@
}

/// A type that is defined is made up as an object that holds, for each member of
/// the definition, the value made up for the member's type, one level deeper.
pub proof fn defined_types_make_objects(
    name: Seq<char>,
    hint: Seq<char>,
    sources: Seq<Seq<char>>,
    depth: int,
    k: int,
)
    requires
        depth <= 4,
        is_word(name),
        !is_built_in(name),
        resolved(sources, name) matches Some(def) && !def.is_enum && 0 <= k < fields_of(
            def.body,
        ).len() && forall|i: int, j: int|
            0 <= i < j < fields_of(def.body).len() ==> (#[trigger] fields_of(def.body)[i]).0 != (
            #[trigger] fields_of(def.body)[j]).0,
    ensures
        value_for(name, hint, sources, depth) matches JsonView::Object(o) && json::member(
            o,
            fields_of(resolved(sources, name)->0.body)[k].0,
        ) == Some(
            value_for(
                fields_of(resolved(sources, name)->0.body)[k].1,
                fields_of(resolved(sources, name)->0.body)[k].0,
                sources,
                depth + 1,
            ),
        ),
{
    words_are_read(name, hint, sources, depth);
    members_are_made_up(fields_of(resolved(sources, name)->0.body), sources, depth, k);
}

/// A type that no source defines is made up as an object without members.
pub proof fn undefined_types_make_empty_objects(
    name: Seq<char>,
    hint: Seq<char>,
    sources: Seq<Seq<char>>,
    depth: int,
)
    requires
        depth <= 4,
        is_word(name),
        !is_built_in(name),
        resolved(sources, name) is None,
    ensures
        value_for(name, hint, sources, depth) == JsonView::Object(Seq::empty()),
{
    words_are_read(name, hint, sources, depth);
}

/// An enum is made up as what its first member stands for.
pub proof fn enums_make_their_first_member(
    name: Seq<char>,
    hint: Seq<char>,
    sources: Seq<Seq<char>>,
    depth: int,
    first: Seq<char>,
    rest: Seq<char>,
)
    requires
        depth <= 4,
        is_word(name),
        !is_built_in(name),
        !first.contains(','),
        resolved(sources, name) == Some(
            (DefView { body: first + seq![','] + rest, is_enum: true }),
        ) || resolved(sources, name) == Some((DefView { body: first, is_enum: true })),
    ensures
        value_for(name, hint, sources, depth) == member_value(first),
{
    words_are_read(name, hint, sources, depth);
    text::first_piece_is_split_off(first, ',', rest);
    text::nothing_to_split(first, ',');
}

/// A member of an enum that is given a quoted text stands for the text; one that
/// is given nothing stands for zero.
pub proof fn enum_members_stand_for_their_texts(
    name: Seq<char>,
    quote: char,
    v: Seq<char>,
)
    requires
        is_word(name),
        quote == '\'' || quote == '"',
        is_word(v),
    ensures
        member_value(name + " = "@ + seq![quote] + v + seq![quote]) == JsonView::Text(v),
        member_value(name) == JsonView::Number("0"@),
{
    reveal_strlit(" = ");
    let quoted = seq![quote] + v + seq![quote];
    let p = name + " = "@ + seq![quote] + v + seq![quote];
    let n = name.len() as int;
    assert(p[0] == name[0]);
    assert(p[p.len() - 1] == quote);
    text::nothing_to_trim(p);
    text::char_from_is_least(p, '=', 0);
    assert(p[n + 1] == '=');
    let eq = text::char_from(p, '=', 0)->0;
    if eq < n {
        assert(p[eq] == name[eq]);
    }
    assert(p[n] == ' ');
    assert(eq == n + 1);
    let none = Seq::<char>::empty();
    assert(p.skip(eq + 1) =~= seq![' '] + quoted + none);
    assert(quoted[0] == quote && quoted[quoted.len() - 1] == quote);
    assert(text::is_space(' '));
    text::trimming_leaves_the_middle(seq![' '], quoted, none);
    assert(v[0] != '\'' && v[0] != '"');
    assert(v[v.len() - 1] != '\'' && v[v.len() - 1] != '"');
    let inner = v + seq![quote];
    assert(quoted.skip(1) =~= inner);
    assert(inner[0] == v[0]);
    assert(inner.drop_last() =~= v);
    reveal_with_fuel(text::without_leading, 3);
    reveal_with_fuel(text::without_trailing, 3);
    assert(text::without_around(v, '\'') == v);
    assert(text::without_around(v, '"') == v);
    assert(text::without_around(quoted, quote) == v) by {
        assert(text::without_leading(quoted, quote) == inner);
        assert(text::without_trailing(inner, quote) == v);
    }
    if quote == '"' {
        assert(text::without_around(quoted, '\'') == quoted);
    }
    assert(quoted.len() != v.len());
    text::nothing_to_trim(name);
    text::char_from_is_least(name, '=', 0);
    if let Some(i) = text::char_from(name, '=', 0) {
        assert(name[i] == '=');
    }
}

// ---------------------------------------------------------------------------
// What is read of a source
// ---------------------------------------------------------------------------

/// A definition in braces is found by its keyword and its name, and its body is
/// what stands between the braces.
proof fn braced_definition_is_found(
    before: Seq<char>,
    k: Keyword,
    name: Seq<char>,
    gap: Seq<char>,
    body: Seq<char>,
    after: Seq<char>,
)
    requires
        !(k is Type),
        is_word(name),
        !gap.contains('{'),
        gap.len() > 0 ==> text::is_space(gap[0]) || gap[0] == '<',
        scan::is_free(body, '{', '}'),
        forall|j: int|
            0 <= j < before.len() ==> !#[trigger] text::occurs_at(
                before + (keyword_text(k) + " "@ + name) + gap + seq!['{'] + body + seq!['}']
                    + after,
                keyword_text(k) + " "@ + name,
                j,
            ),
    ensures
        search(
            before + (keyword_text(k) + " "@ + name) + gap + seq!['{'] + body + seq!['}'] + after,
            name,
            k,
        ) == Search::Found(DefView { body, is_enum: k is Enum }),
{
    reveal_strlit(" ");
    reveal_strlit("interface");
    reveal_strlit("enum");
    reveal_strlit("class");
    let needle = keyword_text(k) + " "@ + name;
    let s = before + needle + gap + seq!['{'] + body + seq!['}'] + after;
    let at = before.len() as int;
    let end = at + needle.len();
    let brace = end + gap.len();
    assert(s.subrange(at, end) =~= needle);
    assert(text::occurs_at(s, needle, at));
    text::first_from_is_least(s, needle, 0);
    assert(text::first_from(s, needle, 0) == Some(at));
    assert(s[brace] == '{');
    if gap.len() > 0 {
        assert(s[end] == gap[0]);
    }
    assert(name_ends(s, end));
    text::char_from_is_least(s, '{', at);
    let found = text::char_from(s, '{', at)->0;
    assert(text::char_from(s, '{', at) is Some);
    assert(found == brace) by {
        if found < brace {
            if found < end {
                assert(s[found] == needle[found - at]);
                let kn = keyword_text(k).len() as int;
                if found - at < kn {
                    assert(needle[found - at] == keyword_text(k)[found - at]);
                } else if found - at > kn {
                    assert(needle[found - at] == name[found - at - kn - 1]);
                }
            } else {
                assert(s[found] == gap[found - end]);
                assert(gap.contains(gap[found - end]));
            }
        }
    }
    scan::plain_block_is_found(before + needle + gap, '{', body, '}', after);
}

/// The members of an interface are looked up in what stands between its braces.
pub proof fn interfaces_are_found(
    before: Seq<char>,
    name: Seq<char>,
    gap: Seq<char>,
    body: Seq<char>,
    after: Seq<char>,
)
    requires
        is_word(name),
        !gap.contains('{'),
        gap.len() > 0 ==> text::is_space(gap[0]) || gap[0] == '<',
        scan::is_free(body, '{', '}'),
        forall|j: int|
            0 <= j < before.len() ==> !#[trigger] text::occurs_at(
                before + ("interface"@ + " "@ + name) + gap + seq!['{'] + body + seq!['}'] + after,
                "interface"@ + " "@ + name,
                j,
            ),
    ensures
        definition_of(
            before + ("interface"@ + " "@ + name) + gap + seq!['{'] + body + seq!['}'] + after,
            name,
        ) == Some((DefView { body, is_enum: false })),
{
    braced_definition_is_found(before, Keyword::Interface, name, gap, body, after);
}

proof fn absent_needle_ends_a_search(s: Seq<char>, name: Seq<char>, k: Keyword)
    requires
        !text::has(s, keyword_text(k) + " "@ + name),
    ensures
        search(s, name, k) is Absent,
{
    reveal_strlit(" ");
    text::has_iff_found(s, keyword_text(k) + " "@ + name);
}

/// An enum that no interface shares its name with is found as one.
pub proof fn enums_are_found(
    before: Seq<char>,
    name: Seq<char>,
    gap: Seq<char>,
    body: Seq<char>,
    after: Seq<char>,
)
    requires
        is_word(name),
        !gap.contains('{'),
        gap.len() > 0 ==> text::is_space(gap[0]),
        scan::is_free(body, '{', '}'),
        forall|j: int|
            0 <= j < before.len() ==> !#[trigger] text::occurs_at(
                before + ("enum"@ + " "@ + name) + gap + seq!['{'] + body + seq!['}'] + after,
                "enum"@ + " "@ + name,
                j,
            ),
        !text::has(
            before + ("enum"@ + " "@ + name) + gap + seq!['{'] + body + seq!['}'] + after,
            "interface"@ + " "@ + name,
        ),
    ensures
        definition_of(
            before + ("enum"@ + " "@ + name) + gap + seq!['{'] + body + seq!['}'] + after,
            name,
        ) == Some((DefView { body, is_enum: true })),
{
    let s = before + ("enum"@ + " "@ + name) + gap + seq!['{'] + body + seq!['}'] + after;
    absent_needle_ends_a_search(s, name, Keyword::Interface);
    braced_definition_is_found(before, Keyword::Enum, name, gap, body, after);
}

/// A class that shares its name with no interface and no enum gives its members,
/// too.
pub proof fn classes_are_found(
    before: Seq<char>,
    name: Seq<char>,
    gap: Seq<char>,
    body: Seq<char>,
    after: Seq<char>,
)
    requires
        is_word(name),
        !gap.contains('{'),
        gap.len() > 0 ==> text::is_space(gap[0]) || gap[0] == '<',
        scan::is_free(body, '{', '}'),
        forall|j: int|
            0 <= j < before.len() ==> !#[trigger] text::occurs_at(
                before + ("class"@ + " "@ + name) + gap + seq!['{'] + body + seq!['}'] + after,
                "class"@ + " "@ + name,
                j,
            ),
        !text::has(
            before + ("class"@ + " "@ + name) + gap + seq!['{'] + body + seq!['}'] + after,
            "interface"@ + " "@ + name,
        ),
        !text::has(
            before + ("class"@ + " "@ + name) + gap + seq!['{'] + body + seq!['}'] + after,
            "enum"@ + " "@ + name,
        ),
    ensures
        definition_of(
            before + ("class"@ + " "@ + name) + gap + seq!['{'] + body + seq!['}'] + after,
            name,
        ) == Some((DefView { body, is_enum: false })),
{
    let s = before + ("class"@ + " "@ + name) + gap + seq!['{'] + body + seq!['}'] + after;
    absent_needle_ends_a_search(s, name, Keyword::Interface);
    absent_needle_ends_a_search(s, name, Keyword::Enum);
    braced_definition_is_found(before, Keyword::Class, name, gap, body, after);
}

/// A name that no keyword stands before is not defined.
pub proof fn undeclared_names_are_not_defined(s: Seq<char>, name: Seq<char>)
    requires
        !text::has(s, "interface"@ + " "@ + name),
        !text::has(s, "enum"@ + " "@ + name),
        !text::has(s, "class"@ + " "@ + name),
        !text::has(s, "type"@ + " "@ + name),
    ensures
        definition_of(s, name) is None,
{
    absent_needle_ends_a_search(s, name, Keyword::Interface);
    absent_needle_ends_a_search(s, name, Keyword::Enum);
    absent_needle_ends_a_search(s, name, Keyword::Class);
    absent_needle_ends_a_search(s, name, Keyword::Type);
}

/// A piece of a body that holds a name, a question mark where the member is
/// optional, a colon and a type declares the member of this name and this type.
pub proof fn members_are_read(
    a: Seq<char>,
    name: Seq<char>,
    optional: bool,
    ty: Seq<char>,
    b: Seq<char>,
)
    requires
        text::is_blank(a),
        text::is_blank(b),
        is_word(name),
        text::is_tight(ty),
        is_line(ty),
        ty.last() != ';',
        !ty.contains('='),
    ensures
        member_of(
            a + (name + (if optional {
                "?: "@
            } else {
                ": "@
            }) + ty) + b,
        ) == Some((name, ty)),
{
    reveal_strlit("?: ");
    reveal_strlit(": ");
    reveal_strlit("//");
    reveal_strlit("*");
    reveal_strlit(";");
    reveal_strlit("readonly ");
    let mid = if optional {
        "?: "@
    } else {
        ": "@
    };
    let t = name + mid + ty;
    let n = name.len() as int;
    let m = mid.len() as int;
    let colon = n + m - 2;
    let none = Seq::<char>::empty();
    assert(t[0] == name[0]);
    assert(t[t.len() - 1] == ty[ty.len() - 1]);
    assert(!text::is_space(name[0]));
    text::trimming_leaves_the_middle(a, t, b);
    assert forall|i: int| 0 <= i < t.len() implies t[i] != '\n' && t[i] != '/' by {
        if i < n {
            assert(t[i] == name[i]);
        } else if i >= n + m {
            assert(t[i] == ty[i - n - m]);
            assert(ty.contains(ty[i - n - m]));
        }
    }
    assert(!text::starts(t, "//"@)) by {
        if text::starts(t, "//"@) {
            assert(t.subrange(0, 2)[0] == '/');
        }
    }
    assert(!text::starts(t, "*"@)) by {
        if text::starts(t, "*"@) {
            assert(t.subrange(0, 1)[0] == '*');
        }
    }
    line_without_comment_is_kept(t);
    assert(!text::ends(t, ";"@)) by {
        if text::ends(t, ";"@) {
            assert(t.subrange(t.len() - 1, t.len() as int)[0] == ';');
        }
    }
    text::nothing_to_trim(t);
    assert(t[colon] == ':');
    assert(!text::starts(t, "readonly "@)) by {
        if text::starts(t, "readonly "@) {
            assert(t.subrange(0, 9)[8] == ' ');
            assert(t[8] == ' ');
            if n > 8 {
                assert(t[8] == name[8]);
            }
            assert(t[colon] == t.subrange(0, 9)[colon]);
        }
    }
    text::char_from_is_least(t, ':', 0);
    let found = text::char_from(t, ':', 0)->0;
    assert(found == colon) by {
        if found < n {
            assert(t[found] == name[found]);
        }
    }
    let front = t.take(colon);
    assert(front =~= if optional {
        name.push('?')
    } else {
        name
    });
    assert(front[0] == name[0]);
    assert(!text::is_space(front[front.len() - 1])) by {
        if !optional {
            assert(front[front.len() - 1] == name[n - 1]);
        }
    }
    text::nothing_to_trim(front);
    assert(name[n - 1] != '?');
    assert(text::without_trailing(front, '?') == name) by {
        reveal_with_fuel(text::without_trailing, 2);
        if optional {
            assert(front.drop_last() =~= name);
        }
    }
    text::nothing_to_trim(name);
    text::ident_end_bounds(name, 0);
    assert(text::ident_end(name, 0) == n) by {
        let e = text::ident_end(name, 0);
        if e < n {
            assert('a' <= name[e] <= 'z' || 'A' <= name[e] <= 'Z' || '0' <= name[e] <= '9'
                || name[e] == '_' || name[e] == '$');
            assert(text::is_ident(name[e]));
        }
    }
    assert(name.take(n) =~= name);
    assert(t.skip(colon + 1) =~= seq![' '] + ty + none);
    assert(text::is_space(' '));
    text::trimming_leaves_the_middle(seq![' '], ty, none);
    text::char_from_is_least(ty, '=', 0);
    if let Some(i) = text::char_from(ty, '=', 0) {
        assert(ty.contains(ty[i]));
    }
}

/// The members of a body come one behind the other: that of the piece before the
/// first semicolon or line break, then those of the rest.
pub proof fn members_come_in_order(part: Seq<char>, c: char, rest: Seq<char>)
    requires
        scan::is_uncut(part, Cut::Members),
        c == ';' || c == '\n',
    ensures
        fields_of(part + seq![c] + rest) == (match member_of(part) {
            Some(m) => seq![m] + fields_of(rest),
            None => fields_of(rest),
        }),
{
    scan::separators_part_pieces(part, c, rest, Cut::Members);
    first_member_comes_first(part, scan::pieces(rest, Cut::Members));
}

proof fn first_member_comes_first(part: Seq<char>, rest: Seq<Seq<char>>)
    ensures
        members_of(seq![part] + rest) == (match member_of(part) {
            Some(m) => seq![m] + members_of(rest),
            None => members_of(rest),
        }),
    decreases rest.len(),
{
    let all = seq![part] + rest;
    reveal_with_fuel(members_of, 2);
    if rest.len() == 0 {
        assert(all.drop_last() =~= Seq::<Seq<char>>::empty());
        if let Some(m) = member_of(part) {
            assert(members_of(all) =~= seq![m] + members_of(rest));
        } else {
            assert(members_of(all) =~= members_of(rest));
        }
    } else {
        let head = rest.drop_last();
        assert(all.drop_last() =~= seq![part] + head);
        assert(all.last() == rest.last());
        first_member_comes_first(part, head);
        if let Some(m) = member_of(part) {
            if let Some(l) = member_of(rest.last()) {
                assert((seq![m] + members_of(head)).push(l) =~= seq![m] + members_of(head).push(l));
            }
        }
    }
}

/// A type that is the alias of another one, or of a union, is defined by what
/// stands behind the equals sign, up to the semicolon.
pub proof fn aliases_are_found(
    before: Seq<char>,
    name: Seq<char>,
    ty: Seq<char>,
    after: Seq<char>,
)
    requires
        is_word(name),
        text::is_tight(ty),
        ty[0] != '{',
        !ty.contains(';'),
        forall|j: int|
            0 <= j < before.len() ==> !#[trigger] text::occurs_at(
                before + ("type"@ + " "@ + name) + " = "@ + ty + seq![';'] + after,
                "type"@ + " "@ + name,
                j,
            ),
        !text::has(
            before + ("type"@ + " "@ + name) + " = "@ + ty + seq![';'] + after,
            "interface"@ + " "@ + name,
        ),
        !text::has(
            before + ("type"@ + " "@ + name) + " = "@ + ty + seq![';'] + after,
            "enum"@ + " "@ + name,
        ),
        !text::has(
            before + ("type"@ + " "@ + name) + " = "@ + ty + seq![';'] + after,
            "class"@ + " "@ + name,
        ),
    ensures
        definition_of(before + ("type"@ + " "@ + name) + " = "@ + ty + seq![';'] + after, name)
            == Some((DefView { body: ty, is_enum: false })),
{
    reveal_strlit(" ");
    reveal_strlit(" = ");
    reveal_strlit("type");
    let needle = "type"@ + " "@ + name;
    let s = before + needle + " = "@ + ty + seq![';'] + after;
    absent_needle_ends_a_search(s, name, Keyword::Interface);
    absent_needle_ends_a_search(s, name, Keyword::Enum);
    absent_needle_ends_a_search(s, name, Keyword::Class);
    let at = before.len() as int;
    let end = at + needle.len();
    let eq = end + 1;
    let semi = end + 3 + ty.len();
    assert(s.subrange(at, end) =~= needle);
    assert(text::occurs_at(s, needle, at));
    text::first_from_is_least(s, needle, 0);
    assert(text::first_from(s, needle, 0) == Some(at));
    assert(s[end] == ' ');
    assert(text::is_space(' '));
    assert(s[eq] == '=');
    text::char_from_is_least(s, '=', at);
    let found = text::char_from(s, '=', at)->0;
    assert(found == eq) by {
        if found < end {
            assert(s[found] == needle[found - at]);
            if found - at > 4 {
                assert(needle[found - at] == name[found - at - 5]);
            }
        }
    }
    let none = Seq::<char>::empty();
    assert(s =~= (before + needle + seq![' ', '=']) + seq![' '] + (ty + seq![';'] + after));
    assert((ty + seq![';'] + after)[0] == ty[0]);
    text::space_is_skipped(before + needle + seq![' ', '='], seq![' '], ty + seq![';'] + after);
    assert(s[eq + 2] == ty[0]);
    assert(s[semi] == ';');
    text::char_from_is_least(s, ';', eq + 1);
    let stop = text::char_from(s, ';', eq + 1)->0;
    assert(stop == semi) by {
        if eq + 1 < stop < semi {
            assert(s[stop] == ty[stop - eq - 2]);
            assert(ty.contains(ty[stop - eq - 2]));
        }
        assert(s[eq + 1] == ' ');
    }
    assert(s.subrange(eq + 1, semi) =~= seq![' '] + ty + none);
    text::trimming_leaves_the_middle(seq![' '], ty, none);
}

/// A word before the place `at`, with nothing but white space between them, is the
/// name that stands there.
pub proof fn name_is_read_backwards(before: Seq<char>, name: Seq<char>, gap: Seq<char>, rest: Seq<char>)
    requires
        is_word(name),
        before.len() > 0 ==> !text::is_ident(before.last()),
        text::is_blank(gap),
    ensures
        name_before(before + name + gap + rest, (before.len() + name.len() + gap.len()) as int)
            == name,
{
    let s = before + name + gap + rest;
    let a = before.len() as int;
    let e = a + name.len();
    let at = e + gap.len();
    text::before_space_bounds(s, at);
    let b = text::before_space(s, at);
    assert(b == e) by {
        if b > e {
            assert(s[b - 1] == gap[b - 1 - e]);
        }
        if b < e {
            assert(s[e - 1] == name[name.len() - 1]);
        }
    }
    text::ident_start_bounds(s, e);
    let i = text::ident_start(s, e);
    assert(i == a) by {
        if i < a {
            assert(s[a - 1] == before.last());
        }
        if i > a {
            assert(s[i - 1] == name[i - 1 - a]);
            assert(text::is_ident(name[i - 1 - a]));
        }
    }
    assert(s.subrange(a, e) =~= name);
}

/// An input that is declared with its type is read as one: its name, whether it is
/// required, its type, and whether it has a default, that is, whether anything but
/// white space stands between the parentheses.
pub proof fn typed_inputs_are_read(
    before: Seq<char>,
    name: Seq<char>,
    token: Seq<char>,
    ty: Seq<char>,
    arg: Seq<char>,
    after: Seq<char>,
)
    requires
        is_word(name),
        before.len() > 0 ==> !text::is_ident(before.last()),
        token == "input"@ || token == "input.required"@ || token == "model"@,
        scan::is_free(ty, '<', '>'),
        scan::is_free(arg, '(', ')'),
    ensures
        declaration_at(
            before + name + seq![' '] + (seq!['=', ' '] + token + seq!['<'] + ty + seq!['>', '(']
                + arg + seq![')'] + after),
            before.len() + name.len() + 1int,
        ) == Some(
            InputView {
                name,
                required: token == "input.required"@,
                generic: Some(ty),
                has_default: !text::is_blank(arg),
            },
        ),
{
    let call = seq!['('] + arg + seq![')'] + after;
    let rest = seq!['<'] + ty + seq!['>'] + call;
    let tail = seq!['=', ' '] + token + seq!['<'] + ty + seq!['>', '('] + arg + seq![')'] + after;
    let s = before + name + seq![' '] + tail;
    let front = before + name + seq![' ', '='];
    let head = front + seq![' '] + token;
    let eq = (before.len() + name.len() + 1) as int;
    assert(text::is_space(' '));
    assert(tail =~= seq!['=', ' '] + token + rest);
    assert(s =~= head + rest);
    name_is_read_backwards(before, name, seq![' '], tail);
    token_is_declared(front, token, rest);
    assert(head + rest =~= head + seq!['<'] + ty + seq!['>'] + call);
    scan::plain_block_is_found(head, '<', ty, '>', call);
    let typed = head + seq!['<'] + ty + seq!['>'];
    assert(typed + call =~= typed + seq!['('] + arg + seq![')'] + after);
    scan::plain_block_is_found(typed, '(', arg, ')', after);
    blank_iff_trimmed_away(arg);
}

/// An input that is declared without a type has none, and the default that stands
/// between its parentheses.
pub proof fn untyped_inputs_are_read(
    before: Seq<char>,
    name: Seq<char>,
    token: Seq<char>,
    arg: Seq<char>,
    after: Seq<char>,
)
    requires
        is_word(name),
        before.len() > 0 ==> !text::is_ident(before.last()),
        token == "input"@ || token == "input.required"@ || token == "model"@,
        scan::is_free(arg, '(', ')'),
    ensures
        declaration_at(
            before + name + seq![' '] + (seq!['=', ' '] + token + seq!['('] + arg + seq![')']
                + after),
            before.len() + name.len() + 1int,
        ) == Some(
            InputView {
                name,
                required: token == "input.required"@,
                generic: None,
                has_default: !text::is_blank(arg),
            },
        ),
{
    let tail = seq!['=', ' '] + token + seq!['('] + arg + seq![')'] + after;
    let s = before + name + seq![' '] + tail;
    let eq = (before.len() + name.len() + 1) as int;
    assert(text::is_space(' '));
    name_is_read_backwards(before, name, seq![' '], tail);
    assert(s[eq] == '=');
    token_is_declared(
        before + name + seq![' ', '='],
        token,
        seq!['('] + arg + seq![')'] + after,
    );
    let head = before + name + seq![' ', '=', ' '] + token;
    assert(s =~= before + name + seq![' ', '='] + seq![' '] + token + (seq!['('] + arg + seq![')']
        + after));
    assert(s =~= head + seq!['('] + arg + seq![')'] + after);
    assert(s[head.len() as int] == '(');
    scan::plain_block_is_found(head, '(', arg, ')', after);
    blank_iff_trimmed_away(arg);
}

proof fn blank_iff_trimmed_away(s: Seq<char>)
    ensures
        text::trimmed(s).len() == 0 <==> text::is_blank(s),
{
    if text::is_blank(s) {
        text::blank_is_trimmed_away(s);
    } else {
        text::past_space_bounds(s, 0);
        let d = text::trimmed_start(s);
        text::before_space_bounds(d, d.len() as int);
        if text::trimmed(s).len() == 0 {
            let i = choose|i: int| 0 <= i < s.len() && !text::is_space(#[trigger] s[i]);
            let k = text::past_space(s, 0);
            assert(d[i - k] == s[i]);
        }
    }
}

proof fn token_is_declared(front: Seq<char>, token: Seq<char>, tail: Seq<char>)
    requires
        token == "input"@ || token == "input.required"@ || token == "model"@,
        tail.len() > 0,
        tail[0] == '<' || tail[0] == '(',
    ensures
        text::past_space(front + seq![' '] + token + tail, front.len() as int) == front.len() + 1,
        declared_with(front + seq![' '] + token + tail, front.len() + 1int) == Some(
            (token, token == "input.required"@),
        ),
{
    reveal_strlit("input");
    reveal_strlit("input.required");
    reveal_strlit("model");
    let s = front + seq![' '] + token + tail;
    let at = front.len() + 1int;
    let end = at + token.len();
    assert(text::is_space(' '));
    assert(s =~= front + seq![' '] + (token + tail));
    assert((token + tail)[0] == token[0]);
    text::space_is_skipped(front, seq![' '], token + tail);
    assert(s.subrange(at, end) =~= token);
    assert(s[end] == tail[0]);
    if token != "input.required"@ {
        assert(!text::occurs_at(s, "input.required"@, at)) by {
            if text::occurs_at(s, "input.required"@, at) {
                assert(s.subrange(at, at + 14)[5] == '.');
                assert(s[at + 5] == '.');
            }
        }
        if token == "model"@ {
            assert(!text::occurs_at(s, "input"@, at)) by {
                if text::occurs_at(s, "input"@, at) {
                    assert(s.subrange(at, at + 5)[0] == 'i');
                    assert(s[at] == 'm');
                }
            }
        }
        assert("input"@.len() != "input.required"@.len());
        assert("model"@.len() != "input.required"@.len());
    }
}

/// Every declaration of a source counts: an input of its name is listed.
pub proof fn declared_inputs_are_listed(s: Seq<char>, eq: int)
    requires
        0 <= eq < s.len(),
        s[eq] == '=',
        declaration_at(s, eq) is Some,
    ensures
        declares(inputs_of(s), declaration_at(s, eq)->0.name),
{
    listed_inputs_stay(s, eq, s.len() as int);
}

proof fn listed_inputs_stay(s: Seq<char>, eq: int, to: int)
    requires
        0 <= eq < to <= s.len(),
        s[eq] == '=',
        declaration_at(s, eq) is Some,
    ensures
        declares(inputs_before(s, to), declaration_at(s, eq)->0.name),
    decreases to,
{
    let name = declaration_at(s, eq)->0.name;
    let all = inputs_before(s, to);
    let earlier = inputs_before(s, to - 1);
    if eq < to - 1 {
        listed_inputs_stay(s, eq, to - 1);
        let k = choose|k: int| 0 <= k < earlier.len() && (#[trigger] earlier[k]).name == name;
        assert(all[k] == earlier[k]);
    } else if !declares(earlier, name) {
        assert(all[all.len() - 1].name == name);
    }
}

/// What is listed is declared, and where a name is declared more than once the
/// first declaration counts.
pub proof fn listed_inputs_are_declared(s: Seq<char>, to: int, k: int)
    requires
        0 <= to <= s.len(),
        0 <= k < inputs_before(s, to).len(),
    ensures
        exists|eq: int|
            0 <= eq < to && s[eq] == '=' && #[trigger] declaration_at(s, eq) == Some(
                inputs_before(s, to)[k],
            ) && forall|d: int|
                0 <= d < eq && s[d] == '=' ==> (#[trigger] declaration_at(s, d) matches Some(
                    earlier,
                ) ==> earlier.name != inputs_before(s, to)[k].name),
    decreases to,
{
    if to > 0 {
        let earlier = inputs_before(s, to - 1);
        let all = inputs_before(s, to);
        if k < earlier.len() {
            listed_inputs_are_declared(s, to - 1, k);
            assert(all[k] == earlier[k]);
            let eq = choose|eq: int|
                0 <= eq < to - 1 && s[eq] == '=' && #[trigger] declaration_at(s, eq) == Some(
                    earlier[k],
                ) && forall|d: int|
                    0 <= d < eq && s[d] == '=' ==> (#[trigger] declaration_at(s, d) matches Some(
                        other,
                    ) ==> other.name != earlier[k].name);
            assert(declaration_at(s, eq) == Some(all[k]));
        } else {
            let eq = to - 1;
            assert(declaration_at(s, eq) == Some(all[k]));
            assert forall|d: int| 0 <= d < eq && s[d] == '=' implies (#[trigger] declaration_at(
                s,
                d,
            ) matches Some(other) ==> other.name != all[k].name) by {
                if declaration_at(s, d) is Some {
                    listed_inputs_stay(s, d, to - 1);
                }
            }
        }
    }
}

proof fn generic_type_is_looked_up(
    name: Seq<char>,
    args: Seq<char>,
    hint: Seq<char>,
    sources: Seq<Seq<char>>,
    depth: int,
)
    requires
        depth <= 4,
        is_word(name),
        is_word(args),
        name != "Array"@,
    ensures
        value_for(name + seq!['<'] + args + seq!['>'], hint, sources, depth) == (if name
            == "Record"@ || name == "Map"@ || name == "Set"@ {
            no_members()
        } else {
            match resolved(sources, name) {
                Some(def) => if def.is_enum {
                    enum_value(def.body)
                } else {
                    JsonView::Object(values_for(fields_of(def.body), sources, depth))
                },
                None => no_members(),
            }
        }),
{
    generic_type_is_read(name, args);
    generic_type_is_no_list(name, args);
    generic_type_is_simple_by_name(name, args, hint);
    generic_type_has_its_name(name, args);
}

proof fn generic_type_is_read(name: Seq<char>, args: Seq<char>)
    requires
        is_word(name),
        is_word(args),
    ensures
        type_text(name + seq!['<'] + args + seq!['>']) == name + seq!['<'] + args + seq!['>'],
        text::trimmed(cleaned(name + seq!['<'] + args + seq!['>'])).len() > 0,
        !(name + seq!['<'] + args + seq!['>']).contains('|'),
        text::is_tight(name + seq!['<'] + args + seq!['>']),
{
    let t = name + seq!['<'] + args + seq!['>'];
    let n = name.len() as int;
    assert(t[0] == name[0]);
    assert(t[t.len() - 1] == '>');
    assert forall|i: int| 0 <= i < t.len() implies t[i] != '\n' && t[i] != '/' && t[i] != '|' by {
        if i < n {
            assert(t[i] == name[i]);
        } else if n < i < t.len() - 1 {
            assert(t[i] == args[i - n - 1]);
        }
    }
    line_type_is_read(t);
}

proof fn generic_type_is_no_list(name: Seq<char>, args: Seq<char>)
    requires
        is_word(name),
        name != "Array"@,
    ensures
        !text::ends(name + seq!['<'] + args + seq!['>'], "[]"@),
        !text::starts(name + seq!['<'] + args + seq!['>'], "Array<"@),
{
    reveal_strlit("[]");
    reveal_strlit("Array");
    reveal_strlit("Array<");
    let t = name + seq!['<'] + args + seq!['>'];
    assert(t[t.len() - 1] == '>');
    if text::ends(t, "[]"@) {
        assert(t.subrange(t.len() - 2, t.len() as int)[1] == ']');
    }
    assert("Array<"@ =~= "Array"@ + seq!['<']);
    starts_with_its_name(name, args, "Array"@, "Array<"@);
}

proof fn generic_type_is_simple_by_name(name: Seq<char>, args: Seq<char>, hint: Seq<char>)
    requires
        is_word(name),
    ensures
        simple_value(name + seq!['<'] + args + seq!['>'], hint) == (if name == "Record"@ || name
            == "Map"@ || name == "Set"@ {
            Some(no_members())
        } else {
            None
        }),
{
    let t = name + seq!['<'] + args + seq!['>'];
    let n = name.len() as int;
    assert(t[0] == name[0]);
    assert(t[n] == '<');
    assert(!is_literal(t));
    not_simple_by_name(t, n);
    assert("Record<"@ =~= "Record"@ + seq!['<'] && is_word("Record"@)) by {
        reveal_strlit("Record");
        reveal_strlit("Record<");
    }
    assert("Map<"@ =~= "Map"@ + seq!['<'] && is_word("Map"@)) by {
        reveal_strlit("Map");
        reveal_strlit("Map<");
    }
    assert("Set<"@ =~= "Set"@ + seq!['<'] && is_word("Set"@)) by {
        reveal_strlit("Set");
        reveal_strlit("Set<");
    }
    starts_with_its_name(name, args, "Record"@, "Record<"@);
    starts_with_its_name(name, args, "Map"@, "Map<"@);
    starts_with_its_name(name, args, "Set"@, "Set<"@);
}

proof fn generic_type_has_its_name(name: Seq<char>, args: Seq<char>)
    requires
        is_word(name),
        is_word(args),
    ensures
        base_name(name + seq!['<'] + args + seq!['>']) == name,
{
    reveal_strlit("readonly ");
    let t = name + seq!['<'] + args + seq!['>'];
    let n = name.len() as int;
    assert(t[n] == '<');
    generic_type_is_read(name, args);
    assert forall|k: int| 0 <= k < n implies #[trigger] t[k] != '<' && t[k] != ' ' && t[k]
        != '|' by {
        assert(t[k] == name[k]);
    }
    assert(!text::starts(t, "readonly "@)) by {
        if text::starts(t, "readonly "@) {
            assert(t.subrange(0, 9)[8] == ' ');
            assert(t[8] == ' ');
            if n < 8 < t.len() - 1 {
                assert(t[8] == args[8 - n - 1]);
            }
        }
    }
    text::nothing_to_trim(t);
    base_stops_at(t, 0, n);
    assert(t.take(n) =~= name);
}

proof fn starts_with_its_name(
    name: Seq<char>,
    args: Seq<char>,
    word: Seq<char>,
    front: Seq<char>,
)
    requires
        is_word(name),
        is_word(word),
        front == word + seq!['<'],
    ensures
        text::starts(name + seq!['<'] + args + seq!['>'], front) <==> name == word,
{
    let t = name + seq!['<'] + args + seq!['>'];
    let n = name.len() as int;
    let m = word.len() as int;
    assert(t[n] == '<');
    if name == word {
        assert(t.subrange(0, m + 1) =~= front);
    }
    if text::starts(t, front) {
        let x = t.subrange(0, m + 1);
        assert(front[m] == '<');
        assert(x[m] == front[m]);
        assert(t[m] == x[m]);
        if n < m {
            assert(x[n] == front[n] && front[n] == word[n]);
        } else if m < n {
            assert(t[m] == name[m]);
        } else {
            assert forall|i: int| 0 <= i < n implies name[i] == word[i] by {
                assert(x[i] == front[i] && t[i] == name[i]);
            }
            assert(name =~= word);
        }
    }
}

proof fn not_simple_by_name(t: Seq<char>, n: int)
    requires
        0 <= n < t.len(),
        t[n] == '<',
    ensures
        t != "string"@,
        t != "number"@,
        t != "boolean"@,
        t != "bool"@,
        t != "Date"@,
        t != "any"@,
        t != "unknown"@,
        t != "object"@,
{
    reveal_strlit("string");
    reveal_strlit("number");
    reveal_strlit("boolean");
    reveal_strlit("bool");
    reveal_strlit("Date");
    reveal_strlit("any");
    reveal_strlit("unknown");
    reveal_strlit("object");
}

proof fn base_stops_at(t: Seq<char>, i: int, n: int)
    requires
        0 <= i <= n < t.len(),
        t[n] == '<',
        forall|k: int| 0 <= k < n ==> #[trigger] t[k] != '<' && t[k] != ' ' && t[k] != '|',
    ensures
        base_end(t, i) == n,
    decreases n - i,
{
    if i < n {
        assert(t[i] != '<');
        base_stops_at(t, i + 1, n);
    }
}

/// A type with arguments is made up like the type without them; what maps and sets
/// hold is not made up.
pub proof fn arguments_of_types_do_not_count(
    name: Seq<char>,
    args: Seq<char>,
    hint: Seq<char>,
    sources: Seq<Seq<char>>,
    depth: int,
)
    requires
        depth <= 4,
        is_word(name),
        is_word(args),
        name != "Array"@,
        !is_built_in(name),
    ensures
        name == "Record"@ || name == "Map"@ || name == "Set"@ ==> value_for(
            name + seq!['<'] + args + seq!['>'],
            hint,
            sources,
            depth,
        ) == JsonView::Object(Seq::empty()),
        name != "Record"@ && name != "Map"@ && name != "Set"@ ==> value_for(
            name + seq!['<'] + args + seq!['>'],
            hint,
            sources,
            depth,
        ) == value_for(name, hint, sources, depth),
{
    generic_type_is_looked_up(name, args, hint, sources, depth);
    words_are_read(name, hint, sources, depth);
}

/// Commas behind a type do not count.
pub proof fn commas_behind_a_type_do_not_count(
    t: Seq<char>,
    hint: Seq<char>,
    sources: Seq<Seq<char>>,
    depth: int,
)
    requires
        text::is_tight(t),
    ensures
        value_for(t.push(','), hint, sources, depth) == value_for(t, hint, sources, depth),
{
    let u = t.push(',');
    assert(u[0] == t[0] && u[u.len() - 1] == ',');
    assert(!text::is_space(','));
    text::nothing_to_trim(u);
    text::nothing_to_trim(t);
    assert(u.drop_last() =~= t);
}

/// What is counted is made up as more than one; any other number is one.
pub proof fn sample_numbers_fit_the_field(n: Seq<char>)
    ensures
        text::natural_of(sample_number(n)) == (if text::has(n, "total"@) || text::has(n, "count"@)
            || text::has(n, "cantidad"@) || text::has(n, "size"@) {
            Some(10nat)
        } else {
            Some(1nat)
        }),
{
    reveal_strlit("10");
    reveal_strlit("1");
    let ten = "10"@;
    let one = "1"@;
    reveal_with_fuel(text::digits_value, 4);
    assert(ten.drop_last() =~= seq!['1']);
    assert(ten.drop_last().drop_last() =~= Seq::<char>::empty());
    assert(one.drop_last() =~= Seq::<char>::empty());
    assert(ten.last() == '0' && one.last() == '1' && seq!['1'].last() == '1');
}

/// Types are looked up in the TypeScript files of a directory, by name, but in no
/// test; as many files as are allowed are searched.
pub proof fn sources_are_searched_by_name(dir: Seq<char>, names: Seq<Seq<char>>, k: int)
    requires
        0 <= k < searched(dir, names).len(),
    ensures
        searched(dir, names).len() <= FILES_PER_DIR,
        is_type_source(searched(dir, names)[k]),
        exists|m: int|
            0 <= m < names.len() && searched(dir, names)[k] == path::join_of(dir, #[trigger] names[m]),
{
    let kept = source_names(dir, names);
    let all = sort::sorted(kept, sort::text_le());
    sort::sorted_holds_the_same(kept, sort::text_le());
    assert(kept.contains(all[k]));
    let x = choose|x: int| 0 <= x < kept.len() && kept[x] == all[k];
    kept_names_are_sources(dir, names, x);
}

proof fn kept_names_are_sources(dir: Seq<char>, names: Seq<Seq<char>>, x: int)
    requires
        0 <= x < source_names(dir, names).len(),
    ensures
        is_type_source(path::join_of(dir, source_names(dir, names)[x])),
        exists|m: int| 0 <= m < names.len() && source_names(dir, names)[x] == #[trigger] names[m],
    decreases names.len(),
{
    if names.len() > 0 {
        let head = names.drop_last();
        let earlier = source_names(dir, head);
        if x < earlier.len() {
            kept_names_are_sources(dir, head, x);
            assert(source_names(dir, names)[x] == earlier[x]);
            let m = choose|m: int| 0 <= m < head.len() && earlier[x] == #[trigger] head[m];
            assert(names[m] == head[m]);
        } else {
            assert(names[names.len() - 1] == names.last());
        }
    }
}

/// A file is searched for types exactly when it is TypeScript and no test.
pub proof fn tests_are_not_searched(dir: Seq<char>, stem: Seq<char>)
    requires
        stem.len() > 0,
        !stem.contains('/'),
        stem + seq!['.'] + "ts"@ != ".."@,
    ensures
        is_type_source(path::join_of(dir, stem + seq!['.'] + "ts"@)) <==> !text::has(
            path::join_of(dir, stem + seq!['.'] + "ts"@),
            ".spec."@,
        ),
{
    reveal_strlit("ts");
    path::extension_of_entry(dir, stem, "ts"@);
}

/// The first forty sources of a directory are searched, or all where there are fewer.
pub proof fn forty_sources_are_searched(dir: Seq<char>, names: Seq<Seq<char>>)
    ensures
        searched(dir, names).len() == (if source_names(dir, names).len() < 40 {
            source_names(dir, names).len()
        } else {
            40
        }),
{
    sort::sorted_is_permutation(source_names(dir, names), sort::text_le());
}

} // verus!
