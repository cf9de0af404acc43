//! Validation of Angular component sources before anything is served: what is
//! wrong with a component is said early, as an error, and never shows as a
//! crash at render time.

use crate::detect;
use crate::json;
use crate::json::{Json, JsonView};
use crate::path;
use crate::pipeline_types;
use crate::pipeline_types::{InputView, ParsedInput, TypeIndex};
use crate::scan;
use crate::text;
use vstd::prelude::*;

verus! {

// ---------------------------------------------------------------------------
// What a component is
// ---------------------------------------------------------------------------

#[derive(Debug, Clone, Copy, PartialEq, Eq, Structural)]
pub enum Strategy {
    Standalone,
    Module,
}

impl Strategy {
    pub open spec fn name(self) -> Seq<char> {
        match self {
            Strategy::Standalone => "standalone"@,
            Strategy::Module => "module"@,
        }
    }

    pub fn as_str(&self) -> (r: &'static str)
        ensures
            r@ == self.name(),
    {
        match self {
            Strategy::Standalone => "standalone",
            Strategy::Module => "module",
        }
    }
}

#[derive(Debug, Clone, PartialEq, Eq)]
pub enum TemplateRef {
    Inline,
    File(String),
}

#[derive(Debug, Clone, PartialEq, Eq)]
pub enum StyleRef {
    Inline,
    File(String),
}

/// Where a template or a style sheet is.
#[verifier::ext_equal]
pub enum PlaceView {
    Inline,
    File(Seq<char>),
}

impl View for TemplateRef {
    type V = PlaceView;

    open spec fn view(&self) -> PlaceView {
        match self {
            TemplateRef::Inline => PlaceView::Inline,
            TemplateRef::File(p) => PlaceView::File(p@),
        }
    }
}

impl View for StyleRef {
    type V = PlaceView;

    open spec fn view(&self) -> PlaceView {
        match self {
            StyleRef::Inline => PlaceView::Inline,
            StyleRef::File(p) => PlaceView::File(p@),
        }
    }
}

#[derive(Debug)]
pub struct ComponentInfo {
    pub class_name: String,
    /// Names of the `input.required<T>()` signal inputs: the host must provide
    /// placeholder values for them, or Angular throws at mount.
    pub required_inputs: Vec<String>,
    /// Made-up typed values for the inputs, by name.
    pub input_values: Vec<(String, Json)>,
    /// Present when a sibling `.module.ts` declares this component.
    pub module_class_name: Option<String>,
    pub template: TemplateRef,
    pub styles: Vec<StyleRef>,
    pub strategy: Strategy,
}

#[verifier::ext_equal]
pub struct InfoView {
    pub class_name: Seq<char>,
    pub required_inputs: Seq<Seq<char>>,
    pub input_values: Seq<(Seq<char>, JsonView)>,
    pub module_class_name: Option<Seq<char>>,
    pub template: PlaceView,
    pub styles: Seq<PlaceView>,
    pub strategy: Strategy,
}

pub open spec fn styles_view(v: Seq<StyleRef>) -> Seq<PlaceView> {
    v.map_values(|s: StyleRef| s@)
}

impl View for ComponentInfo {
    type V = InfoView;

    open spec fn view(&self) -> InfoView {
        InfoView {
            class_name: self.class_name@,
            required_inputs: text::texts(self.required_inputs@),
            input_values: json::members(self.input_values@),
            module_class_name: text::opt(self.module_class_name),
            template: self.template@,
            styles: styles_view(self.styles@),
            strategy: self.strategy,
        }
    }
}

#[derive(Debug, Clone, PartialEq)]
pub enum PipelineError {
    NotAComponent,
    Parse(String),
    TemplateMissing(String),
    StyleMissing(String),
}

#[verifier::ext_equal]
pub enum ErrorView {
    NotAComponent,
    Parse(Seq<char>),
    TemplateMissing(Seq<char>),
    StyleMissing(Seq<char>),
}

impl View for PipelineError {
    type V = ErrorView;

    open spec fn view(&self) -> ErrorView {
        match self {
            PipelineError::NotAComponent => ErrorView::NotAComponent,
            PipelineError::Parse(m) => ErrorView::Parse(m@),
            PipelineError::TemplateMissing(p) => ErrorView::TemplateMissing(p@),
            PipelineError::StyleMissing(p) => ErrorView::StyleMissing(p@),
        }
    }
}

/// What an error says.
pub open spec fn error_text(e: ErrorView) -> Seq<char> {
    match e {
        ErrorView::NotAComponent => "not an Angular component: no @Component decorator found"@,
        ErrorView::Parse(m) => "unparseable component: "@ + m,
        ErrorView::TemplateMissing(p) => "template file not found: "@ + p,
        ErrorView::StyleMissing(p) => "style file not found: "@ + p,
    }
}

impl PipelineError {
    /// What the error says.
    pub fn message(&self) -> (r: String)
        ensures
            r@ == error_text(self@),
    {
        match self {
            PipelineError::NotAComponent => {
                "not an Angular component: no @Component decorator found".to_string()
            },
            PipelineError::Parse(m) => text::cat("unparseable component: ", m.as_str()),
            PipelineError::TemplateMissing(p) => text::cat(
                "template file not found: ",
                p.as_str(),
            ),
            PipelineError::StyleMissing(p) => text::cat("style file not found: ", p.as_str()),
        }
    }
}

// ---------------------------------------------------------------------------
// The decorator
// ---------------------------------------------------------------------------

/// The range of the balanced argument block of the first `@Component`, its
/// parentheses with it.
pub open spec fn decorator_range(s: Seq<char>) -> Option<(int, int)> {
    match text::first_from(s, "@Component"@, 0) {
        Some(at) => match text::char_from(s, '(', at + "@Component"@.len()) {
            Some(open) => match scan::block_end(s, open, '(', ')') {
                Some(close) => Some((open, close + 1)),
                None => None,
            },
            None => None,
        },
        None => None,
    }
}

/// Whether the key at `at` stands as a property: no part of a longer word
/// before it, a colon behind it.
pub open spec fn is_key_at(s: Seq<char>, key: Seq<char>, at: int) -> bool {
    let colon = text::past_space(s, at + key.len());
    &&& at == 0 || !(text::alphanumeric(s[at - 1]) || s[at - 1] == '_')
    &&& colon < s.len() && s[colon] == ':'
}

/// The first place from `from` on where `key` stands as a property.
pub open spec fn key_from(s: Seq<char>, key: Seq<char>, from: int) -> Option<int>
    decreases s.len() - from,
    when key.len() > 0 && 0 <= from
    via key_from_decreases
{
    match text::first_from(s, key, from) {
        Some(at) => if is_key_at(s, key, at) {
            Some(at)
        } else {
            key_from(s, key, at + key.len())
        },
        None => None,
    }
}

#[via_fn]
proof fn key_from_decreases(s: Seq<char>, key: Seq<char>, from: int) {
    text::first_from_is_least(s, key, from);
}

/// The first single or double quote from `from` on.
pub open spec fn plain_quote_from(s: Seq<char>, from: int) -> Option<int>
    decreases s.len() - from,
{
    if from < 0 || from >= s.len() {
        None
    } else if s[from] == '\'' || s[from] == '"' {
        Some(from)
    } else {
        plain_quote_from(s, from + 1)
    }
}

/// The quoted string behind `key`.
pub open spec fn string_value(block: Seq<char>, key: Seq<char>) -> Option<Seq<char>> {
    match key_from(block, key, 0) {
        Some(at) => match plain_quote_from(block, at) {
            Some(open) => match text::char_from(block, block[open], open + 1) {
                Some(close) => Some(block.subrange(open + 1, close)),
                None => None,
            },
            None => None,
        },
        None => None,
    }
}

/// Whether a string that is not closed ends in a backslash with nothing behind
/// it.
pub open spec fn ends_in_escape(s: Seq<char>, i: int, q: char) -> bool
    decreases s.len() - i + 1,
{
    if i >= s.len() {
        i > s.len()
    } else if s[i] == q {
        false
    } else if s[i] == '\\' {
        ends_in_escape(s, i + 2, q)
    } else {
        ends_in_escape(s, i + 1, q)
    }
}

/// The quoted strings from `i` on; none can be told where one of them ends in
/// an escape with nothing behind it.
pub open spec fn strings_from(s: Seq<char>, i: int) -> Option<Seq<Seq<char>>>
    decreases s.len() - i + 1,
    when 0 <= i
    via strings_from_decreases
{
    if i >= s.len() {
        Some(Seq::empty())
    } else if s[i] == '\'' || s[i] == '"' {
        let close = scan::quote_close(s, i + 1, s[i]);
        if ends_in_escape(s, i + 1, s[i]) {
            None
        } else {
            match strings_from(s, close + 1) {
                Some(rest) => Some(seq![s.subrange(i + 1, close)] + rest),
                None => None,
            }
        }
    } else {
        strings_from(s, i + 1)
    }
}

#[via_fn]
proof fn strings_from_decreases(s: Seq<char>, i: int) {
    if i < s.len() {
        scan::quote_close_bounds(s, i + 1, s[i]);
    }
}

/// What stands between the brackets of the list behind `key`: brackets in its
/// strings do not close it.
pub open spec fn list_text(block: Seq<char>, key: Seq<char>) -> Option<Seq<char>> {
    match key_from(block, key, 0) {
        Some(at) => match text::char_from(block, '[', at) {
            Some(open) => match scan::block_end(block, open, '[', ']') {
                Some(close) => Some(block.subrange(open + 1, close)),
                None => None,
            },
            None => None,
        },
        None => None,
    }
}

/// The quoted strings of the list behind `key`; none where there is no list.
pub open spec fn string_list(block: Seq<char>, key: Seq<char>) -> Option<Seq<Seq<char>>> {
    match list_text(block, key) {
        Some(inner) => strings_from(inner, 0),
        None => Some(Seq::empty()),
    }
}

/// The argument block of the first `@Component`.
pub fn extract_decorator_block(s: &[char]) -> (r: Option<(usize, usize)>)
    ensures
        match r {
            Some((open, end)) => decorator_range(s@) == Some((open as int, end as int)) && open
                < end <= s.len(),
            None => decorator_range(s@) is None,
        },
{
    let needle: Vec<char> = text::chars_of("@Component");
    match text::find(s, needle.as_slice(), 0) {
        Some(at) => match text::find_char(s, '(', at + needle.len()) {
            Some(open) => match scan::find_block_end(s, open, '(', ')') {
                Some(close) => Some((open, close + 1)),
                None => None,
            },
            None => None,
        },
        None => None,
    }
}

/// Where `key` stands as a property.
pub fn find_key(block: &[char], key: &str) -> (r: Option<usize>)
    requires
        key@.len() > 0,
    ensures
        text::position(r) == key_from(block@, key@, 0),
        r matches Some(at) ==> at < block.len(),
{
    let needle: Vec<char> = text::chars_of(key);
    let mut from: usize = 0;
    loop
        invariant
            needle@ == key@,
            key@.len() > 0,
            from <= block.len(),
            key_from(block@, key@, 0) == key_from(block@, key@, from as int),
        decreases block.len() - from,
    {
        match text::find(block, needle.as_slice(), from) {
            Some(at) => {
                let after: usize = at + needle.len();
                let colon: usize = text::skip_space(block, after);
                if (at == 0 || !(block[at - 1].is_alphanumeric() || block[at - 1] == '_')) && colon
                    < block.len() && block[colon] == ':' {
                    return Some(at);
                }
                from = after;
            },
            None => {
                return None;
            },
        }
    }
}

/// The quoted string behind `key`.
pub fn extract_string_value(block: &[char], key: &str) -> (r: Option<String>)
    requires
        key@.len() > 0,
    ensures
        text::opt(r) == string_value(block@, key@),
{
    match find_key(block, key) {
        Some(at) => {
            let mut open: usize = at;
            while open < block.len() && block[open] != '\'' && block[open] != '"'
                invariant
                    at <= open <= block.len(),
                    plain_quote_from(block@, at as int) == plain_quote_from(block@, open as int),
                decreases block.len() - open,
            {
                open = open + 1;
            }
            if open == block.len() {
                return None;
            }
            match text::find_char(block, block[open], open + 1) {
                Some(close) => Some(
                    text::text_of(vstd::slice::slice_subrange(block, open + 1, close)),
                ),
                None => None,
            }
        },
        None => None,
    }
}

/// The strings of a list, or nothing where one of them ends in an escape with
/// nothing behind it.
fn read_strings(s: &[char]) -> (r: Option<Vec<String>>)
    ensures
        match r {
            Some(v) => strings_from(s@, 0) == Some(text::texts(v@)),
            None => strings_from(s@, 0) is None,
        },
{
    let mut out: Vec<String> = Vec::new();
    let mut i: usize = 0;
    assert(text::texts(out@) =~= Seq::<Seq<char>>::empty());
    proof {
        assert forall|rest: Seq<Seq<char>>| #[trigger]
            (text::texts(out@) + rest) == rest by {
            assert(text::texts(out@) + rest =~= rest);
        }
    }
    while i < s.len()
        invariant
            i <= s.len(),
            strings_from(s@, 0) == (match strings_from(s@, i as int) {
                Some(rest) => Some(text::texts(out@) + rest),
                None => None,
            }),
        decreases s.len() - i,
    {
        let q: char = s[i];
        if q == '\'' || q == '"' {
            let start: usize = i + 1;
            let mut end: usize = start;
            while end < s.len() && s[end] != q
                invariant
                    start <= end <= s.len(),
                    scan::quote_close(s@, start as int, q) == scan::quote_close(s@, end as int, q),
                    ends_in_escape(s@, start as int, q) == ends_in_escape(s@, end as int, q),
                    i < s.len(),
                    start == i + 1,
                    q == s@[i as int],
                    q == '\'' || q == '"',
                    strings_from(s@, 0) == (match strings_from(s@, i as int) {
                        Some(rest) => Some(text::texts(out@) + rest),
                        None => None,
                    }),
                decreases s.len() - end,
            {
                if s[end] == '\\' {
                    if s.len() - end < 2 {
                        assert(ends_in_escape(s@, end + 2, q));
                        return None;
                    }
                    end = end + 2;
                } else {
                    end = end + 1;
                }
            }
            let ghost before = out@;
            let ghost rest = strings_from(s@, end + 1);
            out.push(text::text_of(vstd::slice::slice_subrange(s, start, end)));
            proof {
                let piece = s@.subrange(start as int, end as int);
                assert(text::texts(out@) =~= text::texts(before).push(piece));
                if let Some(r) = rest {
                    assert(text::texts(before) + (seq![piece] + r) =~= text::texts(out@) + r);
                }
                assert(end == s@.len() ==> rest == strings_from(s@, end as int));
            }
            i = if end < s.len() {
                end + 1
            } else {
                end
            };
        } else {
            i = i + 1;
        }
    }
    assert(text::texts(out@) + Seq::<Seq<char>>::empty() =~= text::texts(out@));
    Some(out)
}

/// The text of the list behind `key`.
fn find_list<'a>(block: &'a [char], key: &str) -> (r: Option<&'a [char]>)
    requires
        key@.len() > 0,
    ensures
        match r {
            Some(inner) => list_text(block@, key@) == Some(inner@),
            None => list_text(block@, key@) is None,
        },
{
    match find_key(block, key) {
        Some(at) => match text::find_char(block, '[', at) {
            Some(open) => match scan::find_block_end(block, open, '[', ']') {
                Some(close) => Some(vstd::slice::slice_subrange(block, open + 1, close)),
                None => None,
            },
            None => None,
        },
        None => None,
    }
}

/// Whether the strings of the list behind `key` can be told.
pub fn list_is_readable(block: &[char], key: &str) -> (r: bool)
    requires
        key@.len() > 0,
    ensures
        r == (string_list(block@, key@) is Some),
{
    match find_list(block, key) {
        Some(inner) => read_strings(inner).is_some(),
        None => true,
    }
}

/// The quoted strings of the list behind `key`.
pub fn extract_string_array(block: &[char], key: &str) -> (r: Vec<String>)
    requires
        key@.len() > 0,
        string_list(block@, key@) is Some,
    ensures
        string_list(block@, key@) == Some(text::texts(r@)),
{
    match find_list(block, key) {
        Some(inner) => match read_strings(inner) {
            Some(v) => v,
            None => Vec::new(),
        },
        None => {
            let v: Vec<String> = Vec::new();
            assert(text::texts(v@) =~= Seq::<Seq<char>>::empty());
            v
        },
    }
}

// ---------------------------------------------------------------------------
// Classes and required inputs
// ---------------------------------------------------------------------------

/// The name behind the first `word` from `from` on.
pub open spec fn name_after(s: Seq<char>, word: Seq<char>, from: int) -> Option<Seq<char>> {
    match text::first_from(s, word, from) {
        Some(at) => {
            let start = at + word.len();
            let name = s.subrange(start, text::ident_end(s, start));
            if name.len() > 0 {
                Some(name)
            } else {
                None
            }
        },
        None => None,
    }
}

fn find_name_after(s: &[char], word: &str, from: usize) -> (r: Option<String>)
    ensures
        text::opt(r) == name_after(s@, word@, from as int),
{
    let needle: Vec<char> = text::chars_of(word);
    match text::find(s, needle.as_slice(), from) {
        Some(at) => {
            let start: usize = at + needle.len();
            let end: usize = text::skip_ident(s, start);
            if start == end {
                None
            } else {
                Some(text::text_of(vstd::slice::slice_subrange(s, start, end)))
            }
        },
        None => None,
    }
}

/// The first `class <Name>` from `from` on.
pub fn class_name_after(s: &[char], from: usize) -> (r: Option<String>)
    ensures
        text::opt(r) == name_after(s@, "class "@, from as int),
{
    find_name_after(s, "class ", from)
}

/// The first `export class <Name>` in an `*.module.ts` source.
pub fn module_class_name(module_source: &str) -> (r: Option<String>)
    ensures
        text::opt(r) == name_after(module_source@, "export class "@, 0),
{
    let s: Vec<char> = text::chars_of(module_source);
    find_name_after(s.as_slice(), "export class ", 0)
}

/// The name that the `input.required` at `at` is assigned to, where it is called:
/// behind the name stands a single `=`.
pub open spec fn assigned_name(s: Seq<char>, at: int) -> Option<Seq<char>> {
    let b = text::before_space(s, at);
    if pipeline_types::is_called(s, "input.required"@, at) && b > 0 && s[b - 1] == '=' && !(b > 1 && s[b - 2] == '=') {
        let name = pipeline_types::name_before(s, b - 1);
        if name.len() > 0 {
            Some(name)
        } else {
            None
        }
    } else {
        None
    }
}

/// The names that are assigned an `input.required` from `from` on, behind those
/// of `found`, each once.
pub open spec fn required_from(s: Seq<char>, from: int, found: Seq<Seq<char>>) -> Seq<Seq<char>>
    decreases s.len() - from,
    when 0 <= from
    via required_from_decreases
{
    match text::first_from(s, "input.required"@, from) {
        Some(at) => {
            let next = at + "input.required"@.len();
            match assigned_name(s, at) {
                Some(name) => if found.contains(name) {
                    required_from(s, next, found)
                } else {
                    required_from(s, next, found.push(name))
                },
                None => required_from(s, next, found),
            }
        },
        None => found,
    }
}

#[via_fn]
proof fn required_from_decreases(s: Seq<char>, from: int, found: Seq<Seq<char>>) {
    reveal_strlit("input.required");
    text::first_from_is_least(s, "input.required"@, from);
}

/// The names of the required signal inputs of a source.
pub open spec fn required_inputs_of(s: Seq<char>) -> Seq<Seq<char>> {
    required_from(s, 0, Seq::empty())
}

/// The names of the `input.required<...>()` signal inputs of a source.
pub fn extract_required_inputs(s: &[char]) -> (r: Vec<String>)
    ensures
        text::texts(r@) == required_inputs_of(s@),
{
    let needle: Vec<char> = text::chars_of("input.required");
    proof {
        reveal_strlit("input.required");
    }
    let mut out: Vec<String> = Vec::new();
    assert(text::texts(out@) =~= Seq::<Seq<char>>::empty());
    let mut from: usize = 0;
    loop
        invariant
            needle@ == "input.required"@,
            needle@.len() == 14,
            from <= s.len(),
            required_inputs_of(s@) == required_from(s@, from as int, text::texts(out@)),
        decreases s.len() - from,
    {
        match text::find(s, needle.as_slice(), from) {
            Some(at) => {
                let b: usize = text::drop_space(s, at);
                let called: bool = pipeline_types::calls(s, "input.required", at).is_some();
                if called && b > 0 && s[b - 1] == '=' && !(b > 1 && s[b - 2] == '=') {
                    let end: usize = text::drop_space(s, b - 1);
                    let start: usize = text::back_ident(s, end);
                    if start < end {
                        let name: String = text::text_of(
                            vstd::slice::slice_subrange(s, start, end),
                        );
                        if !text::among(&out, name.as_str()) {
                            let ghost before = out@;
                            let ghost new = name@;
                            out.push(name);
                            assert(text::texts(out@) =~= text::texts(before).push(new));
                        }
                    }
                }
                from = at + needle.len();
            },
            None => {
                return out;
            },
        }
    }
}

// ---------------------------------------------------------------------------
// Validation
// ---------------------------------------------------------------------------

/// The outcome of reading a file: its content, or what went wrong.
pub open spec fn outcome(r: Result<String, String>) -> Result<Seq<char>, Seq<char>> {
    match r {
        Ok(t) => Ok(t@),
        Err(e) => Err(e@),
    }
}

/// The outcome of reading a file that may not be there.
pub open spec fn opt_outcome(r: Option<Result<String, String>>) -> Option<
    Result<Seq<char>, Seq<char>>,
> {
    match r {
        Some(o) => Some(outcome(o)),
        None => None,
    }
}

/// The file that a component refers to as `rel`.
pub open spec fn beside(component: Seq<char>, rel: Seq<char>) -> Seq<char> {
    path::join_of(path::dir_of(component), rel)
}

/// Where the template of a component is, `present` being the files that there
/// are.
pub open spec fn template_of(
    component: Seq<char>,
    block: Seq<char>,
    present: Seq<Seq<char>>,
) -> Result<PlaceView, ErrorView> {
    match string_value(block, "templateUrl"@) {
        Some(rel) => if present.contains(beside(component, rel)) {
            Ok(PlaceView::File(beside(component, rel)))
        } else {
            Err(ErrorView::TemplateMissing(beside(component, rel)))
        },
        None => if string_value(block, "template"@) is Some {
            Ok(PlaceView::Inline)
        } else {
            Err(ErrorView::Parse("no template or templateUrl in @Component"@))
        },
    }
}

/// The style files behind the `i`-th one, or the first of them that is missing.
pub open spec fn style_files_from(
    component: Seq<char>,
    urls: Seq<Seq<char>>,
    i: int,
    present: Seq<Seq<char>>,
) -> Result<Seq<PlaceView>, ErrorView>
    decreases urls.len() - i,
{
    if i < 0 || i >= urls.len() {
        Ok(Seq::empty())
    } else {
        let file = beside(component, urls[i]);
        if !present.contains(file) {
            Err(ErrorView::StyleMissing(file))
        } else {
            match style_files_from(component, urls, i + 1, present) {
                Ok(rest) => Ok(seq![PlaceView::File(file)] + rest),
                Err(e) => Err(e),
            }
        }
    }
}

/// Where the style sheets of a component are: the files it lists, or else what
/// stands in the decorator.
pub open spec fn styles_of(
    component: Seq<char>,
    block: Seq<char>,
    present: Seq<Seq<char>>,
) -> Result<Seq<PlaceView>, ErrorView> {
    match style_files_from(component, string_list(block, "styleUrls"@)->0, 0, present) {
        Ok(files) => if files.len() == 0 && string_list(block, "styles"@)->0.len() > 0 {
            Ok(seq![PlaceView::Inline])
        } else {
            Ok(files)
        },
        Err(e) => Err(e),
    }
}

/// Whether the style lists that validation reads can be told.
pub open spec fn style_lists_readable(block: Seq<char>) -> bool {
    match string_list(block, "styleUrls"@) {
        Some(urls) => urls.len() == 0 ==> string_list(block, "styles"@) is Some,
        None => false,
    }
}

/// Whether validation can tell what it reads of a component: where it comes to
/// read the style lists, no string in them ends in an escape with nothing
/// behind it.
pub open spec fn decidable(
    component: Seq<char>,
    source: Result<Seq<char>, Seq<char>>,
    present: Seq<Seq<char>>,
) -> bool {
    match source {
        Ok(s) => match decorator_range(s) {
            Some((open, end)) => {
                let block = s.subrange(open, end);
                template_of(component, block, present) is Ok ==> style_lists_readable(block)
            },
            None => true,
        },
        Err(_) => true,
    }
}

/// The module of a component and how the component is mounted, by what reading
/// the module beside it gave.
pub open spec fn mounting(
    component: Seq<char>,
    module: Option<Result<Seq<char>, Seq<char>>>,
) -> Result<(Option<Seq<char>>, Strategy), ErrorView> {
    match (module, detect::module_of(component)) {
        (Some(read), Some(place)) => match read {
            Ok(source) => match name_after(source, "export class "@, 0) {
                Some(name) => Ok((Some(name), Strategy::Module)),
                None => Err(ErrorView::Parse("no exported class in module "@ + place)),
            },
            Err(e) => Err(ErrorView::Parse("cannot read module "@ + place + ": "@ + e)),
        },
        _ => Ok((None, Strategy::Standalone)),
    }
}

/// The values made up for the inputs that have a type and no default.
pub open spec fn values_of(inputs: Seq<InputView>, sources: Seq<Seq<char>>) -> Seq<
    (Seq<char>, JsonView),
>
    decreases inputs.len(),
{
    if inputs.len() == 0 {
        Seq::empty()
    } else {
        let earlier = values_of(inputs.drop_last(), sources);
        let input = inputs.last();
        match input.generic {
            Some(ty) => if input.has_default {
                earlier
            } else {
                json::inserted(
                    earlier,
                    input.name,
                    pipeline_types::value_for(ty, input.name, sources, 0),
                )
            },
            None => earlier,
        }
    }
}

/// What validation finds.
pub open spec fn validated(
    component: Seq<char>,
    source: Result<Seq<char>, Seq<char>>,
    present: Seq<Seq<char>>,
    module: Option<Result<Seq<char>, Seq<char>>>,
    sources: Seq<Seq<char>>,
) -> Result<InfoView, ErrorView> {
    match source {
        Err(e) => Err(ErrorView::Parse("cannot read "@ + component + ": "@ + e)),
        Ok(s) => if !text::has(s, "@Component"@) {
            Err(ErrorView::NotAComponent)
        } else {
            match decorator_range(s) {
                None => Err(ErrorView::Parse("unbalanced @Component(...) block"@)),
                Some((open, end)) => {
                    let block = s.subrange(open, end);
                    match template_of(component, block, present) {
                        Err(e) => Err(e),
                        Ok(template) => match styles_of(component, block, present) {
                            Err(e) => Err(e),
                            Ok(styles) => match name_after(s, "class "@, end) {
                                None => Err(ErrorView::Parse("no class found after @Component"@)),
                                Some(class_name) => match mounting(component, module) {
                                    Err(e) => Err(e),
                                    Ok((module_class_name, strategy)) => Ok(
                                        InfoView {
                                            class_name,
                                            required_inputs: required_inputs_of(s),
                                            input_values: values_of(
                                                pipeline_types::inputs_of(s),
                                                sources,
                                            ),
                                            module_class_name,
                                            template,
                                            styles,
                                            strategy,
                                        },
                                    ),
                                },
                            },
                        },
                    }
                },
            }
        },
    }
}

pub open spec fn info_outcome(r: Result<ComponentInfo, PipelineError>) -> Result<
    InfoView,
    ErrorView,
> {
    match r {
        Ok(i) => Ok(i@),
        Err(e) => Err(e@),
    }
}

fn resolve_template(component: &str, block: &[char], present: &Vec<String>) -> (r: Result<
    TemplateRef,
    PipelineError,
>)
    ensures
        match r {
            Ok(t) => template_of(component@, block@, text::texts(present@))
                == Ok::<PlaceView, ErrorView>(t@),
            Err(e) => template_of(component@, block@, text::texts(present@))
                == Err::<PlaceView, ErrorView>(e@),
        },
{
    proof {
        reveal_strlit("templateUrl");
        reveal_strlit("template");
    }
    match extract_string_value(block, "templateUrl") {
        Some(rel) => {
            let file: String = path::join(path::directory(component).as_str(), rel.as_str());
            if text::among(present, file.as_str()) {
                Ok(TemplateRef::File(file))
            } else {
                Err(PipelineError::TemplateMissing(file))
            }
        },
        None => {
            if extract_string_value(block, "template").is_some() {
                Ok(TemplateRef::Inline)
            } else {
                Err(
                    PipelineError::Parse("no template or templateUrl in @Component".to_string()),
                )
            }
        },
    }
}

fn resolve_styles(component: &str, block: &[char], present: &Vec<String>) -> (r: Result<
    Vec<StyleRef>,
    PipelineError,
>)
    requires
        style_lists_readable(block@),
    ensures
        match r {
            Ok(v) => styles_of(component@, block@, text::texts(present@))
                == Ok::<Seq<PlaceView>, ErrorView>(styles_view(v@)),
            Err(e) => styles_of(component@, block@, text::texts(present@))
                == Err::<Seq<PlaceView>, ErrorView>(e@),
        },
{
    proof {
        reveal_strlit("styleUrls");
        reveal_strlit("styles");
    }
    let urls: Vec<String> = extract_string_array(block, "styleUrls");
    let ghost all = text::texts(urls@);
    let ghost files = text::texts(present@);
    let dir: String = path::directory(component);
    let mut out: Vec<StyleRef> = Vec::new();
    let mut i: usize = 0;
    proof {
        assert(styles_view(out@) =~= Seq::<PlaceView>::empty());
        match style_files_from(component@, all, 0, files) {
            Ok(rest) => {
                assert(styles_view(out@) + rest =~= rest);
            },
            Err(_) => {},
        }
    }
    while i < urls.len()
        invariant
            i <= urls.len(),
            out@.len() == i,
            all == text::texts(urls@),
            files == text::texts(present@),
            string_list(block@, "styleUrls"@) == Some(all),
            dir@ == path::dir_of(component@),
            style_files_from(component@, all, 0, files) == (match style_files_from(
                component@,
                all,
                i as int,
                files,
            ) {
                Ok(rest) => Ok::<Seq<PlaceView>, ErrorView>(styles_view(out@) + rest),
                Err(e) => Err::<Seq<PlaceView>, ErrorView>(e),
            }),
        decreases urls.len() - i,
    {
        assert(all[i as int] == urls@[i as int]@);
        let file: String = path::join(dir.as_str(), urls[i].as_str());
        if !text::among(present, file.as_str()) {
            return Err(PipelineError::StyleMissing(file));
        }
        let ghost before = styles_view(out@);
        let ghost new = PlaceView::File(file@);
        out.push(StyleRef::File(file));
        proof {
            assert(styles_view(out@) =~= before.push(new));
            match style_files_from(component@, all, i + 1, files) {
                Ok(rest) => {
                    assert(before + (seq![new] + rest) =~= styles_view(out@) + rest);
                },
                Err(_) => {},
            }
        }
        i = i + 1;
    }
    assert(styles_view(out@) + Seq::<PlaceView>::empty() =~= styles_view(out@));
    assert(style_files_from(component@, all, 0, files) == Ok::<Seq<PlaceView>, ErrorView>(
        styles_view(out@),
    ));
    if out.len() == 0 && extract_string_array(block, "styles").len() > 0 {
        out.push(StyleRef::Inline);
        assert(styles_view(out@) =~= seq![PlaceView::Inline]);
    }
    Ok(out)
}

fn resolve_mounting(component: &str, module: &Option<Result<String, String>>) -> (r: Result<
    (Option<String>, Strategy),
    PipelineError,
>)
    ensures
        match r {
            Ok((name, strategy)) => mounting(component@, opt_outcome(*module)) == Ok::<
                (Option<Seq<char>>, Strategy),
                ErrorView,
            >((text::opt(name), strategy)),
            Err(e) => mounting(component@, opt_outcome(*module)) == Err::<
                (Option<Seq<char>>, Strategy),
                ErrorView,
            >(e@),
        },
{
    match module {
        Some(read) => match detect::module_place(component) {
            Some(place) => match read {
                Ok(source) => match module_class_name(source.as_str()) {
                    Some(name) => Ok((Some(name), Strategy::Module)),
                    None => Err(
                        PipelineError::Parse(
                            text::cat("no exported class in module ", place.as_str()),
                        ),
                    ),
                },
                Err(e) => {
                    let message: String = text::cat3("cannot read module ", place.as_str(), ": ");
                    Err(PipelineError::Parse(text::cat(message.as_str(), e.as_str())))
                },
            },
            None => Ok((None, Strategy::Standalone)),
        },
        None => Ok((None, Strategy::Standalone)),
    }
}

fn fill_inputs(inputs: &Vec<ParsedInput>, index: &mut TypeIndex) -> (r: Vec<(String, Json)>)
    requires
        old(index).wf(),
    ensures
        final(index).wf(),
        final(index).source_texts() == old(index).source_texts(),
        json::members(r@) == values_of(
            pipeline_types::inputs_view(inputs@),
            old(index).source_texts(),
        ),
{
    let ghost all = pipeline_types::inputs_view(inputs@);
    let ghost sources = index.source_texts();
    let mut out: Vec<(String, Json)> = Vec::new();
    let mut i: usize = 0;
    assert(all.take(0) =~= Seq::<InputView>::empty());
    assert(json::members(out@) =~= Seq::<(Seq<char>, JsonView)>::empty());
    while i < inputs.len()
        invariant
            i <= inputs.len(),
            all == pipeline_types::inputs_view(inputs@),
            index.wf(),
            sources == old(index).source_texts(),
            index.source_texts() == sources,
            json::members(out@) == values_of(all.take(i as int), sources),
        decreases inputs.len() - i,
    {
        proof {
            assert(all.take(i + 1).drop_last() =~= all.take(i as int));
            assert(all.take(i + 1).last() == inputs@[i as int]@);
        }
        if !inputs[i].has_default {
            match &inputs[i].generic {
                Some(ty) => {
                    let name: String = inputs[i].name.clone();
                    let value: Json = pipeline_types::fake_value(
                        ty.as_str(),
                        inputs[i].name.as_str(),
                        index,
                        0,
                    );
                    json::put(&mut out, name, value);
                },
                None => {},
            }
        }
        i = i + 1;
    }
    assert(all.take(all.len() as int) =~= all);
    out
}

/// The files that validation looks for: the template and the style sheets that
/// a component refers to.
pub open spec fn referenced(component: Seq<char>, source: Seq<char>) -> Seq<Seq<char>> {
    match decorator_range(source) {
        Some((open, end)) => {
            let block = source.subrange(open, end);
            let template = match string_value(block, "templateUrl"@) {
                Some(rel) => seq![beside(component, rel)],
                None => Seq::empty(),
            };
            let urls = match string_list(block, "styleUrls"@) {
                Some(urls) => urls,
                None => Seq::empty(),
            };
            template + urls.map_values(|rel: Seq<char>| beside(component, rel))
        },
        None => Seq::empty(),
    }
}

/// The files that validation looks for.
pub fn referenced_files(component: &str, source: &str) -> (r: Vec<String>)
    ensures
        text::texts(r@) == referenced(component@, source@),
{
    proof {
        reveal_strlit("templateUrl");
        reveal_strlit("styleUrls");
    }
    let s: Vec<char> = text::chars_of(source);
    let mut out: Vec<String> = Vec::new();
    assert(text::texts(out@) =~= Seq::<Seq<char>>::empty());
    match extract_decorator_block(s.as_slice()) {
        Some((open, end)) => {
            let block: &[char] = vstd::slice::slice_subrange(s.as_slice(), open, end);
            let dir: String = path::directory(component);
            match extract_string_value(block, "templateUrl") {
                Some(rel) => {
                    out.push(path::join(dir.as_str(), rel.as_str()));
                    assert(text::texts(out@) =~= seq![beside(component@, rel@)]);
                },
                None => {},
            }
            let ghost template = text::texts(out@);
            let urls: Vec<String> = if list_is_readable(block, "styleUrls") {
                extract_string_array(block, "styleUrls")
            } else {
                Vec::new()
            };
            let ghost all = text::texts(urls@);
            assert(string_list(block@, "styleUrls"@) is None ==> all =~= Seq::<
                Seq<char>,
            >::empty());
            let mut i: usize = 0;
            while i < urls.len()
                invariant
                    i <= urls.len(),
                    all == text::texts(urls@),
                    dir@ == path::dir_of(component@),
                    text::texts(out@) == template + all.take(i as int).map_values(
                        |rel: Seq<char>| beside(component@, rel),
                    ),
                decreases urls.len() - i,
            {
                let ghost before = text::texts(out@);
                out.push(path::join(dir.as_str(), urls[i].as_str()));
                assert(text::texts(out@) =~= before.push(beside(component@, all[i as int])));
                i = i + 1;
                assert(text::texts(out@) =~= template + all.take(i as int).map_values(
                    |rel: Seq<char>| beside(component@, rel),
                ));
            }
            assert(all.take(all.len() as int) =~= all);
        },
        None => {},
    }
    out
}

/// Whether validation can tell what it reads of a component.
pub fn is_decidable(component: &str, source: &Result<String, String>, present: &Vec<String>) -> (r:
    bool)
    ensures
        r == decidable(component@, outcome(*source), text::texts(present@)),
{
    proof {
        reveal_strlit("styleUrls");
        reveal_strlit("styles");
    }
    match source {
        Ok(source) => {
            let s: Vec<char> = text::chars_of(source.as_str());
            match extract_decorator_block(s.as_slice()) {
                Some((open, end)) => {
                    let block: &[char] = vstd::slice::slice_subrange(s.as_slice(), open, end);
                    match resolve_template(component, block, present) {
                        Ok(_) => list_is_readable(block, "styleUrls") && (extract_string_array(
                            block,
                            "styleUrls",
                        ).len() > 0 || list_is_readable(block, "styles")),
                        Err(_) => true,
                    }
                },
                None => true,
            }
        },
        Err(_) => true,
    }
}

/// Validate the source of a component and resolve its metadata before anything
/// is served. `source` is the outcome of reading the component, `present` the
/// files it refers to that exist, `module` the outcome of reading the module
/// beside it, where there is one, and `index` the sources in which the types of
/// its inputs are looked up.
pub fn validate(
    component: &str,
    source: &Result<String, String>,
    present: &Vec<String>,
    module: &Option<Result<String, String>>,
    index: &mut TypeIndex,
) -> (r: Result<ComponentInfo, PipelineError>)
    requires
        old(index).wf(),
        decidable(component@, outcome(*source), text::texts(present@)),
    ensures
        final(index).wf(),
        final(index).source_texts() == old(index).source_texts(),
        info_outcome(r) == validated(
            component@,
            outcome(*source),
            text::texts(present@),
            opt_outcome(*module),
            old(index).source_texts(),
        ),
{
    let source: &String = match source {
        Ok(s) => s,
        Err(e) => {
            let message: String = text::cat3("cannot read ", component, ": ");
            return Err(PipelineError::Parse(text::cat(message.as_str(), e.as_str())));
        },
    };
    let chars: Vec<char> = text::chars_of(source.as_str());
    let s: &[char] = chars.as_slice();
    if !text::contains(s, "@Component") {
        return Err(PipelineError::NotAComponent);
    }
    let (open, end): (usize, usize) = match extract_decorator_block(s) {
        Some(range) => range,
        None => {
            return Err(PipelineError::Parse("unbalanced @Component(...) block".to_string()));
        },
    };
    let block: &[char] = vstd::slice::slice_subrange(s, open, end);
    let template: TemplateRef = match resolve_template(component, block, present) {
        Ok(t) => t,
        Err(e) => {
            return Err(e);
        },
    };
    let styles: Vec<StyleRef> = match resolve_styles(component, block, present) {
        Ok(v) => v,
        Err(e) => {
            return Err(e);
        },
    };
    let class_name: String = match class_name_after(s, end) {
        Some(name) => name,
        None => {
            return Err(PipelineError::Parse("no class found after @Component".to_string()));
        },
    };
    let (module_class_name, strategy): (Option<String>, Strategy) = match resolve_mounting(
        component,
        module,
    ) {
        Ok(m) => m,
        Err(e) => {
            return Err(e);
        },
    };
    let inputs: Vec<ParsedInput> = pipeline_types::parse_component_inputs(source.as_str());
    let input_values: Vec<(String, Json)> = fill_inputs(&inputs, index);
    let required_inputs: Vec<String> = extract_required_inputs(s);
    Ok(
        ComponentInfo {
            class_name,
            required_inputs,
            input_values,
            module_class_name,
            template,
            styles,
            strategy,
        },
    )
}

/// Validate a component where what it lists can be told; nothing comes back, and
/// nothing changes, where a list of style files ends inside an escape.
pub fn try_validate(
    component: &str,
    source: &Result<String, String>,
    present: &Vec<String>,
    module: &Option<Result<String, String>>,
    index: &mut TypeIndex,
) -> (r: Option<Result<ComponentInfo, PipelineError>>)
    requires
        old(index).wf(),
    ensures
        final(index).wf(),
        final(index).source_texts() == old(index).source_texts(),
        match r {
            Some(v) => decidable(component@, outcome(*source), text::texts(present@))
                && info_outcome(v) == validated(
                component@,
                outcome(*source),
                text::texts(present@),
                opt_outcome(*module),
                old(index).source_texts(),
            ),
            None => {
                &&& !decidable(component@, outcome(*source), text::texts(present@))
                &&& *final(index) == *old(index)
            },
        },
{
    if is_decidable(component, source, present) {
        Some(validate(component, source, present, module, index))
    } else {
        None
    }
}

/// A component with a module is mounted by it, one without stands alone.
pub proof fn module_strategy_iff_module(
    component: Seq<char>,
    source: Result<Seq<char>, Seq<char>>,
    present: Seq<Seq<char>>,
    module: Option<Result<Seq<char>, Seq<char>>>,
    sources: Seq<Seq<char>>,
)
    ensures
        validated(component, source, present, module, sources) matches Ok(info) ==> {
            &&& info.strategy is Module <==> info.module_class_name is Some
            &&& info.strategy is Module <==> module is Some && detect::module_of(component) is Some
        },
{
}

/// What validation accepts is a component: its source was read, holds the
/// decorator, and every file that it says it refers to is there.
pub proof fn accepted_files_exist(
    component: Seq<char>,
    source: Result<Seq<char>, Seq<char>>,
    present: Seq<Seq<char>>,
    module: Option<Result<Seq<char>, Seq<char>>>,
    sources: Seq<Seq<char>>,
)
    ensures
        validated(component, source, present, module, sources) matches Ok(info) ==> {
            &&& source is Ok && text::has(source->Ok_0, "@Component"@)
            &&& info.template matches PlaceView::File(f) ==> present.contains(f)
            &&& forall|k: int|
                0 <= k < info.styles.len() ==> (#[trigger] info.styles[k] matches PlaceView::File(f)
                    ==> present.contains(f))
        },
{
    if let Ok(s) = source {
        if let Some((open, end)) = decorator_range(s) {
            let block = s.subrange(open, end);
            style_files_exist(component, string_list(block, "styleUrls"@)->0, 0, present);
        }
    }
}

proof fn style_files_exist(
    component: Seq<char>,
    urls: Seq<Seq<char>>,
    i: int,
    present: Seq<Seq<char>>,
)
    ensures
        style_files_from(component, urls, i, present) matches Ok(files) ==> forall|k: int|
            0 <= k < files.len() ==> (#[trigger] files[k] matches PlaceView::File(f)
                ==> present.contains(f)),
    decreases urls.len() - i,
{
    if 0 <= i < urls.len() {
        style_files_exist(component, urls, i + 1, present);
    }
}

/// An input with a default keeps the author's value: none is made up for it.
pub proof fn defaults_are_kept(inputs: Seq<InputView>, sources: Seq<Seq<char>>, name: Seq<char>)
    requires
        forall|k: int|
            0 <= k < inputs.len() && (#[trigger] inputs[k]).name == name ==> inputs[k].has_default
                || inputs[k].generic is None,
    ensures
        json::member(values_of(inputs, sources), name) is None,
    decreases inputs.len(),
{
    if inputs.len() > 0 {
        let earlier = inputs.drop_last();
        assert forall|k: int|
            0 <= k < earlier.len() && (#[trigger] earlier[k]).name == name implies earlier[k].has_default
            || earlier[k].generic is None by {
            assert(earlier[k] == inputs[k]);
        }
        defaults_are_kept(earlier, sources, name);
        let input = inputs.last();
        assert(input == inputs[inputs.len() - 1]);
        if let Some(ty) = input.generic {
            if !input.has_default {
                json::insert_then_read(
                    values_of(earlier, sources),
                    input.name,
                    pipeline_types::value_for(ty, input.name, sources, 0),
                    name,
                );
            }
        }
    }
}

// ---------------------------------------------------------------------------
// What is read of a decorator
// ---------------------------------------------------------------------------

/// Whether `key`, which stands at `j`, is part of a longer word or has something
/// else than white space and a colon behind it.
pub open spec fn is_no_property(s: Seq<char>, key: Seq<char>, j: int) -> bool {
    ||| j > 0 && (text::alphanumeric(s[j - 1]) || s[j - 1] == '_')
    ||| j + key.len() < s.len() && !text::is_space(s[j + key.len()]) && s[j + key.len()] != ':'
}

/// The first property of the name is found.
proof fn first_property_is_found(s: Seq<char>, key: Seq<char>, from: int, at: int)
    requires
        key.len() > 0,
        0 <= from <= at,
        text::occurs_at(s, key, at),
        is_key_at(s, key, at),
        forall|j: int|
            from <= j < at && #[trigger] text::occurs_at(s, key, j) ==> j + key.len() <= at
                && is_no_property(s, key, j),
    ensures
        key_from(s, key, from) == Some(at),
    decreases at - from,
{
    text::first_from_is_least(s, key, from);
    let i = text::first_from(s, key, from)->0;
    assert(text::first_from(s, key, from) is Some);
    assert(i <= at);
    if i < at {
        assert(text::occurs_at(s, key, i));
        assert(!is_key_at(s, key, i));
        first_property_is_found(s, key, i + key.len(), at);
    }
}

proof fn first_plain_quote(s: Seq<char>, from: int, at: int)
    requires
        0 <= from <= at < s.len(),
        s[at] == '\'' || s[at] == '"',
        forall|j: int| from <= j < at ==> s[j] != '\'' && s[j] != '"',
    ensures
        plain_quote_from(s, from) == Some(at),
    decreases at - from,
{
    if from < at {
        first_plain_quote(s, from + 1, at);
    }
}

/// Where a key stands as a property, and behind its colon, after white space
/// only, a string in single or in double quotes, its value is the text between
/// the quotes. What else the block holds, before the key and behind the string,
/// does not matter, as long as the key is no property before.
pub proof fn quoted_value_is_read(
    before: Seq<char>,
    key: Seq<char>,
    gap: Seq<char>,
    more: Seq<char>,
    quote: char,
    value: Seq<char>,
    after: Seq<char>,
)
    requires
        key.len() > 0,
        !key.contains('\''),
        !key.contains('"'),
        !text::is_space(key[0]),
        before.len() > 0 ==> !text::alphanumeric(before.last()) && before.last() != '_',
        text::is_blank(gap),
        text::is_blank(more),
        quote == '\'' || quote == '"',
        !value.contains(quote),
        forall|j: int|
            0 <= j < before.len() && #[trigger] text::occurs_at(
                before + key + gap + seq![':'] + more + seq![quote] + value + seq![quote] + after,
                key,
                j,
            ) ==> j + key.len() <= before.len() && is_no_property(
                before + key + gap + seq![':'] + more + seq![quote] + value + seq![quote] + after,
                key,
                j,
            ),
    ensures
        string_value(
            before + key + gap + seq![':'] + more + seq![quote] + value + seq![quote] + after,
            key,
        ) == Some(value),
{
    let s = before + key + gap + seq![':'] + more + seq![quote] + value + seq![quote] + after;
    let at = before.len() as int;
    let end = at + key.len();
    let colon = end + gap.len();
    let open = colon + 1 + more.len();
    let close = open + 1 + value.len();
    assert(s.subrange(at, end) =~= key);
    let tail = seq![':'] + more + seq![quote] + value + seq![quote] + after;
    assert(before + key + gap + tail =~= s);
    assert(tail[0] == ':');
    text::space_is_skipped(before + key, gap, tail);
    assert(text::past_space(s, end) == colon);
    assert(s[colon] == ':');
    if at > 0 {
        assert(s[at - 1] == before.last());
    }
    assert(is_key_at(s, key, at));
    first_property_is_found(s, key, 0, at);
    assert(s[open] == quote);
    assert forall|j: int| at <= j < open implies s[j] != '\'' && s[j] != '"' by {
        if j < end {
            assert(s[j] == key[j - at]);
            assert(key.contains(key[j - at]));
        } else if j < colon {
            assert(s[j] == gap[j - end]);
            assert(text::is_space(gap[j - end]));
        } else if j > colon {
            assert(s[j] == more[j - colon - 1]);
            assert(text::is_space(more[j - colon - 1]));
        }
    }
    first_plain_quote(s, at, open);
    assert(s[close] == quote);
    text::char_from_is_least(s, quote, open + 1);
    let found = text::char_from(s, quote, open + 1)->0;
    assert(text::char_from(s, quote, open + 1) is Some);
    if found < close {
        assert(s[found] == value[found - open - 1]);
        assert(value.contains(value[found - open - 1]));
    }
    assert(found == close);
    assert(s.subrange(open + 1, close) =~= value);
}

/// A quoted string, with anything but quotes before it, is the first of the
/// strings that are read; those behind it follow.
pub proof fn quoted_strings_are_read(
    gap: Seq<char>,
    quote: char,
    value: Seq<char>,
    rest: Seq<char>,
)
    requires
        quote == '\'' || quote == '"',
        !gap.contains('\''),
        !gap.contains('"'),
        !value.contains(quote),
        !value.contains('\\'),
    ensures
        strings_from(gap + seq![quote] + value + seq![quote] + rest, 0) == (match strings_from(
            rest,
            0,
        ) {
            Some(more) => Some(seq![value] + more),
            None => None,
        }),
{
    let s = gap + seq![quote] + value + seq![quote] + rest;
    let n = gap.len() as int;
    let close = n + 1 + value.len();
    strings_start_behind(s, 0, n);
    assert(s[n] == quote);
    assert(s[close] == quote);
    assert forall|j: int| n + 1 <= j < close implies s[j] != quote && s[j] != '\\' by {
        assert(s[j] == value[j - n - 1]);
        assert(value.contains(value[j - n - 1]));
    }
    string_closes(s, n + 1, close, quote);
    assert(s.subrange(n + 1, close) =~= value);
    assert(gap + seq![quote] + value + seq![quote] + rest =~= (gap + seq![quote] + value
        + seq![quote]) + rest);
    strings_do_not_look_back(gap + seq![quote] + value + seq![quote], rest, 0);
}

proof fn strings_start_behind(s: Seq<char>, i: int, n: int)
    requires
        0 <= i <= n <= s.len(),
        forall|j: int| i <= j < n ==> s[j] != '\'' && s[j] != '"',
    ensures
        strings_from(s, i) == strings_from(s, n),
    decreases n - i,
{
    if i < n {
        strings_start_behind(s, i + 1, n);
    }
}

proof fn string_closes(s: Seq<char>, i: int, close: int, q: char)
    requires
        0 <= i <= close < s.len(),
        s[close] == q,
        forall|j: int| i <= j < close ==> s[j] != q && s[j] != '\\',
    ensures
        scan::quote_close(s, i, q) == close,
        !ends_in_escape(s, i, q),
    decreases close - i,
{
    if i < close {
        string_closes(s, i + 1, close, q);
    }
}

proof fn quote_close_moves(a: Seq<char>, b: Seq<char>, i: int, q: char)
    requires
        0 <= i,
    ensures
        scan::quote_close(a + b, a.len() + i, q) == a.len() + scan::quote_close(b, i, q),
        ends_in_escape(a + b, a.len() + i, q) == ends_in_escape(b, i, q),
    decreases b.len() - i + 1,
{
    if i < b.len() {
        assert((a + b)[a.len() + i] == b[i]);
        quote_close_moves(a, b, i + 1, q);
        quote_close_moves(a, b, i + 2, q);
    }
}

proof fn strings_do_not_look_back(a: Seq<char>, b: Seq<char>, i: int)
    requires
        0 <= i,
    ensures
        strings_from(a + b, a.len() + i) == strings_from(b, i),
    decreases b.len() - i + 1,
{
    let s = a + b;
    let n = a.len() as int;
    if i < b.len() {
        assert(s[n + i] == b[i]);
        if b[i] == '\'' || b[i] == '"' {
            let close = scan::quote_close(b, i + 1, b[i]);
            scan::quote_close_bounds(b, i + 1, b[i]);
            quote_close_moves(a, b, i + 1, b[i]);
            strings_do_not_look_back(a, b, close + 1);
            if close <= b.len() {
                assert(s.subrange(n + i + 1, n + close) =~= b.subrange(i + 1, close));
            }
        } else {
            strings_do_not_look_back(a, b, i + 1);
        }
    }
}

/// No string is read where there is no quote.
pub proof fn no_quote_no_string(s: Seq<char>)
    requires
        !s.contains('\''),
        !s.contains('"'),
    ensures
        strings_from(s, 0) == Some(Seq::<Seq<char>>::empty()),
{
    assert forall|j: int| 0 <= j < s.len() implies s[j] != '\'' && s[j] != '"' by {
        assert(s.contains(s[j]));
    }
    strings_start_behind(s, 0, s.len() as int);
}

/// The name of a class is the run of identifier characters behind the first
/// `word` that stands at `from` or behind it.
#[verifier::rlimit(40)]
pub proof fn name_behind_a_word_is_read(
    before: Seq<char>,
    word: Seq<char>,
    name: Seq<char>,
    after: Seq<char>,
    from: int,
)
    requires
        0 <= from <= before.len(),
        name.len() > 0,
        forall|i: int| 0 <= i < name.len() ==> text::is_ident(#[trigger] name[i]),
        after.len() > 0 ==> !text::is_ident(after[0]),
        forall|j: int|
            from <= j < before.len() ==> !#[trigger] text::occurs_at(
                before + word + name + after,
                word,
                j,
            ),
    ensures
        name_after(before + word + name + after, word, from) == Some(name),
{
    let s = before + word + name + after;
    let at = before.len() as int;
    let start = at + word.len();
    let end = start + name.len();
    assert(s.subrange(at, start) =~= word);
    text::first_from_is_least(s, word, from);
    assert(text::occurs_at(s, word, at));
    assert(text::first_from(s, word, from) == Some(at));
    text::ident_end_bounds(s, start);
    let e = text::ident_end(s, start);
    if e < end {
        assert(s[e] == name[e - start]);
        assert(text::is_ident(name[e - start]));
    }
    if e > end {
        assert(s[end] == after[0]);
    }
    assert(s.subrange(start, end) =~= name);
}

/// An input that has a type and no default is given the value made up for its
/// type.
pub proof fn inputs_without_default_are_filled(
    inputs: Seq<InputView>,
    sources: Seq<Seq<char>>,
    k: int,
    ty: Seq<char>,
)
    requires
        0 <= k < inputs.len(),
        forall|i: int, j: int|
            0 <= i < j < inputs.len() ==> (#[trigger] inputs[i]).name != (#[trigger] inputs[j]).name,
        !inputs[k].has_default,
        inputs[k].generic == Some(ty),
    ensures
        json::member(values_of(inputs, sources), inputs[k].name) == Some(
            pipeline_types::value_for(ty, inputs[k].name, sources, 0),
        ),
    decreases inputs.len(),
{
    let head = inputs.drop_last();
    let last = inputs[inputs.len() - 1];
    let earlier = values_of(head, sources);
    if k < inputs.len() - 1 {
        assert forall|i: int, j: int| 0 <= i < j < head.len() implies (#[trigger] head[i]).name != (
        #[trigger] head[j]).name by {
            assert(inputs[i].name != inputs[j].name);
        }
        assert(head[k] == inputs[k]);
        inputs_without_default_are_filled(head, sources, k, ty);
        assert(inputs[k].name != last.name);
    }
    if let Some(t) = last.generic {
        json::insert_then_read(
            earlier,
            last.name,
            pipeline_types::value_for(t, last.name, sources, 0),
            inputs[k].name,
        );
    }
}

/// No two places where `input.required` stands overlap.
proof fn required_calls_are_apart(s: Seq<char>, a: int, b: int)
    requires
        a < b,
        text::occurs_at(s, "input.required"@, a),
        text::occurs_at(s, "input.required"@, b),
    ensures
        a + "input.required"@.len() <= b,
{
    reveal_strlit("input.required");
    if b < a + 14 {
        let d = b - a;
        assert(s.subrange(a, a + 14)[13] == 'd');
        assert(s.subrange(b, b + 14)[13 - d] == s[a + 13]);
        assert("input.required"@[13 - d] == 'd');
    }
}

/// Every name that an `input.required` is assigned to is listed.
pub proof fn required_inputs_are_listed(s: Seq<char>, at: int)
    requires
        text::occurs_at(s, "input.required"@, at),
        assigned_name(s, at) is Some,
    ensures
        required_inputs_of(s).contains(assigned_name(s, at)->0),
{
    required_from_lists(s, 0, Seq::empty(), at);
}

proof fn required_from_keeps(s: Seq<char>, from: int, found: Seq<Seq<char>>, name: Seq<char>)
    requires
        0 <= from,
        found.contains(name),
    ensures
        required_from(s, from, found).contains(name),
    decreases s.len() - from,
{
    reveal_strlit("input.required");
    text::first_from_is_least(s, "input.required"@, from);
    if let Some(at) = text::first_from(s, "input.required"@, from) {
        let next = at + "input.required"@.len();
        match assigned_name(s, at) {
            Some(other) => {
                if found.contains(other) {
                    required_from_keeps(s, next, found, name);
                } else {
                    let k = choose|k: int| 0 <= k < found.len() && found[k] == name;
                    assert(found.push(other)[k] == name);
                    required_from_keeps(s, next, found.push(other), name);
                }
            },
            None => {
                required_from_keeps(s, next, found, name);
            },
        }
    }
}

proof fn required_from_lists(s: Seq<char>, from: int, found: Seq<Seq<char>>, at: int)
    requires
        0 <= from <= at,
        text::occurs_at(s, "input.required"@, at),
        assigned_name(s, at) is Some,
    ensures
        required_from(s, from, found).contains(assigned_name(s, at)->0),
    decreases s.len() - from,
{
    reveal_strlit("input.required");
    text::first_from_is_least(s, "input.required"@, from);
    let name = assigned_name(s, at)->0;
    let i = text::first_from(s, "input.required"@, from)->0;
    assert(i <= at);
    let next = i + "input.required"@.len();
    if i == at {
        if found.contains(name) {
            required_from_keeps(s, next, found, name);
        } else {
            assert(found.push(name)[found.len() as int] == name);
            required_from_keeps(s, next, found.push(name), name);
        }
    } else {
        required_calls_are_apart(s, i, at);
        match assigned_name(s, i) {
            Some(other) => {
                if found.contains(other) {
                    required_from_lists(s, next, found, at);
                } else {
                    required_from_lists(s, next, found.push(other), at);
                }
            },
            None => {
                required_from_lists(s, next, found, at);
            },
        }
    }
}

/// A required input is one by its name: a word, an equals sign and a call of
/// `input.required` behind it.
pub proof fn required_inputs_are_named(
    before: Seq<char>,
    name: Seq<char>,
    after: Seq<char>,
)
    requires
        pipeline_types::is_word(name),
        before.len() > 0 ==> !text::is_ident(before.last()),
        after.len() > 0,
        after[0] == '<' || after[0] == '(',
    ensures
        required_inputs_of(before + name + seq![' '] + (seq!['=', ' '] + "input.required"@ + after)).contains(
            name,
        ),
{
    let tail = seq!['=', ' '] + "input.required"@ + after;
    let s = before + name + seq![' '] + tail;
    let eq = (before.len() + name.len() + 1) as int;
    let at = eq + 2;
    assert(text::is_space(' ') && !text::is_space('='));
    pipeline_types::name_is_read_backwards(before, name, seq![' '], tail);
    assert(s.subrange(at, at + "input.required"@.len()) =~= "input.required"@);
    assert(s[at + "input.required"@.len()] == after[0]);
    assert(s[eq] == '=' && s[eq + 1] == ' ' && s[eq - 1] == ' ');
    text::before_space_bounds(s, at);
    assert(text::before_space(s, at) == eq + 1);
    assert(assigned_name(s, at) == Some(name));
    required_inputs_are_listed(s, at);
}

/// The decorator is the first `@Component`; its block is what stands between its
/// parentheses, with them.
pub proof fn decorator_is_found(
    before: Seq<char>,
    gap: Seq<char>,
    x: Seq<char>,
    after: Seq<char>,
)
    requires
        !gap.contains('('),
        scan::is_free(x, '(', ')'),
        forall|j: int|
            0 <= j < before.len() ==> !#[trigger] text::occurs_at(
                before + "@Component"@ + gap + seq!['('] + x + seq![')'] + after,
                "@Component"@,
                j,
            ),
    ensures
        decorator_range(before + "@Component"@ + gap + seq!['('] + x + seq![')'] + after) == Some(
            (
                (before.len() + "@Component"@.len() + gap.len()) as int,
                (before.len() + "@Component"@.len() + gap.len() + x.len() + 2) as int,
            ),
        ),
{
    let s = before + "@Component"@ + gap + seq!['('] + x + seq![')'] + after;
    let at = before.len() as int;
    let end = at + "@Component"@.len();
    let open = end + gap.len();
    assert(s.subrange(at, end) =~= "@Component"@);
    assert(text::occurs_at(s, "@Component"@, at));
    text::first_from_is_least(s, "@Component"@, 0);
    assert(text::first_from(s, "@Component"@, 0) == Some(at));
    assert(s[open] == '(');
    text::char_from_is_least(s, '(', end);
    let found = text::char_from(s, '(', end)->0;
    if found < open {
        assert(s[found] == gap[found - end]);
        assert(gap.contains(gap[found - end]));
    }
    scan::plain_block_is_found(before + "@Component"@ + gap, '(', x, ')', after);
}

/// The files that a list of style sheets names, beside the component.
pub open spec fn files_beside(component: Seq<char>, urls: Seq<Seq<char>>) -> Seq<PlaceView> {
    urls.map_values(|u: Seq<char>| PlaceView::File(path::join_of(path::dir_of(component), u)))
}

proof fn listed_styles_are_files(
    component: Seq<char>,
    urls: Seq<Seq<char>>,
    i: int,
    present: Seq<Seq<char>>,
)
    requires
        0 <= i <= urls.len(),
        forall|k: int|
            i <= k < urls.len() ==> present.contains(
                path::join_of(path::dir_of(component), #[trigger] urls[k]),
            ),
    ensures
        style_files_from(component, urls, i, present) == Ok::<Seq<PlaceView>, ErrorView>(
            files_beside(component, urls).skip(i),
        ),
    decreases urls.len() - i,
{
    let all = files_beside(component, urls);
    if i < urls.len() {
        assert(present.contains(path::join_of(path::dir_of(component), urls[i])));
        listed_styles_are_files(component, urls, i + 1, present);
        assert(seq![all[i]] + all.skip(i + 1) =~= all.skip(i));
    } else {
        assert(all.skip(i) =~= Seq::<PlaceView>::empty());
    }
}

/// A component whose template and style sheets are there is accepted with them:
/// each is the file beside the component that the decorator names. Without a
/// module beside it, it stands alone; the class is the first one behind the
/// decorator.
pub proof fn complete_components_are_accepted(
    component: Seq<char>,
    s: Seq<char>,
    present: Seq<Seq<char>>,
    sources: Seq<Seq<char>>,
    open: int,
    end: int,
    template: Seq<char>,
    urls: Seq<Seq<char>>,
    class_name: Seq<char>,
)
    requires
        decorator_range(s) == Some((open, end)),
        string_value(s.subrange(open, end), "templateUrl"@) == Some(template),
        string_list(s.subrange(open, end), "styleUrls"@) == Some(urls),
        urls.len() > 0,
        present.contains(path::join_of(path::dir_of(component), template)),
        forall|k: int|
            0 <= k < urls.len() ==> present.contains(
                path::join_of(path::dir_of(component), #[trigger] urls[k]),
            ),
        name_after(s, "class "@, end) == Some(class_name),
    ensures
        validated(component, Ok(s), present, None, sources) matches Ok(info) && info.class_name
            == class_name && info.template == PlaceView::File(
            path::join_of(path::dir_of(component), template),
        ) && info.styles == files_beside(component, urls) && info.strategy is Standalone
            && info.module_class_name is None && info.required_inputs == required_inputs_of(s)
            && info.input_values == values_of(pipeline_types::inputs_of(s), sources),
{
    listed_styles_are_files(component, urls, 0, present);
    assert(files_beside(component, urls).skip(0) =~= files_beside(component, urls));
    text::has_iff_found(s, "@Component"@);
}

/// A component whose template file is missing is refused with the file that was
/// looked for; one whose style sheet is missing, with that style sheet.
pub proof fn missing_files_are_refused(
    component: Seq<char>,
    s: Seq<char>,
    present: Seq<Seq<char>>,
    module: Option<Result<Seq<char>, Seq<char>>>,
    sources: Seq<Seq<char>>,
    open: int,
    end: int,
    template: Seq<char>,
    urls: Seq<Seq<char>>,
    k: int,
)
    requires
        decorator_range(s) == Some((open, end)),
        string_value(s.subrange(open, end), "templateUrl"@) == Some(template),
        string_list(s.subrange(open, end), "styleUrls"@) == Some(urls),
        0 <= k < urls.len(),
        forall|i: int|
            0 <= i < k ==> present.contains(
                path::join_of(path::dir_of(component), #[trigger] urls[i]),
            ),
        !present.contains(path::join_of(path::dir_of(component), urls[k])),
    ensures
        !present.contains(path::join_of(path::dir_of(component), template)) ==> validated(
            component,
            Ok(s),
            present,
            module,
            sources,
        ) == Err::<InfoView, ErrorView>(
            ErrorView::TemplateMissing(path::join_of(path::dir_of(component), template)),
        ),
        present.contains(path::join_of(path::dir_of(component), template)) ==> validated(
            component,
            Ok(s),
            present,
            module,
            sources,
        ) == Err::<InfoView, ErrorView>(
            ErrorView::StyleMissing(path::join_of(path::dir_of(component), urls[k])),
        ),
{
    text::has_iff_found(s, "@Component"@);
    first_missing_style_is_told(component, urls, 0, present, k);
}

proof fn first_missing_style_is_told(
    component: Seq<char>,
    urls: Seq<Seq<char>>,
    i: int,
    present: Seq<Seq<char>>,
    k: int,
)
    requires
        0 <= i <= k < urls.len(),
        forall|j: int|
            i <= j < k ==> present.contains(
                path::join_of(path::dir_of(component), #[trigger] urls[j]),
            ),
        !present.contains(path::join_of(path::dir_of(component), urls[k])),
    ensures
        style_files_from(component, urls, i, present) == Err::<Seq<PlaceView>, ErrorView>(
            ErrorView::StyleMissing(path::join_of(path::dir_of(component), urls[k])),
        ),
    decreases k - i,
{
    if i < k {
        assert(present.contains(path::join_of(path::dir_of(component), urls[i])));
        first_missing_style_is_told(component, urls, i + 1, present, k);
    }
}

/// What is no component is told apart: a source without the decorator, one whose
/// decorator is not closed, one that could not be read.
pub proof fn other_sources_are_refused(
    component: Seq<char>,
    source: Result<Seq<char>, Seq<char>>,
    present: Seq<Seq<char>>,
    module: Option<Result<Seq<char>, Seq<char>>>,
    sources: Seq<Seq<char>>,
)
    ensures
        source is Err ==> validated(component, source, present, module, sources) matches Err(
            ErrorView::Parse(_),
        ),
        source matches Ok(s) ==> !text::has(s, "@Component"@) ==> validated(
            component,
            source,
            present,
            module,
            sources,
        ) == Err::<InfoView, ErrorView>(ErrorView::NotAComponent),
        source matches Ok(s) ==> text::has(s, "@Component"@) && decorator_range(s) is None
            ==> validated(component, source, present, module, sources) == Err::<InfoView, ErrorView>(
            ErrorView::Parse("unbalanced @Component(...) block"@),
        ),
{
}

/// A component with a template of its own needs no file.
pub proof fn inline_templates_need_no_file(
    component: Seq<char>,
    block: Seq<char>,
    present: Seq<Seq<char>>,
)
    requires
        string_value(block, "templateUrl"@) is None,
    ensures
        string_value(block, "template"@) is Some ==> template_of(component, block, present) == Ok::<
            PlaceView,
            ErrorView,
        >(PlaceView::Inline),
        string_value(block, "template"@) is None ==> template_of(
            component,
            block,
            present,
        ) is Err,
{
}

/// The text of a list of strings in quotes, with commas between them.
pub open spec fn listed(items: Seq<Seq<char>>, quote: char) -> Seq<char>
    decreases items.len(),
{
    if items.len() == 0 {
        Seq::empty()
    } else {
        seq![quote] + items[0] + seq![quote] + (if items.len() == 1 {
            Seq::empty()
        } else {
            seq![',', ' '] + listed(items.skip(1), quote)
        })
    }
}

proof fn listed_strings_are_read(gap: Seq<char>, items: Seq<Seq<char>>, quote: char)
    requires
        quote == '\'' || quote == '"',
        !gap.contains('\''),
        !gap.contains('"'),
        forall|i: int| 0 <= i < items.len() ==> scan::fits_in_quotes(#[trigger] items[i], quote),
    ensures
        strings_from(gap + listed(items, quote), 0) == Some(items),
    decreases items.len(),
{
    if items.len() == 0 {
        assert(gap + listed(items, quote) =~= gap);
        no_quote_no_string(gap);
        assert(items =~= Seq::<Seq<char>>::empty());
    } else {
        let v = items[0];
        let rest = items.skip(1);
        let tail = if items.len() == 1 {
            Seq::<char>::empty()
        } else {
            seq![',', ' '] + listed(rest, quote)
        };
        assert(scan::fits_in_quotes(v, quote));
        assert(!v.contains(quote) && !v.contains('\\')) by {
            if v.contains(quote) {
                let i = choose|i: int| 0 <= i < v.len() && v[i] == quote;
                assert(v[i] != quote);
            }
            if v.contains('\\') {
                let i = choose|i: int| 0 <= i < v.len() && v[i] == '\\';
                assert(v[i] != '\\');
            }
        }
        assert(gap + listed(items, quote) =~= gap + seq![quote] + v + seq![quote] + tail);
        quoted_strings_are_read(gap, quote, v, tail);
        assert forall|i: int| 0 <= i < rest.len() implies scan::fits_in_quotes(
            #[trigger] rest[i],
            quote,
        ) by {
            assert(rest[i] == items[i + 1]);
        }
        if items.len() == 1 {
            no_quote_no_string(tail);
        } else {
            assert forall|i: int| 0 <= i < 2 implies seq![',', ' '][i] != '\'' && seq![',', ' '][i]
                != '"' by {}
            listed_strings_are_read(seq![',', ' '], rest, quote);
        }
        assert(strings_from(tail, 0) == Some(rest));
        assert(seq![v] + rest =~= items);
    }
}

proof fn list_is_passed(a: Seq<char>, items: Seq<Seq<char>>, quote: char, b: Seq<char>)
    requires
        quote == '\'' || quote == '"',
        forall|i: int| 0 <= i < items.len() ==> scan::fits_in_quotes(#[trigger] items[i], quote),
    ensures
        scan::block_close(a + listed(items, quote) + b, a.len() as int, 1, '[', ']')
            == scan::block_close(
            a + listed(items, quote) + b,
            (a.len() + listed(items, quote).len()) as int,
            1,
            '[',
            ']',
        ),
    decreases items.len(),
{
    if items.len() > 0 {
        let v = items[0];
        let rest = items.skip(1);
        let all = listed(items, quote);
        let s = a + all + b;
        let n = a.len() as int;
        let j = n + 1 + v.len();
        assert(scan::fits_in_quotes(v, quote));
        assert(s[n] == all[0] && all[0] == quote);
        assert(s[j] == all[1 + v.len() as int] && all[1 + v.len() as int] == quote);
        assert forall|k: int| n + 1 <= k < j implies #[trigger] s[k] != quote && s[k] != '\\' by {
            assert(s[k] == all[k - n]);
            assert(all[k - n] == v[k - n - 1]);
        }
        scan::string_closes_at_its_quote(s, n + 1, j, quote);
        assert(scan::block_close(s, n, 1, '[', ']') == scan::block_close(s, j + 1, 1, '[', ']'));
        if items.len() > 1 {
            assert forall|i: int| 0 <= i < rest.len() implies scan::fits_in_quotes(
                #[trigger] rest[i],
                quote,
            ) by {
                assert(rest[i] == items[i + 1]);
            }
            let head = a + seq![quote] + v + seq![quote] + seq![',', ' '];
            assert(s =~= head + listed(rest, quote) + b);
            assert(s[j + 1] == ',' && s[j + 2] == ' ');
            assert(scan::block_close(s, j + 1, 1, '[', ']') == scan::block_close(
                s,
                j + 2,
                1,
                '[',
                ']',
            ));
            assert(scan::block_close(s, j + 2, 1, '[', ']') == scan::block_close(
                s,
                j + 3,
                1,
                '[',
                ']',
            ));
            list_is_passed(head, rest, quote, b);
            assert(head.len() == j + 3);
        }
    }
}

/// Where a key stands as a property with a list of quoted strings behind its colon,
/// its strings are read, all of them and in order, whatever they hold: brackets and
/// commas in them do not count.
pub proof fn quoted_lists_are_read(
    before: Seq<char>,
    key: Seq<char>,
    items: Seq<Seq<char>>,
    quote: char,
    after: Seq<char>,
)
    requires
        key.len() > 0,
        !key.contains('['),
        !text::is_space(key[0]),
        before.len() > 0 ==> !text::alphanumeric(before.last()) && before.last() != '_',
        quote == '\'' || quote == '"',
        forall|i: int| 0 <= i < items.len() ==> scan::fits_in_quotes(#[trigger] items[i], quote),
        forall|j: int|
            0 <= j < before.len() && #[trigger] text::occurs_at(
                before + key + ": ["@ + listed(items, quote) + (seq![']'] + after),
                key,
                j,
            ) ==> j + key.len() <= before.len() && is_no_property(
                before + key + ": ["@ + listed(items, quote) + (seq![']'] + after),
                key,
                j,
            ),
    ensures
        string_list(
            before + key + ": ["@ + listed(items, quote) + (seq![']'] + after),
            key,
        ) == Some(items),
{
    reveal_strlit(": [");
    let head = before + key + ": ["@;
    let inner = listed(items, quote);
    let b = seq![']'] + after;
    let s = head + inner + b;
    let at = before.len() as int;
    let end = at + key.len();
    let open = end + 2;
    assert(s.subrange(at, end) =~= key);
    assert(s[end] == ':' && s[end + 1] == ' ' && s[open] == '[');
    text::past_space_bounds(s, end);
    assert(text::past_space(s, end) == end);
    if at > 0 {
        assert(s[at - 1] == before.last());
    }
    assert(is_key_at(s, key, at));
    first_property_is_found(s, key, 0, at);
    text::char_from_is_least(s, '[', at);
    let found = text::char_from(s, '[', at)->0;
    assert(found == open) by {
        if found < end {
            assert(s[found] == key[found - at]);
            assert(key.contains(key[found - at]));
        }
    }
    list_is_passed(head, items, quote, b);
    let close = open + 1 + inner.len();
    assert(s[close] == ']');
    assert(scan::block_close(s, close, 1, '[', ']') == Some(close));
    assert(scan::block_end(s, open, '[', ']') == Some(close));
    assert(s.subrange(open + 1, close) =~= inner);
    let none = Seq::<char>::empty();
    listed_strings_are_read(none, items, quote);
    assert(none + inner =~= inner);
}

/// A component with a module beside it is mounted by the first class that the
/// module exports.
pub proof fn modules_mount_their_components(
    component: Seq<char>,
    place: Seq<char>,
    before: Seq<char>,
    name: Seq<char>,
    after: Seq<char>,
)
    requires
        detect::module_of(component) == Some(place),
        name.len() > 0,
        forall|i: int| 0 <= i < name.len() ==> text::is_ident(#[trigger] name[i]),
        after.len() > 0 ==> !text::is_ident(after[0]),
        forall|j: int|
            0 <= j < before.len() ==> !#[trigger] text::occurs_at(
                before + "export class "@ + name + after,
                "export class "@,
                j,
            ),
    ensures
        mounting(component, Some(Ok(before + "export class "@ + name + after))) == Ok::<
            (Option<Seq<char>>, Strategy),
            ErrorView,
        >((Some(name), Strategy::Module)),
        mounting(component, None) == Ok::<(Option<Seq<char>>, Strategy), ErrorView>(
            (None, Strategy::Standalone),
        ),
{
    name_behind_a_word_is_read(before, "export class "@, name, after, 0);
}

/// The files that a component names are looked for beside it: its template and
/// each of its style sheets.
pub proof fn named_files_are_looked_for(
    component: Seq<char>,
    source: Seq<char>,
    open: int,
    end: int,
    file: Seq<char>,
)
    requires
        decorator_range(source) == Some((open, end)),
    ensures
        string_value(source.subrange(open, end), "templateUrl"@) == Some(file) ==> referenced(
            component,
            source,
        ).contains(path::join_of(path::dir_of(component), file)),
        string_list(source.subrange(open, end), "styleUrls"@) matches Some(urls) && urls.contains(file)
            ==> referenced(component, source).contains(path::join_of(path::dir_of(component), file)),
{
    let block = source.subrange(open, end);
    let all = referenced(component, source);
    let place = path::join_of(path::dir_of(component), file);
    if string_value(block, "templateUrl"@) == Some(file) {
        assert(all[0] == place);
    }
    if let Some(urls) = string_list(block, "styleUrls"@) {
        if urls.contains(file) {
            let k = choose|k: int| 0 <= k < urls.len() && urls[k] == file;
            let n: int = if string_value(block, "templateUrl"@) is Some {
                1
            } else {
                0
            };
            assert(all[n + k] == place);
        }
    }
}

} // verus!
