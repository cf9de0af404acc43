//! Cleaning text: JSON with comments, and terminal output with escape
//! sequences.

use crate::json;
use crate::json::{Json, JsonView};
use crate::text;
use vstd::prelude::*;

verus! {

// ---------------------------------------------------------------------------
// JSON with comments
// ---------------------------------------------------------------------------

/// Where the line ends that holds position `i`.
pub open spec fn line_end(s: Seq<char>, i: int) -> int
    decreases s.len() - i,
{
    if i >= s.len() {
        s.len() as int
    } else if s[i] == '\n' {
        i
    } else {
        line_end(s, i + 1)
    }
}

/// Where the block comment ends that holds position `i`.
pub open spec fn comment_end(s: Seq<char>, i: int) -> int
    decreases s.len() - i,
{
    if i >= s.len() {
        s.len() as int
    } else if s[i] == '*' && i + 1 < s.len() && s[i + 1] == '/' {
        i + 2
    } else {
        comment_end(s, i + 1)
    }
}

proof fn line_end_bounds(s: Seq<char>, i: int)
    ensures
        line_end(s, i) <= s.len(),
        i <= s.len() ==> i <= line_end(s, i),
    decreases s.len() - i,
{
    if i < s.len() && s[i] != '\n' {
        line_end_bounds(s, i + 1);
    }
}

proof fn comment_end_bounds(s: Seq<char>, i: int)
    ensures
        comment_end(s, i) <= s.len(),
        i <= s.len() ==> i <= comment_end(s, i),
    decreases s.len() - i,
{
    if i < s.len() && !(s[i] == '*' && i + 1 < s.len() && s[i + 1] == '/') {
        comment_end_bounds(s, i + 1);
    }
}

/// Whether the slash at `i` is one of the two of an address, as in `https://`.
pub open spec fn in_address(s: Seq<char>, i: int) -> bool {
    (i > 0 && s[i - 1] == ':') || (i > 1 && s[i - 1] == '/' && s[i - 2] == ':')
}

/// Whether a line comment starts at `i`.
pub open spec fn line_comment_at(s: Seq<char>, i: int) -> bool {
    s[i] == '/' && i + 1 < s.len() && s[i + 1] == '/' && !in_address(s, i)
}

/// Whether a block comment starts at `i`.
pub open spec fn block_comment_at(s: Seq<char>, i: int) -> bool {
    s[i] == '/' && i + 1 < s.len() && s[i + 1] == '*'
}

/// The text from `i` on without its comments. `quoted` tells whether `i` is
/// inside a string, where nothing is a comment, and `escaped` whether a
/// backslash stands before it there.
pub open spec fn uncommented(s: Seq<char>, i: int, quoted: bool, escaped: bool) -> Seq<char>
    decreases s.len() - i,
    via uncommented_decreases
{
    if i < 0 || i >= s.len() {
        Seq::empty()
    } else if quoted {
        seq![s[i]] + uncommented(
            s,
            i + 1,
            escaped || s[i] != '"',
            !escaped && s[i] == '\\',
        )
    } else if s[i] == '"' {
        seq![s[i]] + uncommented(s, i + 1, true, false)
    } else if line_comment_at(s, i) {
        uncommented(s, line_end(s, i + 1), false, false)
    } else if block_comment_at(s, i) {
        uncommented(s, comment_end(s, i + 2), false, false)
    } else {
        seq![s[i]] + uncommented(s, i + 1, false, false)
    }
}

#[via_fn]
proof fn uncommented_decreases(s: Seq<char>, i: int, quoted: bool, escaped: bool) {
    line_end_bounds(s, i + 1);
    comment_end_bounds(s, i + 2);
}

/// Whether a string is open behind the first `n` characters, and whether a
/// backslash stands at their end there.
pub open spec fn quoting(s: Seq<char>, n: int) -> (bool, bool)
    decreases n,
{
    if n <= 0 {
        (false, false)
    } else {
        let (quoted, escaped) = quoting(s, n - 1);
        if quoted {
            (escaped || s[n - 1] != '"', !escaped && s[n - 1] == '\\')
        } else {
            (s[n - 1] == '"', false)
        }
    }
}

/// Whether the character at `i` is a comma before the end of an object or a
/// list, outside strings.
pub open spec fn is_trailing_comma(s: Seq<char>, i: int) -> bool {
    let next = text::past_space(s, i + 1);
    s[i] == ',' && !quoting(s, i).0 && next < s.len() && (s[next] == '}' || s[next] == ']')
}

/// The first `n` characters without the commas that end an object or a list.
pub open spec fn without_commas(s: Seq<char>, n: int) -> Seq<char>
    decreases n,
{
    if n <= 0 {
        Seq::empty()
    } else if is_trailing_comma(s, n - 1) {
        without_commas(s, n - 1)
    } else {
        without_commas(s, n - 1).push(s[n - 1])
    }
}

/// The JSON of a text that may hold comments and trailing commas.
pub open spec fn plain_json(s: Seq<char>) -> Seq<char> {
    let u = uncommented(s, 0, false, false);
    without_commas(u, u.len() as int)
}

fn strip_comments(s: &[char]) -> (r: Vec<char>)
    ensures
        r@ == uncommented(s@, 0, false, false),
{
    let mut out: Vec<char> = Vec::new();
    let mut i: usize = 0;
    let mut quoted: bool = false;
    let mut escaped: bool = false;
    assert(out@ + uncommented(s@, 0, false, false) =~= uncommented(s@, 0, false, false));
    while i < s.len()
        invariant
            i <= s.len(),
            out@ + uncommented(s@, i as int, quoted, escaped) == uncommented(s@, 0, false, false),
        decreases s.len() - i,
    {
        let c: char = s[i];
        let ghost before = out@;
        if quoted {
            let ghost rest = uncommented(s@, i + 1, escaped || c != '"', !escaped && c == '\\');
            out.push(c);
            assert(before + (seq![c] + rest) =~= out@ + rest);
            if escaped {
                escaped = false;
            } else if c == '\\' {
                escaped = true;
            } else if c == '"' {
                quoted = false;
            }
            i = i + 1;
        } else if c == '"' {
            let ghost rest = uncommented(s@, i + 1, true, false);
            out.push(c);
            assert(before + (seq![c] + rest) =~= out@ + rest);
            quoted = true;
            escaped = false;
            i = i + 1;
        } else if c == '/' && i + 1 < s.len() && s[i + 1] == '/' && !((i > 0 && s[i - 1] == ':')
            || (i > 1 && s[i - 1] == '/' && s[i - 2] == ':')) {
            let mut j: usize = i + 1;
            while j < s.len() && s[j] != '\n'
                invariant
                    i < j <= s.len(),
                    line_end(s@, i + 1) == line_end(s@, j as int),
                decreases s.len() - j,
            {
                j = j + 1;
            }
            i = j;
            escaped = false;
        } else if c == '/' && i + 1 < s.len() && s[i + 1] == '*' {
            let mut j: usize = i + 2;
            while j < s.len() && !(s[j] == '*' && j + 1 < s.len() && s[j + 1] == '/')
                invariant
                    i < j <= s.len(),
                    comment_end(s@, i + 2) == comment_end(s@, j as int),
                decreases s.len() - j,
            {
                j = j + 1;
            }
            i = if j < s.len() {
                j + 2
            } else {
                j
            };
            escaped = false;
        } else {
            let ghost rest = uncommented(s@, i + 1, false, false);
            out.push(c);
            assert(before + (seq![c] + rest) =~= out@ + rest);
            escaped = false;
            i = i + 1;
        }
    }
    assert(out@ + Seq::<char>::empty() =~= out@);
    out
}

/// Strip the comments and the trailing commas from the text of a configuration.
/// Nothing in a string starts a comment, and the slashes of an address start
/// none anywhere.
pub fn strip_jsonc(input: &str) -> (r: String)
    ensures
        r@ == plain_json(input@),
{
    let chars: Vec<char> = text::chars_of(input);
    let u: Vec<char> = strip_comments(chars.as_slice());
    let s: &[char] = u.as_slice();
    let mut out: String = String::new();
    let mut quoted: bool = false;
    let mut escaped: bool = false;
    let mut i: usize = 0;
    assert(out@ =~= without_commas(s@, 0));
    while i < s.len()
        invariant
            i <= s.len(),
            (quoted, escaped) == quoting(s@, i as int),
            out@ == without_commas(s@, i as int),
        decreases s.len() - i,
    {
        let c: char = s[i];
        let next: usize = text::skip_space(s, i + 1);
        if c == ',' && !quoted && next < s.len() && (s[next] == '}' || s[next] == ']') {
        } else {
            out.push(c);
        }
        if quoted {
            quoted = escaped || c != '"';
            escaped = !escaped && c == '\\';
        } else {
            quoted = c == '"';
        }
        i = i + 1;
    }
    out
}

/// What a text that may hold comments and trailing commas says.
pub open spec fn jsonc_read(s: Seq<char>) -> Result<JsonView, Seq<char>> {
    json::json_read(plain_json(s))
}

pub open spec fn json_outcome(r: Result<Json, String>) -> Result<JsonView, Seq<char>> {
    match r {
        Ok(j) => Ok(j@),
        Err(e) => Err(e@),
    }
}

/// Read a configuration that is plain JSON.
pub fn parse_json(input: &str) -> (r: Result<Json, String>)
    ensures
        json_outcome(r) == json::json_read(input@),
{
    json::read(input)
}

/// Read a configuration that may hold comments and trailing commas.
pub fn parse_jsonc(input: &str) -> (r: Result<Json, String>)
    ensures
        json_outcome(r) == jsonc_read(input@),
{
    json::read(strip_jsonc(input).as_str())
}

/// The text of a configuration file.
pub fn pretty_json(j: &Json) -> (r: String)
    ensures
        r@ == json::json_pretty(j@),
{
    json::pretty(j)
}

/// The text of a value on one line.
pub fn compact_json(j: &Json) -> (r: String)
    ensures
        r@ == json::json_compact(j@),
{
    json::compact(j)
}

/// A text without a slash and without a comma holds nothing to strip.
pub proof fn plain_text_is_kept(s: Seq<char>)
    requires
        !s.contains('/'),
        !s.contains(','),
    ensures
        plain_json(s) == s,
{
    uncommented_without_slash(s, 0, false, false);
    assert(s.skip(0) =~= s);
    without_commas_keeps(s, s.len() as int);
    assert(s.take(s.len() as int) =~= s);
}

proof fn uncommented_without_slash(s: Seq<char>, i: int, quoted: bool, escaped: bool)
    requires
        !s.contains('/'),
        0 <= i <= s.len(),
    ensures
        uncommented(s, i, quoted, escaped) == s.skip(i),
    decreases s.len() - i,
{
    if i < s.len() {
        assert(s[i] != '/') by {
            assert(s.contains(s[i]));
        }
        if quoted {
            uncommented_without_slash(s, i + 1, escaped || s[i] != '"', !escaped && s[i] == '\\');
        } else if s[i] == '"' {
            uncommented_without_slash(s, i + 1, true, false);
        } else {
            uncommented_without_slash(s, i + 1, false, false);
        }
        assert(seq![s[i]] + s.skip(i + 1) =~= s.skip(i));
    } else {
        assert(s.skip(i) =~= Seq::<char>::empty());
    }
}

proof fn without_commas_keeps(s: Seq<char>, n: int)
    requires
        !s.contains(','),
        0 <= n <= s.len(),
    ensures
        without_commas(s, n) == s.take(n),
    decreases n,
{
    if n > 0 {
        without_commas_keeps(s, n - 1);
        assert(s[n - 1] != ',') by {
            assert(s.contains(s[n - 1]));
        }
        assert(s.take(n - 1).push(s[n - 1]) =~= s.take(n));
    } else {
        assert(s.take(0) =~= Seq::<char>::empty());
    }
}

// ---------------------------------------------------------------------------
// Terminal output
// ---------------------------------------------------------------------------

/// Where the control sequence ends that holds position `i`: behind its final
/// character.
pub open spec fn sequence_end(s: Seq<char>, i: int) -> int
    decreases s.len() - i,
{
    if i >= s.len() {
        s.len() as int
    } else if '@' <= s[i] <= '~' {
        i + 1
    } else {
        sequence_end(s, i + 1)
    }
}

proof fn sequence_end_bounds(s: Seq<char>, i: int)
    ensures
        sequence_end(s, i) <= s.len(),
        i <= s.len() ==> i <= sequence_end(s, i),
    decreases s.len() - i,
{
    if i < s.len() && !('@' <= s[i] <= '~') {
        sequence_end_bounds(s, i + 1);
    }
}

/// The text from `i` on without its escape sequences.
pub open spec fn unescaped(s: Seq<char>, i: int) -> Seq<char>
    decreases s.len() - i + 1,
    via unescaped_decreases
{
    if i < 0 || i >= s.len() {
        Seq::empty()
    } else if s[i] != '\u{1b}' {
        seq![s[i]] + unescaped(s, i + 1)
    } else if i + 1 < s.len() && s[i + 1] == '[' {
        unescaped(s, sequence_end(s, i + 2))
    } else {
        unescaped(s, i + 2)
    }
}

#[via_fn]
proof fn unescaped_decreases(s: Seq<char>, i: int) {
    sequence_end_bounds(s, i + 2);
}

/// Strip the escape sequences (colours and the like) from a line of output.
pub fn strip_ansi(input: &str) -> (r: String)
    ensures
        r@ == unescaped(input@, 0),
{
    let s: Vec<char> = text::chars_of(input);
    let mut out: String = String::new();
    let mut i: usize = 0;
    assert(out@ + unescaped(s@, 0) =~= unescaped(s@, 0));
    while i < s.len()
        invariant
            i <= s.len(),
            s@ == input@,
            out@ + unescaped(s@, i as int) == unescaped(s@, 0),
        decreases s.len() - i,
    {
        let c: char = s[i];
        if c != '\u{1b}' {
            let ghost before = out@;
            let ghost rest = unescaped(s@, i + 1);
            out.push(c);
            assert(before + (seq![c] + rest) =~= out@ + rest);
            i = i + 1;
        } else if i + 1 < s.len() && s[i + 1] == '[' {
            let mut j: usize = i + 2;
            while j < s.len() && !('@' <= s[j] && s[j] <= '~')
                invariant
                    i < j <= s.len(),
                    sequence_end(s@, i + 2) == sequence_end(s@, j as int),
                decreases s.len() - j,
            {
                j = j + 1;
            }
            i = if j < s.len() {
                j + 1
            } else {
                j
            };
        } else if i + 1 < s.len() {
            i = i + 2;
        } else {
            assert(unescaped(s@, i + 2) =~= Seq::<char>::empty());
            i = i + 1;
        }
    }
    assert(out@ + Seq::<char>::empty() =~= out@);
    out
}

/// A line without escape characters is kept as it is.
pub proof fn plain_line_is_kept(s: Seq<char>, i: int)
    requires
        !s.contains('\u{1b}'),
        0 <= i <= s.len(),
    ensures
        unescaped(s, i) == s.skip(i),
    decreases s.len() - i,
{
    if i < s.len() {
        assert(s[i] != '\u{1b}') by {
            assert(s.contains(s[i]));
        }
        plain_line_is_kept(s, i + 1);
        assert(seq![s[i]] + s.skip(i + 1) =~= s.skip(i));
    } else {
        assert(s.skip(i) =~= Seq::<char>::empty());
    }
}

/// Nothing that is left of a line is an escape character, and stripping a
/// stripped line changes nothing.
pub proof fn stripping_is_thorough(s: Seq<char>, i: int)
    requires
        0 <= i,
    ensures
        !unescaped(s, i).contains('\u{1b}'),
        unescaped(unescaped(s, i), 0) == unescaped(s, i),
    decreases s.len() - i + 1,
{
    let u = unescaped(s, i);
    if i < s.len() {
        if s[i] != '\u{1b}' {
            stripping_is_thorough(s, i + 1);
            let rest = unescaped(s, i + 1);
            assert(u =~= seq![s[i]] + rest);
            if u.contains('\u{1b}') {
                let k = choose|k: int| 0 <= k < u.len() && u[k] == '\u{1b}';
                if k > 0 {
                    assert(rest[k - 1] == '\u{1b}');
                }
            }
        } else if i + 1 < s.len() && s[i + 1] == '[' {
            sequence_end_bounds(s, i + 2);
            stripping_is_thorough(s, sequence_end(s, i + 2));
        } else {
            stripping_is_thorough(s, i + 2);
        }
    }
    plain_line_is_kept(u, 0);
    assert(u.skip(0) =~= u);
}

// ---------------------------------------------------------------------------
// What is stripped
// ---------------------------------------------------------------------------

/// Whether a text ends neither in a colon nor in a slash behind one, so that what
/// follows it is not taken for an address.
pub open spec fn ends_no_address(x: Seq<char>) -> bool {
    x.len() > 0 ==> x.last() != ':' && !(x.last() == '/' && x.len() > 1 && x[x.len() - 2] == ':')
}

proof fn line_end_moves(x: Seq<char>, y: Seq<char>, i: int)
    requires
        0 <= i,
    ensures
        line_end(x + y, x.len() + i) == x.len() + line_end(y, i),
    decreases y.len() - i,
{
    if i < y.len() {
        assert((x + y)[x.len() + i] == y[i]);
        line_end_moves(x, y, i + 1);
    }
}

proof fn comment_end_moves(x: Seq<char>, y: Seq<char>, i: int)
    requires
        0 <= i,
    ensures
        comment_end(x + y, x.len() + i) == x.len() + comment_end(y, i),
    decreases y.len() - i,
{
    if i < y.len() {
        assert((x + y)[x.len() + i] == y[i]);
        if i + 1 < y.len() {
            assert((x + y)[x.len() + i + 1] == y[i + 1]);
        }
        comment_end_moves(x, y, i + 1);
    }
}

proof fn uncommented_moves(x: Seq<char>, y: Seq<char>, i: int, quoted: bool, escaped: bool)
    requires
        0 <= i,
        ends_no_address(x),
    ensures
        uncommented(x + y, x.len() + i, quoted, escaped) == uncommented(y, i, quoted, escaped),
    decreases y.len() - i,
{
    let s = x + y;
    let n = x.len() as int;
    if i < y.len() {
        assert(s[n + i] == y[i]);
        if i + 1 < y.len() {
            assert(s[n + i + 1] == y[i + 1]);
        }
        if i > 0 {
            assert(s[n + i - 1] == y[i - 1]);
        }
        if i > 1 {
            assert(s[n + i - 2] == y[i - 2]);
        }
        if n > 0 {
            assert(s[n - 1] == x.last());
        }
        if n > 1 {
            assert(s[n - 2] == x[n - 2]);
        }
        assert(in_address(s, n + i) == in_address(y, i));
        line_end_bounds(y, i + 1);
        comment_end_bounds(y, i + 2);
        line_end_moves(x, y, i + 1);
        comment_end_moves(x, y, i + 2);
        if quoted {
            uncommented_moves(x, y, i + 1, escaped || y[i] != '"', !escaped && y[i] == '\\');
        } else if y[i] == '"' {
            uncommented_moves(x, y, i + 1, true, false);
        } else if line_comment_at(y, i) {
            uncommented_moves(x, y, line_end(y, i + 1), false, false);
        } else if block_comment_at(y, i) {
            uncommented_moves(x, y, comment_end(y, i + 2), false, false);
        } else {
            uncommented_moves(x, y, i + 1, false, false);
        }
    }
}

proof fn plain_front_is_kept(s: Seq<char>, i: int, n: int)
    requires
        0 <= i <= n <= s.len(),
        forall|k: int| i <= k < n ==> #[trigger] s[k] != '/' && s[k] != '"',
    ensures
        uncommented(s, i, false, false) == s.subrange(i, n) + uncommented(s, n, false, false),
    decreases n - i,
{
    let rest = uncommented(s, n, false, false);
    if i < n {
        assert(s[i] != '/');
        plain_front_is_kept(s, i + 1, n);
        assert(seq![s[i]] + (s.subrange(i + 1, n) + rest) =~= s.subrange(i, n) + rest);
    } else {
        assert(s.subrange(i, n) + rest =~= rest);
    }
}

/// A comment behind two slashes is left out up to the end of its line; what stands
/// before and behind it stays.
pub proof fn line_comments_are_left_out(a: Seq<char>, comment: Seq<char>, b: Seq<char>)
    requires
        !a.contains('/'),
        !a.contains('"'),
        a.len() > 0 ==> a.last() != ':',
        !comment.contains('\n'),
    ensures
        uncommented(a + seq!['/', '/'] + comment + seq!['\n'] + b, 0, false, false) == a + seq![
            '\n',
        ] + uncommented(b, 0, false, false),
{
    let s = a + seq!['/', '/'] + comment + seq!['\n'] + b;
    let n = a.len() as int;
    let e = n + 2 + comment.len();
    assert forall|k: int| 0 <= k < n implies #[trigger] s[k] != '/' && s[k] != '"' by {
        assert(s[k] == a[k]);
        assert(a.contains(a[k]));
    }
    plain_front_is_kept(s, 0, n);
    assert(s.subrange(0, n) =~= a);
    assert(s[n] == '/' && s[n + 1] == '/');
    if n > 0 {
        assert(s[n - 1] == a.last());
        assert(a.contains(a[n - 1]));
    }
    assert(line_comment_at(s, n));
    assert(s[e] == '\n');
    assert forall|k: int| n + 1 <= k < e implies s[k] != '\n' by {
        if k > n + 1 {
            assert(s[k] == comment[k - n - 2]);
            assert(comment.contains(comment[k - n - 2]));
        }
    }
    line_ends_at(s, n + 1, e);
    let x = a + seq!['/', '/'] + comment + seq!['\n'];
    assert(x.last() == '\n');
    uncommented_moves(x, b, 0, false, false);
    assert(s =~= x + b);
    assert(uncommented(s, n, false, false) == uncommented(s, e, false, false));
    assert(uncommented(s, e, false, false) == seq!['\n'] + uncommented(s, e + 1, false, false));
    assert(a + (seq!['\n'] + uncommented(b, 0, false, false)) =~= a + seq!['\n'] + uncommented(
        b,
        0,
        false,
        false,
    ));
}

proof fn line_ends_at(s: Seq<char>, i: int, e: int)
    requires
        0 <= i <= e < s.len(),
        s[e] == '\n',
        forall|k: int| i <= k < e ==> s[k] != '\n',
    ensures
        line_end(s, i) == e,
    decreases e - i,
{
    if i < e {
        line_ends_at(s, i + 1, e);
    }
}

/// A comment between `/*` and `*/` is left out; what stands before and behind it
/// stays.
pub proof fn block_comments_are_left_out(a: Seq<char>, comment: Seq<char>, b: Seq<char>)
    requires
        !a.contains('/'),
        !a.contains('"'),
        !comment.contains('*'),
    ensures
        uncommented(a + seq!['/', '*'] + comment + seq!['*', '/'] + b, 0, false, false) == a
            + uncommented(b, 0, false, false),
{
    let s = a + seq!['/', '*'] + comment + seq!['*', '/'] + b;
    let n = a.len() as int;
    let e = n + 2 + comment.len();
    assert forall|k: int| 0 <= k < n implies #[trigger] s[k] != '/' && s[k] != '"' by {
        assert(s[k] == a[k]);
        assert(a.contains(a[k]));
    }
    plain_front_is_kept(s, 0, n);
    assert(s.subrange(0, n) =~= a);
    assert(s[n] == '/' && s[n + 1] == '*');
    assert(s[e] == '*' && s[e + 1] == '/');
    assert forall|k: int| n + 2 <= k < e implies s[k] != '*' by {
        assert(s[k] == comment[k - n - 2]);
        assert(comment.contains(comment[k - n - 2]));
    }
    comment_ends_at(s, n + 2, e);
    let x = a + seq!['/', '*'] + comment + seq!['*', '/'];
    assert(x.last() == '/' && x[x.len() - 2] == '*');
    uncommented_moves(x, b, 0, false, false);
    assert(s =~= x + b);
}

proof fn comment_ends_at(s: Seq<char>, i: int, e: int)
    requires
        0 <= i <= e,
        e + 1 < s.len(),
        s[e] == '*',
        s[e + 1] == '/',
        forall|k: int| i <= k < e ==> s[k] != '*',
    ensures
        comment_end(s, i) == e + 2,
    decreases e - i,
{
    if i < e {
        comment_ends_at(s, i + 1, e);
    }
}

/// Nothing in a string is a comment: the string is kept as it is, and stripping
/// goes on behind it.
pub proof fn strings_are_kept(a: Seq<char>, v: Seq<char>, b: Seq<char>)
    requires
        !a.contains('/'),
        !a.contains('"'),
        !v.contains('"'),
        !v.contains('\\'),
    ensures
        uncommented(a + seq!['"'] + v + seq!['"'] + b, 0, false, false) == a + seq!['"'] + v + seq![
            '"',
        ] + uncommented(b, 0, false, false),
{
    let s = a + seq!['"'] + v + seq!['"'] + b;
    let n = a.len() as int;
    let e = n + 1 + v.len();
    assert forall|k: int| 0 <= k < n implies #[trigger] s[k] != '/' && s[k] != '"' by {
        assert(s[k] == a[k]);
        assert(a.contains(a[k]));
    }
    plain_front_is_kept(s, 0, n);
    assert(s.subrange(0, n) =~= a);
    assert(s[n] == '"' && s[e] == '"');
    assert forall|k: int| n + 1 <= k < e implies s[k] != '"' && s[k] != '\\' by {
        assert(s[k] == v[k - n - 1]);
        assert(v.contains(v[k - n - 1]));
    }
    quoted_text_is_kept(s, n + 1, e);
    assert(s.subrange(n + 1, e) =~= v);
    let x = a + seq!['"'] + v + seq!['"'];
    assert(x.last() == '"');
    uncommented_moves(x, b, 0, false, false);
    assert(s =~= x + b);
    let rest = uncommented(b, 0, false, false);
    assert(a + (seq!['"'] + (v + (seq!['"'] + rest))) =~= a + seq!['"'] + v + seq!['"'] + rest);
}

proof fn quoted_text_is_kept(s: Seq<char>, i: int, e: int)
    requires
        0 <= i <= e < s.len(),
        s[e] == '"',
        forall|k: int| i <= k < e ==> s[k] != '"' && s[k] != '\\',
    ensures
        uncommented(s, i, true, false) == s.subrange(i, e) + (seq!['"'] + uncommented(
            s,
            e + 1,
            false,
            false,
        )),
    decreases e - i,
{
    let rest = seq!['"'] + uncommented(s, e + 1, false, false);
    if i < e {
        quoted_text_is_kept(s, i + 1, e);
        assert(seq![s[i]] + (s.subrange(i + 1, e) + rest) =~= s.subrange(i, e) + rest);
    } else {
        assert(s.subrange(i, e) + rest =~= rest);
    }
}

/// A comma before the end of an object or a list is left out, with any white space
/// between them; any other comma stays.
pub proof fn trailing_commas_are_left_out(a: Seq<char>, gap: Seq<char>, c: char, b: Seq<char>)
    requires
        !a.contains('"'),
        text::is_blank(gap),
        !text::is_space(c),
    ensures
        c == '}' || c == ']' ==> is_trailing_comma(
            a + seq![','] + gap + seq![c] + b,
            a.len() as int,
        ),
        c != '}' && c != ']' ==> !is_trailing_comma(
            a + seq![','] + gap + seq![c] + b,
            a.len() as int,
        ),
        without_commas(a + seq![','] + gap + seq![c] + b, a.len() + 1int) == (if c == '}' || c == ']' {
            without_commas(a + seq![','] + gap + seq![c] + b, a.len() as int)
        } else {
            without_commas(a + seq![','] + gap + seq![c] + b, a.len() as int).push(',')
        }),
{
    let s = a + seq![','] + gap + seq![c] + b;
    let n = a.len() as int;
    assert(s[n] == ',');
    assert forall|k: int| 0 <= k < n implies s[k] != '"' by {
        assert(s[k] == a[k]);
        assert(a.contains(a[k]));
    }
    nothing_is_quoted(s, n);
    assert(s =~= (a + seq![',']) + gap + (seq![c] + b));
    text::space_is_skipped(a + seq![','], gap, seq![c] + b);
    assert(s[n + 1 + gap.len()] == c);
}

proof fn nothing_is_quoted(s: Seq<char>, n: int)
    requires
        0 <= n <= s.len(),
        forall|k: int| 0 <= k < n ==> s[k] != '"',
    ensures
        quoting(s, n) == (false, false),
    decreases n,
{
    if n > 0 {
        nothing_is_quoted(s, n - 1);
    }
}

/// A comma in a string stays, whatever follows it.
pub proof fn commas_in_strings_stay(a: Seq<char>, v: Seq<char>, b: Seq<char>)
    requires
        !a.contains('"'),
        !v.contains('"'),
        !v.contains('\\'),
    ensures
        without_commas(a + seq!['"'] + v + seq![','] + b, a.len() + v.len() + 2int)
            == without_commas(
            a + seq!['"'] + v + seq![','] + b,
            (a.len() + v.len() + 1) as int,
        ).push(','),
{
    let s = a + seq!['"'] + v + seq![','] + b;
    let n = a.len() as int;
    assert forall|k: int| 0 <= k < n implies s[k] != '"' by {
        assert(s[k] == a[k]);
        assert(a.contains(a[k]));
    }
    nothing_is_quoted(s, n);
    assert(s[n] == '"');
    assert(quoting(s, n + 1) == (true, false));
    assert forall|k: int| n + 1 <= k < n + 1 + v.len() implies s[k] != '"' && s[k] != '\\' by {
        assert(s[k] == v[k - n - 1]);
        assert(v.contains(v[k - n - 1]));
    }
    string_stays_open(s, n + 1, n + 1 + v.len());
    assert(s[n + 1 + v.len()] == ',');
}

proof fn string_stays_open(s: Seq<char>, from: int, n: int)
    requires
        0 <= from <= n <= s.len(),
        quoting(s, from) == (true, false),
        forall|k: int| from <= k < n ==> s[k] != '"' && s[k] != '\\',
    ensures
        quoting(s, n) == (true, false),
    decreases n - from,
{
    if from < n {
        string_stays_open(s, from, n - 1);
    }
}

proof fn sequence_end_moves(x: Seq<char>, y: Seq<char>, i: int)
    requires
        0 <= i,
    ensures
        sequence_end(x + y, x.len() + i) == x.len() + sequence_end(y, i),
    decreases y.len() - i,
{
    if i < y.len() {
        assert((x + y)[x.len() + i] == y[i]);
        sequence_end_moves(x, y, i + 1);
    }
}

proof fn unescaped_moves(x: Seq<char>, y: Seq<char>, i: int)
    requires
        0 <= i,
    ensures
        unescaped(x + y, x.len() + i) == unescaped(y, i),
    decreases y.len() - i + 1,
{
    if i < y.len() {
        assert((x + y)[x.len() + i] == y[i]);
        if i + 1 < y.len() {
            assert((x + y)[x.len() + i + 1] == y[i + 1]);
        }
        sequence_end_bounds(y, i + 2);
        sequence_end_moves(x, y, i + 2);
        unescaped_moves(x, y, i + 1);
        unescaped_moves(x, y, i + 2);
        if i + 2 <= y.len() {
            unescaped_moves(x, y, sequence_end(y, i + 2));
        }
    }
}

proof fn front_stays(s: Seq<char>, i: int, n: int)
    requires
        0 <= i <= n <= s.len(),
        forall|k: int| i <= k < n ==> s[k] != '\u{1b}',
    ensures
        unescaped(s, i) == s.subrange(i, n) + unescaped(s, n),
    decreases n - i,
{
    if i < n {
        front_stays(s, i + 1, n);
        assert(seq![s[i]] + (s.subrange(i + 1, n) + unescaped(s, n)) =~= s.subrange(i, n)
            + unescaped(s, n));
    } else {
        assert(s.subrange(i, n) + unescaped(s, n) =~= unescaped(s, n));
    }
}

/// A colour sequence is left out, from its escape character up to the letter that
/// ends it; what stands before and behind it stays.
pub proof fn colours_are_left_out(a: Seq<char>, numbers: Seq<char>, letter: char, b: Seq<char>)
    requires
        !a.contains('\u{1b}'),
        forall|i: int|
            0 <= i < numbers.len() ==> '0' <= #[trigger] numbers[i] <= '9' || numbers[i] == ';',
        'a' <= letter <= 'z' || 'A' <= letter <= 'Z',
    ensures
        unescaped(a + seq!['\u{1b}', '['] + numbers + seq![letter] + b, 0) == a + unescaped(b, 0),
{
    let s = a + seq!['\u{1b}', '['] + numbers + seq![letter] + b;
    let n = a.len() as int;
    let e = n + 2 + numbers.len();
    assert forall|k: int| 0 <= k < n implies s[k] != '\u{1b}' by {
        assert(s[k] == a[k]);
        assert(a.contains(a[k]));
    }
    front_stays(s, 0, n);
    assert(s.subrange(0, n) =~= a);
    assert(s[n] == '\u{1b}' && s[n + 1] == '[');
    assert(s[e] == letter);
    assert forall|k: int| n + 2 <= k < e implies #[trigger] s[k] < '@' || s[k] > '~' by {
        assert(s[k] == numbers[k - n - 2]);
    }
    sequence_ends_at(s, n + 2, e);
    let x = a + seq!['\u{1b}', '['] + numbers + seq![letter];
    assert(s =~= x + b);
    unescaped_moves(x, b, 0);
}

proof fn sequence_ends_at(s: Seq<char>, i: int, e: int)
    requires
        0 <= i <= e < s.len(),
        '@' <= s[e] <= '~',
        forall|k: int| i <= k < e ==> #[trigger] s[k] < '@' || s[k] > '~',
    ensures
        sequence_end(s, i) == e + 1,
    decreases e - i,
{
    if i < e {
        sequence_ends_at(s, i + 1, e);
    }
}

} // verus!
