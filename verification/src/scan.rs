//! Scanning TypeScript text: quoted strings, balanced blocks and pieces
//! between separators that stand outside both.

use crate::text;
use vstd::prelude::*;

verus! {

/// A character that starts and ends a quoted string.
pub open spec fn is_quote(c: char) -> bool {
    c == '\'' || c == '"' || c == '`'
}

pub fn quote(c: char) -> (r: bool)
    ensures
        r == is_quote(c),
{
    c == '\'' || c == '"' || c == '`'
}

/// Where the string with the quote `q` closes that holds position `i`: the
/// first `q` from there on that no backslash escapes, or the end of the text.
pub open spec fn quote_close(s: Seq<char>, i: int, q: char) -> int
    decreases s.len() - i + 1,
{
    if i >= s.len() {
        s.len() as int
    } else if s[i] == q {
        i
    } else if s[i] == '\\' {
        quote_close(s, i + 2, q)
    } else {
        quote_close(s, i + 1, q)
    }
}

pub proof fn quote_close_bounds(s: Seq<char>, i: int, q: char)
    requires
        0 <= i,
    ensures
        quote_close(s, i, q) <= s.len(),
        i <= s.len() ==> i <= quote_close(s, i, q),
        quote_close(s, i, q) < s.len() ==> s[quote_close(s, i, q)] == q,
    decreases s.len() - i + 1,
{
    if i < s.len() && s[i] != q {
        if s[i] == '\\' {
            quote_close_bounds(s, i + 2, q);
        } else {
            quote_close_bounds(s, i + 1, q);
        }
    }
}

pub fn find_quote_close(s: &[char], from: usize, q: char) -> (r: usize)
    requires
        from <= s@.len(),
    ensures
        r == quote_close(s@, from as int, q),
        from <= r <= s@.len(),
{
    let mut i: usize = from;
    while i < s.len() && s[i] != q
        invariant
            from <= i <= s.len(),
            quote_close(s@, from as int, q) == quote_close(s@, i as int, q),
        decreases s.len() - i + 1,
    {
        if s[i] == '\\' {
            if s.len() - i > 2 {
                i = i + 2;
            } else {
                assert(quote_close(s@, i + 2, q) == s@.len());
                i = s.len();
            }
        } else {
            i = i + 1;
        }
    }
    i
}

/// Where the block closes that is `depth` levels deep at `i`: strings are
/// passed over as a whole.
pub open spec fn block_close(s: Seq<char>, i: int, depth: int, open: char, close: char) -> Option<
    int,
>
    decreases s.len() - i + 1,
    via block_close_decreases
{
    if i < 0 || i >= s.len() {
        None
    } else if is_quote(s[i]) {
        block_close(s, quote_close(s, i + 1, s[i]) + 1, depth, open, close)
    } else if s[i] == open {
        block_close(s, i + 1, depth + 1, open, close)
    } else if s[i] == close {
        if depth <= 1 {
            Some(i)
        } else {
            block_close(s, i + 1, depth - 1, open, close)
        }
    } else {
        block_close(s, i + 1, depth, open, close)
    }
}

#[via_fn]
proof fn block_close_decreases(s: Seq<char>, i: int, depth: int, open: char, close: char) {
    if 0 <= i < s.len() && is_quote(s[i]) {
        quote_close_bounds(s, i + 1, s[i]);
    }
}

pub proof fn block_close_bounds(s: Seq<char>, i: int, depth: int, open: char, close: char)
    requires
        0 <= i,
    ensures
        block_close(s, i, depth, open, close) matches Some(e) ==> i <= e < s.len() && s[e] == close,
    decreases s.len() - i + 1,
{
    if i < s.len() {
        if is_quote(s[i]) {
            quote_close_bounds(s, i + 1, s[i]);
            block_close_bounds(s, quote_close(s, i + 1, s[i]) + 1, depth, open, close);
        } else if s[i] == open {
            block_close_bounds(s, i + 1, depth + 1, open, close);
        } else if s[i] == close {
            if depth > 1 {
                block_close_bounds(s, i + 1, depth - 1, open, close);
            }
        } else {
            block_close_bounds(s, i + 1, depth, open, close);
        }
    }
}

/// The end of the block that opens at `at`.
pub open spec fn block_end(s: Seq<char>, at: int, open: char, close: char) -> Option<int> {
    if 0 <= at < s.len() && s[at] == open {
        block_close(s, at, 0, open, close)
    } else {
        None
    }
}

/// The block that opens at `at`: what stands between its brackets, and where
/// it closes.
pub open spec fn block_at(s: Seq<char>, at: int, open: char, close: char) -> Option<
    (Seq<char>, int),
> {
    match block_end(s, at, open, close) {
        Some(e) => Some((s.subrange(at + 1, e), e)),
        None => None,
    }
}

pub fn find_block_end(s: &[char], at: usize, open: char, close: char) -> (r: Option<usize>)
    requires
        !is_quote(open),
    ensures
        text::position(r) == block_end(s@, at as int, open, close),
        r matches Some(e) ==> at < e < s@.len(),
        open == close ==> r is None,
{
    if at >= s.len() || s[at] != open {
        return None;
    }
    let mut depth: usize = 0;
    let mut i: usize = at;
    proof {
        block_close_bounds(s@, at as int, 0, open, close);
    }
    while i < s.len()
        invariant
            at <= i <= s.len(),
            at < s.len(),
            s@[at as int] == open,
            !is_quote(open),
            depth <= i - at,
            i == at ==> depth == 0,
            block_end(s@, at as int, open, close) == block_close(
                s@,
                i as int,
                depth as int,
                open,
                close,
            ),
        decreases s.len() - i + 1,
    {
        let c: char = s[i];
        if quote(c) {
            let end: usize = find_quote_close(s, i + 1, c);
            if end == s.len() {
                assert(block_close(s@, end + 1, depth as int, open, close) is None);
                return None;
            }
            i = end;
        } else if c == open {
            depth = depth + 1;
        } else if c == close {
            if depth <= 1 {
                return Some(i);
            }
            depth = depth - 1;
        }
        i = i + 1;
    }
    None
}

/// The block that opens at `at`: what stands between its brackets, and where
/// it closes. Quoted strings are passed over, so that brackets inside them do
/// not count.
pub fn balanced_block(s: &[char], at: usize, open: char, close: char) -> (r: Option<
    (String, usize),
>)
    requires
        !is_quote(open),
    ensures
        open == close ==> r is None,
        match r {
            Some((inner, end)) => block_at(s@, at as int, open, close) == Some(
                (inner@, end as int),
            ) && at < end < s@.len(),
            None => block_at(s@, at as int, open, close) is None,
        },
{
    match find_block_end(s, at, open, close) {
        Some(end) => Some(
            (text::text_of(vstd::slice::slice_subrange(s, at + 1, end)), end),
        ),
        None => None,
    }
}

/// What a text is cut at: the ends of the members of an interface, or the bars
/// of a union.
#[derive(Clone, Copy)]
pub enum Cut {
    Members,
    Union,
}

pub open spec fn opens(cut: Cut, c: char) -> bool {
    c == '(' || c == '{' || c == '[' || (cut is Union && c == '<')
}

pub open spec fn closes(cut: Cut, c: char) -> bool {
    c == ')' || c == '}' || c == ']' || (cut is Union && c == '>')
}

pub open spec fn separates(cut: Cut, c: char) -> bool {
    match cut {
        Cut::Members => c == ';' || c == '\n',
        Cut::Union => c == '|',
    }
}

/// The pieces of `s` from `start` on, read from `i` on at bracket depth
/// `depth`, inside the string with the quote `q` if there is one: separators
/// count only outside strings and at depth zero.
pub open spec fn pieces_from(
    s: Seq<char>,
    start: int,
    i: int,
    depth: int,
    q: Option<char>,
    cut: Cut,
) -> Seq<Seq<char>>
    decreases s.len() - i + 1,
{
    if i >= s.len() {
        seq![s.subrange(start, s.len() as int)]
    } else if q is Some {
        if s[i] == '\\' {
            pieces_from(s, start, i + 2, depth, q, cut)
        } else if s[i] == q->0 {
            pieces_from(s, start, i + 1, depth, None, cut)
        } else {
            pieces_from(s, start, i + 1, depth, q, cut)
        }
    } else if is_quote(s[i]) {
        pieces_from(s, start, i + 1, depth, Some(s[i]), cut)
    } else if opens(cut, s[i]) {
        pieces_from(s, start, i + 1, depth + 1, None, cut)
    } else if closes(cut, s[i]) {
        pieces_from(s, start, i + 1, depth - 1, None, cut)
    } else if separates(cut, s[i]) && depth == 0 {
        seq![s.subrange(start, i)] + pieces_from(s, i + 1, i + 1, depth, None, cut)
    } else {
        pieces_from(s, start, i + 1, depth, None, cut)
    }
}

/// The pieces that `s` is cut into.
pub open spec fn pieces(s: Seq<char>, cut: Cut) -> Seq<Seq<char>> {
    pieces_from(s, 0, 0, 0, None, cut)
}

/// No piece is longer than the text, and one that is as long is the text.
pub proof fn pieces_fit(
    s: Seq<char>,
    start: int,
    i: int,
    depth: int,
    q: Option<char>,
    cut: Cut,
)
    requires
        0 <= start <= s.len(),
        start <= i,
    ensures
        forall|k: int|
            0 <= k < pieces_from(s, start, i, depth, q, cut).len() ==> (#[trigger] pieces_from(
                s,
                start,
                i,
                depth,
                q,
                cut,
            )[k]).len() <= s.len(),
        forall|k: int|
            0 <= k < pieces_from(s, start, i, depth, q, cut).len() ==> ((#[trigger] pieces_from(
                s,
                start,
                i,
                depth,
                q,
                cut,
            )[k]).len() == s.len() ==> pieces_from(s, start, i, depth, q, cut)[k] == s),
        pieces_from(s, start, i, depth, q, cut).len() > 0,
    decreases s.len() - i + 1,
{
    if i >= s.len() {
        if s.subrange(start, s.len() as int).len() == s.len() {
            assert(s.subrange(start, s.len() as int) =~= s);
        }
    } else if q is Some {
        if s[i] == '\\' {
            pieces_fit(s, start, i + 2, depth, q, cut);
        } else if s[i] == q->0 {
            pieces_fit(s, start, i + 1, depth, None, cut);
        } else {
            pieces_fit(s, start, i + 1, depth, q, cut);
        }
    } else if is_quote(s[i]) {
        pieces_fit(s, start, i + 1, depth, Some(s[i]), cut);
    } else if opens(cut, s[i]) {
        pieces_fit(s, start, i + 1, depth + 1, None, cut);
    } else if closes(cut, s[i]) {
        pieces_fit(s, start, i + 1, depth - 1, None, cut);
    } else if separates(cut, s[i]) && depth == 0 {
        pieces_fit(s, i + 1, i + 1, depth, None, cut);
        let rest = pieces_from(s, i + 1, i + 1, depth, None, cut);
        let all = pieces_from(s, start, i, depth, q, cut);
        assert forall|k: int| 0 <= k < all.len() implies (#[trigger] all[k]).len() <= s.len() && (
        all[k].len() == s.len() ==> all[k] == s) by {
            if k > 0 {
                assert(all[k] == rest[k - 1]);
            }
        }
    } else {
        pieces_fit(s, start, i + 1, depth, None, cut);
    }
}

fn opening(cut: Cut, c: char) -> (r: bool)
    ensures
        r == opens(cut, c),
{
    c == '(' || c == '{' || c == '[' || (c == '<' && matches!(cut, Cut::Union))
}

fn closing(cut: Cut, c: char) -> (r: bool)
    ensures
        r == closes(cut, c),
{
    c == ')' || c == '}' || c == ']' || (c == '>' && matches!(cut, Cut::Union))
}

fn separating(cut: Cut, c: char) -> (r: bool)
    ensures
        r == separates(cut, c),
{
    match cut {
        Cut::Members => c == ';' || c == '\n',
        Cut::Union => c == '|',
    }
}

/// The pieces that a text is cut into.
pub fn cut_pieces(s: &[char], cut: Cut) -> (r: Vec<String>)
    ensures
        text::texts(r@) == pieces(s@, cut),
{
    let mut out: Vec<String> = Vec::new();
    let mut start: usize = 0;
    let mut i: usize = 0;
    let mut depth: i128 = 0;
    let mut q: Option<char> = None;
    assert(text::texts(out@) + pieces(s@, cut) =~= pieces(s@, cut));
    while i < s.len()
        invariant
            start <= i <= s.len(),
            -(i as int) <= depth <= i,
            text::texts(out@) + pieces_from(s@, start as int, i as int, depth as int, q, cut)
                == pieces(s@, cut),
        decreases s.len() - i + 1,
    {
        let c: char = s[i];
        match q {
            Some(quoting) => {
                if c == '\\' {
                    if s.len() - i > 2 {
                        i = i + 2;
                    } else {
                        assert(pieces_from(s@, start as int, i + 2, depth as int, q, cut)
                            == seq![s@.subrange(start as int, s@.len() as int)]);
                        i = s.len();
                    }
                } else {
                    if c == quoting {
                        q = None;
                    }
                    i = i + 1;
                }
            },
            None => {
                if quote(c) {
                    q = Some(c);
                } else if opening(cut, c) {
                    depth = depth + 1;
                } else if closing(cut, c) {
                    depth = depth - 1;
                } else if separating(cut, c) && depth == 0 {
                    let ghost before = out@;
                    let ghost rest = pieces_from(s@, i + 1, i + 1, 0, None, cut);
                    out.push(text::text_of(vstd::slice::slice_subrange(s, start, i)));
                    proof {
                        let piece = s@.subrange(start as int, i as int);
                        assert(text::texts(out@) =~= text::texts(before).push(piece));
                        assert(text::texts(before) + (seq![piece] + rest) =~= text::texts(out@)
                            + rest);
                    }
                    start = i + 1;
                }
                i = i + 1;
            },
        }
    }
    let ghost before = out@;
    out.push(text::text_of(text::tail(s, start)));
    proof {
        let piece = s@.subrange(start as int, s@.len() as int);
        assert(s@.skip(start as int) =~= piece);
        assert(text::texts(out@) =~= text::texts(before) + seq![piece]);
    }
    out
}

// ---------------------------------------------------------------------------
// Laws
// ---------------------------------------------------------------------------

/// Whether a text holds no quote and neither of the two brackets.
pub open spec fn is_free(x: Seq<char>, open: char, close: char) -> bool {
    forall|i: int|
        0 <= i < x.len() ==> #[trigger] x[i] != '\'' && x[i] != '"' && x[i] != '`' && x[i] != open
            && x[i] != close
}

/// Whether a string in the quotes `q` can hold the text as it is: it holds
/// neither the quote nor a backslash.
pub open spec fn fits_in_quotes(v: Seq<char>, q: char) -> bool {
    forall|i: int| 0 <= i < v.len() ==> #[trigger] v[i] != q && v[i] != '\\'
}

proof fn block_passes(s: Seq<char>, i: int, j: int, depth: int, open: char, close: char)
    requires
        0 <= i <= j <= s.len(),
        forall|k: int| i <= k < j ==> !is_quote(#[trigger] s[k]) && s[k] != open && s[k] != close,
    ensures
        block_close(s, i, depth, open, close) == block_close(s, j, depth, open, close),
    decreases j - i,
{
    if i < j {
        assert(!is_quote(s[i]));
        block_passes(s, i + 1, j, depth, open, close);
    }
}

/// A string closes at the first quote of its kind that no backslash stands
/// before.
pub proof fn string_closes_at_its_quote(s: Seq<char>, i: int, j: int, q: char)
    requires
        0 <= i <= j < s.len(),
        s[j] == q,
        forall|k: int| i <= k < j ==> #[trigger] s[k] != q && s[k] != '\\',
    ensures
        quote_close(s, i, q) == j,
    decreases j - i,
{
    if i < j {
        assert(s[i] != q && s[i] != '\\');
        string_closes_at_its_quote(s, i + 1, j, q);
    }
}

/// A backslash in a string takes the character behind it with it.
pub proof fn escapes_are_passed(s: Seq<char>, i: int, q: char)
    requires
        0 <= i < s.len(),
        s[i] == '\\',
        q != '\\',
    ensures
        quote_close(s, i, q) == quote_close(s, i + 2, q),
{
}

/// What stands between two brackets, and holds neither of them nor a quote, is
/// the block.
pub proof fn plain_block_is_found(
    a: Seq<char>,
    open: char,
    x: Seq<char>,
    close: char,
    b: Seq<char>,
)
    requires
        open != close,
        !is_quote(open),
        !is_quote(close),
        is_free(x, open, close),
    ensures
        block_at(a + seq![open] + x + seq![close] + b, a.len() as int, open, close) == Some(
            (x, a.len() + 1int + x.len()),
        ),
{
    let s = a + seq![open] + x + seq![close] + b;
    let n = a.len() as int;
    let e = n + 1 + x.len();
    assert(s[n] == open);
    assert(s[e] == close);
    assert forall|k: int| n + 1 <= k < e implies !is_quote(#[trigger] s[k]) && s[k] != open && s[k]
        != close by {
        assert(s[k] == x[k - n - 1]);
    }
    block_passes(s, n + 1, e, 1, open, close);
    assert(s.subrange(n + 1, e) =~= x);
}

/// Brackets inside a string neither open nor close the block that the string
/// stands in.
pub proof fn block_passes_over_strings(
    a: Seq<char>,
    open: char,
    x: Seq<char>,
    q: char,
    v: Seq<char>,
    y: Seq<char>,
    close: char,
    b: Seq<char>,
)
    requires
        open != close,
        !is_quote(open),
        !is_quote(close),
        is_free(x, open, close),
        is_free(y, open, close),
        q == '\'' || q == '"' || q == '`',
        fits_in_quotes(v, q),
    ensures
        block_at(
            a + seq![open] + x + seq![q] + v + seq![q] + y + seq![close] + b,
            a.len() as int,
            open,
            close,
        ) == Some(
            (x + seq![q] + v + seq![q] + y, a.len() + 3int + x.len() + v.len() + y.len()),
        ),
{
    let s = a + seq![open] + x + seq![q] + v + seq![q] + y + seq![close] + b;
    let n = a.len() as int;
    let i = n + 1 + x.len();
    let j = i + 1 + v.len();
    let e = j + 1 + y.len();
    assert(s[n] == open);
    assert(s[i] == q);
    assert(s[j] == q);
    assert(s[e] == close);
    assert forall|k: int| n + 1 <= k < i implies !is_quote(#[trigger] s[k]) && s[k] != open && s[k]
        != close by {
        assert(s[k] == x[k - n - 1]);
    }
    block_passes(s, n + 1, i, 1, open, close);
    assert forall|k: int| i + 1 <= k < j implies #[trigger] s[k] != q && s[k] != '\\' by {
        assert(s[k] == v[k - i - 1]);
    }
    string_closes_at_its_quote(s, i + 1, j, q);
    assert forall|k: int| j + 1 <= k < e implies !is_quote(#[trigger] s[k]) && s[k] != open && s[k]
        != close by {
        assert(s[k] == y[k - j - 1]);
    }
    block_passes(s, j + 1, e, 1, open, close);
    assert(s.subrange(n + 1, e) =~= x + seq![q] + v + seq![q] + y);
}

/// A block inside a block belongs to it: the outer one closes behind it.
pub proof fn block_holds_blocks(
    a: Seq<char>,
    open: char,
    x: Seq<char>,
    y: Seq<char>,
    z: Seq<char>,
    close: char,
    b: Seq<char>,
)
    requires
        open != close,
        !is_quote(open),
        !is_quote(close),
        is_free(x, open, close),
        is_free(y, open, close),
        is_free(z, open, close),
    ensures
        block_at(
            a + seq![open] + x + seq![open] + y + seq![close] + z + seq![close] + b,
            a.len() as int,
            open,
            close,
        ) == Some(
            (x + seq![open] + y + seq![close] + z, a.len() + 3int + x.len() + y.len() + z.len()),
        ),
{
    let s = a + seq![open] + x + seq![open] + y + seq![close] + z + seq![close] + b;
    let n = a.len() as int;
    let i = n + 1 + x.len();
    let j = i + 1 + y.len();
    let e = j + 1 + z.len();
    assert(s[n] == open);
    assert(s[i] == open);
    assert(s[j] == close);
    assert(s[e] == close);
    assert forall|k: int| n + 1 <= k < i implies !is_quote(#[trigger] s[k]) && s[k] != open && s[k]
        != close by {
        assert(s[k] == x[k - n - 1]);
    }
    block_passes(s, n + 1, i, 1, open, close);
    assert forall|k: int| i + 1 <= k < j implies !is_quote(#[trigger] s[k]) && s[k] != open && s[k]
        != close by {
        assert(s[k] == y[k - i - 1]);
    }
    block_passes(s, i + 1, j, 2, open, close);
    assert forall|k: int| j + 1 <= k < e implies !is_quote(#[trigger] s[k]) && s[k] != open && s[k]
        != close by {
        assert(s[k] == z[k - j - 1]);
    }
    block_passes(s, j + 1, e, 1, open, close);
    assert(s.subrange(n + 1, e) =~= x + seq![open] + y + seq![close] + z);
}

/// A block that is opened and never closed is none.
pub proof fn unclosed_block_is_none(a: Seq<char>, open: char, x: Seq<char>, close: char)
    requires
        open != close,
        !is_quote(open),
        is_free(x, open, close),
    ensures
        block_at(a + seq![open] + x, a.len() as int, open, close) is None,
{
    let s = a + seq![open] + x;
    let n = a.len() as int;
    assert(s[n] == open);
    assert forall|k: int| n + 1 <= k < s.len() implies !is_quote(#[trigger] s[k]) && s[k] != open
        && s[k] != close by {
        assert(s[k] == x[k - n - 1]);
    }
    block_passes(s, n + 1, s.len() as int, 1, open, close);
}

/// Whether a text holds nothing that matters to cutting: no quote, no bracket and
/// no separator. For unions angle brackets count, too.
pub open spec fn is_uncut(x: Seq<char>, cut: Cut) -> bool {
    forall|i: int|
        0 <= i < x.len() ==> {
            let c = #[trigger] x[i];
            &&& c != '\'' && c != '"' && c != '`'
            &&& c != '(' && c != ')' && c != '{' && c != '}' && c != '[' && c != ']'
            &&& match cut {
                Cut::Members => c != ';' && c != '\n',
                Cut::Union => c != '|' && c != '<' && c != '>',
            }
        }
}

proof fn cut_passes(
    s: Seq<char>,
    start: int,
    i: int,
    j: int,
    depth: int,
    cut: Cut,
)
    requires
        0 <= i <= j <= s.len(),
        is_uncut(s.subrange(i, j), cut),
    ensures
        pieces_from(s, start, i, depth, None, cut) == pieces_from(s, start, j, depth, None, cut),
    decreases j - i,
{
    if i < j {
        let x = s.subrange(i, j);
        assert(x[0] == s[i]);
        assert(is_uncut(s.subrange(i + 1, j), cut)) by {
            let y = s.subrange(i + 1, j);
            assert forall|k: int| 0 <= k < y.len() implies {
                let c = #[trigger] y[k];
                &&& c != '\'' && c != '"' && c != '`'
                &&& c != '(' && c != ')' && c != '{' && c != '}' && c != '[' && c != ']'
                &&& match cut {
                    Cut::Members => c != ';' && c != '\n',
                    Cut::Union => c != '|' && c != '<' && c != '>',
                }
            } by {
                assert(x[k + 1] == y[k]);
            }
        }
        cut_passes(s, start, i + 1, j, depth, cut);
    }
}

proof fn pieces_move(
    a: Seq<char>,
    b: Seq<char>,
    start: int,
    i: int,
    depth: int,
    q: Option<char>,
    cut: Cut,
)
    requires
        0 <= start <= b.len(),
        start <= i,
    ensures
        pieces_from(a + b, a.len() + start, a.len() + i, depth, q, cut) == pieces_from(
            b,
            start,
            i,
            depth,
            q,
            cut,
        ),
    decreases b.len() - i + 1,
{
    let s = a + b;
    let n = a.len() as int;
    if i >= b.len() {
        assert(s.subrange(n + start, s.len() as int) =~= b.subrange(start, b.len() as int));
    } else {
        assert(s[n + i] == b[i]);
        if q is Some {
            pieces_move(a, b, start, i + 2, depth, q, cut);
            pieces_move(a, b, start, i + 1, depth, None, cut);
            pieces_move(a, b, start, i + 1, depth, q, cut);
        } else {
            pieces_move(a, b, start, i + 1, depth, Some(b[i]), cut);
            pieces_move(a, b, start, i + 1, depth + 1, None, cut);
            pieces_move(a, b, start, i + 1, depth - 1, None, cut);
            pieces_move(a, b, i + 1, i + 1, depth, None, cut);
            pieces_move(a, b, start, i + 1, depth, None, cut);
            assert(s.subrange(n + start, n + i) =~= b.subrange(start, i));
        }
    }
}

/// What stands before the first separator, and holds neither quotes nor brackets,
/// is the first piece; the pieces of what follows come behind it. The members of a
/// body are parted by semicolons and line breaks, the alternatives of a union by
/// bars.
pub proof fn separators_part_pieces(x: Seq<char>, c: char, b: Seq<char>, cut: Cut)
    requires
        is_uncut(x, cut),
        cut is Members ==> c == ';' || c == '\n',
        cut is Union ==> c == '|',
    ensures
        pieces(x + seq![c] + b, cut) == seq![x] + pieces(b, cut),
{
    let s = x + seq![c] + b;
    let n = x.len() as int;
    assert(s.subrange(0, n) =~= x);
    cut_passes(s, 0, 0, n, 0, cut);
    assert(s[n] == c);
    assert(s =~= (x + seq![c]) + b);
    pieces_move(x + seq![c], b, 0, 0, 0, None, cut);
}

/// A text without quotes, brackets and separators is one piece.
pub proof fn plain_text_is_one_piece(x: Seq<char>, cut: Cut)
    requires
        is_uncut(x, cut),
    ensures
        pieces(x, cut) == seq![x],
{
    assert(x.subrange(0, x.len() as int) =~= x);
    cut_passes(x, 0, 0, x.len() as int, 0, cut);
}

proof fn string_is_passed(
    s: Seq<char>,
    start: int,
    i: int,
    j: int,
    depth: int,
    q: char,
    cut: Cut,
)
    requires
        0 <= i <= j < s.len(),
        s[j] == q,
        forall|k: int| i <= k < j ==> #[trigger] s[k] != q && s[k] != '\\',
        q != '\\',
    ensures
        pieces_from(s, start, i, depth, Some(q), cut) == pieces_from(
            s,
            start,
            j + 1,
            depth,
            None,
            cut,
        ),
    decreases j - i,
{
    if i < j {
        assert(s[i] != q && s[i] != '\\');
        string_is_passed(s, start, i + 1, j, depth, q, cut);
    }
}

/// No separator inside a string parts it.
pub proof fn strings_are_not_parted(
    x: Seq<char>,
    q: char,
    v: Seq<char>,
    y: Seq<char>,
    cut: Cut,
)
    requires
        is_uncut(x, cut),
        is_uncut(y, cut),
        q == '\'' || q == '"' || q == '`',
        fits_in_quotes(v, q),
    ensures
        pieces(x + seq![q] + v + seq![q] + y, cut) == seq![x + seq![q] + v + seq![q] + y],
{
    let s = x + seq![q] + v + seq![q] + y;
    let i = x.len() as int;
    let j = i + 1 + v.len();
    assert(s.subrange(0, i) =~= x);
    cut_passes(s, 0, 0, i, 0, cut);
    assert(s[i] == q);
    assert(s[j] == q);
    assert forall|k: int| i + 1 <= k < j implies #[trigger] s[k] != q && s[k] != '\\' by {
        assert(s[k] == v[k - i - 1]);
    }
    string_is_passed(s, 0, i + 1, j, 0, q, cut);
    assert(s.subrange(j + 1, s.len() as int) =~= y);
    cut_passes(s, 0, j + 1, s.len() as int, 0, cut);
    assert(s.subrange(0, s.len() as int) =~= s);
}

proof fn depth_is_passed(s: Seq<char>, start: int, i: int, j: int, depth: int, cut: Cut)
    requires
        0 <= i <= j <= s.len(),
        depth > 0,
        forall|k: int|
            i <= k < j ==> !is_quote(#[trigger] s[k]) && !opens(cut, s[k]) && !closes(cut, s[k]),
    ensures
        pieces_from(s, start, i, depth, None, cut) == pieces_from(s, start, j, depth, None, cut),
    decreases j - i,
{
    if i < j {
        assert(!is_quote(s[i]));
        depth_is_passed(s, start, i + 1, j, depth, cut);
    }
}

/// No separator between brackets parts what they hold; in unions angle brackets
/// count as well.
pub proof fn brackets_are_not_parted(
    x: Seq<char>,
    open: char,
    v: Seq<char>,
    close: char,
    y: Seq<char>,
    cut: Cut,
)
    requires
        is_uncut(x, cut),
        is_uncut(y, cut),
        (open == '(' && close == ')') || (open == '{' && close == '}') || (open == '[' && close
            == ']') || (cut is Union && open == '<' && close == '>'),
        forall|i: int|
            0 <= i < v.len() ==> {
                let c = #[trigger] v[i];
                &&& c != '\'' && c != '"' && c != '`'
                &&& c != '(' && c != ')' && c != '{' && c != '}' && c != '[' && c != ']'
                &&& c != '<' && c != '>'
            },
    ensures
        pieces(x + seq![open] + v + seq![close] + y, cut) == seq![
            x + seq![open] + v + seq![close] + y,
        ],
{
    let s = x + seq![open] + v + seq![close] + y;
    let i = x.len() as int;
    let j = i + 1 + v.len();
    assert(s.subrange(0, i) =~= x);
    cut_passes(s, 0, 0, i, 0, cut);
    assert(s[i] == open);
    assert(s[j] == close);
    assert forall|k: int| i + 1 <= k < j implies !is_quote(#[trigger] s[k]) && !opens(cut, s[k])
        && !closes(cut, s[k]) by {
        assert(s[k] == v[k - i - 1]);
    }
    depth_is_passed(s, 0, i + 1, j, 1, cut);
    assert(s.subrange(j + 1, s.len() as int) =~= y);
    cut_passes(s, 0, j + 1, s.len() as int, 0, cut);
    assert(s.subrange(0, s.len() as int) =~= s);
}

} // verus!
