//! Text as sequences of characters: searching, trimming, splitting and the
//! character classes that the scanners rest on.

use vstd::prelude::*;
use vstd::slice::slice_subrange;
use vstd::string::StringExecFns;

verus! {

// ---------------------------------------------------------------------------
// Character classes
// ---------------------------------------------------------------------------

/// The Unicode `White_Space` property.
pub open spec fn is_space(c: char) -> bool {
    let u = c as u32;
    ||| 9 <= u <= 13
    ||| u == 0x20
    ||| u == 0x85
    ||| u == 0xA0
    ||| u == 0x1680
    ||| 0x2000 <= u <= 0x200A
    ||| u == 0x2028
    ||| u == 0x2029
    ||| u == 0x202F
    ||| u == 0x205F
    ||| u == 0x3000
}

pub open spec fn is_ascii_upper(c: char) -> bool {
    'A' <= c <= 'Z'
}

pub open spec fn is_ascii_lower(c: char) -> bool {
    'a' <= c <= 'z'
}

pub open spec fn is_digit(c: char) -> bool {
    '0' <= c <= '9'
}

pub open spec fn is_ascii_word(c: char) -> bool {
    is_ascii_upper(c) || is_ascii_lower(c) || is_digit(c)
}

/// The lower-case form of an ASCII letter; every other character is itself.
pub open spec fn ascii_lower(c: char) -> char {
    if is_ascii_upper(c) {
        ((c as u32) + 32) as char
    } else {
        c
    }
}

/// Whether a character is an ASCII character.
pub open spec fn is_ascii(c: char) -> bool {
    c <= '\u{7f}'
}

/// Whether a text is made of ASCII characters.
pub open spec fn is_ascii_text(s: Seq<char>) -> bool {
    forall|i: int| 0 <= i < s.len() ==> is_ascii(#[trigger] s[i])
}

/// What `char::is_alphanumeric` answers of a character that is not ASCII.
pub uninterp spec fn wide_alphanumeric(c: char) -> bool;

/// What `char::is_uppercase` answers of a character that is not ASCII.
pub uninterp spec fn wide_uppercase(c: char) -> bool;

/// What `char::is_numeric` answers of a character that is not ASCII.
pub uninterp spec fn wide_numeric(c: char) -> bool;

/// What `str::to_lowercase` makes of a text that is not ASCII.
pub uninterp spec fn wide_lowercase(s: Seq<char>) -> Seq<char>;

/// A letter or a digit.
pub open spec fn alphanumeric(c: char) -> bool {
    if is_ascii(c) {
        is_ascii_word(c)
    } else {
        wide_alphanumeric(c)
    }
}

/// An upper-case letter.
pub open spec fn uppercase(c: char) -> bool {
    if is_ascii(c) {
        is_ascii_upper(c)
    } else {
        wide_uppercase(c)
    }
}

/// A digit or another sign for a number.
pub open spec fn numeric(c: char) -> bool {
    if is_ascii(c) {
        is_digit(c)
    } else {
        wide_numeric(c)
    }
}

/// A text in lower case.
pub open spec fn lowercase(s: Seq<char>) -> Seq<char> {
    if is_ascii_text(s) {
        s.map_values(|c: char| ascii_lower(c))
    } else {
        wide_lowercase(s)
    }
}

/// `char::is_alphanumeric` decides by the character alone; among the ASCII
/// characters it holds of the letters and the digits.
pub assume_specification[ char::is_alphanumeric ](c: char) -> (r: bool)
    ensures
        is_ascii(c) ==> r == is_ascii_word(c),
        !is_ascii(c) ==> r == wide_alphanumeric(c),
;

/// `char::is_uppercase` decides by the character alone; among the ASCII
/// characters it holds of the upper-case letters.
pub assume_specification[ char::is_uppercase ](c: char) -> (r: bool)
    ensures
        is_ascii(c) ==> r == is_ascii_upper(c),
        !is_ascii(c) ==> r == wide_uppercase(c),
;

/// `char::is_numeric` decides by the character alone; among the ASCII
/// characters it holds of the digits.
pub assume_specification[ char::is_numeric ](c: char) -> (r: bool)
    ensures
        is_ascii(c) ==> r == is_digit(c),
        !is_ascii(c) ==> r == wide_numeric(c),
;

/// `str::to_lowercase` depends on the text alone; text made of ASCII
/// characters is lowered character by character.
pub assume_specification[ str::to_lowercase ](s: &str) -> (r: String)
    ensures
        is_ascii_text(s@) ==> r@ == s@.map_values(|c: char| ascii_lower(c)),
        !is_ascii_text(s@) ==> r@ == wide_lowercase(s@),
;

/// `String::push` appends one character.
pub assume_specification[ String::push ](s: &mut String, c: char)
    ensures
        final(s)@ == old(s)@.push(c),
;

/// `String::pop` takes off the last character and hands it back; an empty text
/// stays as it is.
pub assume_specification[ String::pop ](s: &mut String) -> (r: Option<char>)
    ensures
        old(s)@.len() == 0 ==> r is None && final(s)@ == old(s)@,
        old(s)@.len() > 0 ==> r == Some(old(s)@.last()) && final(s)@ == old(s)@.drop_last(),
;

/// `String::clear` leaves the empty text.
pub assume_specification[ String::clear ](s: &mut String)
    ensures
        final(s)@ == Seq::<char>::empty(),
;

/// A character of a TypeScript identifier.
pub open spec fn is_ident(c: char) -> bool {
    alphanumeric(c) || c == '_' || c == '$'
}

pub fn space(c: char) -> (r: bool)
    ensures
        r == is_space(c),
{
    let u: u32 = c as u32;
    (9 <= u && u <= 13) || u == 0x20 || u == 0x85 || u == 0xA0 || u == 0x1680 || (0x2000 <= u && u
        <= 0x200A) || u == 0x2028 || u == 0x2029 || u == 0x202F || u == 0x205F || u == 0x3000
}

pub fn ident(c: char) -> (r: bool)
    ensures
        r == is_ident(c),
{
    c.is_alphanumeric() || c == '_' || c == '$'
}

pub fn digit(c: char) -> (r: bool)
    ensures
        r == is_digit(c),
{
    '0' <= c && c <= '9'
}

pub fn ascii_upper(c: char) -> (r: bool)
    ensures
        r == is_ascii_upper(c),
{
    'A' <= c && c <= 'Z'
}

pub fn ascii_lower_case(c: char) -> (r: bool)
    ensures
        r == is_ascii_lower(c),
{
    'a' <= c && c <= 'z'
}

// ---------------------------------------------------------------------------
// Conversions
// ---------------------------------------------------------------------------

/// The characters of a text.
pub fn chars_of(s: &str) -> (r: Vec<char>)
    ensures
        r@ == s@,
{
    let mut out: Vec<char> = Vec::new();
    for c in it: s.chars()
        invariant
            out@ == it.seq().take(it.index() as int),
            it.seq() == s@,
    {
        out.push(c);
    }
    out
}

/// The text made of the given characters.
pub fn text_of(s: &[char]) -> (r: String)
    ensures
        r@ == s@,
{
    let mut out: String = String::new();
    let mut i: usize = 0;
    while i < s.len()
        invariant
            i <= s.len(),
            out@ == s@.take(i as int),
        decreases s.len() - i,
    {
        out.push(s[i]);
        i = i + 1;
    }
    assert(s@.take(s@.len() as int) =~= s@);
    out
}

// ---------------------------------------------------------------------------
// Searching
// ---------------------------------------------------------------------------

/// An executable position read as a mathematical one.
pub open spec fn position(r: Option<usize>) -> Option<int> {
    match r {
        Some(i) => Some(i as int),
        None => None,
    }
}

/// `pat` stands in `s` at position `i`.
pub open spec fn occurs_at(s: Seq<char>, pat: Seq<char>, i: int) -> bool {
    0 <= i && i + pat.len() <= s.len() && s.subrange(i, i + pat.len()) == pat
}

/// The first position from `from` on where `pat` stands in `s`.
pub open spec fn first_from(s: Seq<char>, pat: Seq<char>, from: int) -> Option<int>
    decreases s.len() - from + 1,
{
    if from < 0 || from + pat.len() > s.len() {
        None
    } else if occurs_at(s, pat, from) {
        Some(from)
    } else {
        first_from(s, pat, from + 1)
    }
}

/// `pat` stands somewhere in `s`.
pub open spec fn has(s: Seq<char>, pat: Seq<char>) -> bool {
    exists|i: int| occurs_at(s, pat, i)
}

/// The first position from `from` on that holds `c`.
pub open spec fn char_from(s: Seq<char>, c: char, from: int) -> Option<int>
    decreases s.len() - from,
{
    if from < 0 || from >= s.len() {
        None
    } else if s[from] == c {
        Some(from)
    } else {
        char_from(s, c, from + 1)
    }
}

/// The last position before `to` that holds `c`.
pub open spec fn char_before(s: Seq<char>, c: char, to: int) -> Option<int>
    decreases to,
{
    if to <= 0 || to > s.len() {
        None
    } else if s[to - 1] == c {
        Some(to - 1)
    } else {
        char_before(s, c, to - 1)
    }
}

pub open spec fn starts(s: Seq<char>, pat: Seq<char>) -> bool {
    occurs_at(s, pat, 0)
}

pub open spec fn ends(s: Seq<char>, pat: Seq<char>) -> bool {
    occurs_at(s, pat, s.len() - pat.len())
}

/// A search that starts at `from` finds the least position, and finds one
/// exactly when there is one.
pub proof fn first_from_is_least(s: Seq<char>, pat: Seq<char>, from: int)
    requires
        0 <= from,
    ensures
        match first_from(s, pat, from) {
            Some(i) => from <= i && occurs_at(s, pat, i) && forall|j: int|
                from <= j < i ==> !occurs_at(s, pat, j),
            None => forall|j: int| from <= j ==> !occurs_at(s, pat, j),
        },
    decreases s.len() - from + 1,
{
    if from + pat.len() > s.len() {
    } else if occurs_at(s, pat, from) {
    } else {
        first_from_is_least(s, pat, from + 1);
        assert forall|j: int|
            from <= j && (first_from(s, pat, from) matches Some(i) ==> j < i) implies !occurs_at(
            s,
            pat,
            j,
        ) by {
            if j > from {
                assert(from + 1 <= j);
            }
        }
    }
}

/// A text holds a pattern exactly when a search from its start finds one.
pub proof fn has_iff_found(s: Seq<char>, pat: Seq<char>)
    ensures
        has(s, pat) <==> first_from(s, pat, 0) is Some,
{
    first_from_is_least(s, pat, 0);
    if has(s, pat) {
        let i = choose|i: int| occurs_at(s, pat, i);
        assert(0 <= i);
    }
}

/// A character search finds the least position, and finds one exactly when
/// there is one.
pub proof fn char_from_is_least(s: Seq<char>, c: char, from: int)
    requires
        0 <= from,
    ensures
        match char_from(s, c, from) {
            Some(i) => from <= i < s.len() && s[i] == c && forall|j: int|
                from <= j < i ==> s[j] != c,
            None => forall|j: int| from <= j < s.len() ==> s[j] != c,
        },
    decreases s.len() - from,
{
    if from < s.len() && s[from] != c {
        char_from_is_least(s, c, from + 1);
    }
}

pub proof fn char_before_is_greatest(s: Seq<char>, c: char, to: int)
    requires
        to <= s.len(),
    ensures
        match char_before(s, c, to) {
            Some(i) => 0 <= i < to && s[i] == c && forall|j: int| i < j < to ==> s[j] != c,
            None => forall|j: int| 0 <= j < to ==> s[j] != c,
        },
    decreases to,
{
    if to > 0 && s[to - 1] != c {
        char_before_is_greatest(s, c, to - 1);
    }
}

/// Whether two texts hold the same characters.
pub fn same(a: &[char], b: &[char]) -> (r: bool)
    ensures
        r == (a@ == b@),
{
    if a.len() != b.len() {
        return false;
    }
    let mut i: usize = 0;
    while i < a.len()
        invariant
            i <= a.len(),
            a.len() == b.len(),
            forall|j: int| 0 <= j < i ==> a@[j] == b@[j],
        decreases a.len() - i,
    {
        if a[i] != b[i] {
            return false;
        }
        i = i + 1;
    }
    assert(a@ =~= b@);
    true
}

/// Whether the text `a` reads as the text `b`.
pub fn reads(a: &[char], b: &str) -> (r: bool)
    ensures
        r == (a@ == b@),
{
    let b: Vec<char> = chars_of(b);
    same(a, b.as_slice())
}

/// Whether two strings hold the same text.
pub fn equal(a: &str, b: &str) -> (r: bool)
    ensures
        r == (a@ == b@),
{
    let a: Vec<char> = chars_of(a);
    let b: Vec<char> = chars_of(b);
    same(a.as_slice(), b.as_slice())
}

/// Whether `pat` stands in `s` at position `i`.
pub fn stands_at(s: &[char], pat: &[char], i: usize) -> (r: bool)
    ensures
        r == occurs_at(s@, pat@, i as int),
{
    if i > s.len() || pat.len() > s.len() - i {
        return false;
    }
    same(slice_subrange(s, i, i + pat.len()), pat)
}

/// The first position from `from` on where `pat` stands in `s`.
pub fn find(s: &[char], pat: &[char], from: usize) -> (r: Option<usize>)
    ensures
        position(r) == first_from(s@, pat@, from as int),
        r matches Some(i) ==> from <= i && i + pat.len() <= s.len(),
{
    let mut i: usize = from;
    while i < s.len() && pat.len() <= s.len() - i
        invariant
            from <= i,
            first_from(s@, pat@, from as int) == first_from(s@, pat@, i as int),
        decreases s.len() - i,
    {
        if stands_at(s, pat, i) {
            return Some(i);
        }
        i = i + 1;
    }
    if i == s.len() && pat.len() == 0 {
        assert(s@.subrange(i as int, i as int) =~= pat@);
        return Some(i);
    }
    None
}

/// The first position from `from` on that holds `c`.
pub fn find_char(s: &[char], c: char, from: usize) -> (r: Option<usize>)
    ensures
        position(r) == char_from(s@, c, from as int),
        r matches Some(i) ==> from <= i < s.len(),
{
    let mut i: usize = from;
    while i < s.len()
        invariant
            from <= i,
            char_from(s@, c, from as int) == char_from(s@, c, i as int),
        decreases s.len() - i,
    {
        if s[i] == c {
            return Some(i);
        }
        i = i + 1;
    }
    None
}

/// The last position that holds `c`.
pub fn rfind_char(s: &[char], c: char) -> (r: Option<usize>)
    ensures
        position(r) == char_before(s@, c, s@.len() as int),
        r matches Some(i) ==> i < s.len(),
{
    let mut i: usize = s.len();
    while i > 0
        invariant
            i <= s.len(),
            char_before(s@, c, s@.len() as int) == char_before(s@, c, i as int),
        decreases i,
    {
        if s[i - 1] == c {
            return Some(i - 1);
        }
        i = i - 1;
    }
    None
}

/// Whether `pat` stands somewhere in `s`.
pub fn contains(s: &[char], pat: &str) -> (r: bool)
    ensures
        r == has(s@, pat@),
{
    let pat_chars: Vec<char> = chars_of(pat);
    let found: Option<usize> = find(s, pat_chars.as_slice(), 0);
    proof {
        has_iff_found(s@, pat@);
    }
    found.is_some()
}

pub fn starts_with(s: &[char], pat: &str) -> (r: bool)
    ensures
        r == starts(s@, pat@),
{
    let pat_chars: Vec<char> = chars_of(pat);
    stands_at(s, pat_chars.as_slice(), 0)
}

pub fn ends_with(s: &[char], pat: &str) -> (r: bool)
    ensures
        r == ends(s@, pat@),
{
    let pat_chars: Vec<char> = chars_of(pat);
    if pat_chars.len() > s.len() {
        return false;
    }
    stands_at(s, pat_chars.as_slice(), s.len() - pat_chars.len())
}

/// Whether some character of `s` is `c`.
pub fn contains_char(s: &[char], c: char) -> (r: bool)
    ensures
        r == s@.contains(c),
{
    let found: Option<usize> = find_char(s, c, 0);
    proof {
        char_from_is_least(s@, c, 0);
        if s@.contains(c) {
            let j = choose|j: int| 0 <= j < s@.len() && s@[j] == c;
            assert(s@[j] == c);
        }
    }
    found.is_some()
}

// ---------------------------------------------------------------------------
// Trimming and runs
// ---------------------------------------------------------------------------

/// The first position from `from` on that holds no white space.
pub open spec fn past_space(s: Seq<char>, from: int) -> int
    decreases s.len() - from,
{
    if 0 <= from < s.len() && is_space(s[from]) {
        past_space(s, from + 1)
    } else {
        from
    }
}

/// The end of the text before `to` once white space at its end is left out.
pub open spec fn before_space(s: Seq<char>, to: int) -> int
    decreases to,
{
    if 0 < to <= s.len() && is_space(s[to - 1]) {
        before_space(s, to - 1)
    } else {
        to
    }
}

pub open spec fn trimmed_start(s: Seq<char>) -> Seq<char> {
    s.skip(past_space(s, 0))
}

pub open spec fn trimmed_end(s: Seq<char>) -> Seq<char> {
    s.take(before_space(s, s.len() as int))
}

pub open spec fn trimmed(s: Seq<char>) -> Seq<char> {
    trimmed_end(trimmed_start(s))
}

/// The end of the run of identifier characters that starts at `from`.
pub open spec fn ident_end(s: Seq<char>, from: int) -> int
    decreases s.len() - from,
{
    if 0 <= from < s.len() && is_ident(s[from]) {
        ident_end(s, from + 1)
    } else {
        from
    }
}

/// The start of the run of identifier characters that ends at `to`.
pub open spec fn ident_start(s: Seq<char>, to: int) -> int
    decreases to,
{
    if 0 < to <= s.len() && is_ident(s[to - 1]) {
        ident_start(s, to - 1)
    } else {
        to
    }
}

pub proof fn past_space_bounds(s: Seq<char>, from: int)
    requires
        0 <= from <= s.len(),
    ensures
        from <= past_space(s, from) <= s.len(),
        past_space(s, from) < s.len() ==> !is_space(s[past_space(s, from)]),
        forall|j: int| from <= j < past_space(s, from) ==> is_space(s[j]),
    decreases s.len() - from,
{
    if from < s.len() && is_space(s[from]) {
        past_space_bounds(s, from + 1);
    }
}

pub proof fn before_space_bounds(s: Seq<char>, to: int)
    requires
        0 <= to <= s.len(),
    ensures
        0 <= before_space(s, to) <= to,
        before_space(s, to) > 0 ==> !is_space(s[before_space(s, to) - 1]),
        forall|j: int| before_space(s, to) <= j < to ==> is_space(s[j]),
    decreases to,
{
    if to > 0 && is_space(s[to - 1]) {
        before_space_bounds(s, to - 1);
    }
}

pub proof fn ident_end_bounds(s: Seq<char>, from: int)
    requires
        0 <= from <= s.len(),
    ensures
        from <= ident_end(s, from) <= s.len(),
        forall|j: int| from <= j < ident_end(s, from) ==> is_ident(s[j]),
        ident_end(s, from) < s.len() ==> !is_ident(s[ident_end(s, from)]),
    decreases s.len() - from,
{
    if from < s.len() && is_ident(s[from]) {
        ident_end_bounds(s, from + 1);
    }
}

pub proof fn ident_start_bounds(s: Seq<char>, to: int)
    requires
        0 <= to <= s.len(),
    ensures
        0 <= ident_start(s, to) <= to,
        forall|j: int| ident_start(s, to) <= j < to ==> is_ident(s[j]),
        ident_start(s, to) > 0 ==> !is_ident(s[ident_start(s, to) - 1]),
    decreases to,
{
    if to > 0 && is_ident(s[to - 1]) {
        ident_start_bounds(s, to - 1);
    }
}

/// Trimming never makes a text longer.
pub proof fn trimmed_is_no_longer(s: Seq<char>)
    ensures
        trimmed(s).len() <= s.len(),
{
    past_space_bounds(s, 0);
    before_space_bounds(trimmed_start(s), trimmed_start(s).len() as int);
}

/// What has been trimmed once is not changed by trimming it again.
pub proof fn trimmed_twice(s: Seq<char>)
    ensures
        trimmed(trimmed(s)) == trimmed(s),
{
    let a = trimmed_start(s);
    past_space_bounds(s, 0);
    before_space_bounds(a, a.len() as int);
    let t = trimmed(s);
    if t.len() > 0 {
        assert(t[0] == s[past_space(s, 0)]);
        assert(t[t.len() - 1] == a[before_space(a, a.len() as int) - 1]);
        assert(past_space(t, 0) == 0);
        assert(trimmed_start(t) =~= t);
        assert(before_space(t, t.len() as int) == t.len());
    }
    assert(trimmed(t) =~= t);
}

/// Whether a text is white space only.
pub open spec fn is_blank(s: Seq<char>) -> bool {
    forall|i: int| 0 <= i < s.len() ==> is_space(#[trigger] s[i])
}

/// Whether a text is not empty and neither starts nor ends with white space.
pub open spec fn is_tight(s: Seq<char>) -> bool {
    s.len() > 0 && !is_space(s[0]) && !is_space(s[s.len() - 1])
}

/// Among the ASCII characters the blank, the tab, the line feed, the carriage
/// return and the two other line controls are white space, and no other is.
pub proof fn ascii_white_space(c: char)
    requires
        is_ascii(c),
    ensures
        is_space(c) <==> c == ' ' || c == '\t' || c == '\n' || c == '\r' || c == '\x0b' || c
            == '\x0c',
{
}

/// Skipping white space stops at the first other character.
pub proof fn space_is_skipped(a: Seq<char>, b: Seq<char>, c: Seq<char>)
    requires
        is_blank(b),
        c.len() > 0 ==> !is_space(c[0]),
    ensures
        past_space(a + b + c, a.len() as int) == a.len() + b.len(),
{
    let p = a + b + c;
    let n = (a.len() + b.len()) as int;
    past_space_bounds(p, a.len() as int);
    let k = past_space(p, a.len() as int);
    if k < n {
        assert(p[k] == b[k - a.len()]);
    }
    if k > n {
        assert(p[n] == c[0]);
    }
}

/// Trimming takes the white space off both ends, and nothing else.
pub proof fn trimming_leaves_the_middle(a: Seq<char>, s: Seq<char>, b: Seq<char>)
    requires
        is_blank(a),
        is_blank(b),
        is_tight(s),
    ensures
        trimmed(a + s + b) == s,
{
    let p = a + s + b;
    let n = a.len() as int;
    assert(Seq::<char>::empty() + a + (s + b) =~= p);
    assert((s + b)[0] == s[0]);
    space_is_skipped(Seq::empty(), a, s + b);
    let q = s + b;
    assert(p.skip(n) =~= q);
    before_space_bounds(q, q.len() as int);
    let k = before_space(q, q.len() as int);
    assert(k == s.len()) by {
        if k < s.len() {
            assert(q[s.len() - 1] == s[s.len() - 1]);
        }
        if k > s.len() {
            assert(q[k - 1] == b[k - 1 - s.len()]);
        }
    }
    assert(q.take(k) =~= s);
}

/// What neither starts nor ends with white space is not trimmed.
pub proof fn nothing_to_trim(s: Seq<char>)
    requires
        is_tight(s),
    ensures
        trimmed(s) == s,
        trimmed_start(s) == s,
{
    let none = Seq::<char>::empty();
    assert(none + s + none =~= s);
    trimming_leaves_the_middle(none, s, none);
    assert(s.skip(0) =~= s);
}

/// Nothing is left of white space.
pub proof fn blank_is_trimmed_away(s: Seq<char>)
    requires
        is_blank(s),
    ensures
        trimmed(s) == Seq::<char>::empty(),
{
    past_space_bounds(s, 0);
    assert(past_space(s, 0) == s.len());
    assert(trimmed(s) =~= Seq::<char>::empty());
}

pub fn skip_space(s: &[char], from: usize) -> (r: usize)
    requires
        from <= s@.len(),
    ensures
        r == past_space(s@, from as int),
        from <= r <= s@.len(),
{
    let mut i: usize = from;
    while i < s.len() && space(s[i])
        invariant
            from <= i <= s.len(),
            past_space(s@, from as int) == past_space(s@, i as int),
        decreases s.len() - i,
    {
        i = i + 1;
    }
    i
}

pub fn drop_space(s: &[char], to: usize) -> (r: usize)
    requires
        to <= s@.len(),
    ensures
        r == before_space(s@, to as int),
        r <= to,
{
    let mut i: usize = to;
    while i > 0 && space(s[i - 1])
        invariant
            i <= to <= s.len(),
            before_space(s@, to as int) == before_space(s@, i as int),
        decreases i,
    {
        i = i - 1;
    }
    i
}

pub fn trim_start(s: &[char]) -> (r: &[char])
    ensures
        r@ == trimmed_start(s@),
{
    let from: usize = skip_space(s, 0);
    slice_subrange(s, from, s.len())
}

pub fn trim_end(s: &[char]) -> (r: &[char])
    ensures
        r@ == trimmed_end(s@),
{
    let to: usize = drop_space(s, s.len());
    slice_subrange(s, 0, to)
}

pub fn trim(s: &[char]) -> (r: &[char])
    ensures
        r@ == trimmed(s@),
{
    trim_end(trim_start(s))
}

pub fn skip_ident(s: &[char], from: usize) -> (r: usize)
    requires
        from <= s@.len(),
    ensures
        r == ident_end(s@, from as int),
        from <= r <= s@.len(),
{
    let mut i: usize = from;
    while i < s.len() && ident(s[i])
        invariant
            from <= i <= s.len(),
            ident_end(s@, from as int) == ident_end(s@, i as int),
        decreases s.len() - i,
    {
        i = i + 1;
    }
    i
}

pub fn back_ident(s: &[char], to: usize) -> (r: usize)
    requires
        to <= s@.len(),
    ensures
        r == ident_start(s@, to as int),
        r <= to,
{
    let mut i: usize = to;
    while i > 0 && ident(s[i - 1])
        invariant
            i <= to <= s.len(),
            ident_start(s@, to as int) == ident_start(s@, i as int),
        decreases i,
    {
        i = i - 1;
    }
    i
}

// ---------------------------------------------------------------------------
// Stripping
// ---------------------------------------------------------------------------

/// `s` without every `c` at its end.
pub open spec fn without_trailing(s: Seq<char>, c: char) -> Seq<char>
    decreases s.len(),
{
    if s.len() > 0 && s.last() == c {
        without_trailing(s.drop_last(), c)
    } else {
        s
    }
}

/// `s` without every `c` at its start.
pub open spec fn without_leading(s: Seq<char>, c: char) -> Seq<char>
    decreases s.len(),
{
    if s.len() > 0 && s[0] == c {
        without_leading(s.skip(1), c)
    } else {
        s
    }
}

/// `s` without every `c` at either end.
pub open spec fn without_around(s: Seq<char>, c: char) -> Seq<char> {
    without_trailing(without_leading(s, c), c)
}

/// `s` without every repetition of `pat` at its start.
pub open spec fn without_prefixes(s: Seq<char>, pat: Seq<char>) -> Seq<char>
    decreases s.len(),
{
    if pat.len() > 0 && starts(s, pat) {
        without_prefixes(s.skip(pat.len() as int), pat)
    } else {
        s
    }
}

/// `s` without one `pat` at its end, where it ends so.
pub open spec fn without_suffix(s: Seq<char>, pat: Seq<char>) -> Seq<char> {
    if ends(s, pat) {
        s.take(s.len() - pat.len())
    } else {
        s
    }
}

/// `s` without one `pat` at its start, where it starts so.
pub open spec fn without_prefix(s: Seq<char>, pat: Seq<char>) -> Seq<char> {
    if starts(s, pat) {
        s.skip(pat.len() as int)
    } else {
        s
    }
}

pub fn trim_trailing(s: &[char], c: char) -> (r: &[char])
    ensures
        r@ == without_trailing(s@, c),
{
    let mut end: usize = s.len();
    assert(s@.take(end as int) =~= s@);
    while end > 0 && s[end - 1] == c
        invariant
            end <= s.len(),
            without_trailing(s@, c) == without_trailing(s@.take(end as int), c),
        decreases end,
    {
        assert(s@.take(end as int).drop_last() =~= s@.take(end - 1));
        end = end - 1;
    }
    slice_subrange(s, 0, end)
}

pub fn trim_leading(s: &[char], c: char) -> (r: &[char])
    ensures
        r@ == without_leading(s@, c),
{
    let mut from: usize = 0;
    assert(s@.skip(0) =~= s@);
    while from < s.len() && s[from] == c
        invariant
            from <= s.len(),
            without_leading(s@, c) == without_leading(s@.skip(from as int), c),
        decreases s.len() - from,
    {
        assert(s@.skip(from as int).skip(1) =~= s@.skip(from + 1));
        from = from + 1;
    }
    assert(s@.subrange(from as int, s@.len() as int) =~= s@.skip(from as int));
    slice_subrange(s, from, s.len())
}

pub fn trim_around(s: &[char], c: char) -> (r: &[char])
    ensures
        r@ == without_around(s@, c),
{
    trim_trailing(trim_leading(s, c), c)
}

pub fn trim_prefixes<'a>(s: &'a [char], pat: &str) -> (r: &'a [char])
    ensures
        r@ == without_prefixes(s@, pat@),
{
    let pat_chars: Vec<char> = chars_of(pat);
    let mut from: usize = 0;
    assert(s@.skip(0) =~= s@);
    while pat_chars.len() > 0 && stands_at(s, pat_chars.as_slice(), from)
        invariant
            from <= s.len(),
            pat_chars@ == pat@,
            without_prefixes(s@, pat@) == without_prefixes(s@.skip(from as int), pat@),
        decreases s.len() - from,
    {
        proof {
            let rest = s@.skip(from as int);
            assert(rest.subrange(0, pat@.len() as int) =~= s@.subrange(
                from as int,
                from + pat@.len(),
            ));
            assert(rest.skip(pat@.len() as int) =~= s@.skip(from + pat@.len()));
        }
        from = from + pat_chars.len();
    }
    proof {
        let rest = s@.skip(from as int);
        if pat@.len() > 0 && starts(rest, pat@) {
            assert(rest.subrange(0, pat@.len() as int) =~= s@.subrange(
                from as int,
                from + pat@.len(),
            ));
        }
        assert(s@.subrange(from as int, s@.len() as int) =~= rest);
    }
    slice_subrange(s, from, s.len())
}

pub fn strip_suffix<'a>(s: &'a [char], pat: &str) -> (r: Option<&'a [char]>)
    ensures
        r is Some <==> ends(s@, pat@),
        r is Some ==> r->0@ == s@.take(s@.len() - pat@.len()),
{
    let pat_chars: Vec<char> = chars_of(pat);
    if ends_with(s, pat) {
        Some(slice_subrange(s, 0, s.len() - pat_chars.len()))
    } else {
        None
    }
}

pub fn strip_prefix<'a>(s: &'a [char], pat: &str) -> (r: Option<&'a [char]>)
    ensures
        r is Some <==> starts(s@, pat@),
        r is Some ==> r->0@ == s@.skip(pat@.len() as int),
{
    let pat_chars: Vec<char> = chars_of(pat);
    if starts_with(s, pat) {
        assert(s@.subrange(pat@.len() as int, s@.len() as int) =~= s@.skip(pat@.len() as int));
        Some(slice_subrange(s, pat_chars.len(), s.len()))
    } else {
        None
    }
}

/// The part of `s` from `from` on.
pub fn tail(s: &[char], from: usize) -> (r: &[char])
    requires
        from <= s@.len(),
    ensures
        r@ == s@.skip(from as int),
{
    assert(s@.subrange(from as int, s@.len() as int) =~= s@.skip(from as int));
    slice_subrange(s, from, s.len())
}

/// The part of `s` before `to`.
pub fn head(s: &[char], to: usize) -> (r: &[char])
    requires
        to <= s@.len(),
    ensures
        r@ == s@.take(to as int),
{
    assert(s@.subrange(0, to as int) =~= s@.take(to as int));
    slice_subrange(s, 0, to)
}

/// The text of a string that may be missing.
pub open spec fn opt(o: Option<String>) -> Option<Seq<char>> {
    match o {
        Some(t) => Some(t@),
        None => None,
    }
}

/// The text of a borrowed string that may be missing.
pub open spec fn opt_str(o: Option<&str>) -> Option<Seq<char>> {
    match o {
        Some(t) => Some(t@),
        None => None,
    }
}

/// Whether a list of strings holds the text `t`.
pub fn among(v: &Vec<String>, t: &str) -> (r: bool)
    ensures
        r == texts(v@).contains(t@),
{
    let mut i: usize = 0;
    while i < v.len()
        invariant
            i <= v.len(),
            forall|k: int| 0 <= k < i ==> (#[trigger] v@[k])@ != t@,
        decreases v.len() - i,
    {
        assert(texts(v@)[i as int] == v@[i as int]@);
        if equal(v[i].as_str(), t) {
            return true;
        }
        i = i + 1;
    }
    proof {
        if texts(v@).contains(t@) {
            let k = choose|k: int| 0 <= k < texts(v@).len() && texts(v@)[k] == t@;
            assert(v@[k]@ == t@);
        }
    }
    false
}

// ---------------------------------------------------------------------------
// Splitting, joining, replacing
// ---------------------------------------------------------------------------

/// The texts that a list of strings holds.
pub open spec fn texts(v: Seq<String>) -> Seq<Seq<char>> {
    v.map_values(|t: String| t@)
}

/// A copy of a list of texts.
pub fn copies(v: &Vec<String>) -> (r: Vec<String>)
    ensures
        texts(r@) == texts(v@),
{
    let mut out: Vec<String> = Vec::new();
    let mut i: usize = 0;
    while i < v.len()
        invariant
            i <= v.len(),
            out@.len() == i,
            forall|k: int| 0 <= k < i ==> #[trigger] out@[k]@ == v@[k]@,
        decreases v.len() - i,
    {
        out.push(v[i].clone());
        i = i + 1;
    }
    assert(texts(out@) =~= texts(v@));
    out
}

/// The pieces of `s` between the occurrences of `c`.
pub open spec fn split_on(s: Seq<char>, c: char) -> Seq<Seq<char>>
    decreases s.len(),
{
    match char_from(s, c, 0) {
        Some(i) => if 0 <= i < s.len() {
            seq![s.take(i)] + split_on(s.skip(i + 1), c)
        } else {
            seq![s]
        },
        None => seq![s],
    }
}

/// The parts one after another, with `sep` between neighbours.
pub open spec fn joined(parts: Seq<Seq<char>>, sep: Seq<char>) -> Seq<char>
    decreases parts.len(),
{
    if parts.len() == 0 {
        Seq::empty()
    } else if parts.len() == 1 {
        parts[0]
    } else {
        joined(parts.drop_last(), sep) + sep + parts.last()
    }
}

/// `s` with every `a` turned into `b`.
pub open spec fn replaced(s: Seq<char>, a: char, b: char) -> Seq<char> {
    s.map_values(|c: char| if c == a { b } else { c })
}

/// A text without `a` is not changed when `a` is replaced.
pub proof fn nothing_to_replace(s: Seq<char>, a: char, b: char)
    requires
        !s.contains(a),
    ensures
        replaced(s, a, b) == s,
{
    assert forall|i: int| 0 <= i < s.len() implies replaced(s, a, b)[i] == s[i] by {
        assert(s.contains(s[i]));
    }
    assert(replaced(s, a, b) =~= s);
}

/// A text without the separator is one piece.
pub proof fn nothing_to_split(s: Seq<char>, c: char)
    requires
        !s.contains(c),
    ensures
        split_on(s, c) == seq![s],
{
    char_from_is_least(s, c, 0);
    if let Some(i) = char_from(s, c, 0) {
        assert(s.contains(s[i]));
    }
}

/// Splitting at a separator parts what stands before its first occurrence from
/// the pieces of what follows.
pub proof fn first_piece_is_split_off(a: Seq<char>, c: char, b: Seq<char>)
    requires
        !a.contains(c),
    ensures
        split_on(a + seq![c] + b, c) == seq![a] + split_on(b, c),
{
    let s = a + seq![c] + b;
    let n = a.len() as int;
    char_from_is_least(s, c, 0);
    assert(s[n] == c);
    let i = char_from(s, c, 0)->0;
    if i < n {
        assert(s[i] == a[i]);
        assert(a.contains(a[i]));
    }
    assert(s.take(n) =~= a);
    assert(s.skip(n + 1) =~= b);
}

/// Putting the pieces together again, with the separator between them, gives the
/// text that was split.
pub proof fn split_pieces_join(s: Seq<char>, c: char)
    ensures
        split_on(s, c).len() > 0,
        joined(split_on(s, c), seq![c]) == s,
        forall|i: int| 0 <= i < split_on(s, c).len() ==> !(#[trigger] split_on(s, c)[i]).contains(c),
    decreases s.len(),
{
    char_from_is_least(s, c, 0);
    match char_from(s, c, 0) {
        Some(i) => {
            let a = s.take(i);
            let b = s.skip(i + 1);
            split_pieces_join(b, c);
            let rest = split_on(b, c);
            let all = split_on(s, c);
            assert(all =~= seq![a] + rest);
            first_part_joins(a, rest, seq![c]);
            assert(a + seq![c] + b =~= s);
            assert forall|k: int| 0 <= k < all.len() implies !(#[trigger] all[k]).contains(c) by {
                if k > 0 {
                    assert(all[k] == rest[k - 1]);
                } else if a.contains(c) {
                    let j = choose|j: int| 0 <= j < a.len() && a[j] == c;
                    assert(s[j] == c);
                }
            }
        },
        None => {
            assert(split_on(s, c) =~= seq![s]);
            assert(!s.contains(c));
        },
    }
}

/// The first part stands before what the others come to.
pub proof fn first_part_joins(a: Seq<char>, rest: Seq<Seq<char>>, sep: Seq<char>)
    requires
        rest.len() > 0,
    ensures
        joined(seq![a] + rest, sep) == a + sep + joined(rest, sep),
    decreases rest.len(),
{
    let all = seq![a] + rest;
    assert(all.last() == rest.last());
    if rest.len() == 1 {
        assert(all.drop_last() =~= seq![a]);
        assert(joined(seq![a], sep) == a);
        assert(joined(rest, sep) == rest[0]);
    } else {
        let head = rest.drop_last();
        assert(all.drop_last() =~= seq![a] + head);
        first_part_joins(a, head, sep);
        assert(a + sep + joined(head, sep) + sep + rest.last() =~= a + sep + (joined(head, sep)
            + sep + rest.last()));
    }
}

pub fn split(s: &[char], c: char) -> (r: Vec<String>)
    ensures
        texts(r@) == split_on(s@, c),
{
    let mut out: Vec<String> = Vec::new();
    let mut start: usize = 0;
    proof {
        assert(s@.skip(0) =~= s@);
        assert(texts(out@) + split_on(s@, c) =~= split_on(s@, c));
    }
    loop
        invariant
            start <= s.len(),
            texts(out@) + split_on(s@.skip(start as int), c) == split_on(s@, c),
        decreases s.len() - start,
    {
        let rest: &[char] = tail(s, start);
        let found: Option<usize> = find_char(rest, c, 0);
        proof {
            char_from_is_least(rest@, c, 0);
        }
        match found {
            Some(i) => {
                let ghost before = out@;
                out.push(text_of(head(rest, i)));
                proof {
                    assert(texts(out@) =~= texts(before).push(rest@.take(i as int)));
                    assert(rest@.skip(i + 1) =~= s@.skip(start + i + 1));
                    assert(texts(before) + (seq![rest@.take(i as int)] + split_on(
                        rest@.skip(i + 1),
                        c,
                    )) =~= texts(out@) + split_on(rest@.skip(i + 1), c));
                }
                start = start + i + 1;
            },
            None => {
                let ghost before = out@;
                out.push(text_of(rest));
                assert(texts(out@) =~= texts(before) + seq![rest@]);
                return out;
            },
        }
    }
}

pub fn join(parts: &[String], sep: &str) -> (r: String)
    ensures
        r@ == joined(texts(parts@), sep@),
{
    let mut out: String = String::new();
    let mut i: usize = 0;
    assert(texts(parts@.take(0)) =~= Seq::<Seq<char>>::empty());
    while i < parts.len()
        invariant
            i <= parts.len(),
            out@ == joined(texts(parts@.take(i as int)), sep@),
        decreases parts.len() - i,
    {
        proof {
            let now = texts(parts@.take(i + 1));
            assert(now.drop_last() =~= texts(parts@.take(i as int)));
            assert(now.last() == parts@[i as int]@);
            if i == 0 {
                assert(Seq::<char>::empty() + parts@[0]@ =~= parts@[0]@);
            }
        }
        if i > 0 {
            out.append(sep);
        }
        out.append(parts[i].as_str());
        i = i + 1;
    }
    assert(parts@.take(parts@.len() as int) =~= parts@);
    out
}

pub fn replace(s: &[char], a: char, b: char) -> (r: Vec<char>)
    ensures
        r@ == replaced(s@, a, b),
{
    let mut out: Vec<char> = Vec::new();
    let mut i: usize = 0;
    while i < s.len()
        invariant
            i <= s.len(),
            out@ == replaced(s@.take(i as int), a, b),
        decreases s.len() - i,
    {
        out.push(if s[i] == a { b } else { s[i] });
        i = i + 1;
        assert(out@ =~= replaced(s@.take(i as int), a, b));
    }
    assert(s@.take(s@.len() as int) =~= s@);
    out
}

/// Two texts one after the other.
pub fn cat(a: &str, b: &str) -> (r: String)
    ensures
        r@ == a@ + b@,
{
    let mut out: String = a.to_string();
    out.append(b);
    out
}

/// Three texts one after the other.
pub fn cat3(a: &str, b: &str, c: &str) -> (r: String)
    ensures
        r@ == a@ + b@ + c@,
{
    let mut out: String = a.to_string();
    out.append(b);
    out.append(c);
    out
}

/// Five texts one after the other.
pub fn cat5(a: &str, b: &str, c: &str, d: &str, e: &str) -> (r: String)
    ensures
        r@ == a@ + b@ + c@ + d@ + e@,
{
    let mut out: String = a.to_string();
    out.append(b);
    out.append(c);
    out.append(d);
    out.append(e);
    out
}

// ---------------------------------------------------------------------------
// Numbers
// ---------------------------------------------------------------------------

/// The character of a decimal digit.
pub open spec fn digit_char(d: int) -> char {
    ('0' as int + d) as char
}

/// A number in decimal notation.
pub open spec fn decimal(n: nat) -> Seq<char>
    decreases n,
{
    if n < 10 {
        seq![digit_char(n as int)]
    } else {
        decimal(n / 10).push(digit_char((n % 10) as int))
    }
}

pub fn digit_of(d: u64) -> (r: char)
    requires
        d < 10,
    ensures
        r == digit_char(d as int),
{
    (48 + d as u8) as char
}

fn decimal_chars(n: u128) -> (r: Vec<char>)
    ensures
        r@ == decimal(n as nat),
    decreases n,
{
    if n < 10 {
        let mut out: Vec<char> = Vec::new();
        out.push(digit_of(n as u64));
        out
    } else {
        let mut out: Vec<char> = decimal_chars(n / 10);
        out.push(digit_of((n % 10) as u64));
        out
    }
}

/// A number in decimal notation.
pub fn number_text(n: u64) -> (r: String)
    ensures
        r@ == decimal(n as nat),
{
    let out: Vec<char> = decimal_chars(n as u128);
    text_of(out.as_slice())
}

/// An integer in decimal notation, a negative one with its sign.
pub open spec fn signed(n: int) -> Seq<char> {
    if n < 0 {
        "-"@ + decimal((-n) as nat)
    } else {
        decimal(n as nat)
    }
}

/// An integer in decimal notation.
pub fn integer_text(n: i128) -> (r: String)
    ensures
        r@ == signed(n as int),
{
    if n >= 0 {
        let out: Vec<char> = decimal_chars(n as u128);
        text_of(out.as_slice())
    } else {
        // The magnitude of the least integer is one more than the greatest.
        let magnitude: u128 = (-(n + 1)) as u128 + 1;
        let out: Vec<char> = decimal_chars(magnitude);
        let digits: String = text_of(out.as_slice());
        cat("-", digits.as_str())
    }
}

/// The number that a run of decimal digits denotes.
pub open spec fn digits_value(s: Seq<char>) -> nat
    decreases s.len(),
{
    if s.len() == 0 {
        0
    } else {
        digits_value(s.drop_last()) * 10 + (s.last() as int - '0' as int) as nat
    }
}

/// The number that a text denotes: it is made of decimal digits and fits in 64
/// bits.
pub open spec fn natural_of(s: Seq<char>) -> Option<nat> {
    if s.len() > 0 && (forall|i: int| 0 <= i < s.len() ==> is_digit(#[trigger] s[i]))
        && digits_value(s) <= u64::MAX {
        Some(digits_value(s))
    } else {
        None
    }
}

proof fn longer_digits_denote_no_less(s: Seq<char>, n: int)
    requires
        0 <= n <= s.len(),
    ensures
        digits_value(s.take(n)) <= digits_value(s),
    decreases s.len() - n,
{
    if n == s.len() {
        assert(s.take(n) =~= s);
    } else {
        longer_digits_denote_no_less(s, n + 1);
        assert(s.take(n + 1).drop_last() =~= s.take(n));
    }
}

/// The number that a text denotes.
pub fn natural(s: &str) -> (r: Option<u64>)
    ensures
        match r {
            Some(n) => natural_of(s@) == Some(n as nat),
            None => natural_of(s@) is None,
        },
{
    let chars: Vec<char> = chars_of(s);
    if chars.len() == 0 {
        return None;
    }
    let mut value: u64 = 0;
    let mut i: usize = 0;
    while i < chars.len()
        invariant
            chars@ == s@,
            i <= chars.len(),
            forall|k: int| 0 <= k < i ==> is_digit(#[trigger] s@[k]),
            value == digits_value(s@.take(i as int)),
        decreases chars.len() - i,
    {
        let c: char = chars[i];
        if !digit(c) {
            return None;
        }
        let d: u64 = c as u64 - 48;
        proof {
            assert(s@.take(i + 1).drop_last() =~= s@.take(i as int));
            longer_digits_denote_no_less(s@, i + 1);
        }
        if value > (u64::MAX - d) / 10 {
            return None;
        }
        value = value * 10 + d;
        i = i + 1;
    }
    assert(s@.take(s@.len() as int) =~= s@);
    Some(value)
}

/// A number is read back from its decimal notation.
pub proof fn decimal_is_read_back(n: nat)
    requires
        n <= u64::MAX,
    ensures
        natural_of(decimal(n)) == Some(n),
{
    decimal_denotes(n);
}

proof fn decimal_denotes(n: nat)
    ensures
        decimal(n).len() > 0,
        forall|i: int| 0 <= i < decimal(n).len() ==> is_digit(#[trigger] decimal(n)[i]),
        digits_value(decimal(n)) == n,
    decreases n,
{
    if n < 10 {
        assert(decimal(n).drop_last() =~= Seq::<char>::empty());
        assert(digits_value(Seq::<char>::empty()) == 0);
    } else {
        decimal_denotes(n / 10);
        assert(decimal(n).drop_last() =~= decimal(n / 10));
    }
}

// ---------------------------------------------------------------------------
// Order
// ---------------------------------------------------------------------------

/// Texts in the order of their characters' code points.
pub open spec fn text_less(a: Seq<char>, b: Seq<char>) -> bool
    decreases a.len(),
{
    if b.len() == 0 {
        false
    } else if a.len() == 0 {
        true
    } else if a[0] != b[0] {
        a[0] < b[0]
    } else {
        text_less(a.skip(1), b.skip(1))
    }
}

pub fn before(a: &[char], b: &[char]) -> (r: bool)
    ensures
        r == text_less(a@, b@),
{
    let mut i: usize = 0;
    assert(a@.skip(0) =~= a@);
    assert(b@.skip(0) =~= b@);
    loop
        invariant
            i <= a.len(),
            i <= b.len(),
            text_less(a@, b@) == text_less(a@.skip(i as int), b@.skip(i as int)),
        decreases a.len() - i,
    {
        if i == b.len() {
            return false;
        }
        if i == a.len() {
            return true;
        }
        if a[i] != b[i] {
            return a[i] < b[i];
        }
        assert(a@.skip(i as int).skip(1) =~= a@.skip(i + 1));
        assert(b@.skip(i as int).skip(1) =~= b@.skip(i + 1));
        i = i + 1;
    }
}

/// The order of texts is a strict total order: no text stands before itself,
/// of two different texts exactly one stands before the other, and it is
/// transitive.
pub proof fn text_order_is_strict(a: Seq<char>, b: Seq<char>, c: Seq<char>)
    ensures
        !text_less(a, a),
        text_less(a, b) ==> !text_less(b, a),
        a == b || text_less(a, b) || text_less(b, a),
        text_less(a, b) && text_less(b, c) ==> text_less(a, c),
    decreases a.len(),
{
    if a.len() > 0 {
        text_order_is_strict(a.skip(1), b.skip(1), c.skip(1));
        if b.len() > 0 && a[0] == b[0] && a.skip(1) == b.skip(1) {
            assert(a =~= b) by {
                assert forall|i: int| 0 <= i < a.len() implies a[i] == b[i] by {
                    if i > 0 {
                        assert(a.skip(1)[i - 1] == b.skip(1)[i - 1]);
                    }
                }
                assert(a.skip(1).len() == b.skip(1).len());
            }
        }
    } else if b.len() == 0 {
        assert(a =~= b);
    }
}

} // verus!
