//! The fuzzy file finder: a bounded index of the files under the root, a
//! smart-case subsequence scorer that favours word starts, file names and runs,
//! and the state of the popup.

use crate::explorer::style::{Color, Span, SpanView, Style};
use crate::explorer::style;
use crate::path;
use crate::sort;
use crate::sort::Ranked;
use crate::text;
use vstd::prelude::*;
use vstd::utf8::encode_utf8;

verus! {

// ---------------------------------------------------------------------------
// The index
// ---------------------------------------------------------------------------

/// How many files are indexed at most.
pub const MAX_FILES: usize = 50_000;

/// An indexed file: its path, and its path from the root as it is shown.
#[derive(Debug)]
pub struct Item {
    pub path: String,
    pub display: String,
}

#[verifier::ext_equal]
pub struct ItemView {
    pub path: Seq<char>,
    pub display: Seq<char>,
}

impl View for Item {
    type V = ItemView;

    open spec fn view(&self) -> ItemView {
        ItemView { path: self.path@, display: self.display@ }
    }
}

pub open spec fn items_view(v: Seq<Item>) -> Seq<ItemView> {
    v.map_values(|i: Item| i@)
}

/// A directory that is never worth searching: build artifacts, version control,
/// dependencies.
pub open spec fn is_skipped(name: Seq<char>) -> bool {
    ||| name == "node_modules"@
    ||| name == ".git"@
    ||| name == ".angular"@
    ||| name == "dist"@
    ||| name == "target"@
    ||| name == "coverage"@
    ||| name == ".next"@
    ||| name == ".output"@
    ||| name == "build"@
}

/// Whether something below the root is searched: the noise is left out, and so
/// is what is hidden.
pub open spec fn is_searched(name: Seq<char>) -> bool {
    !is_skipped(name) && !text::starts(name, "."@)
}

/// Whether something of this name below the root is searched.
pub fn searches(name: &str) -> (r: bool)
    ensures
        r == is_searched(name@),
{
    let chars: Vec<char> = text::chars_of(name);
    let n: &[char] = chars.as_slice();
    !(text::reads(n, "node_modules") || text::reads(n, ".git") || text::reads(n, ".angular")
        || text::reads(n, "dist") || text::reads(n, "target") || text::reads(n, "coverage")
        || text::reads(n, ".next") || text::reads(n, ".output") || text::reads(n, "build"))
        && !text::starts_with(n, ".")
}

/// The path of a file from the root, as it is shown; empty where the file is
/// not under the root.
pub open spec fn display_of(root: Seq<char>, file: Seq<char>) -> Seq<char> {
    match path::relative_to(file, root) {
        Some(rel) => text::replaced(rel, '\\', '/'),
        None => Seq::empty(),
    }
}

/// The files that are indexed, in the order in which they were found.
pub open spec fn collected(root: Seq<char>, files: Seq<Seq<char>>) -> Seq<ItemView>
    decreases files.len(),
{
    if files.len() == 0 {
        Seq::empty()
    } else {
        let earlier = collected(root, files.drop_last());
        let file = files.last();
        if earlier.len() >= MAX_FILES || display_of(root, file).len() == 0 {
            earlier
        } else {
            earlier.push(ItemView { path: file, display: display_of(root, file) })
        }
    }
}

pub open spec fn display_le() -> spec_fn(ItemView, ItemView) -> bool {
    |a: ItemView, b: ItemView| !text::text_less(b.display, a.display)
}

/// The index of the files that were found under the root.
pub open spec fn index_of(root: Seq<char>, files: Seq<Seq<char>>) -> Seq<ItemView> {
    sort::sorted(collected(root, files), display_le())
}

fn display(root: &str, file: &str) -> (r: String)
    ensures
        r@ == display_of(root@, file@),
{
    match path::strip_prefix(file, root) {
        Some(rel) => {
            let rel: Vec<char> = text::chars_of(rel.as_str());
            let shown: Vec<char> = text::replace(rel.as_slice(), '\\', '/');
            text::text_of(shown.as_slice())
        },
        None => String::new(),
    }
}

/// The index of the files that were found under the root.
pub fn index_files(root: &str, files: &Vec<String>) -> (r: Vec<Item>)
    ensures
        items_view(r@) == index_of(root@, text::texts(files@)),
{
    let ghost all = text::texts(files@);
    let mut found: Vec<Item> = Vec::new();
    let mut names: Vec<String> = Vec::new();
    let mut i: usize = 0;
    assert(all.take(0) =~= Seq::<Seq<char>>::empty());
    assert(items_view(found@) =~= Seq::<ItemView>::empty());
    while i < files.len()
        invariant
            i <= files.len(),
            all == text::texts(files@),
            items_view(found@) == collected(root@, all.take(i as int)),
            names@.len() == found@.len(),
            forall|k: int| 0 <= k < names@.len() ==> #[trigger] names@[k]@ == found@[k].display@,
        decreases files.len() - i,
    {
        proof {
            assert(all.take(i + 1).drop_last() =~= all.take(i as int));
            assert(all.take(i + 1).last() == files@[i as int]@);
            assert(items_view(found@).len() == found@.len());
        }
        let shown: String = display(root, files[i].as_str());
        let chars: Vec<char> = text::chars_of(shown.as_str());
        if found.len() < MAX_FILES && chars.len() > 0 {
            let ghost before = items_view(found@);
            let ghost new = ItemView { path: files@[i as int]@, display: shown@ };
            names.push(shown.clone());
            found.push(Item { path: files[i].clone(), display: shown });
            assert(items_view(found@) =~= before.push(new));
        }
        i = i + 1;
    }
    assert(all.take(all.len() as int) =~= all);
    let p: Vec<usize> = sort::order_texts(&names);
    let ghost s = items_view(found@);
    let ghost q = sort::positions(p@);
    proof {
        assert forall|i: int, j: int| 0 <= i < j < q.len() implies sort::comes_before(
            s,
            display_le(),
            #[trigger] q[i],
            #[trigger] q[j],
        ) by {
            let t = text::texts(names@);
            assert(sort::comes_before(t, sort::text_le(), q[i], q[j]));
            assert(t[q[i]] == names@[q[i]]@ && t[q[j]] == names@[q[j]]@);
            assert(s[q[i]].display == found@[q[i]].display@ && s[q[j]].display
                == found@[q[j]].display@);
        }
        assert(sort::is_order(s, display_le(), q));
        sort::order_sorts(s, display_le(), q);
    }
    let mut out: Vec<Item> = Vec::new();
    let mut k: usize = 0;
    while k < p.len()
        invariant
            k <= p.len(),
            out@.len() == k,
            s == items_view(found@),
            q == sort::positions(p@),
            sort::is_order(s, display_le(), q),
            forall|m: int| 0 <= m < k ==> #[trigger] out@[m]@ == s[p@[m] as int],
        decreases p.len() - k,
    {
        assert(q[k as int] == p@[k as int]);
        let item: &Item = &found[p[k]];
        out.push(Item { path: item.path.clone(), display: item.display.clone() });
        k = k + 1;
    }
    assert(items_view(out@) =~= sort::picked(s, q));
    out
}

// ---------------------------------------------------------------------------
// Scoring
// ---------------------------------------------------------------------------

/// How long a query may be, so that a score fits in 64 bits.
pub const MAX_QUERY: u64 = 0x0300_0000_0000_0000;

/// Whether case counts: a query with an upper-case letter demands exact case.
pub open spec fn case_counts(query: Seq<char>) -> bool {
    exists|i: int| 0 <= i < query.len() && text::uppercase(#[trigger] query[i])
}

/// A character as it is compared: as it is where case counts, else in lower
/// case, which for some characters is more than one.
pub open spec fn folded(c: char, exact: bool) -> Seq<char> {
    if exact {
        seq![c]
    } else {
        text::lowercase(seq![c])
    }
}

/// The first character of `t` from `from` on that matches `c`.
pub open spec fn match_from(t: Seq<char>, c: char, exact: bool, from: int) -> Option<int>
    decreases t.len() - from,
{
    if from < 0 || from >= t.len() {
        None
    } else if folded(t[from], exact) == folded(c, exact) {
        Some(from)
    } else {
        match_from(t, c, exact, from + 1)
    }
}

/// Where the file name starts in a path.
pub open spec fn basename_start(t: Seq<char>) -> int {
    match text::char_before(t, '/', t.len() as int) {
        Some(i) => i + 1,
        None => 0,
    }
}

/// What a match at `i` is worth, `prev` being the match before it: runs, word
/// starts, the file name and camel case count for it, gaps against it.
pub open spec fn worth(t: Seq<char>, prev: Option<int>, i: int) -> int {
    (match prev {
        Some(p) => if i == p + 1 {
            12int
        } else if i - p - 1 < 8 {
            -(i - p - 1)
        } else {
            -8
        },
        None => 0,
    }) + (if i == 0 || !text::is_ascii_word(t[i - 1]) {
        14int
    } else {
        0
    }) + (if i >= basename_start(t) {
        4int
    } else {
        0
    }) + (if text::is_ascii_upper(t[i]) && i > 0 && text::is_ascii_lower(t[i - 1]) {
        8int
    } else {
        0
    })
}

/// The score and the matched places of the query from its `k`-th character on:
/// each character takes the first match behind that of the one before it.
pub open spec fn score_from(
    query: Seq<char>,
    k: int,
    t: Seq<char>,
    prev: Option<int>,
    exact: bool,
) -> Option<(int, Seq<int>)>
    decreases query.len() - k,
{
    if k < 0 || k >= query.len() {
        Some((0, Seq::empty()))
    } else {
        let start = match prev {
            Some(p) => p + 1,
            None => 0,
        };
        match match_from(t, query[k], exact, start) {
            Some(i) => match score_from(query, k + 1, t, Some(i), exact) {
                Some((rest, places)) => Some((worth(t, prev, i) + rest, seq![i] + places)),
                None => None,
            },
            None => None,
        }
    }
}

/// The score of a text for a query, and the places that match.
pub open spec fn score_of(query: Seq<char>, t: Seq<char>) -> Option<(int, Seq<int>)> {
    score_from(query, 0, t, None, case_counts(query))
}

pub open spec fn places_view(v: Seq<usize>) -> Seq<int> {
    v.map_values(|i: usize| i as int)
}

fn has_uppercase(query: &Vec<char>) -> (r: bool)
    ensures
        r == case_counts(query@),
{
    let mut i: usize = 0;
    while i < query.len()
        invariant
            i <= query.len(),
            forall|k: int| 0 <= k < i ==> !text::uppercase(#[trigger] query@[k]),
        decreases query.len() - i,
    {
        if query[i].is_uppercase() {
            assert(text::uppercase(query@[i as int]));
            return true;
        }
        i = i + 1;
    }
    false
}

fn fold(c: char, exact: bool) -> (r: String)
    ensures
        r@ == folded(c, exact),
{
    let mut one: String = String::new();
    one.push(c);
    assert(one@ =~= seq![c]);
    if exact {
        one
    } else {
        one.as_str().to_lowercase()
    }
}

fn find_match(t: &Vec<char>, c: char, exact: bool, from: usize) -> (r: Option<usize>)
    ensures
        text::position(r) == match_from(t@, c, exact, from as int),
        r matches Some(i) ==> from <= i < t.len(),
{
    let wanted: String = fold(c, exact);
    let mut i: usize = from;
    while i < t.len()
        invariant
            from <= i,
            wanted@ == folded(c, exact),
            match_from(t@, c, exact, from as int) == match_from(t@, c, exact, i as int),
        decreases t.len() - i,
    {
        if text::equal(fold(t[i], exact).as_str(), wanted.as_str()) {
            return Some(i);
        }
        i = i + 1;
    }
    None
}

fn word_char(c: char) -> (r: bool)
    ensures
        r == text::is_ascii_word(c),
{
    text::ascii_upper(c) || text::ascii_lower_case(c) || text::digit(c)
}

fn match_worth(t: &Vec<char>, prev: Option<usize>, i: usize, base: usize) -> (r: i64)
    requires
        i < t.len(),
        base == basename_start(t@),
        prev matches Some(p) ==> p < i,
    ensures
        r == worth(t@, text::position(prev), i as int),
        -8 <= r <= 38,
{
    let mut s: i64 = 0;
    match prev {
        Some(p) => {
            if i == p + 1 {
                s = s + 12;
            } else if i - p - 1 < 8 {
                s = s - (i - p - 1) as i64;
            } else {
                s = s - 8;
            }
        },
        None => {},
    }
    if i == 0 || !word_char(t[i - 1]) {
        s = s + 14;
    }
    if i >= base {
        s = s + 4;
    }
    if text::ascii_upper(t[i]) && i > 0 && text::ascii_lower_case(t[i - 1]) {
        s = s + 8;
    }
    s
}

/// Smart-case subsequence scoring: the score, the higher the better, and the
/// places of the matched characters, or nothing where the query is not a
/// subsequence of the text. A query with an upper-case letter demands exact
/// case; otherwise case does not count.
pub fn score(query: &str, text: &str) -> (r: Option<(i64, Vec<usize>)>)
    requires
        query@.len() <= MAX_QUERY,
    ensures
        match r {
            Some((s, places)) => score_of(query@, text@) == Some((s as int, places_view(places@))),
            None => score_of(query@, text@) is None,
        },
{
    let q: Vec<char> = text::chars_of(query);
    let t: Vec<char> = text::chars_of(text);
    let exact: bool = has_uppercase(&q);
    let base: usize = match text::rfind_char(t.as_slice(), '/') {
        Some(i) => i + 1,
        None => 0,
    };
    let mut total: i64 = 0;
    let mut places: Vec<usize> = Vec::new();
    let mut prev: Option<usize> = None;
    let mut k: usize = 0;
    proof {
        if let Some((rest, more)) = score_of(query@, text@) {
            assert(places_view(places@) + more =~= more);
        }
    }
    while k < q.len()
        invariant
            q@ == query@,
            t@ == text@,
            exact == case_counts(query@),
            base == basename_start(t@),
            k <= q.len() <= MAX_QUERY,
            -8 * k <= total <= 38 * k,
            prev matches Some(p) ==> p < t.len(),
            score_of(query@, text@) == (match score_from(
                q@,
                k as int,
                t@,
                text::position(prev),
                exact,
            ) {
                Some((rest, more)) => Some((total + rest, places_view(places@) + more)),
                None => None,
            }),
        decreases q.len() - k,
    {
        let start: usize = match prev {
            Some(p) => p + 1,
            None => 0,
        };
        match find_match(&t, q[k], exact, start) {
            Some(i) => {
                let s: i64 = match_worth(&t, prev, i, base);
                let ghost before = places_view(places@);
                places.push(i);
                proof {
                    assert(places_view(places@) =~= before.push(i as int));
                    if let Some((rest, more)) = score_from(q@, k + 1, t@, Some(i as int), exact) {
                        assert(before + (seq![i as int] + more) =~= places_view(places@) + more);
                    }
                }
                total = total + s;
                prev = Some(i);
            },
            None => {
                return None;
            },
        }
        k = k + 1;
    }
    assert(places_view(places@) + Seq::<int>::empty() =~= places_view(places@));
    Some((total, places))
}

// ---------------------------------------------------------------------------
// Searching
// ---------------------------------------------------------------------------

/// A match: which item, its score, and the matched places.
#[derive(Debug)]
pub struct Scored {
    pub index: usize,
    pub score: i64,
    pub indices: Vec<usize>,
}

#[verifier::ext_equal]
pub struct ScoredView {
    pub index: int,
    pub score: int,
    pub indices: Seq<int>,
}

impl View for Scored {
    type V = ScoredView;

    open spec fn view(&self) -> ScoredView {
        ScoredView {
            index: self.index as int,
            score: self.score as int,
            indices: places_view(self.indices@),
        }
    }
}

pub open spec fn results_view(v: Seq<Scored>) -> Seq<ScoredView> {
    v.map_values(|s: Scored| s@)
}

/// The matches among the first `n` items, in the order of the items.
pub open spec fn matches_before(query: Seq<char>, items: Seq<ItemView>, n: int) -> Seq<ScoredView>
    decreases n,
{
    if n <= 0 || n > items.len() {
        Seq::empty()
    } else {
        let earlier = matches_before(query, items, n - 1);
        match score_of(query, items[n - 1].display) {
            Some((score, indices)) => earlier.push(ScoredView { index: n - 1, score, indices }),
            None => earlier,
        }
    }
}

/// How many bytes the shown path of an item has.
pub open spec fn display_bytes(items: Seq<ItemView>, index: int) -> int {
    encode_utf8(items[index].display).len() as int
}

/// A match comes no later than another: a higher score, then a shorter path,
/// then the order of the items.
pub open spec fn match_le(items: Seq<ItemView>) -> spec_fn(ScoredView, ScoredView) -> bool {
    |a: ScoredView, b: ScoredView|
        a.score > b.score || (a.score == b.score && (display_bytes(items, a.index) < display_bytes(
            items,
            b.index,
        ) || (display_bytes(items, a.index) == display_bytes(items, b.index) && a.index
            <= b.index)))
}

/// What a search finds: everything in order for the empty query, the matches
/// best first for any other.
pub open spec fn search_of(query: Seq<char>, items: Seq<ItemView>) -> Seq<ScoredView> {
    let all = matches_before(query, items, items.len() as int);
    if query.len() == 0 {
        all
    } else {
        sort::sorted(all, match_le(items))
    }
}

/// What a match is ranked by.
pub struct Rank {
    pub score: i64,
    pub bytes: usize,
    pub index: usize,
}

impl Ranked for Rank {
    open spec fn ranks_le(self, other: Self) -> bool {
        self.score > other.score || (self.score == other.score && (self.bytes < other.bytes || (
        self.bytes == other.bytes && self.index <= other.index)))
    }

    proof fn ranks_total(a: Self, b: Self) {
    }

    proof fn ranks_transitive(a: Self, b: Self, c: Self) {
    }

    fn no_higher(&self, other: &Self) -> (r: bool) {
        self.score > other.score || (self.score == other.score && (self.bytes < other.bytes || (
        self.bytes == other.bytes && self.index <= other.index)))
    }
}

fn find_matches(query: &str, items: &Vec<Item>) -> (r: Vec<Scored>)
    requires
        query@.len() <= MAX_QUERY,
    ensures
        results_view(r@) == matches_before(query@, items_view(items@), items@.len() as int),
        forall|k: int| 0 <= k < r@.len() ==> (#[trigger] r@[k]).index < items@.len(),
{
    let ghost all = items_view(items@);
    let mut out: Vec<Scored> = Vec::new();
    let mut i: usize = 0;
    assert(results_view(out@) =~= Seq::<ScoredView>::empty());
    while i < items.len()
        invariant
            i <= items.len(),
            query@.len() <= MAX_QUERY,
            all == items_view(items@),
            results_view(out@) == matches_before(query@, all, i as int),
            forall|k: int| 0 <= k < out@.len() ==> (#[trigger] out@[k]).index < i,
        decreases items.len() - i,
    {
        assert(all[i as int].display == items@[i as int].display@);
        match score(query, items[i].display.as_str()) {
            Some((score, indices)) => {
                let ghost before = results_view(out@);
                let one = Scored { index: i, score, indices };
                let ghost new = one@;
                out.push(one);
                assert(results_view(out@) =~= before.push(new));
            },
            None => {},
        }
        i = i + 1;
    }
    out
}

/// Search the index: everything in order for the empty query; for any other
/// the matches by score, then the shorter paths, then the order of the items.
pub fn search(query: &str, items: &Vec<Item>) -> (r: Vec<Scored>)
    requires
        query@.len() <= MAX_QUERY,
    ensures
        results_view(r@) == search_of(query@, items_view(items@)),
        forall|k: int| 0 <= k < r@.len() ==> (#[trigger] r@[k]).index < items@.len(),
{
    let found: Vec<Scored> = find_matches(query, items);
    let q: Vec<char> = text::chars_of(query);
    if q.len() == 0 {
        return found;
    }
    let ghost all = items_view(items@);
    let mut ranks: Vec<Rank> = Vec::new();
    let mut i: usize = 0;
    while i < found.len()
        invariant
            i <= found.len(),
            ranks@.len() == i,
            all == items_view(items@),
            forall|k: int| 0 <= k < found@.len() ==> (#[trigger] found@[k]).index < items@.len(),
            forall|k: int|
                0 <= k < i ==> (#[trigger] ranks@[k]).score == found@[k].score && ranks@[k].index
                    == found@[k].index && ranks@[k].bytes == display_bytes(
                    all,
                    found@[k].index as int,
                ),
        decreases found.len() - i,
    {
        let index: usize = found[i].index;
        assert(all[index as int].display == items@[index as int].display@);
        let bytes: usize = items[index].display.as_str().as_bytes().len();
        ranks.push(Rank { score: found[i].score, bytes, index });
        i = i + 1;
    }
    let p: Vec<usize> = sort::order(&ranks);
    let ghost s = results_view(found@);
    let ghost pos = sort::positions(p@);
    let ghost le = match_le(all);
    proof {
        assert forall|i: int, j: int| 0 <= i < j < pos.len() implies sort::comes_before(
            s,
            le,
            #[trigger] pos[i],
            #[trigger] pos[j],
        ) by {
            let a = pos[i];
            let b = pos[j];
            assert(sort::comes_before(ranks@, sort::key_le(), a, b));
            assert(s[a] == found@[a]@ && s[b] == found@[b]@);
            assert(le(s[a], s[b]) == ranks@[a].ranks_le(ranks@[b]));
            assert(le(s[b], s[a]) == ranks@[b].ranks_le(ranks@[a]));
        }
        assert(sort::is_order(s, le, pos));
        sort::order_sorts(s, le, pos);
    }
    let mut out: Vec<Scored> = Vec::new();
    let mut k: usize = 0;
    while k < p.len()
        invariant
            k <= p.len(),
            out@.len() == k,
            s == results_view(found@),
            pos == sort::positions(p@),
            sort::is_order(s, le, pos),
            forall|m: int| 0 <= m < found@.len() ==> (#[trigger] found@[m]).index < items@.len(),
            forall|m: int| 0 <= m < k ==> #[trigger] out@[m]@ == s[p@[m] as int],
            forall|m: int| 0 <= m < k ==> (#[trigger] out@[m]).index < items@.len(),
        decreases p.len() - k,
    {
        assert(pos[k as int] == p@[k as int]);
        let one: &Scored = &found[p[k]];
        let indices: Vec<usize> = copy_places(&one.indices);
        let copy = Scored { index: one.index, score: one.score, indices };
        assert(copy@ =~= s[p@[k as int] as int]);
        out.push(copy);
        k = k + 1;
    }
    assert(results_view(out@) =~= sort::picked(s, pos));
    out
}

fn copy_places(v: &Vec<usize>) -> (r: Vec<usize>)
    ensures
        r@ == v@,
{
    let mut out: Vec<usize> = Vec::new();
    let mut i: usize = 0;
    while i < v.len()
        invariant
            i <= v.len(),
            out@ == v@.take(i as int),
        decreases v.len() - i,
    {
        out.push(v[i]);
        i = i + 1;
    }
    assert(v@.take(v@.len() as int) =~= v@);
    out
}

// ---------------------------------------------------------------------------
// The popup
// ---------------------------------------------------------------------------

/// The state of the popup: the query, what it finds, and the result that the
/// cursor is on.
pub struct Finder {
    pub query: String,
    items: Vec<Item>,
    pub results: Vec<Scored>,
    cursor: usize,
}

impl Finder {
    /// The query.
    pub closed spec fn asked(&self) -> Seq<char> {
        self.query@
    }

    /// The results, best first.
    pub closed spec fn found(&self) -> Seq<ScoredView> {
        results_view(self.results@)
    }

    /// The indexed files.
    pub closed spec fn items(&self) -> Seq<ItemView> {
        items_view(self.items@)
    }

    /// The result that the cursor is on, counted from zero.
    pub closed spec fn at(&self) -> int {
        self.cursor as int
    }

    /// The query can be scored, the results are those of the query, and the
    /// cursor is on one of them where there is one.
    pub closed spec fn wf(&self) -> bool {
        &&& self.query@.len() <= MAX_QUERY
        &&& results_view(self.results@) == search_of(self.query@, self.items())
        &&& forall|k: int|
            0 <= k < self.results@.len() ==> (#[trigger] self.results@[k]).index
                < self.items().len()
        &&& 0 <= self.at()
        &&& self.at() < self.results@.len() || self.at() == 0
    }

    /// What holds of every finder: the results are those of the query, each is
    /// one of the indexed files, and the cursor is on one of them where there is
    /// one.
    pub proof fn results_are_current(&self)
        requires
            self.wf(),
        ensures
            self.asked().len() <= MAX_QUERY,
            self.found() == search_of(self.asked(), self.items()),
            forall|k: int|
                0 <= k < self.found().len() ==> 0 <= (#[trigger] self.found()[k]).index
                    < self.items().len(),
            0 <= self.at(),
            self.at() < self.found().len() || self.at() == 0,
    {
        assert forall|k: int| 0 <= k < self.found().len() implies 0 <= (#[trigger] self.found()[k]).index
            < self.items().len() by {
            assert(self.found()[k] == self.results@[k]@);
        }
    }

    /// The path of the result that the cursor is on, where there is one.
    pub open spec fn selection(&self) -> Option<Seq<char>> {
        if self.at() < self.found().len() {
            Some(self.items()[self.found()[self.at()].index].path)
        } else {
            None
        }
    }

    /// What is selected in a finder over the files below a root is the root
    /// joined with the path that is shown, where no name holds a backslash; there
    /// is a selection exactly when there is a result.
    pub proof fn selection_is_what_is_shown(&self, root: Seq<char>, files: Seq<Seq<char>>)
        requires
            self.wf(),
            self.items() == index_of(root, files),
            forall|k: int| 0 <= k < files.len() ==> is_below(root, #[trigger] files[k]),
        ensures
            self.selection() is None <==> self.found().len() == 0,
            self.selection() matches Some(p) ==> p == path::join_of(
                root,
                self.items()[self.found()[self.at()].index].display,
            ),
    {
        self.results_are_current();
        indexed_paths_are_joined(root, files);
        if self.at() < self.found().len() {
            let index = self.found()[self.at()].index;
            assert(self.items()[index].path == path::join_of(root, self.items()[index].display));
        }
    }

    /// Open the finder over the files that were found under the root.
    pub fn open(root: &str, files: &Vec<String>) -> (r: Finder)
        ensures
            r.wf(),
            r.asked() == Seq::<char>::empty(),
            r.items() == index_of(root@, text::texts(files@)),
            r.at() == 0,
    {
        let mut finder = Finder {
            query: String::new(),
            items: index_files(root, files),
            results: Vec::new(),
            cursor: 0,
        };
        finder.recompute();
        finder
    }

    /// How many results there are.
    pub fn result_count(&self) -> (r: usize)
        ensures
            r == self.found().len(),
    {
        self.results.len()
    }

    /// The result that the cursor is on, counted from zero.
    pub fn cursor(&self) -> (r: usize)
        ensures
            r == self.at(),
    {
        self.cursor
    }

    fn recompute(&mut self)
        requires
            old(self).asked().len() <= MAX_QUERY,
        ensures
            final(self).wf(),
            final(self).asked() == old(self).asked(),
            final(self).items() == old(self).items(),
            final(self).at() == 0,
    {
        self.results = search(self.query.as_str(), &self.items);
        self.cursor = 0;
    }

    /// Add a character to the query.
    pub fn push(&mut self, c: char)
        requires
            old(self).asked().len() < MAX_QUERY,
        ensures
            adds(*old(self), c, *final(self)),
    {
        self.query.push(c);
        self.recompute();
    }

    /// Take the last character off the query.
    pub fn pop(&mut self)
        requires
            old(self).wf(),
        ensures
            takes_off(*old(self), *final(self)),
    {
        self.query.pop();
        self.recompute();
    }

    /// Empty the query.
    pub fn clear(&mut self)
        ensures
            final(self).wf(),
            final(self).asked() == Seq::<char>::empty(),
            final(self).items() == old(self).items(),
            final(self).at() == 0,
    {
        self.query.clear();
        self.recompute();
    }

    /// Move the cursor down, as far as there are results.
    pub fn move_down(&mut self)
        requires
            old(self).wf(),
        ensures
            final(self).wf(),
            final(self).asked() == old(self).asked(),
            final(self).found() == old(self).found(),
            final(self).items() == old(self).items(),
            final(self).at() == (if old(self).at() + 1 < old(self).found().len() {
                old(self).at() + 1
            } else {
                old(self).at()
            }),
    {
        if self.cursor < self.results.len() && self.cursor + 1 < self.results.len() {
            self.cursor = self.cursor + 1;
        }
    }

    /// Move the cursor up, as far as there are results.
    pub fn move_up(&mut self)
        requires
            old(self).wf(),
        ensures
            final(self).wf(),
            final(self).asked() == old(self).asked(),
            final(self).found() == old(self).found(),
            final(self).items() == old(self).items(),
            final(self).at() == (if old(self).at() > 0 {
                old(self).at() - 1
            } else {
                0
            }),
    {
        if self.cursor > 0 {
            self.cursor = self.cursor - 1;
        }
    }

    /// The query.
    pub fn asked_text(&self) -> (r: &str)
        ensures
            r@ == self.asked(),
    {
        self.query.as_str()
    }

    /// The `k`-th result.
    pub fn result_at(&self, k: usize) -> (r: &Scored)
        requires
            k < self.found().len(),
        ensures
            r@ == self.found()[k as int],
    {
        &self.results[k]
    }

    /// The path of an item as it is shown.
    pub fn item_display(&self, index: usize) -> (r: &str)
        requires
            index < self.items().len(),
        ensures
            r@ == self.items()[index as int].display,
    {
        self.items[index].display.as_str()
    }

    /// The path of the result that the cursor is on.
    pub fn selected_path(&self) -> (r: Option<&str>)
        requires
            self.wf(),
        ensures
            text::opt_str(r) == self.selection(),
    {
        if self.cursor < self.results.len() {
            let index: usize = self.results[self.cursor].index;
            Some(self.items[index].path.as_str())
        } else {
            None
        }
    }
}

/// The finder `after` is `before` once a character was added to its query: what
/// it finds is that of the longer query, and the cursor is on the first result.
pub open spec fn adds(before: Finder, c: char, after: Finder) -> bool {
    &&& after.wf()
    &&& after.asked() == before.asked().push(c)
    &&& after.items() == before.items()
    &&& after.at() == 0
}

/// The finder `after` is `before` once the last character, where there is one,
/// was taken off its query: what it finds is that of the shorter query, and the
/// cursor is on the first result.
pub open spec fn takes_off(before: Finder, after: Finder) -> bool {
    &&& after.wf()
    &&& after.asked() == (if before.asked().len() > 0 {
        before.asked().drop_last()
    } else {
        before.asked()
    })
    &&& after.items() == before.items()
    &&& after.at() == 0
}

/// Where the run of characters ends that starts at `i` and that are all matched,
/// or all not.
pub open spec fn run_end(len: int, places: Seq<int>, i: int, hit: bool) -> int
    decreases len - i,
{
    if i < len && places.contains(i) == hit {
        run_end(len, places, i + 1, hit)
    } else {
        i
    }
}

proof fn run_end_bounds(len: int, places: Seq<int>, i: int, hit: bool)
    requires
        0 <= i <= len,
    ensures
        i <= run_end(len, places, i, hit) <= len,
        i < len && places.contains(i) == hit ==> i < run_end(len, places, i, hit),
        forall|j: int| i <= j < run_end(len, places, i, hit) ==> places.contains(j) == hit,
    decreases len - i,
{
    if i < len && places.contains(i) == hit {
        run_end_bounds(len, places, i + 1, hit);
    }
}

/// The style of a result row: the selected one has a background.
pub open spec fn row_style(selected: bool) -> Style {
    Style {
        bg: if selected {
            Some(Color::DarkGray)
        } else {
            None
        },
        ..style::plain()
    }
}

/// The style of matched and of other characters.
pub open spec fn char_style(selected: bool, hit: bool) -> Style {
    if hit {
        Style { fg: Some(Color::Cyan), bold: true, ..row_style(selected) }
    } else {
        row_style(selected)
    }
}

/// The pieces of a result row from `i` on: runs of matched characters are
/// highlighted.
pub open spec fn line_from(
    display: Seq<char>,
    places: Seq<int>,
    selected: bool,
    i: int,
) -> Seq<SpanView>
    decreases display.len() - i,
    when 0 <= i
    via line_from_decreases
{
    if i >= display.len() {
        Seq::empty()
    } else {
        let hit = places.contains(i);
        let end = run_end(display.len() as int, places, i, hit);
        seq![
            SpanView { content: display.subrange(i, end), style: char_style(selected, hit) },
        ] + line_from(display, places, selected, end)
    }
}

#[via_fn]
proof fn line_from_decreases(display: Seq<char>, places: Seq<int>, selected: bool, i: int) {
    if i < display.len() {
        run_end_bounds(display.len() as int, places, i, places.contains(i));
    }
}

fn is_place(places: &[usize], i: usize) -> (r: bool)
    ensures
        r == places_view(places@).contains(i as int),
{
    let mut k: usize = 0;
    while k < places.len()
        invariant
            k <= places.len(),
            forall|j: int| 0 <= j < k ==> places@[j] != i,
        decreases places.len() - k,
    {
        if places[k] == i {
            assert(places_view(places@)[k as int] == i as int);
            return true;
        }
        k = k + 1;
    }
    proof {
        if places_view(places@).contains(i as int) {
            let j = choose|j: int|
                0 <= j < places_view(places@).len() && places_view(places@)[j] == i as int;
            assert(places@[j] == i);
        }
    }
    false
}

/// The pieces of a result row: matched characters in bold cyan, everything on
/// the background of the row.
pub fn result_line(display: &str, indices: &[usize], selected: bool) -> (r: Vec<Span>)
    ensures
        style::spans_view(r@) == line_from(display@, places_view(indices@), selected, 0),
{
    let chars: Vec<char> = text::chars_of(display);
    let bg: Option<Color> = if selected {
        Some(Color::DarkGray)
    } else {
        None
    };
    let ghost places = places_view(indices@);
    let mut out: Vec<Span> = Vec::new();
    let mut i: usize = 0;
    assert(style::spans_view(out@) + line_from(display@, places, selected, 0) =~= line_from(
        display@,
        places,
        selected,
        0,
    ));
    while i < chars.len()
        invariant
            i <= chars.len(),
            chars@ == display@,
            places == places_view(indices@),
            bg == row_style(selected).bg,
            style::spans_view(out@) + line_from(display@, places, selected, i as int) == line_from(
                display@,
                places,
                selected,
                0,
            ),
        decreases chars.len() - i,
    {
        let hit: bool = is_place(indices, i);
        let mut end: usize = i;
        while end < chars.len() && is_place(indices, end) == hit
            invariant
                i <= end <= chars.len(),
                chars@ == display@,
                places == places_view(indices@),
                run_end(display@.len() as int, places, i as int, hit) == run_end(
                    display@.len() as int,
                    places,
                    end as int,
                    hit,
                ),
            decreases chars.len() - end,
        {
            end = end + 1;
        }
        proof {
            run_end_bounds(display@.len() as int, places, i as int, hit);
        }
        let content: String = text::text_of(
            vstd::slice::slice_subrange(chars.as_slice(), i, end),
        );
        let style: Style = if hit {
            Style { fg: Some(Color::Cyan), bg, bold: true }
        } else {
            Style { fg: None, bg, bold: false }
        };
        let ghost before = style::spans_view(out@);
        let ghost rest = line_from(display@, places, selected, end as int);
        let one = Span { content, style };
        let ghost new = one@;
        out.push(one);
        proof {
            assert(style::spans_view(out@) =~= before.push(new));
            assert(before + (seq![new] + rest) =~= style::spans_view(out@) + rest);
        }
        i = end;
    }
    assert(style::spans_view(out@) + Seq::<SpanView>::empty() =~= style::spans_view(out@));
    out
}

// ---------------------------------------------------------------------------
// Laws
// ---------------------------------------------------------------------------

/// Places in `t` from `from` on, one behind the other, that match the query from
/// its `k`-th character on.
pub open spec fn embeds(
    query: Seq<char>,
    k: int,
    t: Seq<char>,
    from: int,
    exact: bool,
    places: Seq<int>,
) -> bool {
    &&& places.len() == query.len() - k
    &&& forall|i: int|
        0 <= i < places.len() ==> from <= #[trigger] places[i] < t.len() && folded(
            t[places[i]],
            exact,
        ) == folded(query[k + i], exact)
    &&& forall|i: int, j: int| 0 <= i < j < places.len() ==> #[trigger] places[i] < #[trigger] places[j]
}

proof fn match_from_is_least(t: Seq<char>, c: char, exact: bool, from: int)
    requires
        0 <= from,
    ensures
        match match_from(t, c, exact, from) {
            Some(i) => from <= i < t.len() && folded(t[i], exact) == folded(c, exact) && forall|
                j: int,
            |
                from <= j < i ==> folded(#[trigger] t[j], exact) != folded(c, exact),
            None => forall|j: int|
                from <= j < t.len() ==> folded(#[trigger] t[j], exact) != folded(c, exact),
        },
    decreases t.len() - from,
{
    if from < t.len() && folded(t[from], exact) != folded(c, exact) {
        match_from_is_least(t, c, exact, from + 1);
    }
}

proof fn score_from_embeds(
    query: Seq<char>,
    k: int,
    t: Seq<char>,
    prev: Option<int>,
    exact: bool,
)
    requires
        0 <= k <= query.len(),
        prev matches Some(p) ==> 0 <= p,
    ensures
        score_from(query, k, t, prev, exact) matches Some((_, places)) ==> embeds(
            query,
            k,
            t,
            match prev {
                Some(p) => p + 1,
                None => 0,
            },
            exact,
            places,
        ),
    decreases query.len() - k,
{
    if k < query.len() {
        let start = match prev {
            Some(p) => p + 1,
            None => 0,
        };
        match_from_is_least(t, query[k], exact, start);
        if let Some(i) = match_from(t, query[k], exact, start) {
            score_from_embeds(query, k + 1, t, Some(i), exact);
            if let Some((_, rest)) = score_from(query, k + 1, t, Some(i), exact) {
                let all = seq![i] + rest;
                assert forall|m: int| 0 <= m < all.len() implies start <= #[trigger] all[m]
                    < t.len() && folded(t[all[m]], exact) == folded(query[k + m], exact) by {
                    if m > 0 {
                        assert(all[m] == rest[m - 1]);
                        assert(query[k + 1 + (m - 1)] == query[k + m]);
                    }
                }
                assert forall|m: int, n: int| 0 <= m < n < all.len() implies #[trigger] all[m]
                    < #[trigger] all[n] by {
                    assert(all[n] == rest[n - 1]);
                    if m > 0 {
                        assert(all[m] == rest[m - 1]);
                    }
                }
            }
        }
    }
}

proof fn embedding_scores(
    query: Seq<char>,
    k: int,
    t: Seq<char>,
    prev: Option<int>,
    exact: bool,
    places: Seq<int>,
)
    requires
        0 <= k <= query.len(),
        prev matches Some(p) ==> 0 <= p,
        embeds(
            query,
            k,
            t,
            match prev {
                Some(p) => p + 1,
                None => 0,
            },
            exact,
            places,
        ),
    ensures
        score_from(query, k, t, prev, exact) is Some,
    decreases query.len() - k,
{
    if k < query.len() {
        let start = match prev {
            Some(p) => p + 1,
            None => 0,
        };
        match_from_is_least(t, query[k], exact, start);
        assert(start <= places[0] < t.len());
        assert(folded(t[places[0]], exact) == folded(query[k + 0], exact));
        let i = match_from(t, query[k], exact, start)->0;
        assert(i <= places[0]);
        let rest = places.skip(1);
        assert forall|m: int| 0 <= m < rest.len() implies i + 1 <= #[trigger] rest[m] < t.len()
            && folded(t[rest[m]], exact) == folded(query[k + 1 + m], exact) by {
            assert(rest[m] == places[m + 1]);
            assert(places[0] < places[m + 1]);
            assert(query[k + (m + 1)] == query[k + 1 + m]);
        }
        assert forall|m: int, n: int| 0 <= m < n < rest.len() implies #[trigger] rest[m]
            < #[trigger] rest[n] by {
            assert(rest[m] == places[m + 1] && rest[n] == places[n + 1]);
        }
        embedding_scores(query, k + 1, t, Some(i), exact, rest);
    }
}

/// A match right behind the one before it is worth 12 more than the same match
/// on its own; a gap costs one for each character that it leaves out, up to
/// eight. So a run is worth at least 13 more than a gap.
pub proof fn runs_are_worth_more(t: Seq<char>, p: int, i: int)
    requires
        0 <= p < i - 1,
        i < t.len(),
    ensures
        worth(t, Some(i - 1), i) == worth(t, None, i) + 12,
        worth(t, Some(p), i) == worth(t, None, i) - (if i - p - 1 < 8 {
            i - p - 1
        } else {
            8
        }),
        worth(t, Some(i - 1), i) >= worth(t, Some(p), i) + 13,
{
}

/// Whether a match at `i` is inside a word: a letter or a digit stands before it,
/// and it does not start a word in camel case.
pub open spec fn is_inside(t: Seq<char>, i: int) -> bool {
    0 < i < t.len() && text::is_ascii_word(t[i - 1]) && !('A' <= t[i] <= 'Z' && 'a' <= t[i - 1]
        <= 'z')
}

/// Whether `i` is in the file name: no slash stands at it or behind it.
pub open spec fn is_in_name(t: Seq<char>, i: int) -> bool {
    forall|k: int| i <= k < t.len() ==> t[k] != '/'
}

/// In the file name as outside it, the start of a word is worth 14 more than a
/// place inside a word, and an upper-case letter behind a lower-case one is worth
/// 8 more.
pub proof fn word_starts_are_worth_more(t: Seq<char>, i: int, j: int)
    requires
        0 <= i < t.len(),
        is_inside(t, j),
        is_in_name(t, i) == is_in_name(t, j),
    ensures
        i == 0 ==> worth(t, None, i) == worth(t, None, j) + 14,
        i > 0 && !text::is_ascii_word(t[i - 1]) ==> worth(t, None, i) == worth(t, None, j) + 14,
        i > 0 && 'A' <= t[i] <= 'Z' && 'a' <= t[i - 1] <= 'z' ==> worth(t, None, i) == worth(
            t,
            None,
            j,
        ) + 8,
{
    name_starts_behind_the_slash(t, i);
    name_starts_behind_the_slash(t, j);
}

/// A place inside a word of the file name is worth 4 more than one inside a word
/// before it.
pub proof fn file_names_are_worth_more(t: Seq<char>, i: int, j: int)
    requires
        is_inside(t, i),
        is_inside(t, j),
        is_in_name(t, i),
        !is_in_name(t, j),
    ensures
        worth(t, None, i) == worth(t, None, j) + 4,
{
    name_starts_behind_the_slash(t, i);
    name_starts_behind_the_slash(t, j);
}

proof fn name_starts_behind_the_slash(t: Seq<char>, i: int)
    requires
        0 <= i < t.len(),
    ensures
        is_in_name(t, i) <==> i >= basename_start(t),
{
    text::char_before_is_greatest(t, '/', t.len() as int);
    if let Some(k) = text::char_before(t, '/', t.len() as int) {
        if i <= k {
            assert(t[k] == '/');
        }
    }
}

/// The letters, in either case, and the digits make up words; nothing else among
/// the ASCII characters does.
pub proof fn words_are_letters_and_digits(c: char)
    ensures
        text::is_ascii_word(c) <==> 'a' <= c <= 'z' || 'A' <= c <= 'Z' || '0' <= c <= '9',
{
}

/// What the places of the query from its `k`-th character on are worth, each
/// behind the one before it.
pub open spec fn worth_of_places(t: Seq<char>, prev: Option<int>, places: Seq<int>) -> int
    decreases places.len(),
{
    if places.len() == 0 {
        0
    } else {
        worth(t, prev, places[0]) + worth_of_places(t, Some(places[0]), places.skip(1))
    }
}

proof fn scores_add_up_from(
    query: Seq<char>,
    k: int,
    t: Seq<char>,
    prev: Option<int>,
    exact: bool,
)
    requires
        0 <= k <= query.len(),
    ensures
        score_from(query, k, t, prev, exact) matches Some((score, places)) ==> score
            == worth_of_places(t, prev, places),
    decreases query.len() - k,
{
    if k < query.len() {
        let start = match prev {
            Some(p) => p + 1,
            None => 0,
        };
        if let Some(i) = match_from(t, query[k], exact, start) {
            scores_add_up_from(query, k + 1, t, Some(i), exact);
            if let Some((_, rest)) = score_from(query, k + 1, t, Some(i), exact) {
                assert((seq![i] + rest).skip(1) =~= rest);
            }
        }
    }
}

/// The score of a text is what its matched places are worth together, each behind
/// the one before it.
pub proof fn scores_add_up(query: Seq<char>, t: Seq<char>)
    ensures
        score_of(query, t) matches Some((score, places)) ==> score == worth_of_places(
            t,
            None,
            places,
        ),
{
    scores_add_up_from(query, 0, t, None, case_counts(query));
}

/// Each character of the query takes the first place that matches it behind the
/// place of the one before it.
pub proof fn places_are_the_first(query: Seq<char>, t: Seq<char>, i: int, j: int)
    requires
        0 <= i < query.len(),
        score_of(query, t) is Some,
        (if i > 0 {
            (score_of(query, t)->0).1[i - 1] + 1
        } else {
            0
        }) <= j < (score_of(query, t)->0).1[i],
    ensures
        folded(t[j], case_counts(query)) != folded(query[i], case_counts(query)),
{
    first_places_from(query, 0, t, None, case_counts(query), i, j);
}

proof fn first_places_from(
    query: Seq<char>,
    k: int,
    t: Seq<char>,
    prev: Option<int>,
    exact: bool,
    i: int,
    j: int,
)
    requires
        0 <= k <= k + i < query.len(),
        prev matches Some(p) ==> 0 <= p,
        score_from(query, k, t, prev, exact) is Some,
        (if i > 0 {
            (score_from(query, k, t, prev, exact)->0).1[i - 1] + 1
        } else {
            match prev {
                Some(p) => p + 1,
                None => 0,
            }
        }) <= j < (score_from(query, k, t, prev, exact)->0).1[i],
    ensures
        folded(t[j], exact) != folded(query[k + i], exact),
    decreases i,
{
    let start = match prev {
        Some(p) => p + 1,
        None => 0,
    };
    match_from_is_least(t, query[k], exact, start);
    score_from_embeds(query, k, t, prev, exact);
    let m = match_from(t, query[k], exact, start)->0;
    score_from_embeds(query, k + 1, t, Some(m), exact);
    let rest = (score_from(query, k + 1, t, Some(m), exact)->0).1;
    let places = (score_from(query, k, t, prev, exact)->0).1;
    assert(places == seq![m] + rest);
    if i > 0 {
        assert(places[i] == rest[i - 1]);
        if i > 1 {
            assert(places[i - 1] == rest[i - 2]);
        }
        first_places_from(query, k + 1, t, Some(m), exact, i - 1, j);
    }
}

/// A text scores exactly when the query is a subsequence of it, and the places
/// that are reported ascend and match the query character by character.
pub proof fn scores_iff_subsequence(query: Seq<char>, t: Seq<char>)
    ensures
        score_of(query, t) is Some <==> exists|places: Seq<int>|
            embeds(query, 0, t, 0, case_counts(query), places),
        score_of(query, t) matches Some((_, places)) ==> embeds(
            query,
            0,
            t,
            0,
            case_counts(query),
            places,
        ),
{
    let exact = case_counts(query);
    score_from_embeds(query, 0, t, None, exact);
    if exists|places: Seq<int>| embeds(query, 0, t, 0, exact, places) {
        let places = choose|places: Seq<int>| embeds(query, 0, t, 0, exact, places);
        embedding_scores(query, 0, t, None, exact, places);
    }
}

/// The empty query lists everything, in the order of the index, each with the
/// score zero.
pub proof fn empty_query_lists_everything(items: Seq<ItemView>, n: int)
    requires
        0 <= n <= items.len(),
    ensures
        matches_before(Seq::empty(), items, n) == Seq::new(
            n as nat,
            |i: int| ScoredView { index: i, score: 0, indices: Seq::empty() },
        ),
        n == items.len() ==> search_of(Seq::empty(), items) == matches_before(
            Seq::empty(),
            items,
            n,
        ),
    decreases n,
{
    if n > 0 {
        empty_query_lists_everything(items, n - 1);
    }
    assert(matches_before(Seq::empty(), items, n) =~= Seq::new(
        n as nat,
        |i: int| ScoredView { index: i, score: 0, indices: Seq::empty() },
    ));
}

/// A search loses no match and adds none, and its results come best first.
pub proof fn search_ranks_matches(query: Seq<char>, items: Seq<ItemView>)
    requires
        query.len() > 0,
    ensures
        search_of(query, items).to_multiset() == matches_before(
            query,
            items,
            items.len() as int,
        ).to_multiset(),
        forall|i: int, j: int|
            0 <= i < j < search_of(query, items).len() ==> (#[trigger] search_of(
                query,
                items,
            )[i]).score >= (#[trigger] search_of(query, items)[j]).score,
{
    let all = matches_before(query, items, items.len() as int);
    let le = match_le(items);
    assert(sort::is_total(le));
    assert(sort::is_transitive(le));
    sort::sorted_is_permutation(all, le);
    sort::sorted_ascends(all, le);
    let s = search_of(query, items);
    assert forall|i: int, j: int| 0 <= i < j < s.len() implies (#[trigger] s[i]).score >= (
    #[trigger] s[j]).score by {
        assert(le(s[i], s[j]));
    }
}

/// Of two results with the same score the one with the shorter path comes first,
/// and of two with paths of one length the one that is indexed first.
pub proof fn shorter_paths_come_first(query: Seq<char>, items: Seq<ItemView>, i: int, j: int)
    requires
        query.len() > 0,
        0 <= i < j < search_of(query, items).len(),
        search_of(query, items)[i].score == search_of(query, items)[j].score,
    ensures
        ({
            let a = search_of(query, items)[i].index;
            let b = search_of(query, items)[j].index;
            let x = encode_utf8(items[a].display).len();
            let y = encode_utf8(items[b].display).len();
            x < y || (x == y && a <= b)
        }),
{
    let all = matches_before(query, items, items.len() as int);
    let le = match_le(items);
    assert(sort::is_total(le));
    assert(sort::is_transitive(le));
    sort::sorted_ascends(all, le);
    let s = search_of(query, items);
    assert(le(s[i], s[j]));
}

/// A query with an upper-case letter matches only characters that are the same, in
/// the same case.
pub proof fn upper_case_demands_exact_case(query: Seq<char>, t: Seq<char>, at: int, k: int)
    requires
        0 <= at < query.len(),
        'A' <= query[at] <= 'Z',
        score_of(query, t) is Some,
        0 <= k < query.len(),
    ensures
        t[(score_of(query, t)->0).1[k]] == query[k],
{
    assert(text::uppercase(query[at]));
    scores_iff_subsequence(query, t);
    let places = (score_of(query, t)->0).1;
    assert(folded(t[places[k]], true) == folded(query[0 + k], true));
    assert(seq![t[places[k]]][0] == seq![query[k]][0]);
}

/// A query of ASCII characters without an upper-case letter matches a letter in
/// either case.
pub proof fn lower_case_matches_either_case(query: Seq<char>, t: Seq<char>, k: int)
    requires
        forall|i: int|
            0 <= i < query.len() ==> #[trigger] query[i] <= '\u{7f}' && !('A' <= query[i] <= 'Z'),
        score_of(query, t) is Some,
        0 <= k < query.len(),
        t[(score_of(query, t)->0).1[k]] <= '\u{7f}',
    ensures
        ({
            let c = t[(score_of(query, t)->0).1[k]];
            c == query[k] || ('A' <= c <= 'Z' && (c as int) + 32 == query[k] as int)
        }),
{
    assert(!case_counts(query)) by {
        if case_counts(query) {
            let i = choose|i: int| 0 <= i < query.len() && text::uppercase(#[trigger] query[i]);
            assert(query[i] <= '\u{7f}');
        }
    }
    scores_iff_subsequence(query, t);
    let places = (score_of(query, t)->0).1;
    let c = t[places[k]];
    let q = query[k];
    assert(folded(c, false) == folded(query[0 + k], false));
    assert(seq![c][0] == c && seq![q][0] == q);
    assert(text::is_ascii_text(seq![c]));
    assert(text::is_ascii_text(seq![q]));
    assert(text::lowercase(seq![c])[0] == text::ascii_lower(c));
    assert(text::lowercase(seq![q])[0] == text::ascii_lower(q));
}

/// The index holds its files in the order of the paths that are shown, and no more
/// than are allowed.
pub proof fn index_is_in_order(root: Seq<char>, files: Seq<Seq<char>>, i: int, j: int)
    requires
        0 <= i < j < index_of(root, files).len(),
    ensures
        index_of(root, files).len() <= 50_000,
        !text::text_less(index_of(root, files)[j].display, index_of(root, files)[i].display),
{
    let all = collected(root, files);
    let le = display_le();
    let by_text = sort::text_le();
    sort::text_le_is_an_order();
    assert forall|a: ItemView, b: ItemView| #[trigger] le(a, b) || le(b, a) by {
        assert(by_text(a.display, b.display) || by_text(b.display, a.display));
    }
    assert forall|a: ItemView, b: ItemView, c: ItemView| #[trigger]
        le(a, b) && #[trigger] le(b, c) implies le(a, c) by {
        assert(by_text(a.display, b.display) && by_text(b.display, c.display));
    }
    sort::sorted_ascends(all, le);
    sort::sorted_is_permutation(all, le);
    collected_is_bounded(root, files);
    let items = index_of(root, files);
    assert(le(items[i], items[j]));
}

proof fn collected_is_bounded(root: Seq<char>, files: Seq<Seq<char>>)
    ensures
        collected(root, files).len() <= MAX_FILES,
    decreases files.len(),
{
    if files.len() > 0 {
        collected_is_bounded(root, files.drop_last());
    }
}

/// Every file below the root is indexed, as long as there are not too many.
pub proof fn files_below_the_root_are_indexed(root: Seq<char>, files: Seq<Seq<char>>, k: int)
    requires
        0 <= k < files.len() <= 50_000,
        is_below(root, files[k]),
    ensures
        exists|i: int|
            0 <= i < index_of(root, files).len() && (#[trigger] index_of(root, files)[i]).path
                == files[k],
{
    collected_holds(root, files, k);
    let all = collected(root, files);
    let x = choose|x: int| 0 <= x < all.len() && (#[trigger] all[x]).path == files[k];
    sort::sorted_holds_the_same(all, display_le());
    let items = index_of(root, files);
    assert(items.contains(all[x]));
    let i = choose|i: int| 0 <= i < items.len() && items[i] == all[x];
    assert(items[i].path == files[k]);
}

proof fn collected_holds(root: Seq<char>, files: Seq<Seq<char>>, k: int)
    requires
        0 <= k < files.len() <= MAX_FILES,
        is_below(root, files[k]),
    ensures
        exists|x: int|
            0 <= x < collected(root, files).len() && (#[trigger] collected(root, files)[x]).path
                == files[k],
        collected(root, files).len() <= files.len(),
    decreases files.len(),
{
    let head = files.drop_last();
    let earlier = collected(root, head);
    let all = collected(root, files);
    collected_is_no_longer(root, head);
    if k < files.len() - 1 {
        assert(head[k] == files[k]);
        collected_holds(root, head, k);
        let x = choose|x: int| 0 <= x < earlier.len() && (#[trigger] earlier[x]).path == files[k];
        assert(all[x] == earlier[x]);
    } else {
        assert(files.last() == files[k]);
        shown_path_is_joined(root, files[k]);
        assert(all[all.len() - 1].path == files[k]);
    }
}

proof fn collected_is_no_longer(root: Seq<char>, files: Seq<Seq<char>>)
    ensures
        collected(root, files).len() <= files.len(),
    decreases files.len(),
{
    if files.len() > 0 {
        collected_is_no_longer(root, files.drop_last());
    }
}

/// A text with its ASCII letters in lower case.
pub open spec fn lowered(t: Seq<char>) -> Seq<char> {
    t.map_values(|c: char| text::ascii_lower(c))
}

/// Lowering an ASCII letter does not change what it is compared as where case
/// does not count.
proof fn lowering_keeps_folded(c: char)
    ensures
        folded(text::ascii_lower(c), false) == folded(c, false),
{
    let one = seq![c];
    let low = seq![text::ascii_lower(c)];
    assert(one[0] == c && low[0] == text::ascii_lower(c));
    if text::is_ascii(c) {
        assert(text::is_ascii_text(one));
        assert(text::is_ascii_text(low));
        assert(text::lowercase(low) =~= text::lowercase(one));
    } else {
        assert(low =~= one);
    }
}

proof fn lowering_keeps_matches(t: Seq<char>, c: char, from: int)
    ensures
        match_from(lowered(t), c, false, from) == match_from(t, c, false, from),
    decreases t.len() - from,
{
    if 0 <= from < t.len() {
        lowering_keeps_folded(t[from]);
        assert(lowered(t)[from] == text::ascii_lower(t[from]));
        lowering_keeps_matches(t, c, from + 1);
    }
}

proof fn lowering_keeps_slashes(t: Seq<char>, to: int)
    ensures
        text::char_before(lowered(t), '/', to) == text::char_before(t, '/', to),
    decreases to,
{
    if 0 < to <= t.len() {
        assert(lowered(t)[to - 1] == text::ascii_lower(t[to - 1]));
        lowering_keeps_slashes(t, to - 1);
    }
}

proof fn lowering_is_worth_no_more(t: Seq<char>, prev: Option<int>, i: int)
    requires
        0 <= i < t.len(),
    ensures
        worth(lowered(t), prev, i) <= worth(t, prev, i),
{
    lowering_keeps_slashes(t, t.len() as int);
    assert(lowered(t)[i] == text::ascii_lower(t[i]));
    if i > 0 {
        assert(lowered(t)[i - 1] == text::ascii_lower(t[i - 1]));
    }
}

proof fn lowering_scores_no_more(query: Seq<char>, k: int, t: Seq<char>, prev: Option<int>)
    requires
        prev matches Some(p) ==> 0 <= p,
    ensures
        match (score_from(query, k, lowered(t), prev, false), score_from(query, k, t, prev, false)) {
            (Some((low, places)), Some((high, same))) => low <= high && places == same,
            (None, None) => true,
            _ => false,
        },
    decreases query.len() - k,
{
    if 0 <= k < query.len() {
        let start = match prev {
            Some(p) => p + 1,
            None => 0,
        };
        lowering_keeps_matches(t, query[k], start);
        match_from_is_least(t, query[k], false, start);
        if let Some(i) = match_from(t, query[k], false, start) {
            lowering_is_worth_no_more(t, prev, i);
            lowering_scores_no_more(query, k + 1, t, Some(i));
        }
    }
}

/// For a query without an upper-case letter, putting the ASCII letters of a text
/// in lower case keeps whether it matches and where, and never raises its score.
pub proof fn lower_case_text_matches_alike(query: Seq<char>, t: Seq<char>)
    requires
        !case_counts(query),
    ensures
        match (score_of(query, lowered(t)), score_of(query, t)) {
            (Some((low, places)), Some((high, same))) => low <= high && places == same,
            (None, None) => true,
            _ => false,
        },
{
    lowering_scores_no_more(query, 0, t, None);
}

/// A text that matches a query matches what was typed before its last character,
/// also where that character made case count.
pub proof fn longer_query_matches_less(query: Seq<char>, c: char, t: Seq<char>)
    ensures
        score_of(query.push(c), t) is Some ==> score_of(query, t) is Some,
{
    let longer = query.push(c);
    let exact = case_counts(query);
    scores_iff_subsequence(query, t);
    scores_iff_subsequence(longer, t);
    if exact {
        let i = choose|i: int| 0 <= i < query.len() && text::uppercase(#[trigger] query[i]);
        assert(text::uppercase(longer[i]));
    }
    if let Some((_, places)) = score_of(longer, t) {
        let fewer = places.drop_last();
        assert forall|i: int| 0 <= i < fewer.len() implies 0 <= #[trigger] fewer[i] < t.len()
            && folded(t[fewer[i]], exact) == folded(query[0 + i], exact) by {
            assert(fewer[i] == places[i]);
            assert(longer[0 + i] == query[i]);
            if case_counts(longer) {
                assert(seq![t[places[i]]][0] == seq![query[i]][0]);
            }
        }
        assert forall|i: int, j: int| 0 <= i < j < fewer.len() implies #[trigger] fewer[i]
            < #[trigger] fewer[j] by {
            assert(fewer[i] == places[i] && fewer[j] == places[j]);
        }
        assert(embeds(query, 0, t, 0, exact, fewer));
    }
}

/// Whether a search lists an item.
pub open spec fn is_listed(results: Seq<ScoredView>, index: int) -> bool {
    exists|k: int| 0 <= k < results.len() && (#[trigger] results[k]).index == index
}

proof fn matches_list_what_scores(query: Seq<char>, items: Seq<ItemView>, n: int, index: int)
    requires
        0 <= n <= items.len(),
    ensures
        is_listed(matches_before(query, items, n), index) <==> 0 <= index < n && score_of(
            query,
            items[index].display,
        ) is Some,
    decreases n,
{
    if n > 0 {
        matches_list_what_scores(query, items, n - 1, index);
        let earlier = matches_before(query, items, n - 1);
        let all = matches_before(query, items, n);
        if is_listed(earlier, index) {
            let k = choose|k: int| 0 <= k < earlier.len() && (#[trigger] earlier[k]).index == index;
            assert(all[k] == earlier[k]);
        }
        if is_listed(all, index) {
            let k = choose|k: int| 0 <= k < all.len() && (#[trigger] all[k]).index == index;
            if k < earlier.len() {
                assert(all[k] == earlier[k]);
                assert(is_listed(earlier, index));
            }
        }
        if index == n - 1 && score_of(query, items[index].display) is Some {
            assert(all[all.len() - 1].index == index);
        }
    }
}

/// A search lists an item exactly when the path that is shown of it matches.
pub proof fn search_lists_what_matches(query: Seq<char>, items: Seq<ItemView>, index: int)
    ensures
        is_listed(search_of(query, items), index) <==> 0 <= index < items.len() && score_of(
            query,
            items[index].display,
        ) is Some,
{
    let all = matches_before(query, items, items.len() as int);
    let found = search_of(query, items);
    matches_list_what_scores(query, items, items.len() as int, index);
    if query.len() > 0 {
        sort::sorted_holds_the_same(all, match_le(items));
        if is_listed(found, index) {
            let k = choose|k: int| 0 <= k < found.len() && (#[trigger] found[k]).index == index;
            assert(all.contains(found[k]));
            let m = choose|m: int| 0 <= m < all.len() && all[m] == found[k];
            assert(all[m].index == index);
        }
        if is_listed(all, index) {
            let k = choose|k: int| 0 <= k < all.len() && (#[trigger] all[k]).index == index;
            assert(found.contains(all[k]));
            let m = choose|m: int| 0 <= m < found.len() && found[m] == all[k];
            assert(found[m].index == index);
        }
    }
}

/// A longer query lists nothing that what was typed before does not list.
pub proof fn longer_query_lists_less(query: Seq<char>, c: char, items: Seq<ItemView>, index: int)
    ensures
        is_listed(search_of(query.push(c), items), index) ==> is_listed(
            search_of(query, items),
            index,
        ),
{
    search_lists_what_matches(query.push(c), items, index);
    search_lists_what_matches(query, items, index);
    if 0 <= index < items.len() {
        longer_query_matches_less(query, c, items[index].display);
    }
}

/// Adding a character to the query never adds a result.
pub proof fn adding_never_adds_a_result(before: Finder, c: char, after: Finder, index: int)
    requires
        before.wf(),
        adds(before, c, after),
    ensures
        is_listed(after.found(), index) ==> is_listed(before.found(), index),
{
    before.results_are_current();
    after.results_are_current();
    longer_query_lists_less(before.asked(), c, before.items(), index);
}

/// Taking a character off undoes adding it: the query and the results are what
/// they were.
pub proof fn taking_off_undoes_adding(before: Finder, c: char, between: Finder, after: Finder)
    requires
        before.wf(),
        adds(before, c, between),
        takes_off(between, after),
    ensures
        after.asked() == before.asked(),
        after.found() == before.found(),
        after.items() == before.items(),
{
    assert(before.asked().push(c).drop_last() =~= before.asked());
    before.results_are_current();
    after.results_are_current();
}

/// Taking a character off an empty query leaves the query and the results as
/// they are.
pub proof fn nothing_is_taken_off_an_empty_query(before: Finder, after: Finder)
    requires
        before.wf(),
        before.asked().len() == 0,
        takes_off(before, after),
    ensures
        after.asked() == before.asked(),
        after.found() == before.found(),
        after.items() == before.items(),
{
    before.results_are_current();
    after.results_are_current();
}

/// Whether a file is the root with names behind it, none of which holds a
/// backslash.
pub open spec fn is_below(root: Seq<char>, file: Seq<char>) -> bool {
    exists|rel: Seq<char>| #[trigger]
        path::is_plain(rel) && !rel.contains('\\') && file == path::join_of(root, rel)
}

/// The path of a file below the root is the root joined with what is shown of
/// it.
proof fn shown_path_is_joined(root: Seq<char>, file: Seq<char>)
    requires
        is_below(root, file),
    ensures
        file == path::join_of(root, display_of(root, file)),
        display_of(root, file).len() > 0,
{
    let rel = choose|rel: Seq<char>| #[trigger]
        path::is_plain(rel) && !rel.contains('\\') && file == path::join_of(root, rel);
    path::joined_path_is_taken_apart(root, rel);
    path::plain_is_not_empty(rel);
    text::nothing_to_replace(rel, '\\', '/');
}

proof fn collected_paths_are_joined(root: Seq<char>, files: Seq<Seq<char>>)
    requires
        forall|k: int| 0 <= k < files.len() ==> is_below(root, #[trigger] files[k]),
    ensures
        forall|k: int|
            0 <= k < collected(root, files).len() ==> (#[trigger] collected(root, files)[k]).path
                == path::join_of(root, collected(root, files)[k].display),
    decreases files.len(),
{
    if files.len() > 0 {
        let head = files.drop_last();
        assert forall|k: int| 0 <= k < head.len() implies is_below(root, #[trigger] head[k]) by {
            assert(head[k] == files[k]);
        }
        collected_paths_are_joined(root, head);
        assert(is_below(root, files[files.len() - 1]));
        shown_path_is_joined(root, files.last());
        let earlier = collected(root, head);
        let all = collected(root, files);
        assert forall|k: int| 0 <= k < all.len() implies (#[trigger] all[k]).path == path::join_of(
            root,
            all[k].display,
        ) by {
            if k < earlier.len() {
                assert(all[k] == earlier[k]);
            }
        }
    }
}

/// The path of every indexed file is the root joined with the path that is
/// shown, where the files lie below the root and no name holds a backslash.
pub proof fn indexed_paths_are_joined(root: Seq<char>, files: Seq<Seq<char>>)
    requires
        forall|k: int| 0 <= k < files.len() ==> is_below(root, #[trigger] files[k]),
    ensures
        forall|k: int|
            0 <= k < index_of(root, files).len() ==> (#[trigger] index_of(root, files)[k]).path
                == path::join_of(root, index_of(root, files)[k].display),
{
    let all = collected(root, files);
    collected_paths_are_joined(root, files);
    sort::sorted_holds_the_same(all, display_le());
    let items = index_of(root, files);
    assert forall|k: int| 0 <= k < items.len() implies (#[trigger] items[k]).path == path::join_of(
        root,
        items[k].display,
    ) by {
        assert(all.contains(items[k]));
        let m = choose|m: int| 0 <= m < all.len() && all[m] == items[k];
        assert(all[m].path == path::join_of(root, all[m].display));
    }
}

/// Putting the pieces of a result row together gives the path that it shows.
pub proof fn line_spells_display(display: Seq<char>, places: Seq<int>, selected: bool, i: int)
    requires
        0 <= i <= display.len(),
    ensures
        spelled(line_from(display, places, selected, i)) == display.skip(i),
    decreases display.len() - i,
{
    if i < display.len() {
        let hit = places.contains(i);
        let end = run_end(display.len() as int, places, i, hit);
        run_end_bounds(display.len() as int, places, i, hit);
        line_spells_display(display, places, selected, end);
        let line = line_from(display, places, selected, i);
        assert(line.skip(1) =~= line_from(display, places, selected, end));
        assert(display.subrange(i, end) + display.skip(end) =~= display.skip(i));
    } else {
        assert(display.skip(i) =~= Seq::<char>::empty());
    }
}

/// The style of each character of a list of pieces.
pub open spec fn drawn(spans: Seq<SpanView>) -> Seq<Style>
    decreases spans.len(),
{
    if spans.len() == 0 {
        Seq::empty()
    } else {
        Seq::new(spans[0].content.len(), |i: int| spans[0].style) + drawn(spans.skip(1))
    }
}

/// In a result row exactly the characters that match the query stand out, in bold
/// cyan, and exactly the selected row has a background.
pub proof fn matches_stand_out(
    display: Seq<char>,
    places: Seq<int>,
    selected: bool,
    i: int,
    p: int,
)
    requires
        0 <= i <= p < display.len(),
    ensures
        drawn(line_from(display, places, selected, i)).len() == display.len() - i,
        ({
            let style = drawn(line_from(display, places, selected, i))[p - i];
            &&& style.bold <==> places.contains(p)
            &&& style.fg == (if places.contains(p) {
                Some(Color::Cyan)
            } else {
                None
            })
            &&& style.bg is Some <==> selected
        }),
    decreases display.len() - i,
{
    let hit = places.contains(i);
    let end = run_end(display.len() as int, places, i, hit);
    run_end_bounds(display.len() as int, places, i, hit);
    let line = line_from(display, places, selected, i);
    let rest = line_from(display, places, selected, end);
    assert(line.skip(1) =~= rest);
    let first = Seq::new(line[0].content.len(), |k: int| line[0].style);
    assert(drawn(line) == first + drawn(rest));
    if end < display.len() {
        matches_stand_out(
            display,
            places,
            selected,
            end,
            if p >= end {
                p
            } else {
                end
            },
        );
    } else {
        assert(drawn(rest) =~= Seq::<Style>::empty());
    }
    if p < end {
        assert(drawn(line)[p - i] == first[p - i]);
    } else {
        assert(drawn(line)[p - i] == drawn(rest)[p - end]);
    }
}

/// The text of a list of pieces.
pub open spec fn spelled(spans: Seq<SpanView>) -> Seq<char>
    decreases spans.len(),
{
    if spans.len() == 0 {
        Seq::empty()
    } else {
        spans[0].content + spelled(spans.skip(1))
    }
}

} // verus!
