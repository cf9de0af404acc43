//! The tree that the explorer shows: directories open and close in place, and
//! what a directory holds is asked for when it is first opened.
//!
//! The root is a canonical path, and every other path is a directory's path
//! with a name behind it, so that paths are told apart by their text.

use crate::detect::ComponentKind;
use crate::path;
use crate::sort;
use crate::text;
use vstd::prelude::*;

verus! {

// ---------------------------------------------------------------------------
// Entries
// ---------------------------------------------------------------------------

/// A file or directory of the tree.
#[derive(Debug)]
pub struct Entry {
    pub name: String,
    pub path: String,
    pub is_dir: bool,
    pub kind: ComponentKind,
}

#[verifier::ext_equal]
pub struct EntryView {
    pub name: Seq<char>,
    pub path: Seq<char>,
    pub is_dir: bool,
    pub kind: ComponentKind,
}

impl View for Entry {
    type V = EntryView;

    open spec fn view(&self) -> EntryView {
        EntryView {
            name: self.name@,
            path: self.path@,
            is_dir: self.is_dir,
            kind: self.kind,
        }
    }
}

impl Entry {
    /// A copy.
    pub fn duplicate(&self) -> (r: Entry)
        ensures
            r@ == self@,
    {
        Entry {
            name: self.name.clone(),
            path: self.path.clone(),
            is_dir: self.is_dir,
            kind: self.kind,
        }
    }
}

pub open spec fn entries_view(v: Seq<Entry>) -> Seq<EntryView> {
    v.map_values(|e: Entry| e@)
}

/// Something that was found in a directory: its name, whether it is a directory
/// and, where it is a file, its kind.
#[derive(Debug)]
pub struct Found {
    pub name: String,
    pub is_dir: bool,
    pub kind: ComponentKind,
}

#[verifier::ext_equal]
pub struct FoundView {
    pub name: Seq<char>,
    pub is_dir: bool,
    pub kind: ComponentKind,
}

impl View for Found {
    type V = FoundView;

    open spec fn view(&self) -> FoundView {
        FoundView { name: self.name@, is_dir: self.is_dir, kind: self.kind }
    }
}

pub open spec fn found_view(v: Seq<Found>) -> Seq<FoundView> {
    v.map_values(|f: Found| f@)
}

/// Hidden files are noise; hidden directories are not.
pub open spec fn is_shown(f: FoundView) -> bool {
    f.is_dir || !text::starts(f.name, "."@)
}

/// What was found in `dir`, as an entry of the tree.
pub open spec fn entry_of(dir: Seq<char>, f: FoundView) -> EntryView {
    EntryView {
        name: f.name,
        path: path::join_of(dir, f.name),
        is_dir: f.is_dir,
        kind: if f.is_dir {
            ComponentKind::Other
        } else {
            f.kind
        },
    }
}

/// The entries of `dir` that are directories, or those that are files, in the
/// order in which they were found.
pub open spec fn entries_of(dir: Seq<char>, found: Seq<FoundView>, dirs: bool) -> Seq<EntryView>
    decreases found.len(),
{
    if found.len() == 0 {
        Seq::empty()
    } else {
        let earlier = entries_of(dir, found.drop_last(), dirs);
        let f = found.last();
        if is_shown(f) && f.is_dir == dirs {
            earlier.push(entry_of(dir, f))
        } else {
            earlier
        }
    }
}

pub open spec fn name_le() -> spec_fn(EntryView, EntryView) -> bool {
    |a: EntryView, b: EntryView| !text::text_less(b.name, a.name)
}

/// What `dir` shows: its directories by name, then its files by name.
pub open spec fn children_of(dir: Seq<char>, found: Seq<FoundView>) -> Seq<EntryView> {
    sort::sorted(entries_of(dir, found, true), name_le()) + sort::sorted(
        entries_of(dir, found, false),
        name_le(),
    )
}

fn sort_entries(v: &Vec<Entry>) -> (r: Vec<Entry>)
    ensures
        entries_view(r@) == sort::sorted(entries_view(v@), name_le()),
{
    let mut names: Vec<String> = Vec::new();
    let mut i: usize = 0;
    while i < v.len()
        invariant
            i <= v.len(),
            names@.len() == i,
            forall|k: int| 0 <= k < i ==> #[trigger] names@[k]@ == v@[k].name@,
        decreases v.len() - i,
    {
        names.push(v[i].name.clone());
        i = i + 1;
    }
    let p: Vec<usize> = sort::order_texts(&names);
    let ghost s = entries_view(v@);
    let ghost q = sort::positions(p@);
    proof {
        assert forall|i: int, j: int| 0 <= i < j < q.len() implies sort::comes_before(
            s,
            name_le(),
            #[trigger] q[i],
            #[trigger] q[j],
        ) by {
            let t = text::texts(names@);
            assert(sort::comes_before(t, sort::text_le(), q[i], q[j]));
            assert(t[q[i]] == names@[q[i]]@ && t[q[j]] == names@[q[j]]@);
            assert(s[q[i]].name == v@[q[i]].name@ && s[q[j]].name == v@[q[j]].name@);
        }
        assert(sort::is_order(s, name_le(), q));
        sort::order_sorts(s, name_le(), q);
    }
    let mut out: Vec<Entry> = Vec::new();
    let mut k: usize = 0;
    while k < p.len()
        invariant
            k <= p.len(),
            out@.len() == k,
            s == entries_view(v@),
            q == sort::positions(p@),
            sort::is_order(s, name_le(), q),
            forall|m: int| 0 <= m < k ==> #[trigger] out@[m]@ == s[p@[m] as int],
        decreases p.len() - k,
    {
        assert(q[k as int] == p@[k as int]);
        out.push(v[p[k]].duplicate());
        k = k + 1;
    }
    assert(entries_view(out@) =~= sort::picked(s, q));
    out
}

/// What `dir` shows, by what was found in it.
pub fn load_children(dir: &str, found: &Vec<Found>) -> (r: Vec<Entry>)
    ensures
        entries_view(r@) == children_of(dir@, found_view(found@)),
{
    let ghost all = found_view(found@);
    let mut dirs: Vec<Entry> = Vec::new();
    let mut files: Vec<Entry> = Vec::new();
    let mut i: usize = 0;
    assert(all.take(0) =~= Seq::<FoundView>::empty());
    assert(entries_view(dirs@) =~= Seq::<EntryView>::empty());
    assert(entries_view(files@) =~= Seq::<EntryView>::empty());
    while i < found.len()
        invariant
            i <= found.len(),
            all == found_view(found@),
            entries_view(dirs@) == entries_of(dir@, all.take(i as int), true),
            entries_view(files@) == entries_of(dir@, all.take(i as int), false),
        decreases found.len() - i,
    {
        proof {
            assert(all.take(i + 1).drop_last() =~= all.take(i as int));
            assert(all.take(i + 1).last() == found@[i as int]@);
        }
        let name: Vec<char> = text::chars_of(found[i].name.as_str());
        let is_dir: bool = found[i].is_dir;
        if is_dir || !text::starts_with(name.as_slice(), ".") {
            let entry = Entry {
                name: found[i].name.clone(),
                path: path::join(dir, found[i].name.as_str()),
                is_dir,
                kind: if is_dir {
                    ComponentKind::Other
                } else {
                    found[i].kind
                },
            };
            let ghost new = entry@;
            assert(new == entry_of(dir@, all[i as int]));
            if is_dir {
                let ghost before = entries_view(dirs@);
                dirs.push(entry);
                assert(entries_view(dirs@) =~= before.push(new));
            } else {
                let ghost before = entries_view(files@);
                files.push(entry);
                assert(entries_view(files@) =~= before.push(new));
            }
        }
        i = i + 1;
    }
    assert(all.take(all.len() as int) =~= all);
    let mut out: Vec<Entry> = sort_entries(&dirs);
    let mut rest: Vec<Entry> = sort_entries(&files);
    let ghost a = out@;
    let ghost b = rest@;
    out.append(&mut rest);
    assert(entries_view(out@) =~= entries_view(a) + entries_view(b));
    out
}

// ---------------------------------------------------------------------------
// Rows
// ---------------------------------------------------------------------------

/// One visible line of the tree. `depth` is its indentation; `expanded` is only
/// meaningful for directories.
#[derive(Debug)]
pub struct Row {
    pub entry: Entry,
    pub depth: usize,
    pub expanded: bool,
}

#[verifier::ext_equal]
pub struct RowView {
    pub entry: EntryView,
    pub depth: nat,
    pub expanded: bool,
}

impl View for Row {
    type V = RowView;

    open spec fn view(&self) -> RowView {
        RowView { entry: self.entry@, depth: self.depth as nat, expanded: self.expanded }
    }
}

pub open spec fn rows_view(v: Seq<Row>) -> Seq<RowView> {
    v.map_values(|r: Row| r@)
}

/// What is known of directories: for each that was opened, what it shows.
pub type Known = Seq<(Seq<char>, Seq<EntryView>)>;

/// The place of the first known directory from `i` on with the path `dir`.
pub open spec fn known_from(known: Known, dir: Seq<char>, i: int) -> Option<int>
    decreases known.len() - i,
{
    if i < 0 || i >= known.len() {
        None
    } else if known[i].0 == dir {
        Some(i)
    } else {
        known_from(known, dir, i + 1)
    }
}

/// What the directory `dir` shows, where it is known.
pub open spec fn shown_in(known: Known, dir: Seq<char>) -> Option<Seq<EntryView>> {
    match known_from(known, dir, 0) {
        Some(i) => Some(known[i].1),
        None => None,
    }
}

/// The length of the longest path among the known directories.
pub open spec fn longest(known: Known) -> nat
    decreases known.len(),
{
    if known.len() == 0 {
        0
    } else {
        let rest = longest(known.drop_last());
        if known.last().0.len() > rest {
            known.last().0.len()
        } else {
            rest
        }
    }
}

proof fn longest_bounds(known: Known, i: int)
    requires
        0 <= i < known.len(),
    ensures
        known[i].0.len() <= longest(known),
    decreases known.len(),
{
    if i < known.len() - 1 {
        longest_bounds(known.drop_last(), i);
        assert(known.drop_last()[i] == known[i]);
    }
}

proof fn known_from_found(known: Known, dir: Seq<char>, i: int)
    requires
        0 <= i,
    ensures
        match known_from(known, dir, i) {
            Some(k) => i <= k < known.len() && known[k].0 == dir,
            None => forall|k: int| i <= k < known.len() ==> (#[trigger] known[k]).0 != dir,
        },
    decreases known.len() - i,
{
    if i < known.len() && known[i].0 != dir {
        known_from_found(known, dir, i + 1);
    }
}

proof fn shown_is_bounded(known: Known, dir: Seq<char>)
    ensures
        shown_in(known, dir) is Some ==> dir.len() <= longest(known),
{
    known_from_found(known, dir, 0);
    if let Some(i) = known_from(known, dir, 0) {
        longest_bounds(known, i);
    }
}

/// Whether an entry stands open.
pub open spec fn is_open(e: EntryView, open: Set<Seq<char>>) -> bool {
    e.is_dir && open.contains(e.path)
}

/// The rows of the entries of a directory whose path has the length `below`:
/// each entry and, where it stands open, what it shows under it.
pub open spec fn rows_of(
    entries: Seq<EntryView>,
    below: nat,
    depth: nat,
    open: Set<Seq<char>>,
    known: Known,
) -> Seq<RowView>
    decreases longest(known) + 1 - below, entries.len(),
    via rows_of_decreases
{
    if entries.len() == 0 {
        Seq::empty()
    } else {
        let e = entries.last();
        rows_of(entries.drop_last(), below, depth, open, known) + seq![
            RowView { entry: e, depth, expanded: is_open(e, open) },
        ] + (match shown_in(known, e.path) {
            Some(kids) => if is_open(e, open) && e.path.len() > below {
                rows_of(kids, e.path.len(), depth + 1, open, known)
            } else {
                Seq::empty()
            },
            None => Seq::empty(),
        })
    }
}

#[via_fn]
proof fn rows_of_decreases(
    entries: Seq<EntryView>,
    below: nat,
    depth: nat,
    open: Set<Seq<char>>,
    known: Known,
) {
    if entries.len() > 0 {
        shown_is_bounded(known, entries.last().path);
    }
}

/// The rows under an entry.
pub open spec fn rows_under(
    e: EntryView,
    below: nat,
    depth: nat,
    open: Set<Seq<char>>,
    known: Known,
) -> Seq<RowView> {
    match shown_in(known, e.path) {
        Some(kids) => if is_open(e, open) && e.path.len() > below {
            rows_of(kids, e.path.len(), depth + 1, open, known)
        } else {
            Seq::empty()
        },
        None => Seq::empty(),
    }
}

// ---------------------------------------------------------------------------
// The tree
// ---------------------------------------------------------------------------

/// The state of the tree: what is known, what stands open, and the row that the
/// cursor is on.
#[verifier::ext_equal]
pub struct NavView {
    pub root: Seq<char>,
    pub known: Known,
    pub open: Set<Seq<char>>,
    pub cursor: nat,
}

/// Of every directory that stands open it is known what it shows.
pub open spec fn opens_known(v: NavView) -> bool {
    forall|p: Seq<char>| #[trigger] v.open.contains(p) ==> shown_in(v.known, p) is Some
}

/// The visible rows.
pub open spec fn visible(v: NavView) -> Seq<RowView> {
    match shown_in(v.known, v.root) {
        Some(kids) => rows_of(kids, v.root.len(), 0, v.open, v.known),
        None => Seq::empty(),
    }
}

/// The row that the cursor is on.
pub open spec fn current(v: NavView) -> Option<RowView> {
    if v.cursor < visible(v).len() {
        Some(visible(v)[v.cursor as int])
    } else {
        None
    }
}

/// The state with the cursor on a row that is there.
pub open spec fn clamped(v: NavView) -> NavView {
    let n = visible(v).len();
    if v.cursor < n {
        v
    } else {
        NavView {
            cursor: if n == 0 {
                0
            } else {
                (n - 1) as nat
            },
            ..v
        }
    }
}

/// The state of a tree that was just opened.
pub open spec fn opened(root: Seq<char>, found: Seq<FoundView>) -> NavView {
    NavView {
        root,
        known: seq![(root, children_of(root, found))],
        open: Set::empty(),
        cursor: 0,
    }
}

/// What is known once the directory `dir` is, `found` being what was found
/// there.
pub open spec fn learned(known: Known, dir: Seq<char>, found: Seq<FoundView>) -> Known {
    if shown_in(known, dir) is Some {
        known
    } else {
        known.push((dir, children_of(dir, found)))
    }
}

/// The state once the directory `dir` stands open.
pub open spec fn with_open(v: NavView, dir: Seq<char>, found: Seq<FoundView>) -> NavView {
    clamped(
        NavView { known: learned(v.known, dir, found), open: v.open.insert(dir), ..v },
    )
}

/// The state once the directory `dir` is closed.
pub open spec fn with_closed(v: NavView, dir: Seq<char>) -> NavView {
    clamped(NavView { open: v.open.remove(dir), ..v })
}

/// The state after Enter: a directory opens or closes, a file changes nothing.
pub open spec fn toggled(v: NavView, found: Seq<FoundView>) -> NavView {
    match current(v) {
        Some(row) => if !row.entry.is_dir {
            v
        } else if row.expanded {
            with_closed(v, row.entry.path)
        } else {
            with_open(v, row.entry.path, found)
        },
        None => v,
    }
}

/// What Enter hands back: the file that the cursor is on.
pub open spec fn chosen(v: NavView) -> Option<EntryView> {
    match current(v) {
        Some(row) => if row.entry.is_dir {
            None
        } else {
            Some(row.entry)
        },
        None => None,
    }
}

/// The state after the right arrow: a closed directory opens.
pub open spec fn expanded(v: NavView, found: Seq<FoundView>) -> NavView {
    match current(v) {
        Some(row) => if row.entry.is_dir && !row.expanded {
            with_open(v, row.entry.path, found)
        } else {
            v
        },
        None => v,
    }
}

/// The first row from `i` on with the path `dir`.
pub open spec fn row_from(rows: Seq<RowView>, dir: Seq<char>, i: int) -> Option<int>
    decreases rows.len() - i,
{
    if i < 0 || i >= rows.len() {
        None
    } else if rows[i].entry.path == dir {
        Some(i)
    } else {
        row_from(rows, dir, i + 1)
    }
}

/// The state after the left arrow: an open directory closes; on any other row
/// the cursor goes to the directory that holds it, where that is visible.
pub open spec fn collapsed(v: NavView) -> NavView {
    match current(v) {
        Some(row) => if row.entry.is_dir && row.expanded {
            with_closed(v, row.entry.path)
        } else {
            match path::parent_of(row.entry.path) {
                Some(dir) => match row_from(visible(v), dir, 0) {
                    Some(i) => NavView { cursor: i as nat, ..v },
                    None => v,
                },
                None => v,
            }
        },
        None => v,
    }
}

/// The directory whose content has to be looked up before the one under the
/// cursor can open.
pub open spec fn wanted_dir(v: NavView) -> Option<Seq<char>> {
    match current(v) {
        Some(row) => if row.entry.is_dir && !row.expanded && shown_in(v.known, row.entry.path)
            is None {
            Some(row.entry.path)
        } else {
            None
        },
        None => None,
    }
}

pub open spec fn known_view(v: Seq<(String, Vec<Entry>)>) -> Known {
    v.map_values(|p: (String, Vec<Entry>)| (p.0@, entries_view(p.1@)))
}

/// The tree of files that the explorer shows.
pub struct Nav {
    root: String,
    rows: Vec<Row>,
    expanded: Vec<String>,
    children: Vec<(String, Vec<Entry>)>,
    cursor: usize,
}

impl View for Nav {
    type V = NavView;

    closed spec fn view(&self) -> NavView {
        NavView {
            root: self.root@,
            known: known_view(self.children@),
            open: text::texts(self.expanded@).to_set(),
            cursor: self.cursor as nat,
        }
    }
}

fn find_known(children: &Vec<(String, Vec<Entry>)>, dir: &str) -> (r: Option<usize>)
    ensures
        text::position(r) == known_from(known_view(children@), dir@, 0),
        r matches Some(i) ==> i < children@.len(),
{
    let mut i: usize = 0;
    while i < children.len()
        invariant
            i <= children.len(),
            known_from(known_view(children@), dir@, 0) == known_from(
                known_view(children@),
                dir@,
                i as int,
            ),
        decreases children.len() - i,
    {
        assert(known_view(children@)[i as int].0 == children@[i as int].0@);
        if text::equal(children[i].0.as_str(), dir) {
            return Some(i);
        }
        i = i + 1;
    }
    None
}

fn path_len(p: &str) -> (r: usize)
    ensures
        r == p@.len(),
{
    let chars: Vec<char> = text::chars_of(p);
    chars.len()
}

fn is_among(v: &Vec<String>, t: &str) -> (r: bool)
    ensures
        r == text::texts(v@).to_set().contains(t@),
{
    text::among(v, t)
}

/// Append the rows of the entries of a directory.
fn push_rows(
    entries: &Vec<Entry>,
    below: usize,
    depth: usize,
    expanded: &Vec<String>,
    children: &Vec<(String, Vec<Entry>)>,
    out: &mut Vec<Row>,
)
    requires
        depth <= below,
    ensures
        rows_view(final(out)@) == rows_view(old(out)@) + rows_of(
            entries_view(entries@),
            below as nat,
            depth as nat,
            text::texts(expanded@).to_set(),
            known_view(children@),
        ),
    decreases longest(known_view(children@)) + 1 - below, 1int,
{
    let ghost all = entries_view(entries@);
    let ghost open = text::texts(expanded@).to_set();
    let ghost known = known_view(children@);
    let ghost start = rows_view(out@);
    let mut i: usize = 0;
    assert(all.take(0) =~= Seq::<EntryView>::empty());
    assert(start + Seq::<RowView>::empty() =~= start);
    while i < entries.len()
        invariant
            i <= entries.len(),
            depth <= below,
            all == entries_view(entries@),
            open == text::texts(expanded@).to_set(),
            known == known_view(children@),
            rows_view(out@) == start + rows_of(
                all.take(i as int),
                below as nat,
                depth as nat,
                open,
                known,
            ),
        decreases entries.len() - i,
    {
        let ghost earlier = rows_of(all.take(i as int), below as nat, depth as nat, open, known);
        let ghost e = all[i as int];
        proof {
            assert(all.take(i + 1).drop_last() =~= all.take(i as int));
            assert(all.take(i + 1).last() == e);
            assert(e == entries@[i as int]@);
            shown_is_bounded(known, e.path);
        }
        let is_expanded: bool = entries[i].is_dir && is_among(expanded, entries[i].path.as_str());
        let ghost row = RowView { entry: e, depth: depth as nat, expanded: is_open(e, open) };
        out.push(Row { entry: entries[i].duplicate(), depth, expanded: is_expanded });
        assert(rows_view(out@) =~= start + earlier + seq![row]);
        if is_expanded {
            match find_known(children, entries[i].path.as_str()) {
                Some(k) => {
                    let len: usize = path_len(entries[i].path.as_str());
                    if len > below {
                        assert(known[k as int].1 == entries_view(children@[k as int].1@));
                        let ghost under = rows_under(e, below as nat, depth as nat, open, known);
                        push_rows(&children[k].1, len, depth + 1, expanded, children, out);
                        assert(start + earlier + seq![row] + under =~= start + (earlier + seq![row]
                            + under));
                    }
                },
                None => {},
            }
        }
        assert(rows_view(out@) =~= start + rows_of(
            all.take(i + 1),
            below as nat,
            depth as nat,
            open,
            known,
        ));
        i = i + 1;
    }
    assert(all.take(all.len() as int) =~= all);
}

impl Nav {
    /// The rows are those of the tree, the cursor is on one of them where there
    /// is one, and of every open directory it is known what it shows.
    pub closed spec fn wf(&self) -> bool {
        &&& opens_known(self@)
        &&& rows_view(self.rows@) == visible(self@)
        &&& self.cursor < self.rows@.len() || self.cursor == 0
    }

    /// Open the tree at a directory, `found` being what was found in it.
    pub fn open(root: String, found: Vec<Found>) -> (r: Nav)
        ensures
            r.wf(),
            r@ == opened(root@, found_view(found@)),
    {
        let kids: Vec<Entry> = load_children(root.as_str(), &found);
        let mut children: Vec<(String, Vec<Entry>)> = Vec::new();
        let ghost shown = entries_view(kids@);
        children.push((root.clone(), kids));
        let mut nav = Nav {
            root,
            rows: Vec::new(),
            expanded: Vec::new(),
            children,
            cursor: 0,
        };
        proof {
            assert(known_view(nav.children@) =~= seq![(nav.root@, shown)]);
            assert(text::texts(nav.expanded@) =~= Seq::<Seq<char>>::empty());
            assert(nav@.open =~= Set::<Seq<char>>::empty());
        }
        nav.rebuild();
        nav
    }

    /// Recompute the visible rows, and put the cursor on one of them.
    fn rebuild(&mut self)
        requires
            opens_known(old(self)@),
        ensures
            final(self).wf(),
            final(self)@ == clamped(old(self)@),
    {
        let mut rows: Vec<Row> = Vec::new();
        assert(rows_view(rows@) =~= Seq::<RowView>::empty());
        match find_known(&self.children, self.root.as_str()) {
            Some(k) => {
                assert(known_view(self.children@)[k as int].1 == entries_view(
                    self.children@[k as int].1@,
                ));
                let len: usize = path_len(self.root.as_str());
                push_rows(
                    &self.children[k].1,
                    len,
                    0,
                    &self.expanded,
                    &self.children,
                    &mut rows,
                );
            },
            None => {},
        }
        assert(rows_view(rows@) =~= visible(old(self)@));
        self.rows = rows;
        let n: usize = self.rows.len();
        assert(visible(old(self)@).len() == n) by {
            assert(rows_view(self.rows@).len() == n);
        }
        if self.cursor >= n {
            self.cursor = if n == 0 {
                0
            } else {
                n - 1
            };
        }
        assert(visible(self@) == visible(old(self)@));
        assert(opens_known(self@)) by {
            assert(self@.open == old(self)@.open && self@.known == old(self)@.known);
        }
    }

    /// What holds of every tree: the cursor is on a row where there is one, and
    /// of every open directory it is known what it shows.
    pub proof fn stays_sound(&self)
        requires
            self.wf(),
        ensures
            opens_known(self@),
            self@.cursor < visible(self@).len() || self@.cursor == 0,
    {
        assert(visible(self@).len() == self.rows@.len());
    }

    /// The visible rows.
    pub fn rows(&self) -> (r: &[Row])
        requires
            self.wf(),
        ensures
            rows_view(r@) == visible(self@),
            r@.len() == visible(self@).len(),
    {
        self.rows.as_slice()
    }

    /// The row that the cursor is on, counted from zero.
    pub fn cursor(&self) -> (r: usize)
        ensures
            r == self@.cursor,
    {
        self.cursor
    }

    /// The row that the cursor is on.
    pub fn selected(&self) -> (r: Option<&Row>)
        requires
            self.wf(),
        ensures
            match r {
                Some(row) => current(self@) == Some(row@),
                None => current(self@) is None,
            },
    {
        assert(visible(self@).len() == self.rows@.len());
        if self.cursor < self.rows.len() {
            assert(visible(self@)[self.cursor as int] == self.rows@[self.cursor as int]@);
            Some(&self.rows[self.cursor])
        } else {
            None
        }
    }

    /// Move the cursor down, as far as there are rows.
    pub fn move_down(&mut self)
        requires
            old(self).wf(),
        ensures
            final(self).wf(),
            final(self)@ == (if old(self)@.cursor + 1 < visible(old(self)@).len() {
                NavView { cursor: old(self)@.cursor + 1, ..old(self)@ }
            } else {
                old(self)@
            }),
    {
        assert(visible(self@).len() == self.rows@.len());
        if self.cursor < self.rows.len() && self.cursor + 1 < self.rows.len() {
            self.cursor = self.cursor + 1;
            assert(visible(self@) == visible(old(self)@));
        }
    }

    /// Move the cursor up, as far as there are rows.
    pub fn move_up(&mut self)
        requires
            old(self).wf(),
        ensures
            final(self).wf(),
            final(self)@ == (if old(self)@.cursor > 0 {
                NavView { cursor: (old(self)@.cursor - 1) as nat, ..old(self)@ }
            } else {
                old(self)@
            }),
    {
        if self.cursor > 0 {
            self.cursor = self.cursor - 1;
            assert(visible(self@) == visible(old(self)@));
        }
    }

    /// Put the cursor on a visible row.
    pub fn set_cursor(&mut self, index: usize)
        requires
            old(self).wf(),
        ensures
            final(self).wf(),
            final(self)@ == (if index < visible(old(self)@).len() {
                NavView { cursor: index as nat, ..old(self)@ }
            } else {
                old(self)@
            }),
    {
        assert(visible(self@).len() == self.rows@.len());
        if index < self.rows.len() {
            self.cursor = index;
            assert(visible(self@) == visible(old(self)@));
        }
    }

    /// The directory whose content `toggle` and `expand` need.
    pub fn wanted(&self) -> (r: Option<String>)
        requires
            self.wf(),
        ensures
            text::opt(r) == wanted_dir(self@),
    {
        match self.selected() {
            Some(row) => {
                if row.entry.is_dir && !row.expanded {
                    match find_known(&self.children, row.entry.path.as_str()) {
                        Some(_) => None,
                        None => Some(row.entry.path.clone()),
                    }
                } else {
                    None
                }
            },
            None => None,
        }
    }

    /// Open the directory `dir`.
    fn open_dir(&mut self, dir: String, found: &Vec<Found>)
        requires
            old(self).wf(),
        ensures
            final(self).wf(),
            final(self)@ == with_open(old(self)@, dir@, found_view(found@)),
    {
        let ghost before = self@;
        match find_known(&self.children, dir.as_str()) {
            Some(_) => {},
            None => {
                let kids: Vec<Entry> = load_children(dir.as_str(), found);
                let ghost old_known = known_view(self.children@);
                let ghost shown = entries_view(kids@);
                self.children.push((dir.clone(), kids));
                assert(known_view(self.children@) =~= old_known.push((dir@, shown)));
            },
        }
        let ghost old_open = text::texts(self.expanded@);
        self.expanded.push(dir);
        proof {
            assert(text::texts(self.expanded@) =~= old_open.push(dir@));
            assert(old_open.push(dir@).to_set() =~= old_open.to_set().insert(dir@)) by {
                assert forall|p: Seq<char>| #[trigger]
                    old_open.push(dir@).to_set().contains(p) <==> old_open.to_set().insert(
                        dir@,
                    ).contains(p) by {
                    if old_open.contains(p) {
                        let k = choose|k: int| 0 <= k < old_open.len() && old_open[k] == p;
                        assert(old_open.push(dir@)[k] == p);
                    }
                    if p == dir@ {
                        assert(old_open.push(dir@)[old_open.len() as int] == p);
                    }
                }
            }
        }
        proof {
            let w = self@;
            assert(w.known == learned(before.known, dir@, found_view(found@)));
            assert(w.open == before.open.insert(dir@));
            opening_keeps_known(before, w, dir@, found_view(found@));
        }
        self.rebuild();
    }

    /// Close the directory `dir`.
    fn close_dir(&mut self, dir: &str)
        requires
            old(self).wf(),
        ensures
            final(self).wf(),
            final(self)@ == with_closed(old(self)@, dir@),
    {
        let ghost before = text::texts(self.expanded@);
        let mut kept: Vec<String> = Vec::new();
        let mut i: usize = 0;
        while i < self.expanded.len()
            invariant
                i <= self.expanded.len(),
                before == text::texts(self.expanded@),
                forall|k: int|
                    0 <= k < kept@.len() ==> (#[trigger] kept@[k])@ != dir@ && before.contains(
                        kept@[k]@,
                    ),
                forall|k: int|
                    0 <= k < i && (#[trigger] before[k]) != dir@ ==> text::texts(kept@).contains(
                        before[k],
                    ),
            decreases self.expanded.len() - i,
        {
            let ghost old_kept = text::texts(kept@);
            assert(before[i as int] == self.expanded@[i as int]@);
            if !text::equal(self.expanded[i].as_str(), dir) {
                kept.push(self.expanded[i].clone());
                proof {
                    let new = before[i as int];
                    assert(text::texts(kept@) =~= old_kept.push(new));
                    assert(old_kept.push(new)[old_kept.len() as int] == new);
                    assert forall|k: int| 0 <= k < i && (#[trigger] before[k]) != dir@ implies text::texts(
                        kept@,
                    ).contains(before[k]) by {
                        assert(old_kept.contains(before[k]));
                        let m = choose|m: int| 0 <= m < old_kept.len() && old_kept[m] == before[k];
                        assert(old_kept.push(new)[m] == before[k]);
                    }
                }
            }
            i = i + 1;
        }
        proof {
            assert(text::texts(kept@).to_set() =~= before.to_set().remove(dir@)) by {
                assert forall|p: Seq<char>| #[trigger]
                    text::texts(kept@).to_set().contains(p) <==> before.to_set().remove(
                        dir@,
                    ).contains(p) by {
                    if text::texts(kept@).contains(p) {
                        let k = choose|k: int|
                            0 <= k < text::texts(kept@).len() && text::texts(kept@)[k] == p;
                        assert(kept@[k]@ == p);
                    }
                    if before.contains(p) && p != dir@ {
                        let k = choose|k: int| 0 <= k < before.len() && before[k] == p;
                        assert(before[k] != dir@);
                    }
                }
            }
        }
        self.expanded = kept;
        proof {
            let w = self@;
            assert(w.known == old(self)@.known);
            assert(w.open == old(self)@.open.remove(dir@));
            assert forall|p: Seq<char>| #[trigger] w.open.contains(p) implies shown_in(w.known, p)
                is Some by {
                assert(old(self)@.open.contains(p));
            }
        }
        self.rebuild();
    }

    /// Enter on the current row: a directory opens or closes in place, a file is
    /// handed back and nothing else happens. `found` is what was found in the
    /// directory that `wanted` names.
    pub fn toggle(&mut self, found: Vec<Found>) -> (r: Option<Entry>)
        requires
            old(self).wf(),
        ensures
            final(self).wf(),
            final(self)@ == toggled(old(self)@, found_view(found@)),
            match r {
                Some(e) => chosen(old(self)@) == Some(e@),
                None => chosen(old(self)@) is None,
            },
    {
        let (dir, is_dir, is_expanded): (String, bool, bool) = match self.selected() {
            Some(row) => {
                if !row.entry.is_dir {
                    return Some(row.entry.duplicate());
                }
                (row.entry.path.clone(), row.entry.is_dir, row.expanded)
            },
            None => {
                return None;
            },
        };
        if is_expanded {
            self.close_dir(dir.as_str());
        } else {
            self.open_dir(dir, &found);
        }
        None
    }

    /// Open a closed directory; nothing happens on any other row.
    pub fn expand(&mut self, found: Vec<Found>)
        requires
            old(self).wf(),
        ensures
            final(self).wf(),
            final(self)@ == expanded(old(self)@, found_view(found@)),
    {
        let dir: String = match self.selected() {
            Some(row) => {
                if !row.entry.is_dir || row.expanded {
                    return;
                }
                row.entry.path.clone()
            },
            None => {
                return;
            },
        };
        self.open_dir(dir, &found);
    }

    /// Close the selected directory if it stands open; otherwise put the cursor
    /// on the row of the directory that holds the selected entry.
    pub fn collapse_or_parent(&mut self)
        requires
            old(self).wf(),
        ensures
            final(self).wf(),
            final(self)@ == collapsed(old(self)@),
    {
        let (place, close): (String, bool) = match self.selected() {
            Some(row) => (row.entry.path.clone(), row.entry.is_dir && row.expanded),
            None => {
                return;
            },
        };
        if close {
            self.close_dir(place.as_str());
            return;
        }
        match path::parent(place.as_str()) {
            Some(dir) => {
                let ghost rows = visible(self@);
                let mut i: usize = 0;
                while i < self.rows.len()
                    invariant
                        i <= self.rows.len(),
                        *self == *old(self),
                        old(self).wf(),
                        rows == visible(self@),
                        rows == rows_view(self.rows@),
                        current(old(self)@) matches Some(row) && path::parent_of(row.entry.path)
                            == Some(dir@) && !(row.entry.is_dir && row.expanded),
                        row_from(rows, dir@, 0) == row_from(rows, dir@, i as int),
                    decreases self.rows.len() - i,
                {
                    assert(rows[i as int].entry.path == self.rows@[i as int].entry.path@);
                    if text::equal(self.rows[i].entry.path.as_str(), dir.as_str()) {
                        self.cursor = i;
                        assert(visible(self@) == visible(old(self)@));
                        return;
                    }
                    i = i + 1;
                }
            },
            None => {},
        }
    }
}

// ---------------------------------------------------------------------------
// Laws
// ---------------------------------------------------------------------------

/// What is shown under a directory lies below it: a path with a name behind it
/// is longer than the path.
pub proof fn entries_lie_below(dir: Seq<char>, f: FoundView)
    requires
        f.name.len() > 0,
        f.name[0] != '/',
    ensures
        entry_of(dir, f).path.len() > dir.len(),
{
}

/// While nothing stands open, the rows are the entries of the root, in order
/// and without indentation.
pub proof fn closed_tree_shows_root(
    entries: Seq<EntryView>,
    below: nat,
    depth: nat,
    known: Known,
)
    ensures
        rows_of(entries, below, depth, Set::empty(), known) == entries.map_values(
            |e: EntryView| RowView { entry: e, depth, expanded: false },
        ),
    decreases entries.len(),
{
    let rows = rows_of(entries, below, depth, Set::empty(), known);
    let plain = entries.map_values(|e: EntryView| RowView { entry: e, depth, expanded: false });
    if entries.len() > 0 {
        closed_tree_shows_root(entries.drop_last(), below, depth, known);
        assert(rows_under(entries.last(), below, depth, Set::empty(), known) =~= Seq::<
            RowView,
        >::empty());
        assert(rows =~= plain);
    } else {
        assert(rows =~= plain);
    }
}

/// Choosing a file changes nothing, and what is chosen is what the cursor is on.
pub proof fn choosing_a_file_is_inert(v: NavView, found: Seq<FoundView>)
    requires
        chosen(v) is Some,
    ensures
        toggled(v, found) == v,
        current(v) matches Some(row) && row.entry == chosen(v)->0 && !row.entry.is_dir,
{
}

/// Opening an open directory, or a file, changes nothing.
pub proof fn expand_again_is_inert(v: NavView, found: Seq<FoundView>)
    requires
        current(v) matches Some(row) ==> !row.entry.is_dir || row.expanded,
    ensures
        expanded(v, found) == v,
{
}

/// Whatever is pressed, the cursor stays on a row where there is one.
pub proof fn cursor_stays_on_a_row(v: NavView, found: Seq<FoundView>)
    requires
        v.cursor < visible(v).len() || v.cursor == 0,
    ensures
        toggled(v, found).cursor < visible(toggled(v, found)).len() || toggled(v, found).cursor
            == 0,
        expanded(v, found).cursor < visible(expanded(v, found)).len() || expanded(v, found).cursor
            == 0,
        collapsed(v).cursor < visible(collapsed(v)).len() || collapsed(v).cursor == 0,
{
    clamping_keeps_rows(
        NavView {
            known: learned(v.known, current(v)->0.entry.path, found),
            open: v.open.insert(current(v)->0.entry.path),
            ..v
        },
    );
    clamping_keeps_rows(NavView { open: v.open.remove(current(v)->0.entry.path), ..v });
    if let Some(row) = current(v) {
        if let Some(dir) = path::parent_of(row.entry.path) {
            row_from_is_there(visible(v), dir, 0);
        }
    }
}

proof fn clamping_keeps_rows(v: NavView)
    ensures
        visible(clamped(v)) == visible(v),
        clamped(v).cursor < visible(v).len() || clamped(v).cursor == 0,
{
}

proof fn row_from_is_there(rows: Seq<RowView>, dir: Seq<char>, i: int)
    requires
        0 <= i,
    ensures
        row_from(rows, dir, i) matches Some(k) ==> i <= k < rows.len() && rows[k].entry.path == dir,
    decreases rows.len() - i,
{
    if i < rows.len() && rows[i].entry.path != dir {
        row_from_is_there(rows, dir, i + 1);
    }
}

/// No row has the path `p`.
pub open spec fn unseen(rows: Seq<RowView>, p: Seq<char>) -> bool {
    forall|k: int| 0 <= k < rows.len() ==> (#[trigger] rows[k]).entry.path != p
}

/// Whether the same directories stand open, but for `p`.
pub open spec fn open_alike(a: Set<Seq<char>>, b: Set<Seq<char>>, p: Seq<char>) -> bool {
    forall|q: Seq<char>| q != p ==> (#[trigger] a.contains(q) <==> b.contains(q))
}

/// Opening or closing what is not visible changes no row.
proof fn turning_unseen(
    entries: Seq<EntryView>,
    below: nat,
    depth: nat,
    open: Set<Seq<char>>,
    other: Set<Seq<char>>,
    known: Known,
    p: Seq<char>,
)
    requires
        unseen(rows_of(entries, below, depth, open, known), p),
        open_alike(open, other, p),
    ensures
        rows_of(entries, below, depth, other, known) == rows_of(
            entries,
            below,
            depth,
            open,
            known,
        ),
    decreases longest(known) + 1 - below, entries.len(),
{
    if entries.len() > 0 {
        let e = entries.last();
        let head = entries.drop_last();
        let a = rows_of(head, below, depth, open, known);
        let row = RowView { entry: e, depth, expanded: is_open(e, open) };
        let b = rows_under(e, below, depth, open, known);
        let all = rows_of(entries, below, depth, open, known);
        assert(all =~= a + seq![row] + b);
        assert forall|k: int| 0 <= k < a.len() implies (#[trigger] a[k]).entry.path != p by {
            assert(all[k] == a[k]);
        }
        turning_unseen(head, below, depth, open, other, known, p);
        assert(all[a.len() as int] == row);
        assert(e.path != p);
        assert(open.contains(e.path) <==> other.contains(e.path));
        assert(is_open(e, other) == is_open(e, open));
        if let Some(kids) = shown_in(known, e.path) {
            if is_open(e, open) && e.path.len() > below {
                assert forall|k: int| 0 <= k < b.len() implies (#[trigger] b[k]).entry.path != p by {
                    assert(all[a.len() + 1 + k] == b[k]);
                }
                shown_is_bounded(known, e.path);
                turning_unseen(kids, e.path.len(), depth + 1, open, other, known, p);
            }
        }
    }
}

/// Opening or closing the directory of a row leaves the rows before it, and the
/// row but for its being open, as they are.
proof fn turning_keeps_prefix(
    entries: Seq<EntryView>,
    below: nat,
    depth: nat,
    open: Set<Seq<char>>,
    other: Set<Seq<char>>,
    known: Known,
    i: int,
)
    requires
        0 <= i < rows_of(entries, below, depth, open, known).len(),
        forall|k: int|
            0 <= k < i ==> (#[trigger] rows_of(entries, below, depth, open, known)[k]).entry.path
                != rows_of(entries, below, depth, open, known)[i].entry.path,
        open_alike(open, other, rows_of(entries, below, depth, open, known)[i].entry.path),
    ensures
        ({
            let old_rows = rows_of(entries, below, depth, open, known);
            let new_rows = rows_of(entries, below, depth, other, known);
            &&& new_rows.len() > i
            &&& new_rows.take(i) == old_rows.take(i)
            &&& new_rows[i] == (RowView {
                expanded: is_open(old_rows[i].entry, other),
                ..old_rows[i]
            })
        }),
    decreases longest(known) + 1 - below, entries.len(),
{
    let all = rows_of(entries, below, depth, open, known);
    let p = all[i].entry.path;
    let e = entries.last();
    let head = entries.drop_last();
    let a = rows_of(head, below, depth, open, known);
    let row = RowView { entry: e, depth, expanded: is_open(e, open) };
    let b = rows_under(e, below, depth, open, known);
    assert(all =~= a + seq![row] + b);
    let all2 = rows_of(entries, below, depth, other, known);
    let a2 = rows_of(head, below, depth, other, known);
    let row2 = RowView { entry: e, depth, expanded: is_open(e, other) };
    let b2 = rows_under(e, below, depth, other, known);
    assert(all2 =~= a2 + seq![row2] + b2);
    if i < a.len() {
        assert(a[i] == all[i]);
        assert forall|k: int| 0 <= k < i implies (#[trigger] a[k]).entry.path != a[i].entry.path by {
            assert(all[k] == a[k]);
        }
        turning_keeps_prefix(head, below, depth, open, other, known, i);
        assert(all2.take(i) =~= a2.take(i));
        assert(all.take(i) =~= a.take(i));
        assert(all2[i] == a2[i]);
    } else {
        assert forall|k: int| 0 <= k < a.len() implies (#[trigger] a[k]).entry.path != p by {
            assert(all[k] == a[k]);
        }
        turning_unseen(head, below, depth, open, other, known, p);
        let n = a.len() as int;
        if i == n {
            assert(all[i] == row);
            assert(all2.take(i) =~= all.take(i));
            assert(all2[i] == row2);
        } else {
            assert(all[n] == row);
            assert(e.path != p);
            assert(open.contains(e.path) <==> other.contains(e.path));
            assert(row2 == row);
            let j = i - n - 1;
            assert(b[j] == all[i]);
            if let Some(kids) = shown_in(known, e.path) {
                if is_open(e, open) && e.path.len() > below {
                    assert forall|k: int| 0 <= k < j implies (#[trigger] b[k]).entry.path
                        != b[j].entry.path by {
                        assert(all[n + 1 + k] == b[k]);
                    }
                    shown_is_bounded(known, e.path);
                    turning_keeps_prefix(kids, e.path.len(), depth + 1, open, other, known, j);
                    assert(b2.take(j) == b.take(j));
                    assert(all2.take(i) =~= all.take(i)) by {
                        assert forall|k: int| 0 <= k < i implies all2[k] == all[k] by {
                            if k > n {
                                assert(b2.take(j)[k - n - 1] == b.take(j)[k - n - 1]);
                            }
                        }
                    }
                    assert(all2[i] == b2[j]);
                }
            }
        }
    }
}

/// Knowing one more directory that is closed shows nothing new.
proof fn knowing_more_shows_nothing(
    entries: Seq<EntryView>,
    below: nat,
    depth: nat,
    open: Set<Seq<char>>,
    known: Known,
    p: Seq<char>,
    kids: Seq<EntryView>,
)
    requires
        !open.contains(p),
    ensures
        rows_of(entries, below, depth, open, known.push((p, kids))) == rows_of(
            entries,
            below,
            depth,
            open,
            known,
        ),
    decreases longest(known) + 1 - below, entries.len(),
{
    if entries.len() > 0 {
        let e = entries.last();
        let more = known.push((p, kids));
        knowing_more_shows_nothing(entries.drop_last(), below, depth, open, known, p, kids);
        known_from_push(known, (p, kids), e.path, 0);
        known_from_found(known, e.path, 0);
        if is_open(e, open) {
            assert(e.path != p);
            assert(shown_in(more, e.path) == shown_in(known, e.path)) by {
                if let Some(k) = known_from(known, e.path, 0) {
                    assert(more[k] == known[k]);
                }
            }
            if let Some(below_kids) = shown_in(known, e.path) {
                if e.path.len() > below {
                    shown_is_bounded(known, e.path);
                    knowing_more_shows_nothing(
                        below_kids,
                        e.path.len(),
                        depth + 1,
                        open,
                        known,
                        p,
                        kids,
                    );
                }
            }
        }
        assert(rows_of(entries, below, depth, open, more) =~= rows_of(
            entries,
            below,
            depth,
            open,
            known,
        ));
    }
}

proof fn known_from_push(
    known: Known,
    new: (Seq<char>, Seq<EntryView>),
    dir: Seq<char>,
    i: int,
)
    requires
        0 <= i <= known.len(),
    ensures
        known_from(known.push(new), dir, i) == (match known_from(known, dir, i) {
            Some(k) => Some(k),
            None => if new.0 == dir {
                Some(known.len() as int)
            } else {
                None
            },
        }),
    decreases known.len() - i,
{
    if i < known.len() {
        assert(known.push(new)[i] == known[i]);
        if known[i].0 != dir {
            known_from_push(known, new, dir, i + 1);
        }
    } else {
        assert(known.push(new)[i] == new);
        assert(known_from(known.push(new), dir, i + 1) is None);
    }
}

/// No row before the `i`-th one has its path.
pub open spec fn is_first(rows: Seq<RowView>, i: int) -> bool {
    forall|k: int| 0 <= k < i ==> (#[trigger] rows[k]).entry.path != rows[i].entry.path
}

proof fn opening_twice_restores(v: NavView, found: Seq<FoundView>, again: Seq<FoundView>)
    requires
        current(v) matches Some(row) && row.entry.is_dir && !row.expanded,
        is_first(visible(v), v.cursor as int),
    ensures
        current(toggled(v, found)) == Some(RowView { expanded: true, ..current(v)->0 }),
        toggled(v, found).cursor == v.cursor,
        visible(toggled(toggled(v, found), again)) == visible(v),
        toggled(toggled(v, found), again).open == v.open,
        toggled(toggled(v, found), again).cursor == v.cursor,
{
    let row = current(v)->0;
    let p = row.entry.path;
    let kids = shown_in(v.known, v.root)->0;
    let more = learned(v.known, p, found);
    let new = children_of(p, found);
    rows_tell_what_is_open(kids, v.root.len(), 0, v.open, v.known);
    assert(visible(v)[v.cursor as int].expanded == is_open(row.entry, v.open));
    // Knowing what the directory holds changes no row while it is closed.
    known_from_found(v.known, v.root, 0);
    known_from_found(v.known, p, 0);
    if shown_in(v.known, p) is None {
        known_from_push(v.known, (p, new), v.root, 0);
        knowing_more_shows_nothing(kids, v.root.len(), 0, v.open, v.known, p, new);
        let r = known_from(v.known, v.root, 0)->0;
        assert(more[r] == v.known[r]);
    }
    let v1 = NavView { known: more, ..v };
    assert(shown_in(more, v.root) == Some(kids));
    assert(visible(v1) == visible(v));
    let i = v.cursor as int;
    let v2 = NavView { open: v.open.insert(p), ..v1 };
    turning_keeps_prefix(kids, v.root.len(), 0, v.open, v2.open, more, i);
    assert(clamped(v2) == v2);
    assert(toggled(v, found) == v2);
    let v3 = NavView { open: v2.open.remove(p), ..v2 };
    assert(v3.open =~= v.open);
    assert(v3 =~= v1);
    assert(clamped(v3) == v3);
}

proof fn closing_twice_restores(v: NavView, found: Seq<FoundView>, again: Seq<FoundView>)
    requires
        opens_known(v),
        current(v) matches Some(row) && row.entry.is_dir && row.expanded,
        is_first(visible(v), v.cursor as int),
    ensures
        current(toggled(v, found)) == Some(RowView { expanded: false, ..current(v)->0 }),
        toggled(v, found).cursor == v.cursor,
        toggled(toggled(v, found), again) == v,
{
    let row = current(v)->0;
    let p = row.entry.path;
    let kids = shown_in(v.known, v.root)->0;
    rows_tell_what_is_open(kids, v.root.len(), 0, v.open, v.known);
    assert(visible(v)[v.cursor as int].expanded == is_open(row.entry, v.open));
    let v1 = NavView { open: v.open.remove(p), ..v };
    turning_keeps_prefix(kids, v.root.len(), 0, v.open, v1.open, v.known, v.cursor as int);
    assert(clamped(v1) == v1);
    assert(toggled(v, found) == v1);
    assert(learned(v.known, p, again) == v.known);
    let v2 = NavView { open: v1.open.insert(p), ..v1 };
    assert(v2.open =~= v.open);
    assert(v2 =~= v);
    assert(clamped(v2) == v2);
}

/// Enter on a directory opens or closes it under the cursor, and Enter again
/// brings the tree back to what it showed: the same rows, the same open
/// directories and the cursor where it was.
pub proof fn toggle_twice_restores(v: NavView, found: Seq<FoundView>, again: Seq<FoundView>)
    requires
        is_tree(v),
        current(v) matches Some(row) && row.entry.is_dir,
    ensures
        current(toggled(v, found)) == Some(
            RowView { expanded: !current(v)->0.expanded, ..current(v)->0 },
        ),
        toggled(v, found).cursor == v.cursor,
        visible(toggled(toggled(v, found), again)) == visible(v),
        toggled(toggled(v, found), again).open == v.open,
        toggled(toggled(v, found), again).cursor == v.cursor,
        chosen(v) is None,
        chosen(toggled(v, found)) is None,
{
    rows_form_a_tree(v);
    assert(is_first(visible(v), v.cursor as int));
    if current(v)->0.expanded {
        closing_twice_restores(v, found, again);
    } else {
        opening_twice_restores(v, found, again);
    }
}

/// The left arrow undoes what the right arrow opened.
pub proof fn collapse_undoes_expand(v: NavView, found: Seq<FoundView>)
    requires
        is_tree(v),
        current(v) matches Some(row) && row.entry.is_dir && !row.expanded,
    ensures
        visible(collapsed(expanded(v, found))) == visible(v),
        collapsed(expanded(v, found)).open == v.open,
        collapsed(expanded(v, found)).cursor == v.cursor,
{
    toggle_twice_restores(v, found, found);
    assert(expanded(v, found) == toggled(v, found));
    assert(collapsed(toggled(v, found)) == toggled(toggled(v, found), found));
}

/// Opening a directory that is looked up leaves every open one known.
proof fn opening_keeps_known(v: NavView, w: NavView, dir: Seq<char>, found: Seq<FoundView>)
    requires
        opens_known(v),
        w.known == learned(v.known, dir, found),
        w.open == v.open.insert(dir),
    ensures
        opens_known(w),
{
    assert forall|p: Seq<char>| #[trigger] w.open.contains(p) implies shown_in(w.known, p)
        is Some by {
        if shown_in(v.known, dir) is None {
            known_from_push(v.known, (dir, children_of(dir, found)), p, 0);
        }
        if p != dir {
            assert(v.open.contains(p));
        }
    }
}

// ---------------------------------------------------------------------------
// The shape of the rows
// ---------------------------------------------------------------------------

/// Whether these are entries of the directory `dir`: each has its path there,
/// and no two have the same name.
pub open spec fn lists(dir: Seq<char>, entries: Seq<EntryView>) -> bool {
    &&& forall|i: int|
        0 <= i < entries.len() ==> path::is_name((#[trigger] entries[i]).name) && entries[i].path
            == path::join_of(dir, entries[i].name)
    &&& forall|i: int, j: int|
        0 <= i < j < entries.len() ==> (#[trigger] entries[i]).name != (#[trigger] entries[j]).name
}

/// Whether what is known are the listings of directories, of every open one
/// among them.
pub open spec fn is_tree(v: NavView) -> bool {
    &&& opens_known(v)
    &&& all_list(v.known)
}

/// Whether what is known are the listings of directories.
pub open spec fn all_list(known: Known) -> bool {
    forall|k: int|
        0 <= k < known.len() ==> lists((#[trigger] known[k]).0, known[k].1)
}

/// Whether `p` is the path of `name` in the directory whose names stand behind
/// `base`, or lies below it.
pub open spec fn is_at(base: Seq<char>, name: Seq<char>, p: Seq<char>) -> bool {
    let n = (base.len() + name.len()) as int;
    p.len() >= n && p.take(n) == base + name && (p.len() == n || p[n] == '/')
}

/// No path lies at or below two names of a directory.
proof fn names_part_paths(base: Seq<char>, a: Seq<char>, b: Seq<char>, p: Seq<char>)
    requires
        path::is_name(a),
        path::is_name(b),
        is_at(base, a, p),
        is_at(base, b, p),
    ensures
        a == b,
{
    let n = base.len() as int;
    let x = n + a.len();
    let y = n + b.len();
    assert forall|k: int| 0 <= k < a.len() implies p[n + k] == a[k] by {
        assert(p.take(x)[n + k] == (base + a)[n + k]);
    }
    assert forall|k: int| 0 <= k < b.len() implies p[n + k] == b[k] by {
        assert(p.take(y)[n + k] == (base + b)[n + k]);
    }
    if a.len() < b.len() {
        assert(p[x] == '/');
        assert(b[a.len() as int] == '/');
        assert(b.contains(b[a.len() as int]));
    } else if b.len() < a.len() {
        assert(p[y] == '/');
        assert(a[b.len() as int] == '/');
        assert(a.contains(a[b.len() as int]));
    } else {
        assert forall|k: int| 0 <= k < a.len() implies a[k] == b[k] by {
            assert(p[n + k] == a[k]);
        }
        assert(a =~= b);
    }
}

/// What is shown in an open directory lies at or below one of its names.
pub open spec fn at_names(dir: Seq<char>, entries: Seq<EntryView>, p: Seq<char>) -> bool {
    exists|k: int|
        0 <= k < entries.len() && is_at(path::fronted(dir), (#[trigger] entries[k]).name, p)
}

/// The row of the directory that holds the `i`-th row: the nearest one before it
/// that is indented less.
pub open spec fn holds_row(rows: Seq<RowView>, j: int, i: int) -> bool {
    &&& 0 <= j < i
    &&& rows[j].depth + 1 == rows[i].depth
    &&& forall|m: int| j < m < i ==> (#[trigger] rows[m]).depth >= rows[i].depth
    &&& rows[j].expanded
    &&& rows[j].entry.is_dir
    &&& path::parent_of(rows[i].entry.path) == Some(rows[j].entry.path)
}

/// No path is shown twice.
pub open spec fn paths_differ(rows: Seq<RowView>) -> bool {
    forall|i: int, j: int|
        0 <= i < j < rows.len() ==> (#[trigger] rows[i]).entry.path != (
        #[trigger] rows[j]).entry.path
}

/// A row is indented at most one level more than the row before it, and only
/// where that one stands open.
pub open spec fn indents_at(rows: Seq<RowView>, i: int) -> bool {
    rows[i + 1].depth <= rows[i].depth + 1 && (rows[i + 1].depth == rows[i].depth + 1
        ==> rows[i].expanded)
}

/// Every row is indented at most one level more than the row before it, and only
/// where that one stands open.
pub open spec fn indents_by_one(rows: Seq<RowView>) -> bool {
    forall|i: int| 0 <= i < rows.len() - 1 ==> #[trigger] indents_at(rows, i)
}

/// Only directories stand open; the first row has the indentation `depth`, and
/// none has less.
pub open spec fn starts_at(rows: Seq<RowView>, depth: nat) -> bool {
    &&& rows.len() > 0 ==> rows[0].depth == depth
    &&& forall|i: int|
        0 <= i < rows.len() ==> (#[trigger] rows[i]).depth >= depth && (rows[i].expanded
            ==> rows[i].entry.is_dir)
}

/// The rows at the indentation `depth` lie in `dir`, and every other one has the
/// row of the directory that holds it before it.
pub open spec fn rows_are_held(rows: Seq<RowView>, dir: Seq<char>, depth: nat) -> bool {
    forall|i: int|
        0 <= i < rows.len() ==> if (#[trigger] rows[i]).depth == depth {
            path::lies_in(rows[i].entry.path, dir)
        } else {
            exists|j: int| holds_row(rows, j, i)
        }
}

/// What holds of the rows of the entries of `dir` at the indentation `depth`.
pub open spec fn has_shape(rows: Seq<RowView>, dir: Seq<char>, depth: nat) -> bool {
    &&& paths_differ(rows)
    &&& starts_at(rows, depth)
    &&& indents_by_one(rows)
    &&& rows_are_held(rows, dir, depth)
}

/// What a row says of its being open is what is recorded of its directory.
pub proof fn rows_tell_what_is_open(
    entries: Seq<EntryView>,
    below: nat,
    depth: nat,
    open: Set<Seq<char>>,
    known: Known,
)
    ensures
        forall|k: int|
            0 <= k < rows_of(entries, below, depth, open, known).len() ==> {
                let row = #[trigger] rows_of(entries, below, depth, open, known)[k];
                row.expanded == is_open(row.entry, open) && row.depth >= depth
            },
    decreases longest(known) + 1 - below, entries.len(),
{
    if entries.len() > 0 {
        let e = entries.last();
        let a = rows_of(entries.drop_last(), below, depth, open, known);
        let row = RowView { entry: e, depth, expanded: is_open(e, open) };
        let b = rows_under(e, below, depth, open, known);
        let all = rows_of(entries, below, depth, open, known);
        rows_tell_what_is_open(entries.drop_last(), below, depth, open, known);
        if let Some(kids) = shown_in(known, e.path) {
            if is_open(e, open) && e.path.len() > below {
                shown_is_bounded(known, e.path);
                rows_tell_what_is_open(kids, e.path.len(), depth + 1, open, known);
            }
        }
        assert(all =~= a + seq![row] + b);
        assert forall|k: int| 0 <= k < all.len() implies {
            let r = #[trigger] all[k];
            r.expanded == is_open(r.entry, open) && r.depth >= depth
        } by {
            if k < a.len() {
                assert(all[k] == a[k]);
            } else if k > a.len() {
                assert(all[k] == b[k - a.len() - 1]);
            }
        }
    }
}

proof fn joined_paths_differ(a: Seq<RowView>, row: RowView, b: Seq<RowView>)
    requires
        paths_differ(a),
        paths_differ(b),
        forall|i: int| 0 <= i < a.len() ==> (#[trigger] a[i]).entry.path != row.entry.path,
        forall|i: int| 0 <= i < b.len() ==> (#[trigger] b[i]).entry.path != row.entry.path,
        forall|i: int, j: int|
            0 <= i < a.len() && 0 <= j < b.len() ==> (#[trigger] a[i]).entry.path != (
            #[trigger] b[j]).entry.path,
    ensures
        paths_differ(a + seq![row] + b),
{
    let all = a + seq![row] + b;
    let n = a.len() as int;
    assert forall|i: int, j: int| 0 <= i < j < all.len() implies (#[trigger] all[i]).entry.path != (
    #[trigger] all[j]).entry.path by {
        if j < n {
            assert(all[i] == a[i] && all[j] == a[j]);
        } else if j == n {
            assert(all[i] == a[i] && all[j] == row);
        } else if i < n {
            assert(all[i] == a[i] && all[j] == b[j - n - 1]);
        } else if i == n {
            assert(all[i] == row && all[j] == b[j - n - 1]);
        } else {
            assert(all[i] == b[i - n - 1] && all[j] == b[j - n - 1]);
        }
    }
}

proof fn joined_rows_indent(a: Seq<RowView>, row: RowView, b: Seq<RowView>, depth: nat)
    requires
        starts_at(a, depth),
        indents_by_one(a),
        row.depth == depth,
        row.expanded ==> row.entry.is_dir,
        b.len() > 0 ==> row.expanded,
        starts_at(b, depth + 1),
        indents_by_one(b),
    ensures
        starts_at(a + seq![row] + b, depth),
        indents_by_one(a + seq![row] + b),
{
    let all = a + seq![row] + b;
    let n = a.len() as int;
    assert forall|i: int| 0 <= i < all.len() implies (#[trigger] all[i]).depth >= depth && (
    all[i].expanded ==> all[i].entry.is_dir) by {
        if i < n {
            assert(all[i] == a[i]);
        } else if i > n {
            assert(all[i] == b[i - n - 1]);
        }
    }
    if n > 0 {
        assert(all[0] == a[0]);
    } else {
        assert(all[0] == row);
    }
    assert forall|i: int| 0 <= i < all.len() - 1 implies #[trigger] indents_at(all, i) by {
        if i < n - 1 {
            assert(all[i] == a[i] && all[i + 1] == a[i + 1]);
            assert(indents_at(a, i));
        } else if i == n - 1 {
            assert(all[i] == a[i] && all[i + 1] == row);
            assert(a[i].depth >= depth);
        } else if i == n {
            assert(all[i] == row && all[i + 1] == b[0]);
        } else {
            let x = i - n - 1;
            assert(all[i] == b[x] && all[i + 1] == b[x + 1]);
            assert(indents_at(b, x));
        }
    }
}

proof fn joined_rows_are_held(
    a: Seq<RowView>,
    row: RowView,
    b: Seq<RowView>,
    dir: Seq<char>,
    depth: nat,
)
    requires
        rows_are_held(a, dir, depth),
        row.depth == depth,
        row.expanded ==> row.entry.is_dir,
        path::lies_in(row.entry.path, dir),
        path::is_whole(row.entry.path),
        b.len() > 0 ==> row.expanded,
        starts_at(b, depth + 1),
        rows_are_held(b, row.entry.path, depth + 1),
    ensures
        rows_are_held(a + seq![row] + b, dir, depth),
{
    let all = a + seq![row] + b;
    let n = a.len() as int;
    assert forall|i: int| 0 <= i < all.len() implies if (#[trigger] all[i]).depth == depth {
        path::lies_in(all[i].entry.path, dir)
    } else {
        exists|j: int| holds_row(all, j, i)
    } by {
        if i < n {
            assert(all[i] == a[i]);
            if a[i].depth != depth {
                let j = choose|j: int| holds_row(a, j, i);
                assert(all[j] == a[j]);
                assert forall|m: int| j < m < i implies (#[trigger] all[m]).depth
                    >= all[i].depth by {
                    assert(all[m] == a[m]);
                }
                assert(holds_row(all, j, i));
            }
        } else if i == n {
            assert(all[i] == row);
        } else {
            let x = i - n - 1;
            assert(all[i] == b[x]);
            assert(b[x].depth >= depth + 1);
            if b[x].depth == depth + 1 {
                assert(all[n] == row);
                assert forall|m: int| n < m < i implies (#[trigger] all[m]).depth
                    >= all[i].depth by {
                    assert(all[m] == b[m - n - 1]);
                }
                assert(holds_row(all, n, i));
            } else {
                let y = choose|y: int| holds_row(b, y, x);
                let j = y + n + 1;
                assert(all[j] == b[y]);
                assert forall|m: int| j < m < i implies (#[trigger] all[m]).depth
                    >= all[i].depth by {
                    assert(all[m] == b[m - n - 1]);
                }
                assert(holds_row(all, j, i));
            }
        }
    }
}

proof fn entries_take_shape(
    entries: Seq<EntryView>,
    dir: Seq<char>,
    depth: nat,
    open: Set<Seq<char>>,
    known: Known,
)
    requires
        lists(dir, entries),
        all_list(known),
    ensures
        has_shape(rows_of(entries, dir.len(), depth, open, known), dir, depth),
        forall|i: int|
            0 <= i < rows_of(entries, dir.len(), depth, open, known).len() ==> {
                let p = (#[trigger] rows_of(entries, dir.len(), depth, open, known)[i]).entry.path;
                at_names(dir, entries, p)
            },
    decreases longest(known) + 1 - dir.len(), entries.len(),
{
    let all = rows_of(entries, dir.len(), depth, open, known);
    if entries.len() > 0 {
        let e = entries.last();
        let head = entries.drop_last();
        let a = rows_of(head, dir.len(), depth, open, known);
        let row = RowView { entry: e, depth, expanded: is_open(e, open) };
        let b = rows_under(e, dir.len(), depth, open, known);
        let base = path::fronted(dir);
        let last = entries.len() - 1;
        assert(all =~= a + seq![row] + b);
        assert(entries[last] == e);
        assert(lists(dir, head)) by {
            assert forall|i: int| 0 <= i < head.len() implies path::is_name(
                (#[trigger] head[i]).name,
            ) && head[i].path == path::join_of(dir, head[i].name) by {
                assert(head[i] == entries[i]);
            }
            assert forall|i: int, j: int| 0 <= i < j < head.len() implies (#[trigger] head[i]).name
                != (#[trigger] head[j]).name by {
                assert(head[i] == entries[i] && head[j] == entries[j]);
            }
        }
        entries_take_shape(head, dir, depth, open, known);
        path::parent_of_entry(dir, e.name);
        reveal_strlit("/");
        assert(e.name[0] != '/') by {
            assert(e.name.contains(e.name[0]));
        }
        assert(e.path =~= base + e.name);
        assert(e.path.take(e.path.len() as int) =~= e.path);
        assert(is_at(base, e.name, e.path));
        assert(e.path.last() == e.name.last());
        assert(e.path.last() != '/') by {
            assert(e.name.contains(e.name.last()));
        }
        if b.len() > 0 {
            let kids = shown_in(known, e.path)->0;
            known_from_found(known, e.path, 0);
            let k = known_from(known, e.path, 0)->0;
            assert(lists(known[k].0, known[k].1));
            shown_is_bounded(known, e.path);
            entries_take_shape(kids, e.path, depth + 1, open, known);
            assert(b == rows_of(kids, e.path.len(), depth + 1, open, known));
            assert forall|j: int| 0 <= j < b.len() implies is_at(
                base,
                e.name,
                (#[trigger] b[j]).entry.path,
            ) && b[j].entry.path != e.path by {
                let p = b[j].entry.path;
                assert(at_names(e.path, kids, p));
                let m = choose|m: int|
                    0 <= m < kids.len() && is_at(path::fronted(e.path), (#[trigger] kids[m]).name, p);
                let n = e.path.len() as int;
                let far = path::fronted(e.path) + kids[m].name;
                assert(path::fronted(e.path) =~= e.path + "/"@);
                assert(p.take(far.len() as int) == far);
                assert(p[n] == far[n]) by {
                    assert(p.take(far.len() as int)[n] == far[n]);
                }
                assert(p.take(n) =~= e.path) by {
                    assert forall|x: int| 0 <= x < n implies p[x] == e.path[x] by {
                        assert(p.take(far.len() as int)[x] == far[x]);
                    }
                }
            }
        }
        assert forall|i: int| 0 <= i < a.len() implies !is_at(
            base,
            e.name,
            (#[trigger] a[i]).entry.path,
        ) by {
            let p = a[i].entry.path;
            assert(at_names(dir, head, p));
            let m = choose|m: int| 0 <= m < head.len() && is_at(base, (#[trigger] head[m]).name, p);
            assert(head[m] == entries[m]);
            if is_at(base, e.name, p) {
                names_part_paths(base, head[m].name, e.name, p);
                assert(entries[m].name != entries[last].name);
            }
        }
        joined_paths_differ(a, row, b);
        joined_rows_indent(a, row, b, depth);
        joined_rows_are_held(a, row, b, dir, depth);
        assert forall|i: int| 0 <= i < all.len() implies {
            let p = (#[trigger] all[i]).entry.path;
            at_names(dir, entries, p)
        } by {
            let p = all[i].entry.path;
            if i < a.len() {
                assert(all[i] == a[i]);
                assert(at_names(dir, head, p));
                let m = choose|m: int|
                    0 <= m < head.len() && is_at(base, (#[trigger] head[m]).name, p);
                assert(head[m] == entries[m]);
            } else {
                if i > a.len() {
                    assert(all[i] == b[i - a.len() - 1]);
                } else {
                    assert(all[i] == row);
                }
                assert(is_at(base, entries[last].name, p));
            }
        }
    }
}

/// The rows have the shape of a tree: no path is shown twice, only directories
/// stand open, the first row is not indented, a row is indented at most one level
/// more than the row before it, and only where that one stands open. What is not
/// indented lies in the root; the nearest row before any other one that is
/// indented less is that of the open directory that holds it.
pub proof fn rows_form_a_tree(v: NavView)
    requires
        is_tree(v),
    ensures
        has_shape(visible(v), v.root, 0),
{
    if let Some(kids) = shown_in(v.known, v.root) {
        known_from_found(v.known, v.root, 0);
        let k = known_from(v.known, v.root, 0)->0;
        assert(lists(v.known[k].0, v.known[k].1));
        entries_take_shape(kids, v.root, 0, v.open, v.known);
    }
}

/// Whether this can be what was found in a directory: names, no two alike.
pub open spec fn is_listing(found: Seq<FoundView>) -> bool {
    &&& forall|i: int| 0 <= i < found.len() ==> path::is_name((#[trigger] found[i]).name)
    &&& forall|i: int, j: int|
        0 <= i < j < found.len() ==> (#[trigger] found[i]).name != (#[trigger] found[j]).name
}

/// Where an entry comes from.
pub open spec fn is_found(
    dir: Seq<char>,
    found: Seq<FoundView>,
    dirs: bool,
    e: EntryView,
) -> bool {
    exists|m: int|
        0 <= m < found.len() && e == entry_of(dir, #[trigger] found[m]) && found[m].is_dir == dirs
}

proof fn entries_are_found(dir: Seq<char>, found: Seq<FoundView>, dirs: bool)
    requires
        is_listing(found),
    ensures
        forall|i: int|
            0 <= i < entries_of(dir, found, dirs).len() ==> is_found(
                dir,
                found,
                dirs,
                #[trigger] entries_of(dir, found, dirs)[i],
            ),
        forall|i: int, j: int|
            0 <= i < j < entries_of(dir, found, dirs).len() ==> (#[trigger] entries_of(
                dir,
                found,
                dirs,
            )[i]).name != (#[trigger] entries_of(dir, found, dirs)[j]).name,
    decreases found.len(),
{
    if found.len() > 0 {
        let head = found.drop_last();
        let last = found.len() - 1;
        assert(is_listing(head)) by {
            assert forall|i: int| 0 <= i < head.len() implies path::is_name(
                (#[trigger] head[i]).name,
            ) by {
                assert(head[i] == found[i]);
            }
            assert forall|i: int, j: int| 0 <= i < j < head.len() implies (#[trigger] head[i]).name
                != (#[trigger] head[j]).name by {
                assert(head[i] == found[i] && head[j] == found[j]);
            }
        }
        entries_are_found(dir, head, dirs);
        let earlier = entries_of(dir, head, dirs);
        let all = entries_of(dir, found, dirs);
        assert forall|i: int| 0 <= i < earlier.len() implies is_found(
            dir,
            found,
            dirs,
            #[trigger] earlier[i],
        ) && earlier[i].name != found[last].name by {
            assert(is_found(dir, head, dirs, earlier[i]));
            let m = choose|m: int|
                0 <= m < head.len() && earlier[i] == entry_of(dir, #[trigger] head[m])
                    && head[m].is_dir == dirs;
            assert(head[m] == found[m]);
        }
        assert forall|i: int| 0 <= i < all.len() implies is_found(
            dir,
            found,
            dirs,
            #[trigger] all[i],
        ) by {
            if i < earlier.len() {
                assert(all[i] == earlier[i]);
            } else {
                assert(all[i] == entry_of(dir, found[last]));
            }
        }
        assert forall|i: int, j: int| 0 <= i < j < all.len() implies (#[trigger] all[i]).name != (
        #[trigger] all[j]).name by {
            assert(all[i] == earlier[i]);
            if j < earlier.len() {
                assert(all[j] == earlier[j]);
            }
        }
    }
}

proof fn sorted_names_differ(entries: Seq<EntryView>)
    requires
        forall|i: int, j: int|
            0 <= i < j < entries.len() ==> (#[trigger] entries[i]).name != (
            #[trigger] entries[j]).name,
    ensures
        forall|i: int, j: int|
            0 <= i < j < sort::sorted(entries, name_le()).len() ==> (#[trigger] sort::sorted(
                entries,
                name_le(),
            )[i]).name != (#[trigger] sort::sorted(entries, name_le())[j]).name,
        forall|i: int|
            0 <= i < sort::sorted(entries, name_le()).len() ==> entries.contains(
                #[trigger] sort::sorted(entries, name_le())[i],
            ),
{
    assert(entries.no_duplicates()) by {
        assert forall|i: int, j: int|
            0 <= i < entries.len() && 0 <= j < entries.len() && i != j implies entries[i]
            != entries[j] by {
            if i < j {
                assert(entries[i].name != entries[j].name);
            } else {
                assert(entries[j].name != entries[i].name);
            }
        }
    }
    sort::sorted_holds_the_same(entries, name_le());
    let t = sort::sorted(entries, name_le());
    assert forall|i: int, j: int| 0 <= i < j < t.len() implies (#[trigger] t[i]).name != (
    #[trigger] t[j]).name by {
        assert(entries.contains(t[i]) && entries.contains(t[j]));
        let x = choose|x: int| 0 <= x < entries.len() && entries[x] == t[i];
        let y = choose|y: int| 0 <= y < entries.len() && entries[y] == t[j];
        assert(t[i] != t[j]);
        if x < y {
            assert(entries[x].name != entries[y].name);
        } else {
            assert(entries[y].name != entries[x].name);
        }
    }
}

/// What a directory shows lists it.
proof fn children_list_their_directory(dir: Seq<char>, found: Seq<FoundView>)
    requires
        is_listing(found),
    ensures
        lists(dir, children_of(dir, found)),
{
    let d = entries_of(dir, found, true);
    let f = entries_of(dir, found, false);
    entries_are_found(dir, found, true);
    entries_are_found(dir, found, false);
    sorted_names_differ(d);
    sorted_names_differ(f);
    let sd = sort::sorted(d, name_le());
    let sf = sort::sorted(f, name_le());
    let all = children_of(dir, found);
    let n = sd.len() as int;
    assert forall|i: int| 0 <= i < all.len() implies is_found(
        dir,
        found,
        i < n,
        #[trigger] all[i],
    ) by {
        if i < n {
            assert(all[i] == sd[i]);
            assert(d.contains(sd[i]));
            let x = choose|x: int| 0 <= x < d.len() && d[x] == sd[i];
            assert(is_found(dir, found, true, d[x]));
        } else {
            assert(all[i] == sf[i - n]);
            assert(f.contains(sf[i - n]));
            let x = choose|x: int| 0 <= x < f.len() && f[x] == sf[i - n];
            assert(is_found(dir, found, false, f[x]));
        }
    }
    assert forall|i: int| 0 <= i < all.len() implies path::is_name((#[trigger] all[i]).name)
        && all[i].path == path::join_of(dir, all[i].name) by {
        assert(is_found(dir, found, i < n, all[i]));
        let m = choose|m: int|
            0 <= m < found.len() && all[i] == entry_of(dir, #[trigger] found[m])
                && found[m].is_dir == (i < n);
        assert(path::is_name(found[m].name));
    }
    assert forall|i: int, j: int| 0 <= i < j < all.len() implies (#[trigger] all[i]).name != (
    #[trigger] all[j]).name by {
        if j < n {
            assert(all[i] == sd[i] && all[j] == sd[j]);
        } else if i >= n {
            assert(all[i] == sf[i - n] && all[j] == sf[j - n]);
        } else {
            assert(is_found(dir, found, true, all[i]));
            assert(is_found(dir, found, false, all[j]));
            let x = choose|m: int|
                0 <= m < found.len() && all[i] == entry_of(dir, #[trigger] found[m])
                    && found[m].is_dir;
            let y = choose|m: int|
                0 <= m < found.len() && all[j] == entry_of(dir, #[trigger] found[m])
                    && !found[m].is_dir;
            assert(x != y);
            if x < y {
                assert(found[x].name != found[y].name);
            } else {
                assert(found[y].name != found[x].name);
            }
        }
    }
}

/// What was found in a directory, opened as a tree, is one.
pub proof fn opened_is_a_tree(root: Seq<char>, found: Seq<FoundView>)
    requires
        is_listing(found),
    ensures
        is_tree(opened(root, found)),
{
    children_list_their_directory(root, found);
}

proof fn opening_keeps_the_tree(v: NavView, dir: Seq<char>, found: Seq<FoundView>)
    requires
        is_tree(v),
        is_listing(found),
    ensures
        is_tree(with_open(v, dir, found)),
{
    let more = learned(v.known, dir, found);
    let w = with_open(v, dir, found);
    children_list_their_directory(dir, found);
    opening_keeps_known(v, w, dir, found);
    assert forall|k: int| 0 <= k < more.len() implies lists(
        (#[trigger] more[k]).0,
        more[k].1,
    ) by {
        if k < v.known.len() {
            assert(more[k] == v.known[k]);
        }
    }
}

/// Whatever is pressed, the tree stays one.
pub proof fn moves_keep_the_tree(v: NavView, found: Seq<FoundView>)
    requires
        is_tree(v),
        is_listing(found),
    ensures
        is_tree(toggled(v, found)),
        is_tree(expanded(v, found)),
        is_tree(collapsed(v)),
{
    if let Some(row) = current(v) {
        let p = row.entry.path;
        rows_form_a_tree(v);
        assert(visible(v)[v.cursor as int] == row);
        opening_keeps_the_tree(v, p, found);
        let w = with_closed(v, p);
        assert(w.known == v.known && w.open == v.open.remove(p) && w.root == v.root);
        assert forall|q: Seq<char>| #[trigger] w.open.contains(q) implies shown_in(w.known, q)
            is Some by {
            assert(v.open.contains(q));
        }
        assert(is_tree(w));
        if let Some(dir) = path::parent_of(p) {
            if let Some(i) = row_from(visible(v), dir, 0) {
                let x = NavView { cursor: i as nat, ..v };
                assert forall|q: Seq<char>| #[trigger] x.open.contains(q) implies shown_in(
                    x.known,
                    q,
                ) is Some by {
                    assert(v.open.contains(q));
                }
                assert(is_tree(x));
            }
        }
    }
}

proof fn shown_entries_are_taken(dir: Seq<char>, found: Seq<FoundView>, dirs: bool, m: int)
    requires
        0 <= m < found.len(),
        is_shown(found[m]),
        found[m].is_dir == dirs,
    ensures
        entries_of(dir, found, dirs).contains(entry_of(dir, found[m])),
    decreases found.len(),
{
    let head = found.drop_last();
    let earlier = entries_of(dir, head, dirs);
    let all = entries_of(dir, found, dirs);
    let e = entry_of(dir, found[m]);
    if m < found.len() - 1 {
        assert(head[m] == found[m]);
        shown_entries_are_taken(dir, head, dirs, m);
        let k = choose|k: int| 0 <= k < earlier.len() && earlier[k] == e;
        assert(all[k] == e);
    } else {
        assert(found.last() == found[m]);
        assert(all[all.len() - 1] == e);
    }
}

proof fn taken_entries_are_shown(dir: Seq<char>, found: Seq<FoundView>, dirs: bool, i: int)
    requires
        0 <= i < entries_of(dir, found, dirs).len(),
    ensures
        entries_of(dir, found, dirs)[i].is_dir == dirs,
        !dirs ==> !text::starts(entries_of(dir, found, dirs)[i].name, "."@),
    decreases found.len(),
{
    if found.len() > 0 {
        let earlier = entries_of(dir, found.drop_last(), dirs);
        if i < earlier.len() {
            taken_entries_are_shown(dir, found.drop_last(), dirs, i);
            assert(entries_of(dir, found, dirs)[i] == earlier[i]);
        }
    }
}

/// A directory shows every directory that was found in it and every file that is
/// not hidden, at its path there.
pub proof fn everything_is_shown_but_hidden_files(dir: Seq<char>, found: Seq<FoundView>, m: int)
    requires
        0 <= m < found.len(),
        found[m].is_dir || !text::starts(found[m].name, "."@),
    ensures
        exists|k: int|
            0 <= k < children_of(dir, found).len() && (#[trigger] children_of(dir, found)[k]).name
                == found[m].name && children_of(dir, found)[k].path == path::join_of(
                dir,
                found[m].name,
            ) && children_of(dir, found)[k].is_dir == found[m].is_dir,
{
    let dirs = found[m].is_dir;
    let taken = entries_of(dir, found, dirs);
    let e = entry_of(dir, found[m]);
    shown_entries_are_taken(dir, found, dirs, m);
    sort::sorted_holds_the_same(taken, name_le());
    let x = choose|x: int| 0 <= x < taken.len() && taken[x] == e;
    let s = sort::sorted(taken, name_le());
    assert(s.contains(taken[x]));
    let y = choose|y: int| 0 <= y < s.len() && s[y] == e;
    let n = sort::sorted(entries_of(dir, found, true), name_le()).len() as int;
    let k = if dirs {
        y
    } else {
        n + y
    };
    assert(children_of(dir, found)[k] == e);
}

/// Directories come before files, both by name, and no file that is shown is
/// hidden.
pub proof fn directories_come_first(dir: Seq<char>, found: Seq<FoundView>, i: int, j: int)
    requires
        0 <= i < j < children_of(dir, found).len(),
    ensures
        children_of(dir, found)[j].is_dir ==> children_of(dir, found)[i].is_dir,
        children_of(dir, found)[i].is_dir == children_of(dir, found)[j].is_dir ==> !text::text_less(
            children_of(dir, found)[j].name,
            children_of(dir, found)[i].name,
        ),
        !children_of(dir, found)[j].is_dir ==> !text::starts(
            children_of(dir, found)[j].name,
            "."@,
        ),
{
    let d = entries_of(dir, found, true);
    let f = entries_of(dir, found, false);
    let sd = sort::sorted(d, name_le());
    let sf = sort::sorted(f, name_le());
    let n = sd.len() as int;
    names_are_ordered();
    sort::sorted_holds_the_same(d, name_le());
    sort::sorted_holds_the_same(f, name_le());
    sort::sorted_ascends(d, name_le());
    sort::sorted_ascends(f, name_le());
    let le = name_le();
    assert forall|k: int| 0 <= k < n implies (#[trigger] sd[k]).is_dir by {
        assert(d.contains(sd[k]));
        let x = choose|x: int| 0 <= x < d.len() && d[x] == sd[k];
        taken_entries_are_shown(dir, found, true, x);
    }
    assert forall|k: int| 0 <= k < sf.len() implies !(#[trigger] sf[k]).is_dir && !text::starts(
        sf[k].name,
        "."@,
    ) by {
        assert(f.contains(sf[k]));
        let x = choose|x: int| 0 <= x < f.len() && f[x] == sf[k];
        taken_entries_are_shown(dir, found, false, x);
    }
    let all = children_of(dir, found);
    if j < n {
        assert(all[i] == sd[i] && all[j] == sd[j]);
        assert(le(sd[i], sd[j]));
    } else if i < n {
        assert(all[i] == sd[i] && all[j] == sf[j - n]);
    } else {
        assert(all[i] == sf[i - n] && all[j] == sf[j - n]);
        assert(le(sf[i - n], sf[j - n]));
    }
}

proof fn names_are_ordered()
    ensures
        sort::is_total(name_le()),
        sort::is_transitive(name_le()),
{
    let le = name_le();
    let by_text = sort::text_le();
    sort::text_le_is_an_order();
    assert forall|a: EntryView, b: EntryView| #[trigger] le(a, b) || le(b, a) by {
        assert(by_text(a.name, b.name) || by_text(b.name, a.name));
    }
    assert forall|a: EntryView, b: EntryView, c: EntryView| #[trigger]
        le(a, b) && #[trigger] le(b, c) implies le(a, c) by {
        assert(by_text(a.name, b.name) && by_text(b.name, c.name));
    }
}

/// The left arrow on a row that is indented, and is no open directory, goes to the
/// row of the directory that holds it.
pub proof fn left_goes_to_the_directory(v: NavView)
    requires
        is_tree(v),
        current(v) matches Some(row) && row.depth > 0 && !row.expanded,
    ensures
        collapsed(v).cursor < v.cursor,
        visible(collapsed(v)) == visible(v),
        holds_row(visible(v), collapsed(v).cursor as int, v.cursor as int),
{
    rows_form_a_tree(v);
    let rows = visible(v);
    let i = v.cursor as int;
    assert(rows[i].depth > 0);
    let j = choose|j: int| holds_row(rows, j, i);
    let dir = rows[j].entry.path;
    first_row_is_found(rows, dir, 0, j);
}

proof fn first_row_is_found(rows: Seq<RowView>, dir: Seq<char>, i: int, j: int)
    requires
        0 <= i <= j < rows.len(),
        rows[j].entry.path == dir,
        paths_differ(rows),
    ensures
        row_from(rows, dir, i) == Some(j),
    decreases j - i,
{
    if i < j {
        assert(rows[i].entry.path != rows[j].entry.path);
        first_row_is_found(rows, dir, i + 1, j);
    }
}

} // verus!
