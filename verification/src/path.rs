//! Unix paths as text: their components, and the operations that take a path
//! apart or put one together without looking at a disk.

use crate::text;
use vstd::prelude::*;
use vstd::slice::slice_subrange;

verus! {

// ---------------------------------------------------------------------------
// Components
// ---------------------------------------------------------------------------

/// Where the name that starts at `i` ends.
pub open spec fn name_end(p: Seq<char>, i: int) -> int {
    match text::char_from(p, '/', i) {
        Some(e) => e,
        None => p.len() as int,
    }
}

/// The places of the names in `p` from `i` on. Nothing between two slashes, and
/// a single dot, name nothing.
pub open spec fn names_from(p: Seq<char>, i: int) -> Seq<(int, int)>
    decreases p.len() - i,
    via names_from_decreases
{
    if i < 0 || i >= p.len() {
        Seq::empty()
    } else if p[i] == '/' {
        names_from(p, i + 1)
    } else if p.subrange(i, name_end(p, i)) == "."@ {
        names_from(p, name_end(p, i))
    } else {
        seq![(i, name_end(p, i))] + names_from(p, name_end(p, i))
    }
}

#[via_fn]
proof fn names_from_decreases(p: Seq<char>, i: int) {
    if 0 <= i {
        text::char_from_is_least(p, '/', i);
    }
}

/// Whether a path starts at the root.
pub open spec fn absolute(p: Seq<char>) -> bool {
    p.len() > 0 && p[0] == '/'
}

/// Whether a path starts with the name of the current directory.
pub open spec fn dotted(p: Seq<char>) -> bool {
    p.len() > 0 && p[0] == '.' && (p.len() == 1 || p[1] == '/')
}

/// The places of a path's components: the root or a leading dot, then the
/// names.
pub open spec fn spots(p: Seq<char>) -> Seq<(int, int)> {
    if absolute(p) || dotted(p) {
        seq![(0int, 1int)] + names_from(p, 1)
    } else {
        names_from(p, 0)
    }
}

/// The components of a path.
pub open spec fn components(p: Seq<char>) -> Seq<Seq<char>> {
    spots(p).map_values(|r: (int, int)| p.subrange(r.0, r.1))
}

/// Two texts that name the same path, component by component.
pub open spec fn same_path(p: Seq<char>, q: Seq<char>) -> bool {
    components(p) == components(q)
}

proof fn names_in_order(p: Seq<char>, i: int)
    requires
        0 <= i,
    ensures
        forall|k: int|
            0 <= k < names_from(p, i).len() ==> {
                let r = #[trigger] names_from(p, i)[k];
                i <= r.0 < r.1 <= p.len()
            },
        forall|k: int, m: int|
            0 <= k < m < names_from(p, i).len() ==> (#[trigger] names_from(p, i)[k]).1 <= (
            #[trigger] names_from(p, i)[m]).0,
    decreases p.len() - i,
{
    if i < p.len() {
        text::char_from_is_least(p, '/', i);
        let e = name_end(p, i);
        if p[i] == '/' {
            names_in_order(p, i + 1);
            assert(names_from(p, i) == names_from(p, i + 1));
        } else {
            names_in_order(p, e);
            let rest = names_from(p, e);
            if p.subrange(i, e) == "."@ {
                assert(names_from(p, i) == rest);
            } else {
                let all = names_from(p, i);
                assert(all =~= seq![(i, e)] + rest);
                assert forall|k: int| 0 <= k < all.len() implies {
                    let r = #[trigger] all[k];
                    i <= r.0 < r.1 <= p.len()
                } by {
                    if k > 0 {
                        assert(all[k] == rest[k - 1]);
                    }
                }
                assert forall|k: int, m: int| 0 <= k < m < all.len() implies (#[trigger] all[k]).1
                    <= (#[trigger] all[m]).0 by {
                    assert(all[m] == rest[m - 1]);
                    if k > 0 {
                        assert(all[k] == rest[k - 1]);
                    }
                }
            }
        }
    }
}

/// The components stand one behind the other, none of them empty.
pub proof fn spots_in_order(p: Seq<char>)
    ensures
        forall|k: int|
            0 <= k < spots(p).len() ==> {
                let r = #[trigger] spots(p)[k];
                0 <= r.0 < r.1 <= p.len()
            },
        forall|k: int, m: int|
            0 <= k < m < spots(p).len() ==> (#[trigger] spots(p)[k]).1 <= (#[trigger] spots(
                p,
            )[m]).0,
{
    if absolute(p) || dotted(p) {
        names_in_order(p, 1);
        let rest = names_from(p, 1);
        let all = spots(p);
        assert(all =~= seq![(0int, 1int)] + rest);
        assert forall|k: int| 0 <= k < all.len() implies {
            let r = #[trigger] all[k];
            0 <= r.0 < r.1 <= p.len()
        } by {
            if k > 0 {
                assert(all[k] == rest[k - 1]);
            }
        }
        assert forall|k: int, m: int| 0 <= k < m < all.len() implies (#[trigger] all[k]).1 <= (
        #[trigger] all[m]).0 by {
            assert(all[m] == rest[m - 1]);
            if k > 0 {
                assert(all[k] == rest[k - 1]);
            }
        }
    } else {
        names_in_order(p, 0);
    }
}

pub open spec fn spots_view(v: Seq<(usize, usize)>) -> Seq<(int, int)> {
    v.map_values(|r: (usize, usize)| (r.0 as int, r.1 as int))
}

fn find_name_end(p: &[char], i: usize) -> (r: usize)
    requires
        i < p.len(),
    ensures
        r == name_end(p@, i as int),
        i <= r <= p.len(),
        p@[i as int] != '/' ==> i < r,
{
    proof {
        text::char_from_is_least(p@, '/', i as int);
    }
    match text::find_char(p, '/', i) {
        Some(e) => e,
        None => p.len(),
    }
}

/// The places of a path's components.
fn find_spots(p: &[char]) -> (r: Vec<(usize, usize)>)
    ensures
        spots_view(r@) == spots(p@),
{
    let mut out: Vec<(usize, usize)> = Vec::new();
    let mut i: usize = 0;
    if p.len() > 0 && (p[0] == '/' || (p[0] == '.' && (p.len() == 1 || p[1] == '/'))) {
        out.push((0, 1));
        i = 1;
        assert(spots_view(out@) =~= seq![(0int, 1int)]);
    }
    assert(spots_view(out@) + names_from(p@, i as int) =~= spots(p@));
    while i < p.len()
        invariant
            i <= p.len(),
            spots_view(out@) + names_from(p@, i as int) == spots(p@),
        decreases p.len() - i,
    {
        if p[i] == '/' {
            i = i + 1;
        } else {
            let e: usize = find_name_end(p, i);
            if text::reads(slice_subrange(p, i, e), ".") {
            } else {
                let ghost before = out@;
                out.push((i, e));
                proof {
                    assert(spots_view(out@) =~= spots_view(before).push((i as int, e as int)));
                    assert(spots_view(before) + (seq![(i as int, e as int)] + names_from(
                        p@,
                        e as int,
                    )) =~= spots_view(out@) + names_from(p@, e as int));
                }
            }
            i = e;
        }
    }
    assert(spots_view(out@) =~= spots(p@));
    out
}

// ---------------------------------------------------------------------------
// Taking apart
// ---------------------------------------------------------------------------

/// The last component of a path, where it is a name.
pub open spec fn name_of(p: Seq<char>) -> Option<Seq<char>> {
    if components(p).len() > 0 && !(components(p).last() == "/"@) && !(components(p).last() == "."@)
        && !(components(p).last() == ".."@) {
        Some(components(p).last())
    } else {
        None
    }
}

/// The path without its last component.
pub open spec fn parent_of(p: Seq<char>) -> Option<Seq<char>> {
    let c = spots(p);
    if c.len() == 0 || components(p).last() == "/"@ {
        None
    } else if c.len() == 1 {
        Some(Seq::empty())
    } else {
        Some(p.take(c[c.len() - 2].1))
    }
}

/// The path in whose front `base` has been taken off, where its first
/// components are those of `base`.
pub open spec fn relative_to(p: Seq<char>, base: Seq<char>) -> Option<Seq<char>> {
    let n = components(base).len() as int;
    let c = spots(p);
    if n > c.len() || components(p).take(n) != components(base) {
        None
    } else if n == c.len() {
        Some(Seq::empty())
    } else {
        Some(p.subrange(c[n].0, c.last().1))
    }
}

/// The extension of a path's name: what follows its last dot, where something
/// precedes that dot.
pub open spec fn extension_of(p: Seq<char>) -> Option<Seq<char>> {
    match name_of(p) {
        Some(name) => match text::char_before(name, '.', name.len() as int) {
            Some(dot) => if dot > 0 {
                Some(name.skip(dot + 1))
            } else {
                None
            },
            None => None,
        },
        None => None,
    }
}

/// A path without an extension, with the extension `json`.
pub open spec fn as_json_file(p: Seq<char>) -> Seq<char> {
    if name_of(p) is Some && extension_of(p) is None {
        p.take(spots(p).last().1) + ".json"@
    } else {
        p
    }
}

/// `rel` seen from `base`.
pub open spec fn join_of(base: Seq<char>, rel: Seq<char>) -> Seq<char> {
    if absolute(rel) {
        rel
    } else if base.len() == 0 || base.last() == '/' {
        base + rel
    } else {
        base + "/"@ + rel
    }
}

/// The path with `name` in the place of its name.
pub open spec fn renamed(p: Seq<char>, name: Seq<char>) -> Seq<char> {
    match name_of(p) {
        Some(_) => match parent_of(p) {
            Some(dir) => join_of(dir, name),
            None => join_of(p, name),
        },
        None => join_of(p, name),
    }
}

/// A parent is shorter than the path, so that walking up ends.
pub proof fn parent_is_shorter(p: Seq<char>)
    ensures
        parent_of(p) matches Some(d) ==> d.len() < p.len(),
{
    spots_in_order(p);
    let c = spots(p);
    if c.len() >= 2 {
        assert(c[c.len() - 2].1 <= c[c.len() - 1].0);
    } else if c.len() == 1 {
        assert(0 <= c[0].0 < c[0].1 <= p.len());
    }
}

fn component(p: &[char], spot: (usize, usize)) -> (r: &[char])
    requires
        spot.0 <= spot.1 <= p@.len(),
    ensures
        r@ == p@.subrange(spot.0 as int, spot.1 as int),
{
    slice_subrange(p, spot.0, spot.1)
}

/// Whether two texts name the same path.
pub fn same(path: &str, other: &str) -> (r: bool)
    ensures
        r == same_path(path@, other@),
{
    let p: Vec<char> = text::chars_of(path);
    let q: Vec<char> = text::chars_of(other);
    let a: Vec<(usize, usize)> = find_spots(p.as_slice());
    let b: Vec<(usize, usize)> = find_spots(q.as_slice());
    proof {
        spots_in_order(p@);
        spots_in_order(q@);
        assert(components(p@).len() == a@.len());
        assert(components(q@).len() == b@.len());
    }
    if a.len() != b.len() {
        return false;
    }
    let mut k: usize = 0;
    while k < a.len()
        invariant
            p@ == path@,
            q@ == other@,
            k <= a.len(),
            a.len() == b.len(),
            spots_view(a@) == spots(p@),
            spots_view(b@) == spots(q@),
            components(p@).len() == a@.len(),
            components(q@).len() == b@.len(),
            forall|j: int|
                0 <= j < spots(p@).len() ==> {
                    let r = #[trigger] spots(p@)[j];
                    0 <= r.0 < r.1 <= p@.len()
                },
            forall|j: int|
                0 <= j < spots(q@).len() ==> {
                    let r = #[trigger] spots(q@)[j];
                    0 <= r.0 < r.1 <= q@.len()
                },
            forall|j: int| 0 <= j < k ==> components(p@)[j] == components(q@)[j],
        decreases a.len() - k,
    {
        assert(spots(p@)[k as int] == (a@[k as int].0 as int, a@[k as int].1 as int));
        assert(spots(q@)[k as int] == (b@[k as int].0 as int, b@[k as int].1 as int));
        if !text::same(component(p.as_slice(), a[k]), component(q.as_slice(), b[k])) {
            assert(components(p@)[k as int] != components(q@)[k as int]);
            return false;
        }
        k = k + 1;
    }
    assert(components(p@) =~= components(q@));
    true
}

/// The last component of a path, where it is a name.
pub fn file_name(path: &str) -> (r: Option<String>)
    ensures
        match r {
            Some(n) => name_of(path@) == Some(n@),
            None => name_of(path@) is None,
        },
{
    let p: Vec<char> = text::chars_of(path);
    let c: Vec<(usize, usize)> = find_spots(p.as_slice());
    proof {
        spots_in_order(p@);
    }
    if c.len() == 0 {
        return None;
    }
    assert(spots(p@)[c@.len() - 1] == (c@[c@.len() - 1].0 as int, c@[c@.len() - 1].1 as int));
    let last: &[char] = component(p.as_slice(), c[c.len() - 1]);
    if text::reads(last, "/") || text::reads(last, ".") || text::reads(last, "..") {
        None
    } else {
        Some(text::text_of(last))
    }
}

/// The path without its last component.
pub fn parent(path: &str) -> (r: Option<String>)
    ensures
        match r {
            Some(d) => parent_of(path@) == Some(d@),
            None => parent_of(path@) is None,
        },
{
    let p: Vec<char> = text::chars_of(path);
    let c: Vec<(usize, usize)> = find_spots(p.as_slice());
    proof {
        spots_in_order(p@);
    }
    if c.len() == 0 {
        return None;
    }
    assert(spots(p@)[c@.len() - 1] == (c@[c@.len() - 1].0 as int, c@[c@.len() - 1].1 as int));
    let last: &[char] = component(p.as_slice(), c[c.len() - 1]);
    if text::reads(last, "/") {
        None
    } else if c.len() == 1 {
        Some(String::new())
    } else {
        assert(spots(p@)[c@.len() - 2] == (c@[c@.len() - 2].0 as int, c@[c@.len() - 2].1 as int));
        Some(text::text_of(text::head(p.as_slice(), c[c.len() - 2].1)))
    }
}

/// The directory of a file; the current one where the path has none.
pub open spec fn dir_of(p: Seq<char>) -> Seq<char> {
    match parent_of(p) {
        Some(d) => d,
        None => "."@,
    }
}

/// The directory of a file; the current one where the path has none.
pub fn directory(path: &str) -> (r: String)
    ensures
        r@ == dir_of(path@),
{
    match parent(path) {
        Some(d) => d,
        None => ".".to_string(),
    }
}

/// What remains of a path when `base` is taken off its front.
pub fn strip_prefix(path: &str, base: &str) -> (r: Option<String>)
    ensures
        match r {
            Some(rel) => relative_to(path@, base@) == Some(rel@),
            None => relative_to(path@, base@) is None,
        },
{
    let p: Vec<char> = text::chars_of(path);
    let q: Vec<char> = text::chars_of(base);
    let a: Vec<(usize, usize)> = find_spots(p.as_slice());
    let b: Vec<(usize, usize)> = find_spots(q.as_slice());
    proof {
        spots_in_order(p@);
        spots_in_order(q@);
        assert(components(p@).len() == a@.len());
        assert(components(q@).len() == b@.len());
    }
    if b.len() > a.len() {
        return None;
    }
    let mut k: usize = 0;
    while k < b.len()
        invariant
            p@ == path@,
            q@ == base@,
            k <= b.len() <= a.len(),
            spots_view(a@) == spots(p@),
            spots_view(b@) == spots(q@),
            components(p@).len() == a@.len(),
            components(q@).len() == b@.len(),
            forall|j: int|
                0 <= j < spots(p@).len() ==> {
                    let r = #[trigger] spots(p@)[j];
                    0 <= r.0 < r.1 <= p@.len()
                },
            forall|j: int|
                0 <= j < spots(q@).len() ==> {
                    let r = #[trigger] spots(q@)[j];
                    0 <= r.0 < r.1 <= q@.len()
                },
            forall|j: int| 0 <= j < k ==> components(p@)[j] == components(q@)[j],
        decreases b.len() - k,
    {
        assert(spots(p@)[k as int] == (a@[k as int].0 as int, a@[k as int].1 as int));
        assert(spots(q@)[k as int] == (b@[k as int].0 as int, b@[k as int].1 as int));
        if !text::same(component(p.as_slice(), a[k]), component(q.as_slice(), b[k])) {
            assert(components(p@).take(b@.len() as int)[k as int] != components(q@)[k as int]);
            return None;
        }
        k = k + 1;
    }
    assert(components(p@).take(b@.len() as int) =~= components(q@));
    if b.len() == a.len() {
        return Some(String::new());
    }
    proof {
        let n = b@.len() as int;
        let last = a@.len() - 1;
        assert(spots(p@)[n] == (a@[n].0 as int, a@[n].1 as int));
        assert(spots(p@)[last] == (a@[last].0 as int, a@[last].1 as int));
        if n < last {
            assert(spots(p@)[n].1 <= spots(p@)[last].0);
        }
    }
    let from: usize = a[b.len()].0;
    let to: usize = a[a.len() - 1].1;
    Some(text::text_of(slice_subrange(p.as_slice(), from, to)))
}

/// Whether a path starts at the root.
pub fn is_absolute(path: &str) -> (r: bool)
    ensures
        r == absolute(path@),
{
    let p: Vec<char> = text::chars_of(path);
    p.len() > 0 && p[0] == '/'
}

/// The extension of a path's name.
pub fn extension(path: &str) -> (r: Option<String>)
    ensures
        match r {
            Some(e) => extension_of(path@) == Some(e@),
            None => extension_of(path@) is None,
        },
{
    match file_name(path) {
        Some(name) => {
            let n: Vec<char> = text::chars_of(name.as_str());
            match text::rfind_char(n.as_slice(), '.') {
                Some(dot) => {
                    if dot > 0 {
                        Some(text::text_of(text::tail(n.as_slice(), dot + 1)))
                    } else {
                        None
                    }
                },
                None => None,
            }
        },
        None => None,
    }
}

/// `rel` seen from `base`.
pub fn join(base: &str, rel: &str) -> (r: String)
    ensures
        r@ == join_of(base@, rel@),
{
    let b: Vec<char> = text::chars_of(base);
    if is_absolute(rel) {
        rel.to_string()
    } else if b.len() == 0 || b[b.len() - 1] == '/' {
        text::cat(base, rel)
    } else {
        text::cat3(base, "/", rel)
    }
}

/// A path without an extension, with the extension `json`.
pub fn json_file(path: &str) -> (r: String)
    ensures
        r@ == as_json_file(path@),
{
    match file_name(path) {
        Some(_) => match extension(path) {
            Some(_) => path.to_string(),
            None => {
                let p: Vec<char> = text::chars_of(path);
                let c: Vec<(usize, usize)> = find_spots(p.as_slice());
                proof {
                    spots_in_order(p@);
                    assert(components(p@).len() == c@.len());
                    assert(spots(p@)[c@.len() - 1] == (
                        c@[c@.len() - 1].0 as int,
                        c@[c@.len() - 1].1 as int,
                    ));
                }
                let stem: String = text::text_of(text::head(p.as_slice(), c[c.len() - 1].1));
                text::cat(stem.as_str(), ".json")
            },
        },
        None => path.to_string(),
    }
}

/// The path with `name` in the place of its name.
pub fn with_name(path: &str, name: &str) -> (r: String)
    ensures
        r@ == renamed(path@, name@),
{
    match file_name(path) {
        Some(_) => match parent(path) {
            Some(dir) => join(dir.as_str(), name),
            None => join(path, name),
        },
        None => join(path, name),
    }
}

// ---------------------------------------------------------------------------
// Walking up
// ---------------------------------------------------------------------------

/// The directories from `dir` up to `root`, or to the top where `root` is not
/// on the way.
pub open spec fn walk_up(dir: Option<Seq<char>>, root: Seq<char>) -> Seq<Seq<char>>
    decreases
            (match dir {
                Some(d) => d.len() + 1,
                None => 0,
            }) as int,
    via walk_up_decreases
{
    match dir {
        Some(d) => if same_path(d, root) {
            seq![d]
        } else {
            seq![d] + walk_up(parent_of(d), root)
        },
        None => Seq::empty(),
    }
}

#[via_fn]
proof fn walk_up_decreases(dir: Option<Seq<char>>, root: Seq<char>) {
    match dir {
        Some(d) => {
            parent_is_shorter(d);
        },
        None => {},
    }
}

/// The directories around a file, nearest first, up to `root`.
pub open spec fn dirs_around(file: Seq<char>, root: Seq<char>) -> Seq<Seq<char>> {
    walk_up(parent_of(file), root)
}

fn walk(dir: Option<String>, root: &str, out: &mut Vec<String>)
    ensures
        text::texts(final(out)@) == text::texts(old(out)@) + walk_up(
            match dir {
                Some(d) => Some(d@),
                None => None,
            },
            root@,
        ),
    decreases
            (match dir {
                Some(d) => d@.len() + 1,
                None => 0,
            }),
{
    match dir {
        Some(d) => {
            let ghost here = d@;
            let ghost before = text::texts(out@);
            proof {
                parent_is_shorter(here);
            }
            let stop: bool = same(d.as_str(), root);
            let next: Option<String> = parent(d.as_str());
            out.push(d);
            assert(text::texts(out@) =~= before.push(here));
            if stop {
                assert(before.push(here) =~= before + seq![here]);
            } else {
                walk(next, root, out);
                proof {
                    let rest = walk_up(parent_of(here), root@);
                    assert(before.push(here) + rest =~= before + (seq![here] + rest));
                }
            }
        },
        None => {
            assert(text::texts(out@) + Seq::<Seq<char>>::empty() =~= text::texts(out@));
        },
    }
}

/// The directories around a file, nearest first, up to `root`.
pub fn ancestors(file: &str, root: &str) -> (r: Vec<String>)
    ensures
        text::texts(r@) == dirs_around(file@, root@),
{
    let mut out: Vec<String> = Vec::new();
    assert(text::texts(out@) =~= Seq::<Seq<char>>::empty());
    walk(parent(file), root, &mut out);
    assert(text::texts(out@) =~= dirs_around(file@, root@));
    out
}

/// Walking up from a file reaches its own directory first.
pub proof fn nearest_directory_first(file: Seq<char>, root: Seq<char>)
    ensures
        match parent_of(file) {
            Some(d) => dirs_around(file, root).len() > 0 && dirs_around(file, root)[0] == d,
            None => dirs_around(file, root).len() == 0,
        },
{
}

/// The walk stops at the root: no directory but the last one names it.
pub proof fn walk_stops_at_root(dir: Option<Seq<char>>, root: Seq<char>)
    ensures
        forall|k: int|
            0 <= k < walk_up(dir, root).len() - 1 ==> !same_path(
                #[trigger] walk_up(dir, root)[k],
                root,
            ),
    decreases
            (match dir {
                Some(d) => d.len() + 1,
                None => 0,
            }) as int,
{
    match dir {
        Some(d) => {
            parent_is_shorter(d);
            if !same_path(d, root) {
                walk_stops_at_root(parent_of(d), root);
                let rest = walk_up(parent_of(d), root);
                let all = walk_up(dir, root);
                assert forall|k: int| 0 <= k < all.len() - 1 implies !same_path(
                    #[trigger] all[k],
                    root,
                ) by {
                    if k > 0 {
                        assert(all[k] == rest[k - 1]);
                    }
                }
            }
        },
        None => {},
    }
}

// ---------------------------------------------------------------------------
// Putting together and taking apart
// ---------------------------------------------------------------------------

/// Something a directory can hold.
pub open spec fn is_name(name: Seq<char>) -> bool {
    name.len() > 0 && !name.contains('/') && name != "."@
}

/// A path that ends with its last component, as canonical paths do.
pub open spec fn is_whole(p: Seq<char>) -> bool {
    p.len() == 0 || (spots(p).len() > 0 && spots(p).last().1 == p.len())
}

/// Whether the parent of `p` is the directory `dir`; it is written alike, too,
/// where `dir` ends with its last component.
pub open spec fn lies_in(p: Seq<char>, dir: Seq<char>) -> bool {
    &&& parent_of(p) matches Some(d)
    &&& same_path(d, dir)
    &&& is_whole(dir) ==> d == dir
}

/// Where the names of a path can start: behind the root or a leading dot.
pub open spec fn lead(p: Seq<char>) -> int {
    if absolute(p) || dotted(p) {
        1
    } else {
        0
    }
}

/// What stands before the names that are put behind a path.
pub open spec fn fronted(dir: Seq<char>) -> Seq<char> {
    if dir.len() == 0 || dir.last() == '/' {
        dir
    } else {
        dir + "/"@
    }
}

/// A path that starts and ends with a name.
pub open spec fn is_plain(rel: Seq<char>) -> bool {
    let c = names_from(rel, 0);
    c.len() > 0 && c[0].0 == 0 && c.last().1 == rel.len()
}

/// Whether `a` and `b` can be put together without a name running over from the
/// one into the other.
pub open spec fn apart(a: Seq<char>, b: Seq<char>) -> bool {
    a.len() == 0 || a.last() == '/' || (b.len() > 0 && b[0] == '/')
}

proof fn name_end_in_front(a: Seq<char>, b: Seq<char>, i: int)
    requires
        apart(a, b),
        0 <= i < a.len(),
        a[i] != '/',
    ensures
        name_end(a + b, i) == name_end(a, i),
        i < name_end(a, i) <= a.len(),
{
    let p = a + b;
    text::char_from_is_least(a, '/', i);
    text::char_from_is_least(p, '/', i);
    assert forall|k: int| 0 <= k < a.len() implies p[k] == a[k] by {}
    match text::char_from(a, '/', i) {
        Some(e) => {
            assert(p[e] == '/');
            let f = text::char_from(p, '/', i)->0;
            assert(text::char_from(p, '/', i) is Some);
            if f < e {
                assert(a[f] == p[f]);
            }
        },
        None => {
            assert(a[a.len() - 1] != '/');
            assert(p[a.len() as int] == b[0]);
            let f = text::char_from(p, '/', i)->0;
            assert(text::char_from(p, '/', i) is Some);
            if f < a.len() {
                assert(a[f] == p[f]);
            }
        },
    }
}

proof fn names_in_front(a: Seq<char>, b: Seq<char>, i: int)
    requires
        apart(a, b),
        0 <= i <= a.len(),
    ensures
        names_from(a + b, i) == names_from(a, i) + names_from(a + b, a.len() as int),
    decreases a.len() - i,
{
    let p = a + b;
    let rest = names_from(p, a.len() as int);
    if i == a.len() {
        assert(names_from(a, i) + rest =~= rest);
    } else {
        assert(p[i] == a[i]);
        if a[i] == '/' {
            names_in_front(a, b, i + 1);
        } else {
            name_end_in_front(a, b, i);
            let e = name_end(a, i);
            names_in_front(a, b, e);
            assert(p.subrange(i, e) =~= a.subrange(i, e));
            if a.subrange(i, e) != "."@ {
                assert(seq![(i, e)] + (names_from(a, e) + rest) =~= seq![(i, e)] + names_from(a, e)
                    + rest);
            }
        }
    }
}

pub open spec fn shifted(v: Seq<(int, int)>, by: int) -> Seq<(int, int)> {
    v.map_values(|r: (int, int)| (r.0 + by, r.1 + by))
}

proof fn names_behind(a: Seq<char>, b: Seq<char>, i: int)
    requires
        0 <= i <= b.len(),
    ensures
        names_from(a + b, a.len() + i) == shifted(names_from(b, i), a.len() as int),
    decreases b.len() - i,
{
    let p = a + b;
    let n = a.len() as int;
    if i == b.len() {
        assert(shifted(names_from(b, i), n) =~= Seq::<(int, int)>::empty());
    } else {
        assert(p[n + i] == b[i]);
        if b[i] == '/' {
            names_behind(a, b, i + 1);
        } else {
            text::char_from_is_least(b, '/', i);
            text::char_from_is_least(p, '/', n + i);
            assert forall|k: int| 0 <= k < b.len() implies p[n + k] == b[k] by {}
            let e = name_end(b, i);
            assert(name_end(p, n + i) == n + e) by {
                match text::char_from(b, '/', i) {
                    Some(x) => {
                        assert(p[n + x] == '/');
                        let f = text::char_from(p, '/', n + i)->0;
                        assert(text::char_from(p, '/', n + i) is Some);
                        if f < n + x {
                            assert(b[f - n] == p[f]);
                        }
                    },
                    None => {
                        if let Some(f) = text::char_from(p, '/', n + i) {
                            assert(b[f - n] == p[f]);
                        }
                    },
                }
            }
            names_behind(a, b, e);
            assert(p.subrange(n + i, n + e) =~= b.subrange(i, e));
            let rest = names_from(b, e);
            if b.subrange(i, e) != "."@ {
                assert(shifted(seq![(i, e)] + rest, n) =~= seq![(n + i, n + e)] + shifted(rest, n));
            }
        }
    }
}

/// The components of a path that is put together: those of its front, then the
/// names behind it.
proof fn spots_of_join(base: Seq<char>, rel: Seq<char>)
    requires
        rel.len() > 0,
        rel[0] != '/',
        base.len() == 0 ==> !dotted(rel),
    ensures
        join_of(base, rel) == fronted(base) + rel,
        spots(join_of(base, rel)) == spots(base) + shifted(
            names_from(rel, 0),
            fronted(base).len() as int,
        ),
        join_of(base, rel).take(base.len() as int) == base,
{
    reveal_strlit("/");
    let p = join_of(base, rel);
    let front = fronted(base);
    let more = shifted(names_from(rel, 0), front.len() as int);
    assert(p =~= front + rel);
    assert(p.take(base.len() as int) =~= base);
    if base.len() == 0 {
        assert(p =~= rel);
        assert(more =~= names_from(rel, 0));
        assert(spots(base) + more =~= more);
    } else {
        let i = lead(base);
        assert(p[0] == base[0]);
        assert(front.last() == '/');
        assert(lead(p) == i) by {
            if base.len() == 1 {
                assert(base[0] == base.last());
                if base[0] != '/' {
                    assert(p[1] == front[1]);
                }
            } else {
                assert(p[1] == base[1]);
            }
        }
        names_in_front(front, rel, i);
        names_behind(front, rel, 0);
        if base.last() != '/' {
            names_in_front(base, "/"@, i);
            assert(names_from(front, base.len() + 1int) =~= Seq::<(int, int)>::empty());
            assert(front[base.len() as int] == '/');
            assert(names_from(front, base.len() as int) =~= Seq::<(int, int)>::empty());
            assert(names_from(front, i) =~= names_from(base, i));
        }
        assert(spots(p) =~= spots(base) + more);
    }
}

proof fn names_end_at_slashes(p: Seq<char>, i: int)
    requires
        0 <= i,
    ensures
        forall|k: int|
            0 <= k < names_from(p, i).len() ==> {
                let e = (#[trigger] names_from(p, i)[k]).1;
                e == p.len() || p[e] == '/'
            },
    decreases p.len() - i,
{
    if i < p.len() {
        text::char_from_is_least(p, '/', i);
        let e = name_end(p, i);
        if p[i] == '/' {
            names_end_at_slashes(p, i + 1);
            assert(names_from(p, i) == names_from(p, i + 1));
        } else {
            names_end_at_slashes(p, e);
            let rest = names_from(p, e);
            if p.subrange(i, e) == "."@ {
                assert(names_from(p, i) == rest);
            } else {
                let all = names_from(p, i);
                assert(all =~= seq![(i, e)] + rest);
                assert forall|k: int| 0 <= k < all.len() implies {
                    let x = (#[trigger] all[k]).1;
                    x == p.len() || p[x] == '/'
                } by {
                    if k > 0 {
                        assert(all[k] == rest[k - 1]);
                    }
                }
            }
        }
    }
}

/// What follows the last component of a path names nothing.
proof fn last_component_ends_a_path(p: Seq<char>)
    requires
        spots(p).len() > 0,
    ensures
        same_path(p.take(spots(p).last().1), p),
{
    let e = spots(p).last().1;
    let i = lead(p);
    let a = p.take(e);
    let b = p.skip(e);
    spots_in_order(p);
    assert(0 <= spots(p)[spots(p).len() - 1].0);
    assert(a + b =~= p);
    if e == p.len() {
        assert(a =~= p);
    } else {
        let names = names_from(p, i);
        names_end_at_slashes(p, i);
        assert(p[e] == '/' || a.last() == '/') by {
            if names.len() > 0 {
                assert(spots(p).last() == names[names.len() - 1]);
            } else {
                assert(e == 1);
                assert(a.last() == p[0]);
            }
        }
        assert(b[0] == p[e]);
        assert(a[0] == p[0]);
        assert(lead(a) == i) by {
            if e > 1 {
                assert(a[1] == p[1]);
            } else if dotted(a) {
                assert(p[1] == '/');
            }
        }
        names_in_front(a, b, i);
        let rest = names_from(p, e);
        names_in_order(p, e);
        assert(rest.len() == 0) by {
            if rest.len() > 0 {
                assert(spots(p).last() == rest[rest.len() - 1]);
                assert(e <= rest[rest.len() - 1].0 < rest[rest.len() - 1].1);
            }
        }
        assert(names_from(a, i) + rest =~= names_from(a, i));
        assert(spots(a) == spots(p));
        spots_in_order(a);
        assert(components(a) =~= components(p)) by {
            assert forall|k: int| 0 <= k < components(p).len() implies components(a)[k]
                == components(p)[k] by {
                let r = spots(a)[k];
                assert(r == spots(p)[k]);
                assert(0 <= r.0 < r.1 <= a.len());
                assert(a.subrange(r.0, r.1) =~= p.subrange(r.0, r.1));
            }
        }
    }
}

/// What a directory holds has the directory as its parent, and ends with its
/// name.
pub proof fn parent_of_entry(dir: Seq<char>, name: Seq<char>)
    requires
        is_name(name),
    ensures
        join_of(dir, name) == fronted(dir) + name,
        is_whole(join_of(dir, name)),
        lies_in(join_of(dir, name), dir),
{
    reveal_strlit("/");
    reveal_strlit(".");
    assert forall|i: int| 0 <= i < name.len() implies name[i] != '/' by {
        assert(name.contains(name[i]));
    }
    if dotted(name) {
        assert(name =~= "."@);
    }
    let p = join_of(dir, name);
    let k = fronted(dir).len() as int;
    spots_of_join(dir, name);
    text::char_from_is_least(name, '/', 0);
    let n = name.len() as int;
    assert(name.subrange(0, n) =~= name);
    assert(names_from(name, n) =~= Seq::<(int, int)>::empty());
    assert(names_from(name, 0) =~= seq![(0int, n)]);
    let c = spots(p);
    let d = spots(dir);
    assert(c =~= d.push((k, p.len() as int)));
    assert(c.last() == (k, p.len() as int));
    assert(components(p).last() == p.subrange(k, p.len() as int));
    assert(p.subrange(k, p.len() as int) =~= name);
    assert(name != "/"@) by {
        if name == "/"@ {
            assert(name[0] == '/');
        }
    }
    if d.len() > 0 {
        let e = d.last().1;
        spots_in_order(dir);
        assert(0 <= d[d.len() - 1].0 < e <= dir.len());
        assert(c[c.len() - 2] == d.last());
        assert(p.take(e) =~= dir.take(e)) by {
            assert(p.take(dir.len() as int).take(e) =~= p.take(e));
        }
        last_component_ends_a_path(dir);
        assert(dir.take(dir.len() as int) =~= dir);
    } else {
        let none = Seq::<char>::empty();
        assert(spots(none) =~= Seq::<(int, int)>::empty());
        assert(components(none) =~= components(dir));
        if dir.len() == 0 {
            assert(dir =~= none);
        }
    }
}

/// A path that starts with a name is not empty.
pub proof fn plain_is_not_empty(rel: Seq<char>)
    requires
        is_plain(rel),
    ensures
        rel.len() > 0,
{
    names_in_order(rel, 0);
}

/// Taking the front off a path that was put together gives what was behind it.
pub proof fn joined_path_is_taken_apart(base: Seq<char>, rel: Seq<char>)
    requires
        is_plain(rel),
    ensures
        relative_to(join_of(base, rel), base) == Some(rel),
{
    let p = join_of(base, rel);
    let k = fronted(base).len() as int;
    let names = names_from(rel, 0);
    names_in_order(rel, 0);
    names_in_order(rel, 1);
    assert(rel.len() > 0);
    assert(rel[0] != '/') by {
        if rel[0] == '/' {
            assert(names == names_from(rel, 1));
            assert(1 <= names[0].0);
        }
    }
    assert(!dotted(rel)) by {
        if dotted(rel) {
            reveal_strlit(".");
            text::char_from_is_least(rel, '/', 0);
            assert(name_end(rel, 0) == 1);
            assert(rel.subrange(0, 1) =~= "."@);
            assert(names == names_from(rel, 1));
            assert(1 <= names[0].0);
        }
    }
    spots_of_join(base, rel);
    spots_in_order(base);
    let c = spots(p);
    let n = spots(base).len() as int;
    let more = shifted(names, k);
    assert(c[n] == more[0]);
    assert(c.last() == more.last());
    assert(components(p).take(n) =~= components(base)) by {
        assert forall|i: int| 0 <= i < n implies components(p)[i] == components(base)[i] by {
            let r = spots(base)[i];
            assert(c[i] == r);
            assert(0 <= r.0 < r.1 <= base.len());
            assert(p.take(base.len() as int) == base);
            assert(p.subrange(r.0, r.1) =~= base.subrange(r.0, r.1));
        }
    }
    assert(p.subrange(k, p.len() as int) =~= rel);
}

proof fn names_hold_no_slash(p: Seq<char>, i: int)
    requires
        0 <= i,
    ensures
        forall|k: int, j: int|
            0 <= k < names_from(p, i).len() && (#[trigger] names_from(p, i)[k]).0 <= j
                < names_from(p, i)[k].1 ==> #[trigger] p[j] != '/',
    decreases p.len() - i,
{
    if i < p.len() {
        text::char_from_is_least(p, '/', i);
        let e = name_end(p, i);
        if p[i] == '/' {
            names_hold_no_slash(p, i + 1);
            assert(names_from(p, i) == names_from(p, i + 1));
        } else {
            names_hold_no_slash(p, e);
            let rest = names_from(p, e);
            if p.subrange(i, e) == "."@ {
                assert(names_from(p, i) == rest);
            } else {
                let all = names_from(p, i);
                assert(all =~= seq![(i, e)] + rest);
                assert forall|k: int, j: int|
                    0 <= k < all.len() && (#[trigger] all[k]).0 <= j < all[k].1 implies #[trigger] p[j]
                    != '/' by {
                    if k > 0 {
                        assert(all[k] == rest[k - 1]);
                    }
                }
            }
        }
    }
}

/// A path that starts and ends with a name has no slash at either end.
pub proof fn plain_has_no_slash_around(rel: Seq<char>)
    requires
        is_plain(rel),
    ensures
        rel.len() > 0,
        rel[0] != '/',
        rel.last() != '/',
        !absolute(rel),
{
    let c = names_from(rel, 0);
    names_in_order(rel, 0);
    names_hold_no_slash(rel, 0);
    assert(c[0].0 < c[0].1);
    assert(rel[0] != '/');
    assert(c[c.len() - 1].0 < c[c.len() - 1].1);
    assert(rel[rel.len() - 1] != '/');
}

/// Two paths that start and end with names, with a slash between them, make
/// another one.
pub proof fn plain_paths_join(a: Seq<char>, b: Seq<char>)
    requires
        is_plain(a),
        is_plain(b),
    ensures
        is_plain(a + "/"@ + b),
        join_of(a, b) == a + "/"@ + b,
{
    reveal_strlit("/");
    plain_has_no_slash_around(a);
    plain_has_no_slash_around(b);
    let front = a + "/"@;
    let p = front + b;
    assert(front.last() == '/');
    names_in_front(front, b, 0);
    names_behind(front, b, 0);
    names_in_front(a, "/"@, 0);
    assert(front[a.len() as int] == '/');
    assert(names_from(front, a.len() + 1int) =~= Seq::<(int, int)>::empty());
    assert(names_from(front, a.len() as int) =~= Seq::<(int, int)>::empty());
    assert(names_from(front, 0) =~= names_from(a, 0));
    let more = shifted(names_from(b, 0), front.len() as int);
    assert(names_from(p, 0) =~= names_from(a, 0) + more);
    assert(names_from(p, 0)[0] == names_from(a, 0)[0]);
    assert(names_from(p, 0).last() == more.last());
}

/// What is put behind a directory has the name that was put there.
pub proof fn name_of_entry(dir: Seq<char>, name: Seq<char>)
    requires
        is_name(name),
        name != ".."@,
    ensures
        name_of(join_of(dir, name)) == Some(name),
{
    reveal_strlit("/");
    reveal_strlit(".");
    assert forall|i: int| 0 <= i < name.len() implies name[i] != '/' by {
        assert(name.contains(name[i]));
    }
    if dotted(name) {
        assert(name =~= "."@);
    }
    let p = join_of(dir, name);
    let k = fronted(dir).len() as int;
    spots_of_join(dir, name);
    text::char_from_is_least(name, '/', 0);
    let n = name.len() as int;
    assert(name.subrange(0, n) =~= name);
    assert(names_from(name, n) =~= Seq::<(int, int)>::empty());
    assert(names_from(name, 0) =~= seq![(0int, n)]);
    let c = spots(p);
    assert(c =~= spots(dir).push((k, p.len() as int)));
    assert(c.last() == (k, p.len() as int));
    assert(components(p).last() == p.subrange(k, p.len() as int));
    assert(p.subrange(k, p.len() as int) =~= name);
    if name == "/"@ {
        assert(name[0] == '/');
    }
}

/// The name of a file can be exchanged: what is put behind the same directory
/// stands in its place.
pub proof fn renamed_entry(dir: Seq<char>, name: Seq<char>, other: Seq<char>)
    requires
        is_name(name),
        name != ".."@,
        is_whole(dir),
    ensures
        renamed(join_of(dir, name), other) == join_of(dir, other),
        dir_of(join_of(dir, name)) == dir,
{
    name_of_entry(dir, name);
    parent_of_entry(dir, name);
}

/// The extension of a file is what follows the last dot of its name.
pub proof fn extension_of_entry(dir: Seq<char>, stem: Seq<char>, ext: Seq<char>)
    requires
        stem.len() > 0,
        !ext.contains('.'),
        !stem.contains('/'),
        !ext.contains('/'),
        stem + seq!['.'] + ext != ".."@,
    ensures
        extension_of(join_of(dir, stem + seq!['.'] + ext)) == Some(ext),
{
    reveal_strlit(".");
    let name = stem + seq!['.'] + ext;
    let n = stem.len() as int;
    assert forall|i: int| 0 <= i < name.len() implies name[i] != '/' by {
        if i < n {
            assert(name[i] == stem[i]);
            assert(stem.contains(stem[i]));
        } else if i > n {
            assert(name[i] == ext[i - n - 1]);
            assert(ext.contains(ext[i - n - 1]));
        }
    }
    assert(name != "."@) by {
        assert(name.len() >= 2);
    }
    name_of_entry(dir, name);
    text::char_before_is_greatest(name, '.', name.len() as int);
    assert(name[n] == '.');
    let dot = text::char_before(name, '.', name.len() as int)->0;
    if dot > n {
        assert(name[dot] == ext[dot - n - 1]);
        assert(ext.contains(ext[dot - n - 1]));
    }
    assert(name.skip(n + 1) =~= ext);
}

/// A file without a dot in its name has no extension.
pub proof fn no_dot_no_extension(dir: Seq<char>, name: Seq<char>)
    requires
        is_name(name),
        !name.contains('.'),
    ensures
        extension_of(join_of(dir, name)) is None,
        as_json_file(join_of(dir, name)) == join_of(dir, name) + ".json"@,
{
    reveal_strlit("..");
    if name == ".."@ {
        assert(name[0] == '.');
    }
    name_of_entry(dir, name);
    parent_of_entry(dir, name);
    text::char_before_is_greatest(name, '.', name.len() as int);
    if let Some(i) = text::char_before(name, '.', name.len() as int) {
        assert(name.contains(name[i]));
    }
    let p = join_of(dir, name);
    assert(p.take(p.len() as int) =~= p);
}

/// What lies under a directory starts with its components, one by one: a longer
/// name that starts with the same letters is another one.
pub proof fn inside_means_the_same_beginning(p: Seq<char>, base: Seq<char>, i: int)
    requires
        relative_to(p, base) is Some,
        0 <= i < components(base).len(),
    ensures
        components(base).len() <= components(p).len(),
        components(p)[i] == components(base)[i],
{
    let n = components(base).len() as int;
    assert(components(p).take(n)[i] == components(p)[i]);
}

/// A file under a name that only starts like the directory does not lie in it.
pub proof fn siblings_are_not_inside(dir: Seq<char>, name: Seq<char>, other: Seq<char>)
    requires
        is_name(name),
        is_name(other),
        name != other,
    ensures
        relative_to(join_of(dir, other), join_of(dir, name)) is None,
{
    entry_components(dir, name);
    entry_components(dir, other);
    let p = join_of(dir, other);
    let base = join_of(dir, name);
    let n = components(dir).len() as int;
    if relative_to(p, base) is Some {
        inside_means_the_same_beginning(p, base, n);
        assert(components(p)[n] == other);
        assert(components(base)[n] == name);
    }
}

/// The components of what a directory holds are those of the directory and the
/// name.
pub proof fn entry_components(dir: Seq<char>, name: Seq<char>)
    requires
        is_name(name),
    ensures
        components(join_of(dir, name)) == components(dir).push(name),
{
    reveal_strlit(".");
    assert forall|i: int| 0 <= i < name.len() implies name[i] != '/' by {
        assert(name.contains(name[i]));
    }
    if dotted(name) {
        assert(name =~= "."@);
    }
    let p = join_of(dir, name);
    let k = fronted(dir).len() as int;
    spots_of_join(dir, name);
    spots_in_order(dir);
    text::char_from_is_least(name, '/', 0);
    let n = name.len() as int;
    assert(name.subrange(0, n) =~= name);
    assert(names_from(name, n) =~= Seq::<(int, int)>::empty());
    assert(names_from(name, 0) =~= seq![(0int, n)]);
    let c = spots(p);
    assert(c =~= spots(dir).push((k, p.len() as int)));
    assert(components(p) =~= components(dir).push(name)) by {
        assert(p.subrange(k, p.len() as int) =~= name);
        assert forall|i: int| 0 <= i < components(dir).len() implies components(p)[i]
            == components(dir)[i] by {
            let r = spots(dir)[i];
            assert(c[i] == r);
            assert(0 <= r.0 < r.1 <= dir.len());
            assert(p.take(dir.len() as int) == dir);
            assert(p.subrange(r.0, r.1) =~= dir.subrange(r.0, r.1));
        }
    }
}

} // verus!
