//! Stable sorting.
//!
//! Sorting yields the order of the positions, so that what is sorted need not
//! be moved or copied on the way.

use crate::text;
use vstd::prelude::*;

verus! {

/// `x` in its place in a sorted list, behind what ranks with it.
pub open spec fn placed<A>(s: Seq<A>, x: A, le: spec_fn(A, A) -> bool) -> Seq<A>
    decreases s.len(),
{
    if s.len() == 0 || le(s.last(), x) {
        s.push(x)
    } else {
        placed(s.drop_last(), x, le).push(s.last())
    }
}

/// The list in ascending order; what ranks alike keeps its order.
pub open spec fn sorted<A>(s: Seq<A>, le: spec_fn(A, A) -> bool) -> Seq<A>
    decreases s.len(),
{
    if s.len() == 0 {
        Seq::empty()
    } else {
        placed(sorted(s.drop_last(), le), s.last(), le)
    }
}

/// Of any two values one ranks no higher than the other.
pub open spec fn is_total<A>(le: spec_fn(A, A) -> bool) -> bool {
    forall|a: A, b: A| #[trigger] le(a, b) || le(b, a)
}

/// Ranking no higher is handed on.
pub open spec fn is_transitive<A>(le: spec_fn(A, A) -> bool) -> bool {
    forall|a: A, b: A, c: A| #[trigger] le(a, b) && #[trigger] le(b, c) ==> le(a, c)
}

/// The value at position `a` comes before that at position `b`: it ranks lower,
/// or alike and stands first.
pub open spec fn comes_before<A>(s: Seq<A>, le: spec_fn(A, A) -> bool, a: int, b: int) -> bool {
    le(s[a], s[b]) && (le(s[b], s[a]) ==> a < b)
}

/// The positions `p` of `s` in the order in which its values come.
pub open spec fn is_order<A>(s: Seq<A>, le: spec_fn(A, A) -> bool, p: Seq<int>) -> bool {
    &&& p.len() == s.len()
    &&& forall|i: int| 0 <= i < p.len() ==> 0 <= #[trigger] p[i] < s.len()
    &&& forall|i: int, j: int|
        0 <= i < j < p.len() ==> comes_before(s, le, #[trigger] p[i], #[trigger] p[j])
}

/// The values at the positions `p`.
pub open spec fn picked<A>(s: Seq<A>, p: Seq<int>) -> Seq<A> {
    p.map_values(|i: int| s[i])
}

/// A list of `n` different numbers below `n` holds each of them.
proof fn holds_every_number(p: Seq<int>, n: int, x: int)
    requires
        p.len() == n,
        forall|i: int| 0 <= i < n ==> 0 <= #[trigger] p[i] < n,
        forall|i: int, j: int| 0 <= i < j < n ==> #[trigger] p[i] != #[trigger] p[j],
        0 <= x < n,
    ensures
        exists|i: int| 0 <= i < n && p[i] == x,
    decreases n,
{
    if !(exists|i: int| 0 <= i < n && p[i] == x) {
        // Without x, the n numbers would all lie in the n - 1 places beside it.
        let all = p.to_set();
        vstd::seq_lib::seq_to_set_is_finite(p);
        p.unique_seq_to_set();
        let places = vstd::set_lib::set_int_range(0, n).remove(x);
        vstd::set_lib::lemma_int_range(0, n);
        assert(all.subset_of(places)) by {
            assert forall|y: int| all.contains(y) implies places.contains(y) by {
                let i = choose|i: int| 0 <= i < p.len() && p[i] == y;
            }
        }
        vstd::set_lib::lemma_len_subset(all, places);
    }
}

proof fn placed_between<A>(s: Seq<A>, x: A, le: spec_fn(A, A) -> bool, k: int)
    requires
        0 <= k <= s.len(),
        forall|i: int| 0 <= i < k ==> le(#[trigger] s[i], x),
        forall|i: int| k <= i < s.len() ==> !le(#[trigger] s[i], x),
    ensures
        placed(s, x, le) == s.take(k).push(x) + s.skip(k),
    decreases s.len(),
{
    if s.len() == 0 || le(s.last(), x) {
        if s.len() > 0 {
            assert(s[s.len() - 1] == s.last());
        }
        assert(s.take(k).push(x) + s.skip(k) =~= s.push(x));
    } else {
        let t = s.drop_last();
        assert forall|i: int| 0 <= i < k implies le(#[trigger] t[i], x) by {
            assert(s[i] == t[i]);
        }
        assert(k <= t.len()) by {
            if k == s.len() {
                assert(le(s[s.len() - 1], x));
            }
        }
        assert forall|i: int| k <= i < t.len() implies !le(#[trigger] t[i], x) by {
            assert(s[i] == t[i]);
        }
        placed_between(t, x, le, k);
        assert((t.take(k).push(x) + t.skip(k)).push(s.last()) =~= s.take(k).push(x) + s.skip(k));
    }
}

/// The values in the order of their positions are the sorted list.
pub proof fn order_sorts<A>(s: Seq<A>, le: spec_fn(A, A) -> bool, p: Seq<int>)
    requires
        is_order(s, le, p),
    ensures
        picked(s, p) == sorted(s, le),
    decreases s.len(),
{
    if s.len() == 0 {
        assert(picked(s, p) =~= sorted(s, le));
    } else {
        let n = s.len() as int;
        let last = n - 1;
        assert forall|i: int, j: int| 0 <= i < j < n implies #[trigger] p[i] != #[trigger] p[j] by {
            assert(comes_before(s, le, p[i], p[j]));
        }
        holds_every_number(p, n, last);
        let k = choose|k: int| 0 <= k < n && p[k] == last;
        let q = p.remove(k);
        let t = s.drop_last();
        assert forall|i: int| 0 <= i < q.len() implies 0 <= #[trigger] q[i] < t.len() by {
            if i < k {
                assert(q[i] == p[i]);
                assert(p[i] != p[k]);
            } else {
                assert(q[i] == p[i + 1]);
                assert(p[k] != p[i + 1]);
            }
        }
        assert forall|i: int, j: int| 0 <= i < j < q.len() implies comes_before(
            t,
            le,
            #[trigger] q[i],
            #[trigger] q[j],
        ) by {
            let a = if i < k {
                i
            } else {
                i + 1
            };
            let b = if j < k {
                j
            } else {
                j + 1
            };
            assert(q[i] == p[a] && q[j] == p[b]);
            assert(comes_before(s, le, p[a], p[b]));
            assert(t[q[i]] == s[p[a]] && t[q[j]] == s[p[b]]);
        }
        order_sorts(t, le, q);
        let m = picked(t, q);
        let x = s.last();
        assert(x == s[last]);
        assert forall|i: int| 0 <= i < k implies le(#[trigger] m[i], x) by {
            assert(q[i] == p[i]);
            assert(comes_before(s, le, p[i], p[k]));
            assert(m[i] == s[p[i]]);
        }
        assert forall|i: int| k <= i < m.len() implies !le(#[trigger] m[i], x) by {
            assert(q[i] == p[i + 1]);
            assert(comes_before(s, le, p[k], p[i + 1]));
            assert(0 <= p[i + 1] < n);
            assert(m[i] == s[p[i + 1]]);
        }
        placed_between(m, x, le, k);
        assert(picked(s, p) =~= m.take(k).push(x) + m.skip(k)) by {
            assert forall|i: int| 0 <= i < n implies #[trigger] picked(s, p)[i] == (m.take(k).push(
                x,
            ) + m.skip(k))[i] by {
                if i < k {
                    assert(q[i] == p[i]);
                } else if i > k {
                    assert(q[i - 1] == p[i]);
                }
            }
        }
    }
}

/// Sorting keeps every value, as often as it occurs.
pub proof fn sorted_is_permutation<A>(s: Seq<A>, le: spec_fn(A, A) -> bool)
    ensures
        sorted(s, le).to_multiset() == s.to_multiset(),
        sorted(s, le).len() == s.len(),
    decreases s.len(),
{
    broadcast use vstd::seq_lib::group_to_multiset_ensures;

    if s.len() > 0 {
        sorted_is_permutation(s.drop_last(), le);
        placed_adds_one(sorted(s.drop_last(), le), s.last(), le);
        assert(s.drop_last().push(s.last()) =~= s);
        assert(sorted(s, le).to_multiset() =~= s.to_multiset());
    } else {
        assert(sorted(s, le) =~= s);
    }
}

/// Sorting brings in nothing new, drops nothing and repeats nothing.
pub proof fn sorted_holds_the_same<A>(s: Seq<A>, le: spec_fn(A, A) -> bool)
    ensures
        forall|i: int| 0 <= i < sorted(s, le).len() ==> s.contains(#[trigger] sorted(s, le)[i]),
        forall|i: int| 0 <= i < s.len() ==> sorted(s, le).contains(#[trigger] s[i]),
        s.no_duplicates() ==> sorted(s, le).no_duplicates(),
{
    broadcast use vstd::seq_lib::group_to_multiset_ensures;

    sorted_is_permutation(s, le);
    let t = sorted(s, le);
    assert forall|i: int| 0 <= i < t.len() implies s.contains(#[trigger] t[i]) by {
        assert(t.contains(t[i]));
        assert(t.to_multiset().contains(t[i]));
        assert(s.to_multiset().contains(t[i]));
    }
    assert forall|i: int| 0 <= i < s.len() implies t.contains(#[trigger] s[i]) by {
        assert(s.contains(s[i]));
        assert(s.to_multiset().contains(s[i]));
        assert(t.to_multiset().contains(s[i]));
    }
    if s.no_duplicates() {
        s.lemma_multiset_has_no_duplicates();
        t.lemma_multiset_has_no_duplicates_conv();
    }
}

proof fn placed_adds_one<A>(s: Seq<A>, x: A, le: spec_fn(A, A) -> bool)
    ensures
        placed(s, x, le).to_multiset() == s.to_multiset().insert(x),
        placed(s, x, le).len() == s.len() + 1,
    decreases s.len(),
{
    broadcast use vstd::seq_lib::group_to_multiset_ensures;

    if s.len() > 0 && !le(s.last(), x) {
        placed_adds_one(s.drop_last(), x, le);
        assert(s.drop_last().push(s.last()) =~= s);
        assert(placed(s, x, le).to_multiset() =~= s.to_multiset().insert(x));
    }
}

proof fn placed_keeps_order<A>(s: Seq<A>, x: A, le: spec_fn(A, A) -> bool)
    requires
        is_total(le),
        is_transitive(le),
        forall|i: int, j: int| 0 <= i < j < s.len() ==> le(#[trigger] s[i], #[trigger] s[j]),
    ensures
        forall|i: int, j: int|
            0 <= i < j < placed(s, x, le).len() ==> le(
                #[trigger] placed(s, x, le)[i],
                #[trigger] placed(s, x, le)[j],
            ),
        forall|i: int|
            0 <= i < placed(s, x, le).len() ==> {
                let v = #[trigger] placed(s, x, le)[i];
                v == x || exists|k: int| 0 <= k < s.len() && s[k] == v
            },
    decreases s.len(),
{
    let r = placed(s, x, le);
    if s.len() == 0 || le(s.last(), x) {
        assert forall|i: int, j: int| 0 <= i < j < r.len() implies le(
            #[trigger] r[i],
            #[trigger] r[j],
        ) by {
            if j == s.len() {
                if i < s.len() - 1 {
                    assert(le(s[i], s[s.len() - 1]));
                }
                assert(le(s.last(), x));
            } else {
                assert(le(s[i], s[j]));
            }
        }
        assert forall|i: int| 0 <= i < r.len() implies {
            let v = #[trigger] r[i];
            v == x || exists|k: int| 0 <= k < s.len() && s[k] == v
        } by {
            if i < s.len() {
                assert(s[i] == r[i]);
            }
        }
    } else {
        let t = s.drop_last();
        assert forall|i: int, j: int| 0 <= i < j < t.len() implies le(
            #[trigger] t[i],
            #[trigger] t[j],
        ) by {
            assert(le(s[i], s[j]));
        }
        placed_keeps_order(t, x, le);
        let u = placed(t, x, le);
        assert(le(x, s.last()));
        assert forall|i: int| 0 <= i < u.len() implies le(#[trigger] u[i], s.last()) by {
            if u[i] != x {
                let k = choose|k: int| 0 <= k < t.len() && t[k] == u[i];
                assert(le(s[k], s[s.len() - 1]));
            }
        }
        assert forall|i: int, j: int| 0 <= i < j < r.len() implies le(
            #[trigger] r[i],
            #[trigger] r[j],
        ) by {
            if j < u.len() {
                assert(le(u[i], u[j]));
            } else {
                assert(le(u[i], s.last()));
            }
        }
        assert forall|i: int| 0 <= i < r.len() implies {
            let v = #[trigger] r[i];
            v == x || exists|k: int| 0 <= k < s.len() && s[k] == v
        } by {
            if i < u.len() {
                if u[i] != x {
                    let k = choose|k: int| 0 <= k < t.len() && t[k] == u[i];
                    assert(s[k] == r[i]);
                }
            } else {
                assert(s[s.len() - 1] == r[i]);
            }
        }
    }
}

/// A sorted list ascends.
pub proof fn sorted_ascends<A>(s: Seq<A>, le: spec_fn(A, A) -> bool)
    requires
        is_total(le),
        is_transitive(le),
    ensures
        forall|i: int, j: int|
            0 <= i < j < sorted(s, le).len() ==> le(
                #[trigger] sorted(s, le)[i],
                #[trigger] sorted(s, le)[j],
            ),
    decreases s.len(),
{
    if s.len() > 0 {
        sorted_ascends(s.drop_last(), le);
        placed_keeps_order(sorted(s.drop_last(), le), s.last(), le);
    }
}

/// A key that things are sorted by.
pub trait Ranked: Sized {
    spec fn ranks_le(self, other: Self) -> bool;

    proof fn ranks_total(a: Self, b: Self)
        ensures
            a.ranks_le(b) || b.ranks_le(a),
    ;

    proof fn ranks_transitive(a: Self, b: Self, c: Self)
        requires
            a.ranks_le(b),
            b.ranks_le(c),
        ensures
            a.ranks_le(c),
    ;

    fn no_higher(&self, other: &Self) -> (r: bool)
        ensures
            r == self.ranks_le(*other),
    ;
}

/// The order of a list of keys.
pub open spec fn key_le<K: Ranked>() -> spec_fn(K, K) -> bool {
    |a: K, b: K| a.ranks_le(b)
}

pub open spec fn positions(v: Seq<usize>) -> Seq<int> {
    v.map_values(|i: usize| i as int)
}

/// The positions in `p`, all of them from `lo` up to `hi`, in the order in which
/// the keys there come.
pub open spec fn is_run<K: Ranked>(keys: Seq<K>, p: Seq<usize>, lo: int, hi: int) -> bool {
    &&& p.len() == hi - lo
    &&& forall|i: int| 0 <= i < p.len() ==> lo <= #[trigger] p[i] < hi
    &&& forall|i: int, j: int|
        0 <= i < j < p.len() ==> comes_before(
            keys,
            key_le(),
            #[trigger] p[i] as int,
            #[trigger] p[j] as int,
        )
}

proof fn before_is_handed_on<K: Ranked>(keys: Seq<K>, a: int, b: int, c: int)
    requires
        comes_before(keys, key_le(), a, b),
        comes_before(keys, key_le(), b, c),
    ensures
        comes_before(keys, key_le(), a, c),
{
    K::ranks_transitive(keys[a], keys[b], keys[c]);
    if keys[c].ranks_le(keys[a]) {
        K::ranks_transitive(keys[c], keys[a], keys[b]);
        K::ranks_transitive(keys[b], keys[c], keys[a]);
    }
}

fn merge<K: Ranked>(
    keys: &Vec<K>,
    a: Vec<usize>,
    b: Vec<usize>,
    Ghost(lo): Ghost<int>,
    Ghost(mid): Ghost<int>,
    Ghost(hi): Ghost<int>,
) -> (r: Vec<usize>)
    requires
        0 <= lo <= mid <= hi <= keys@.len(),
        is_run(keys@, a@, lo, mid),
        is_run(keys@, b@, mid, hi),
    ensures
        is_run(keys@, r@, lo, hi),
{
    let mut out: Vec<usize> = Vec::new();
    let mut i: usize = 0;
    let mut j: usize = 0;
    while i < a.len() || j < b.len()
        invariant
            0 <= lo <= mid <= hi <= keys@.len(),
            is_run(keys@, a@, lo, mid),
            is_run(keys@, b@, mid, hi),
            i <= a.len(),
            j <= b.len(),
            out@.len() == i + j,
            forall|k: int| 0 <= k < out@.len() ==> lo <= #[trigger] out@[k] < hi,
            forall|k: int, m: int|
                0 <= k < m < out@.len() ==> comes_before(
                    keys@,
                    key_le(),
                    #[trigger] out@[k] as int,
                    #[trigger] out@[m] as int,
                ),
            forall|k: int, m: int|
                0 <= k < out@.len() && i <= m < a@.len() ==> comes_before(
                    keys@,
                    key_le(),
                    #[trigger] out@[k] as int,
                    #[trigger] a@[m] as int,
                ),
            forall|k: int, m: int|
                0 <= k < out@.len() && j <= m < b@.len() ==> comes_before(
                    keys@,
                    key_le(),
                    #[trigger] out@[k] as int,
                    #[trigger] b@[m] as int,
                ),
        decreases a.len() - i + b.len() - j,
    {
        let from_a: bool = if i == a.len() {
            false
        } else if j == b.len() {
            true
        } else {
            keys[a[i]].no_higher(&keys[b[j]])
        };
        if from_a {
            let next: usize = a[i];
            proof {
                assert(lo <= a@[i as int] < mid);
                assert forall|m: int| j <= m < b@.len() implies comes_before(
                    keys@,
                    key_le(),
                    next as int,
                    #[trigger] b@[m] as int,
                ) by {
                    assert(mid <= b@[j as int] && mid <= b@[m]);
                    assert(comes_before(keys@, key_le(), next as int, b@[j as int] as int));
                    if j < m {
                        assert(comes_before(
                            keys@,
                            key_le(),
                            b@[j as int] as int,
                            b@[m] as int,
                        ));
                        before_is_handed_on(
                            keys@,
                            next as int,
                            b@[j as int] as int,
                            b@[m] as int,
                        );
                    }
                }
            }
            out.push(next);
            i = i + 1;
        } else {
            let next: usize = b[j];
            proof {
                assert(mid <= b@[j as int] < hi);
                assert forall|m: int| i <= m < a@.len() implies comes_before(
                    keys@,
                    key_le(),
                    next as int,
                    #[trigger] a@[m] as int,
                ) by {
                    K::ranks_total(keys@[a@[i as int] as int], keys@[next as int]);
                    assert(comes_before(keys@, key_le(), next as int, a@[i as int] as int));
                    if i < m {
                        assert(comes_before(
                            keys@,
                            key_le(),
                            a@[i as int] as int,
                            a@[m] as int,
                        ));
                        before_is_handed_on(
                            keys@,
                            next as int,
                            a@[i as int] as int,
                            a@[m] as int,
                        );
                    }
                }
            }
            out.push(next);
            j = j + 1;
        }
    }
    out
}

fn sort_range<K: Ranked>(keys: &Vec<K>, lo: usize, hi: usize) -> (r: Vec<usize>)
    requires
        lo <= hi <= keys@.len(),
    ensures
        is_run(keys@, r@, lo as int, hi as int),
    decreases hi - lo,
{
    if hi - lo <= 1 {
        let mut out: Vec<usize> = Vec::new();
        if lo < hi {
            out.push(lo);
        }
        return out;
    }
    let mid: usize = lo + (hi - lo) / 2;
    let a: Vec<usize> = sort_range(keys, lo, mid);
    let b: Vec<usize> = sort_range(keys, mid, hi);
    merge(keys, a, b, Ghost(lo as int), Ghost(mid as int), Ghost(hi as int))
}

/// The positions of the keys in the order in which they come.
pub fn order<K: Ranked>(keys: &Vec<K>) -> (r: Vec<usize>)
    ensures
        is_order(keys@, key_le(), positions(r@)),
{
    let r: Vec<usize> = sort_range(keys, 0, keys.len());
    proof {
        let p = positions(r@);
        assert forall|i: int, j: int| 0 <= i < j < p.len() implies comes_before(
            keys@,
            key_le(),
            #[trigger] p[i],
            #[trigger] p[j],
        ) by {
            assert(p[i] == r@[i] as int && p[j] == r@[j] as int);
        }
    }
    r
}

// ---------------------------------------------------------------------------
// Texts
// ---------------------------------------------------------------------------

/// Texts in the order of their characters.
pub open spec fn text_le() -> spec_fn(Seq<char>, Seq<char>) -> bool {
    |a: Seq<char>, b: Seq<char>| !text::text_less(b, a)
}

pub proof fn text_le_is_an_order()
    ensures
        is_total(text_le()),
        is_transitive(text_le()),
{
    let le = text_le();
    assert forall|a: Seq<char>, b: Seq<char>| #[trigger] le(a, b) || le(b, a) by {
        text::text_order_is_strict(a, b, a);
    }
    assert forall|a: Seq<char>, b: Seq<char>, c: Seq<char>| #[trigger]
        le(a, b) && #[trigger] le(b, c) implies le(a, c) by {
        text::text_order_is_strict(c, b, a);
        text::text_order_is_strict(c, a, b);
        text::text_order_is_strict(b, a, c);
        text::text_order_is_strict(b, c, a);
    }
}

impl Ranked for Vec<char> {
    open spec fn ranks_le(self, other: Self) -> bool {
        !text::text_less(other@, self@)
    }

    proof fn ranks_total(a: Self, b: Self) {
        text::text_order_is_strict(a@, b@, a@);
    }

    proof fn ranks_transitive(a: Self, b: Self, c: Self) {
        text_le_is_an_order();
        let le = text_le();
        assert(le(a@, b@) && le(b@, c@));
    }

    fn no_higher(&self, other: &Self) -> (r: bool) {
        !text::before(other.as_slice(), self.as_slice())
    }
}

/// The positions of the texts in ascending order.
pub fn order_texts(v: &Vec<String>) -> (r: Vec<usize>)
    ensures
        is_order(text::texts(v@), text_le(), positions(r@)),
{
    let mut keys: Vec<Vec<char>> = Vec::new();
    let mut i: usize = 0;
    while i < v.len()
        invariant
            i <= v.len(),
            keys@.len() == i,
            forall|k: int| 0 <= k < i ==> #[trigger] keys@[k]@ == v@[k]@,
        decreases v.len() - i,
    {
        keys.push(text::chars_of(v[i].as_str()));
        i = i + 1;
    }
    let r: Vec<usize> = order(&keys);
    proof {
        let p = positions(r@);
        let s = text::texts(v@);
        assert forall|i: int, j: int| 0 <= i < j < p.len() implies comes_before(
            s,
            text_le(),
            #[trigger] p[i],
            #[trigger] p[j],
        ) by {
            assert(comes_before(keys@, key_le(), p[i], p[j]));
            assert(s[p[i]] == keys@[p[i]]@ && s[p[j]] == keys@[p[j]]@);
        }
    }
    r
}

/// The texts in ascending order.
pub fn sort_texts(v: &Vec<String>) -> (r: Vec<String>)
    ensures
        text::texts(r@) == sorted(text::texts(v@), text_le()),
{
    let p: Vec<usize> = order_texts(v);
    let mut out: Vec<String> = Vec::new();
    let mut i: usize = 0;
    let ghost s = text::texts(v@);
    while i < p.len()
        invariant
            i <= p.len(),
            out@.len() == i,
            s == text::texts(v@),
            is_order(s, text_le(), positions(p@)),
            forall|k: int| 0 <= k < i ==> #[trigger] out@[k]@ == s[p@[k] as int],
        decreases p.len() - i,
    {
        assert(positions(p@)[i as int] == p@[i as int]);
        out.push(v[p[i]].clone());
        i = i + 1;
    }
    proof {
        order_sorts(s, text_le(), positions(p@));
        assert(text::texts(out@) =~= picked(s, positions(p@)));
    }
    out
}

} // verus!
