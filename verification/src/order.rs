//! Ordering: the order of texts, stable sorting, sets of texts kept in order,
//! and maps from texts kept in key order.
use vstd::prelude::*;

use crate::text;

verus! {

// ---------------------------------------------------------------------------
// The order of texts
// ---------------------------------------------------------------------------

/// Whether `a` stands before `b` in a dictionary: by the code points of the
/// first characters that differ, a proper prefix before what it begins.
pub open spec fn text_before(a: Seq<char>, b: Seq<char>) -> bool
    decreases b.len(),
{
    b.len() > 0 && (a.len() == 0 || a[0] < b[0] || (a[0] == b[0] && text_before(
        a.skip(1),
        b.skip(1),
    )))
}

/// Whether `a` stands before `b`, see [`text_before`].
pub fn comes_before(a: &str, b: &str) -> (r: bool)
    ensures
        r == text_before(a@, b@),
{
    let x = text::chars_of(a);
    let y = text::chars_of(b);
    let mut i: usize = 0;
    proof {
        assert(x@.skip(0) =~= a@);
        assert(y@.skip(0) =~= b@);
    }
    while i < x.len() && i < y.len()
        invariant
            x@ == a@,
            y@ == b@,
            i <= x@.len(),
            i <= y@.len(),
            text_before(a@, b@) == text_before(x@.skip(i as int), y@.skip(i as int)),
        decreases x@.len() - i,
    {
        proof {
            assert(x@.skip(i as int).skip(1) =~= x@.skip(i + 1));
            assert(y@.skip(i as int).skip(1) =~= y@.skip(i + 1));
        }
        let p = x[i];
        let q = y[i];
        if p < q {
            return true;
        }
        if q < p {
            return false;
        }
        i = i + 1;
    }
    i < y.len()
}

/// The order of texts is a strict total order.
pub proof fn lemma_text_order(a: Seq<char>, b: Seq<char>, c: Seq<char>)
    ensures
        !text_before(a, a),
        text_before(a, b) && text_before(b, c) ==> text_before(a, c),
        text_before(a, b) || a == b || text_before(b, a),
        !(text_before(a, b) && text_before(b, a)),
    decreases a.len() + b.len() + c.len(),
{
    if a.len() > 0 && b.len() > 0 && c.len() > 0 {
        lemma_text_order(a.skip(1), b.skip(1), c.skip(1));
        if a[0] == b[0] && a.skip(1) == b.skip(1) {
            assert forall|i: int| 0 <= i < a.len() && i < b.len() implies a[i] == b[i] by {
                if i > 0 {
                    assert(a.skip(1)[i - 1] == a[i]);
                    assert(b.skip(1)[i - 1] == b[i]);
                }
            }
            assert(a.len() == b.len());
            assert(a =~= b);
        }
    } else if a.len() > 0 && b.len() > 0 {
        lemma_text_order(a.skip(1), b.skip(1), c);
        if a[0] == b[0] && a.skip(1) == b.skip(1) {
            assert forall|i: int| 0 <= i < a.len() && i < b.len() implies a[i] == b[i] by {
                if i > 0 {
                    assert(a.skip(1)[i - 1] == a[i]);
                    assert(b.skip(1)[i - 1] == b[i]);
                }
            }
            assert(a.len() == b.len());
            assert(a =~= b);
        }
    } else if a.len() > 0 {
        lemma_text_order(a.skip(1), b, c);
    } else if b.len() == 0 {
        assert(a =~= b);
    }
}

// ---------------------------------------------------------------------------
// Stable sorting
// ---------------------------------------------------------------------------

/// Values with an order by which lists of them are sorted.
pub trait Ranked: DeepView + Sized {
    /// Whether `a` has to stand before `b`.
    spec fn ranks_before(a: Self::V, b: Self::V) -> bool;

    /// Whether `self` has to stand before `other`.
    fn precedes(&self, other: &Self) -> (r: bool)
        ensures
            r == Self::ranks_before(self.deep_view(), other.deep_view()),
    ;

    /// The order is strict, and having the same rank is transitive.
    proof fn lemma_rank(a: Self::V, b: Self::V, c: Self::V)
        ensures
            !Self::ranks_before(a, a),
            !Self::ranks_before(b, a) && !Self::ranks_before(c, b) ==> !Self::ranks_before(c, a),
            Self::ranks_before(a, b) ==> !Self::ranks_before(b, a),
    ;
}

impl Ranked for String {
    open spec fn ranks_before(a: Seq<char>, b: Seq<char>) -> bool {
        text_before(a, b)
    }

    fn precedes(&self, other: &Self) -> (r: bool) {
        comes_before(self, other)
    }

    proof fn lemma_rank(a: Seq<char>, b: Seq<char>, c: Seq<char>) {
        lemma_text_order(a, b, c);
        lemma_text_order(b, a, c);
        lemma_text_order(c, b, a);
        lemma_text_order(c, a, b);
        assert(Self::ranks_before(a, a) == text_before(a, a));
    }
}

/// `s` with `x` put in behind everything that need not stand after it.
pub open spec fn place<T: Ranked>(s: Seq<T::V>, x: T::V) -> Seq<T::V>
    decreases s.len(),
{
    if s.len() > 0 && T::ranks_before(x, s.last()) {
        place::<T>(s.drop_last(), x).push(s.last())
    } else {
        s.push(x)
    }
}

/// The items of `s` in order, items of the same rank as they stood in `s`.
pub open spec fn sorted<T: Ranked>(s: Seq<T::V>) -> Seq<T::V>
    decreases s.len(),
{
    if s.len() == 0 {
        Seq::empty()
    } else {
        place::<T>(sorted::<T>(s.drop_last()), s.last())
    }
}

/// Whether no item of `s` has to stand before an earlier one.
pub open spec fn in_order<T: Ranked>(s: Seq<T::V>) -> bool {
    forall|i: int, j: int|
        0 <= i < j < s.len() ==> !T::ranks_before(#[trigger] s[j], #[trigger] s[i])
}

/// Putting an item into its place keeps the order and adds that item alone.
proof fn lemma_place<T: Ranked>(s: Seq<T::V>, x: T::V)
    requires
        in_order::<T>(s),
    ensures
        in_order::<T>(place::<T>(s, x)),
        place::<T>(s, x).to_multiset() == s.to_multiset().insert(x),
        place::<T>(s, x).len() == s.len() + 1,
        forall|i: int|
            0 <= i < place::<T>(s, x).len() ==> #[trigger] place::<T>(s, x)[i] == x || s.contains(
                place::<T>(s, x)[i],
            ),
    decreases s.len(),
{
    broadcast use vstd::seq_lib::group_to_multiset_ensures;

    if s.len() > 0 && T::ranks_before(x, s.last()) {
        let t = s.drop_last();
        lemma_place::<T>(t, x);
        let p = place::<T>(t, x);
        let r = p.push(s.last());
        assert(s =~= t.push(s.last()));
        assert(s.to_multiset() =~= t.to_multiset().insert(s.last()));
        assert(r.to_multiset() =~= s.to_multiset().insert(x));
        T::lemma_rank(x, s.last(), x);
        assert forall|i: int| 0 <= i < r.len() implies #[trigger] r[i] == x || s.contains(r[i]) by {
            if i < p.len() {
                assert(p[i] == x || t.contains(p[i]));
                if p[i] != x {
                    let k = choose|k: int| 0 <= k < t.len() && t[k] == p[i];
                    assert(s[k] == r[i]);
                }
            } else {
                assert(s[s.len() - 1] == r[i]);
            }
        }
        assert forall|i: int, j: int| 0 <= i < j < r.len() implies !T::ranks_before(
            #[trigger] r[j],
            #[trigger] r[i],
        ) by {
            if j < p.len() {
                assert(r[j] == p[j] && r[i] == p[i]);
            } else {
                assert(r[i] == p[i]);
                if p[i] != x {
                    let k = choose|k: int| 0 <= k < t.len() && t[k] == p[i];
                    assert(s[k] == p[i]);
                    assert(!T::ranks_before(s[s.len() - 1], s[k]));
                }
            }
        }
    } else {
        let r = s.push(x);
        assert forall|i: int| 0 <= i < r.len() implies #[trigger] r[i] == x || s.contains(r[i]) by {
            if i < s.len() {
                assert(s[i] == r[i]);
            }
        }
        assert forall|i: int, j: int| 0 <= i < j < r.len() implies !T::ranks_before(
            #[trigger] r[j],
            #[trigger] r[i],
        ) by {
            if j < s.len() {
                assert(r[j] == s[j] && r[i] == s[i]);
            } else {
                assert(r[i] == s[i]);
                let last = s.len() - 1;
                T::lemma_rank(s[i], s[last], x);
                T::lemma_rank(s[i], s[i], s[i]);
                if i < last {
                    assert(!T::ranks_before(s[last], s[i]));
                }
            }
        }
    }
}

/// A sorted list is in order and holds what the list held before.
pub proof fn lemma_sorted<T: Ranked>(s: Seq<T::V>)
    ensures
        in_order::<T>(sorted::<T>(s)),
        sorted::<T>(s).to_multiset() == s.to_multiset(),
        sorted::<T>(s).len() == s.len(),
    decreases s.len(),
{
    broadcast use vstd::seq_lib::group_to_multiset_ensures;

    if s.len() > 0 {
        lemma_sorted::<T>(s.drop_last());
        lemma_place::<T>(sorted::<T>(s.drop_last()), s.last());
        assert(s =~= s.drop_last().push(s.last()));
    } else {
        assert(s =~= Seq::<T::V>::empty());
    }
}

/// Where [`place`] puts the item.
proof fn lemma_place_at<T: Ranked>(s: Seq<T::V>, x: T::V, p: int)
    requires
        0 <= p <= s.len(),
        forall|i: int| p <= i < s.len() ==> T::ranks_before(x, #[trigger] s[i]),
        p > 0 ==> !T::ranks_before(x, s[p - 1]),
    ensures
        place::<T>(s, x) == s.insert(p, x),
    decreases s.len(),
{
    if p < s.len() {
        lemma_place_at::<T>(s.drop_last(), x, p);
        assert(s.drop_last().insert(p, x).push(s.last()) =~= s.insert(p, x));
    } else {
        assert(s.push(x) =~= s.insert(p, x));
    }
}

/// Sort `items`, keeping items of the same rank in their order.
pub fn sort<T: Ranked>(items: Vec<T>) -> (r: Vec<T>)
    ensures
        r.deep_view() == sorted::<T>(items.deep_view()),
{
    let ghost whole = items.deep_view();
    let mut rest = items;
    let mut out: Vec<T> = Vec::new();
    proof {
        assert(out.deep_view() =~= Seq::<T::V>::empty());
        assert(whole.take(0) =~= Seq::<T::V>::empty());
        assert(rest.deep_view() =~= whole.skip(0));
    }
    while rest.len() > 0
        invariant
            rest@.len() <= whole.len(),
            rest.deep_view() == whole.skip(whole.len() - rest@.len()),
            out.deep_view() == sorted::<T>(whole.take(whole.len() - rest@.len())),
        decreases rest@.len(),
    {
        let ghost k = whole.len() - rest@.len();
        let ghost before = rest.deep_view();
        let x = rest.remove(0);
        proof {
            assert(x.deep_view() == before[0]);
            assert(rest.deep_view() =~= before.skip(1));
            assert(whole.skip(k).skip(1) =~= whole.skip(k + 1));
            assert(whole.take(k + 1).drop_last() =~= whole.take(k));
            assert(whole.take(k + 1).last() == whole[k]);
        }
        let mut p: usize = out.len();
        let ghost s = out.deep_view();
        while p > 0 && x.precedes(&out[p - 1])
            invariant
                p <= out@.len(),
                s == out.deep_view(),
                forall|i: int|
                    p <= i < s.len() ==> T::ranks_before(x.deep_view(), #[trigger] s[i]),
            decreases p,
        {
            p = p - 1;
        }
        proof {
            lemma_place_at::<T>(s, x.deep_view(), p as int);
        }
        let ghost y = x.deep_view();
        out.insert(p, x);
        proof {
            assert(out.deep_view() =~= s.insert(p as int, y));
        }
    }
    proof {
        assert(whole.take(whole.len() as int) =~= whole);
    }
    out
}

// ---------------------------------------------------------------------------
// Sets of texts
// ---------------------------------------------------------------------------

/// Whether `s` stands in strict order: sorted, with nothing twice.
pub open spec fn strictly_ordered(s: Seq<Seq<char>>) -> bool {
    forall|i: int, j: int|
        0 <= i < j < s.len() ==> text_before(#[trigger] s[i], #[trigger] s[j])
}

/// `s` with `x` added in its place, unless it is there.
pub open spec fn with_text(s: Seq<Seq<char>>, x: Seq<char>) -> Seq<Seq<char>>
    decreases s.len(),
{
    if s.len() > 0 && text_before(x, s.last()) {
        with_text(s.drop_last(), x).push(s.last())
    } else if s.len() > 0 && s.last() == x {
        s
    } else {
        s.push(x)
    }
}

/// The texts of `items` in order, each once.
pub open spec fn text_set(items: Seq<Seq<char>>) -> Seq<Seq<char>>
    decreases items.len(),
{
    if items.len() == 0 {
        Seq::empty()
    } else {
        with_text(text_set(items.drop_last()), items.last())
    }
}

/// Adding a text keeps the set ordered and adds that text alone.
pub proof fn lemma_with_text(s: Seq<Seq<char>>, x: Seq<char>)
    requires
        strictly_ordered(s),
    ensures
        strictly_ordered(with_text(s, x)),
        forall|y: Seq<char>| #[trigger]
            with_text(s, x).contains(y) <==> y == x || s.contains(y),
    decreases s.len(),
{
    if s.len() > 0 && text_before(x, s.last()) {
        let t = s.drop_last();
        lemma_with_text(t, x);
        let w = with_text(t, x);
        let r = w.push(s.last());
        assert forall|y: Seq<char>| #[trigger] r.contains(y) <==> y == x || s.contains(y) by {
            if r.contains(y) {
                let i = choose|i: int| 0 <= i < r.len() && r[i] == y;
                if i < w.len() {
                    assert(w[i] == y);
                    assert(w.contains(y));
                    if y != x {
                        let k = choose|k: int| 0 <= k < t.len() && t[k] == y;
                        assert(s[k] == y);
                    }
                } else {
                    assert(s[s.len() - 1] == y);
                }
            }
            if y == x {
                assert(w.contains(y));
                let i = choose|i: int| 0 <= i < w.len() && w[i] == y;
                assert(r[i] == y);
            } else if s.contains(y) {
                let k = choose|k: int| 0 <= k < s.len() && s[k] == y;
                if k < t.len() {
                    assert(t[k] == y);
                    assert(w.contains(y));
                    let i = choose|i: int| 0 <= i < w.len() && w[i] == y;
                    assert(r[i] == y);
                } else {
                    assert(r[r.len() - 1] == y);
                }
            }
        }
        assert forall|i: int, j: int| 0 <= i < j < r.len() implies text_before(
            #[trigger] r[i],
            #[trigger] r[j],
        ) by {
            if j < w.len() {
                assert(r[i] == w[i] && r[j] == w[j]);
            } else {
                assert(r[i] == w[i]);
                assert(w.contains(w[i]));
                if w[i] != x {
                    let k = choose|k: int| 0 <= k < t.len() && t[k] == w[i];
                    assert(s[k] == w[i]);
                    assert(text_before(s[k], s[s.len() - 1]));
                }
            }
        }
    } else if s.len() > 0 && s.last() == x {
        assert(s[s.len() - 1] == x);
    } else {
        let r = s.push(x);
        assert forall|y: Seq<char>| #[trigger] r.contains(y) <==> y == x || s.contains(y) by {
            if r.contains(y) {
                let i = choose|i: int| 0 <= i < r.len() && r[i] == y;
                if i < s.len() {
                    assert(s[i] == y);
                }
            }
            if y == x {
                assert(r[s.len() as int] == y);
            } else if s.contains(y) {
                let k = choose|k: int| 0 <= k < s.len() && s[k] == y;
                assert(r[k] == y);
            }
        }
        assert forall|i: int, j: int| 0 <= i < j < r.len() implies text_before(
            #[trigger] r[i],
            #[trigger] r[j],
        ) by {
            if j < s.len() {
                assert(r[i] == s[i] && r[j] == s[j]);
            } else {
                let last = s.len() - 1;
                assert(r[i] == s[i]);
                lemma_text_order(s[i], s[last], x);
                lemma_text_order(x, s[last], s[i]);
                if i < last {
                    assert(text_before(s[i], s[last]));
                }
            }
        }
    }
}

/// A set of texts is in strict order and holds exactly the texts it was made
/// of.
pub proof fn lemma_text_set(items: Seq<Seq<char>>)
    ensures
        strictly_ordered(text_set(items)),
        forall|y: Seq<char>| #[trigger] text_set(items).contains(y) <==> items.contains(y),
    decreases items.len(),
{
    if items.len() > 0 {
        let t = items.drop_last();
        lemma_text_set(t);
        lemma_with_text(text_set(t), items.last());
        assert forall|y: Seq<char>| #[trigger]
            text_set(items).contains(y) <==> items.contains(y) by {
            if t.contains(y) {
                let k = choose|k: int| 0 <= k < t.len() && t[k] == y;
                assert(items[k] == y);
            }
            if items.contains(y) && y != items.last() {
                let k = choose|k: int| 0 <= k < items.len() && items[k] == y;
                assert(t[k] == y);
            }
            assert(items[items.len() - 1] == items.last());
        }
    }
}

/// Two lists in strict order that hold the same texts are the same list.
pub proof fn lemma_ordered_unique(a: Seq<Seq<char>>, b: Seq<Seq<char>>)
    requires
        strictly_ordered(a),
        strictly_ordered(b),
        forall|y: Seq<char>| #[trigger] a.contains(y) <==> b.contains(y),
    ensures
        a == b,
    decreases a.len(),
{
    if a.len() == 0 {
        if b.len() > 0 {
            assert(b.contains(b[0]));
            assert(a.contains(b[0]));
        }
        assert(a =~= b);
    } else {
        assert(a.contains(a[a.len() - 1]));
        assert(b.contains(a.last()));
        let k = choose|k: int| 0 <= k < b.len() && b[k] == a.last();
        let n = b.len() - 1;
        assert(b.contains(b[n]));
        assert(a.contains(b[n]));
        let m = choose|m: int| 0 <= m < a.len() && a[m] == b[n];
        if k < n {
            assert(text_before(b[k], b[n]));
            if m < a.len() - 1 {
                assert(text_before(a[m], a[a.len() - 1]));
            }
            lemma_text_order(b[k], b[n], b[k]);
        }
        assert(a.last() == b.last());
        let a1 = a.drop_last();
        let b1 = b.drop_last();
        assert forall|y: Seq<char>| #[trigger] a1.contains(y) <==> b1.contains(y) by {
            if a1.contains(y) {
                let i = choose|i: int| 0 <= i < a1.len() && a1[i] == y;
                assert(a[i] == y);
                assert(text_before(a[i], a[a.len() - 1]));
                lemma_text_order(y, y, y);
                assert(a.contains(y));
                let j = choose|j: int| 0 <= j < b.len() && b[j] == y;
                assert(b1[j] == y);
            }
            if b1.contains(y) {
                let j = choose|j: int| 0 <= j < b1.len() && b1[j] == y;
                assert(b[j] == y);
                assert(text_before(b[j], b[n]));
                lemma_text_order(y, y, y);
                assert(b.contains(y));
                assert(a.contains(y));
                let i = choose|i: int| 0 <= i < a.len() && a[i] == y;
                assert(a1[i] == y);
            }
        }
        assert forall|i: int, j: int| 0 <= i < j < a1.len() implies text_before(
            #[trigger] a1[i],
            #[trigger] a1[j],
        ) by {
            assert(a1[i] == a[i] && a1[j] == a[j]);
        }
        assert forall|i: int, j: int| 0 <= i < j < b1.len() implies text_before(
            #[trigger] b1[i],
            #[trigger] b1[j],
        ) by {
            assert(b1[i] == b[i] && b1[j] == b[j]);
        }
        lemma_ordered_unique(a1, b1);
        assert(a =~= a1.push(a.last()));
        assert(b =~= b1.push(b.last()));
    }
}

/// Where [`with_text`] finds or puts the text.
proof fn lemma_with_text_at(s: Seq<Seq<char>>, x: Seq<char>, p: int)
    requires
        0 <= p <= s.len(),
        forall|i: int| p <= i < s.len() ==> text_before(x, #[trigger] s[i]),
        p > 0 ==> !text_before(x, s[p - 1]),
    ensures
        with_text(s, x) == (if p > 0 && s[p - 1] == x {
            s
        } else {
            s.insert(p, x)
        }),
    decreases s.len(),
{
    if p < s.len() {
        let t = s.drop_last();
        lemma_with_text_at(t, x, p);
        if p > 0 && s[p - 1] == x {
            assert(t.push(s.last()) =~= s);
        } else {
            assert(t.insert(p, x).push(s.last()) =~= s.insert(p, x));
        }
    } else {
        assert(s.push(x) =~= s.insert(p, x));
    }
}

/// Add `x` to the ordered set `set`.
pub fn add_text(set: &mut Vec<String>, x: String)
    ensures
        final(set).deep_view() == with_text(old(set).deep_view(), x@),
{
    let ghost s = set.deep_view();
    let mut p: usize = set.len();
    while p > 0 && comes_before(&x, &set[p - 1])
        invariant
            p <= set@.len(),
            s == set.deep_view(),
            *set == *old(set),
            forall|i: int| p <= i < s.len() ==> text_before(x@, #[trigger] s[i]),
        decreases p,
    {
        p = p - 1;
    }
    proof {
        lemma_with_text_at(s, x@, p as int);
    }
    if p > 0 && text::same(&set[p - 1], &x) {
        return;
    }
    let ghost y = x@;
    set.insert(p, x);
    proof {
        assert(set.deep_view() =~= s.insert(p as int, y));
    }
}

/// Whether `x` is one of `items`.
pub fn has_text(items: &Vec<String>, x: &str) -> (r: bool)
    ensures
        r == items.deep_view().contains(x@),
{
    let ghost s = items.deep_view();
    let mut i: usize = 0;
    while i < items.len()
        invariant
            s == items.deep_view(),
            i <= items@.len(),
            forall|j: int| 0 <= j < i ==> #[trigger] s[j] != x@,
        decreases items@.len() - i,
    {
        proof {
            assert(s[i as int] == items@[i as int]@);
        }
        if text::same(&items[i], x) {
            return true;
        }
        i = i + 1;
    }
    false
}

// ---------------------------------------------------------------------------
// Maps from texts
// ---------------------------------------------------------------------------

/// A map from texts to values whose entries stand in the order of their keys, each
/// key once. Every map of this type is so: see [`TextMap::entries`].
#[derive(Debug, PartialEq, Eq)]
pub struct TextMap<W> {
    /// The entries.
    entries: Vec<(String, W)>,
}

impl<W> TextMap<W> {
    /// The keys of the entries stand in strict order.
    #[verifier::type_invariant]
    spec fn in_order_of_keys(self) -> bool {
        forall|i: int, j: int|
            0 <= i < j < self.entries@.len() ==> text_before(
                (#[trigger] self.entries@[i]).0@,
                (#[trigger] self.entries@[j]).0@,
            )
    }
}

impl<W: DeepView> DeepView for TextMap<W> {
    type V = Seq<(Seq<char>, W::V)>;

    closed spec fn deep_view(&self) -> Seq<(Seq<char>, W::V)> {
        self.entries.deep_view()
    }
}

/// Whether the keys of `m` stand in strict order.
pub open spec fn keys_ordered<X>(m: Seq<(Seq<char>, X)>) -> bool {
    forall|i: int, j: int|
        0 <= i < j < m.len() ==> text_before(#[trigger] m[i].0, #[trigger] m[j].0)
}

/// `m` with `key` mapped to `value`.
pub open spec fn put<X>(m: Seq<(Seq<char>, X)>, key: Seq<char>, value: X) -> Seq<(Seq<char>, X)>
    decreases m.len(),
{
    if m.len() > 0 && text_before(key, m.last().0) {
        put(m.drop_last(), key, value).push(m.last())
    } else if m.len() > 0 && m.last().0 == key {
        m.drop_last().push((key, value))
    } else {
        m.push((key, value))
    }
}

/// The value of `key` in `m`.
pub open spec fn lookup<X>(m: Seq<(Seq<char>, X)>, key: Seq<char>) -> Option<X>
    decreases m.len(),
{
    if m.len() == 0 {
        None
    } else if m.last().0 == key {
        Some(m.last().1)
    } else {
        lookup(m.drop_last(), key)
    }
}

/// Mapping a key keeps the keys in order and changes that key alone.
pub proof fn lemma_put<X>(m: Seq<(Seq<char>, X)>, key: Seq<char>, value: X)
    requires
        keys_ordered(m),
    ensures
        keys_ordered(put(m, key, value)),
        lookup(put(m, key, value), key) == Some(value),
        forall|k: Seq<char>| k != key ==> #[trigger] lookup(put(m, key, value), k) == lookup(m, k),
        forall|i: int|
            0 <= i < put(m, key, value).len() ==> #[trigger] put(m, key, value)[i] == (key, value)
                || m.contains(put(m, key, value)[i]),
    decreases m.len(),
{
    if m.len() > 0 && text_before(key, m.last().0) {
        let t = m.drop_last();
        lemma_put(t, key, value);
        let w = put(t, key, value);
        let r = w.push(m.last());
        assert(r.drop_last() =~= w);
        lemma_text_order(key, m.last().0, key);
        assert forall|k: Seq<char>| k != key implies #[trigger] lookup(r, k) == lookup(m, k) by {
            assert(lookup(w, k) == lookup(t, k));
        }
        assert forall|i: int| 0 <= i < r.len() implies #[trigger] r[i] == (key, value)
            || m.contains(r[i]) by {
            if i < w.len() {
                assert(r[i] == w[i]);
                if w[i] != (key, value) {
                    let k = choose|k: int| 0 <= k < t.len() && t[k] == w[i];
                    assert(m[k] == r[i]);
                }
            } else {
                assert(m[m.len() - 1] == r[i]);
            }
        }
        assert forall|i: int, j: int| 0 <= i < j < r.len() implies text_before(
            #[trigger] r[i].0,
            #[trigger] r[j].0,
        ) by {
            if j < w.len() {
                assert(r[i] == w[i] && r[j] == w[j]);
            } else {
                assert(r[i] == w[i]);
                if w[i] != (key, value) {
                    let k = choose|k: int| 0 <= k < t.len() && t[k] == w[i];
                    assert(m[k] == w[i]);
                    assert(text_before(m[k].0, m[m.len() - 1].0));
                }
            }
        }
    } else if m.len() > 0 && m.last().0 == key {
        let r = m.drop_last().push((key, value));
        assert(r.drop_last() =~= m.drop_last());
        assert forall|i: int| 0 <= i < r.len() implies #[trigger] r[i] == (key, value)
            || m.contains(r[i]) by {
            if i < r.len() - 1 {
                assert(m[i] == r[i]);
            }
        }
        assert forall|i: int, j: int| 0 <= i < j < r.len() implies text_before(
            #[trigger] r[i].0,
            #[trigger] r[j].0,
        ) by {
            assert(r[i].0 == m[i].0 && r[j].0 == m[j].0);
        }
    } else {
        let r = m.push((key, value));
        assert(r.drop_last() =~= m);
        assert forall|i: int| 0 <= i < r.len() implies #[trigger] r[i] == (key, value)
            || m.contains(r[i]) by {
            if i < m.len() {
                assert(m[i] == r[i]);
            }
        }
        assert forall|i: int, j: int| 0 <= i < j < r.len() implies text_before(
            #[trigger] r[i].0,
            #[trigger] r[j].0,
        ) by {
            if j < m.len() {
                assert(r[i] == m[i] && r[j] == m[j]);
            } else {
                let last = m.len() - 1;
                assert(r[i] == m[i]);
                lemma_text_order(m[i].0, m[last].0, key);
                lemma_text_order(key, m[last].0, key);
                if i < last {
                    assert(text_before(m[i].0, m[last].0));
                }
            }
        }
    }
}

/// Where [`put`] finds or puts the key.
proof fn lemma_put_at<X>(m: Seq<(Seq<char>, X)>, key: Seq<char>, value: X, p: int)
    requires
        0 <= p <= m.len(),
        forall|i: int| p <= i < m.len() ==> text_before(key, (#[trigger] m[i]).0),
        p > 0 ==> !text_before(key, m[p - 1].0),
    ensures
        put(m, key, value) == (if p > 0 && m[p - 1].0 == key {
            m.update(p - 1, (key, value))
        } else {
            m.insert(p, (key, value))
        }),
    decreases m.len(),
{
    if p < m.len() {
        let t = m.drop_last();
        lemma_put_at(t, key, value, p);
        if p > 0 && m[p - 1].0 == key {
            assert(t.update(p - 1, (key, value)).push(m.last()) =~= m.update(p - 1, (key, value)));
        } else {
            assert(t.insert(p, (key, value)).push(m.last()) =~= m.insert(p, (key, value)));
        }
    } else if p > 0 && m[p - 1].0 == key {
        assert(m.drop_last().push((key, value)) =~= m.update(p - 1, (key, value)));
    } else {
        assert(m.push((key, value)) =~= m.insert(p, (key, value)));
    }
}

/// A map whose keys stand in order, entry by entry.
proof fn lemma_entries_ordered<W: DeepView>(entries: Vec<(String, W)>)
    ensures
        keys_ordered(entries.deep_view()) <==> forall|i: int, j: int|
            0 <= i < j < entries@.len() ==> text_before(
                (#[trigger] entries@[i]).0@,
                (#[trigger] entries@[j]).0@,
            ),
{
    let m = entries.deep_view();
    assert forall|i: int| 0 <= i < m.len() implies (#[trigger] m[i]).0 == entries@[i].0@ by {}
    if keys_ordered(m) {
        assert forall|i: int, j: int| 0 <= i < j < entries@.len() implies text_before(
            (#[trigger] entries@[i]).0@,
            (#[trigger] entries@[j]).0@,
        ) by {
            assert(text_before(m[i].0, m[j].0));
        }
    } else {
        let (i, j) = choose|i: int, j: int|
            0 <= i < j < m.len() && !text_before(#[trigger] m[i].0, #[trigger] m[j].0);
        assert(!text_before(entries@[i].0@, entries@[j].0@));
    }
}

impl<W: DeepView> TextMap<W> {
    /// The map without entries.
    pub fn new() -> (r: Self)
        ensures
            r.deep_view() == Seq::<(Seq<char>, W::V)>::empty(),
    {
        let r = TextMap { entries: Vec::new() };
        proof {
            assert(r.deep_view() =~= Seq::<(Seq<char>, W::V)>::empty());
        }
        r
    }

    /// The map with these entries.
    pub(crate) fn from_entries(entries: Vec<(String, W)>) -> (r: Self)
        requires
            keys_ordered(entries.deep_view()),
        ensures
            r.deep_view() == entries.deep_view(),
    {
        proof {
            lemma_entries_ordered(entries);
        }
        TextMap { entries }
    }

    /// The entries, which stand in the order of their keys.
    pub fn entries(&self) -> (r: &Vec<(String, W)>)
        ensures
            r.deep_view() == self.deep_view(),
            keys_ordered(self.deep_view()),
    {
        proof {
            use_type_invariant(self);
            lemma_entries_ordered(self.entries);
        }
        &self.entries
    }

    /// Map `key` to `value`.
    pub fn insert(&mut self, key: String, value: W)
        ensures
            final(self).deep_view() == put(old(self).deep_view(), key@, value.deep_view()),
            keys_ordered(final(self).deep_view()),
    {
        proof {
            use_type_invariant(&*self);
            lemma_entries_ordered(self.entries);
        }
        let ghost m = self.deep_view();
        let mut entries: Vec<(String, W)> = Vec::new();
        std::mem::swap(&mut entries, &mut self.entries);
        let mut p: usize = entries.len();
        while p > 0 && comes_before(&key, &entries[p - 1].0)
            invariant
                p <= entries@.len(),
                m == entries.deep_view(),
                forall|i: int| p <= i < m.len() ==> text_before(key@, (#[trigger] m[i]).0),
            decreases p,
        {
            proof {
                assert(m[p - 1].0 == entries@[p - 1].0@);
            }
            p = p - 1;
        }
        let ghost k = key@;
        let ghost x = value.deep_view();
        proof {
            if p > 0 {
                assert(m[p - 1].0 == entries@[p - 1].0@);
            }
            lemma_put_at(m, k, x, p as int);
            lemma_put(m, k, x);
        }
        if p > 0 && text::same(&entries[p - 1].0, &key) {
            entries.remove(p - 1);
            entries.insert(p - 1, (key, value));
            proof {
                assert(entries.deep_view() =~= m.update(p - 1, (k, x)));
            }
        } else {
            entries.insert(p, (key, value));
            proof {
                assert(entries.deep_view() =~= m.insert(p as int, (k, x)));
            }
        }
        proof {
            lemma_entries_ordered(entries);
        }
        self.entries = entries;
    }

    /// The value of `key`.
    pub fn get(&self, key: &str) -> (r: Option<&W>)
        ensures
            r.deep_view() == lookup(self.deep_view(), key@),
    {
        let ghost m = self.deep_view();
        let mut p: usize = self.entries.len();
        proof {
            assert(m.take(p as int) =~= m);
        }
        while p > 0
            invariant
                p <= self.entries@.len(),
                m == self.deep_view(),
                lookup(m, key@) == lookup(m.take(p as int), key@),
            decreases p,
        {
            proof {
                assert(m.take(p as int).drop_last() =~= m.take(p - 1));
                assert(m[p - 1] == self.entries@[p - 1].deep_view());
            }
            if text::same(&self.entries[p - 1].0, key) {
                return Some(&self.entries[p - 1].1);
            }
            p = p - 1;
        }
        None
    }

    /// The number of entries.
    pub fn len(&self) -> (n: usize)
        ensures
            n == self.deep_view().len(),
    {
        self.entries.len()
    }

    /// Whether there is no entry.
    pub fn is_empty(&self) -> (r: bool)
        ensures
            r == (self.deep_view().len() == 0),
    {
        self.entries.len() == 0
    }
}

} // verus!
