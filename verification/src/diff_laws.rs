//! A comparison of locations does not depend on the order in which they were
//! asked, nor on those that failed.
use vstd::prelude::*;

use crate::diff::{
    all_names, differences, header_diffs, header_values, names_distinct, names_of, status_value,
    status_values, statuses_differ, successes, values_differ, FieldDiffView, LocationResultView,
};
use crate::order;
use crate::text;

verus! {

// ---------------------------------------------------------------------------
// The same locations
// ---------------------------------------------------------------------------

/// Whether two lists hold the same locations.
spec fn same_locations(a: Seq<LocationResultView>, b: Seq<LocationResultView>) -> bool {
    forall|x: LocationResultView| #[trigger] a.contains(x) <==> b.contains(x)
}

/// The successful locations are those among all that succeeded.
proof fn lemma_successes(results: Seq<LocationResultView>)
    ensures
        forall|x: LocationResultView| #[trigger]
            successes(results).contains(x) <==> results.contains(x) && x.ok,
        names_distinct(results) ==> names_distinct(successes(results)),
        successes(successes(results)) == successes(results),
    decreases results.len(),
{
    if results.len() > 0 {
        let t = results.drop_last();
        let last = results.last();
        lemma_successes(t);
        let before = successes(t);
        let after = successes(results);
        assert forall|x: LocationResultView| #[trigger]
            after.contains(x) <==> results.contains(x) && x.ok by {
            if results.contains(x) && x != last {
                let i = choose|i: int| 0 <= i < results.len() && results[i] == x;
                assert(t[i] == x);
            }
            if t.contains(x) {
                let i = choose|i: int| 0 <= i < t.len() && t[i] == x;
                assert(results[i] == x);
            }
            assert(results[results.len() - 1] == last);
            if before.contains(x) {
                let i = choose|i: int| 0 <= i < before.len() && before[i] == x;
                assert(after[i] == x);
            }
            if last.ok {
                assert(after[before.len() as int] == last);
                if after.contains(x) && x != last {
                    let i = choose|i: int| 0 <= i < after.len() && after[i] == x;
                    assert(before[i] == x);
                }
            }
        }
        if names_distinct(results) {
            assert(names_distinct(t)) by {
                assert forall|i: int, j: int| 0 <= i < j < t.len() implies (#[trigger] t[i]).name
                    != (#[trigger] t[j]).name by {
                    assert(t[i] == results[i] && t[j] == results[j]);
                }
            }
            assert forall|i: int, j: int| 0 <= i < j < after.len() implies (
            #[trigger] after[i]).name != (#[trigger] after[j]).name by {
                assert(before[i] == after[i]);
                if j < before.len() {
                    assert(before[j] == after[j]);
                } else {
                    assert(before.contains(before[i]));
                    let k = choose|k: int| 0 <= k < t.len() && t[k] == before[i];
                    assert(results[k] == t[k]);
                    assert(results[k].name != results[results.len() - 1].name);
                }
            }
        }
        if last.ok {
            assert(after.drop_last() =~= before);
        }
    }
}

/// Locations with names of their own are all different.
proof fn lemma_no_duplicates(a: Seq<LocationResultView>)
    requires
        names_distinct(a),
    ensures
        a.no_duplicates(),
{
    assert forall|i: int, j: int| 0 <= i < a.len() && 0 <= j < a.len() && i != j implies a[i]
        != a[j] by {
        if i < j {
            assert(a[i].name != a[j].name);
        } else {
            assert(a[j].name != a[i].name);
        }
    }
}

/// The same locations in another order have names of their own too.
proof fn lemma_permuted(a: Seq<LocationResultView>, b: Seq<LocationResultView>)
    requires
        names_distinct(a),
        a.to_multiset() == b.to_multiset(),
    ensures
        names_distinct(b),
        same_locations(a, b),
{
    broadcast use vstd::seq_lib::group_to_multiset_ensures;

    lemma_no_duplicates(a);
    a.lemma_multiset_has_no_duplicates();
    b.lemma_multiset_has_no_duplicates_conv();
    assert forall|x: LocationResultView| #[trigger] a.contains(x) <==> b.contains(x) by {
        assert(a.contains(x) <==> a.to_multiset().count(x) > 0);
        assert(b.contains(x) <==> b.to_multiset().count(x) > 0);
    }
    assert forall|i: int, j: int| 0 <= i < j < b.len() implies (#[trigger] b[i]).name != (
    #[trigger] b[j]).name by {
        assert(b.contains(b[i]) && b.contains(b[j]));
        assert(a.contains(b[i]) && a.contains(b[j]));
        let k = choose|k: int| 0 <= k < a.len() && a[k] == b[i];
        let m = choose|m: int| 0 <= m < a.len() && a[m] == b[j];
        assert(b[i] != b[j]);
        if k < m {
            assert(a[k].name != a[m].name);
        } else {
            assert(a[m].name != a[k].name);
        }
    }
}

/// Two lists of the same locations, each with names of their own, are equally
/// long.
proof fn lemma_same_len(a: Seq<LocationResultView>, b: Seq<LocationResultView>)
    requires
        names_distinct(a),
        names_distinct(b),
        same_locations(a, b),
    ensures
        a.len() == b.len(),
{
    lemma_no_duplicates(a);
    lemma_no_duplicates(b);
    a.unique_seq_to_set();
    b.unique_seq_to_set();
    assert(a.to_set() =~= b.to_set()) by {
        assert forall|x: LocationResultView| a.to_set().contains(x) <==> b.to_set().contains(
            x,
        ) by {
            assert(a.contains(x) <==> b.contains(x));
        }
    }
}

// ---------------------------------------------------------------------------
// Values by location
// ---------------------------------------------------------------------------

/// A value of each location, by the names of the locations.
spec fn by_name<X>(ok: Seq<LocationResultView>, f: spec_fn(LocationResultView) -> X) -> Seq<
    (Seq<char>, X),
>
    decreases ok.len(),
{
    if ok.len() == 0 {
        Seq::empty()
    } else {
        order::put(by_name(ok.drop_last(), f), ok.last().name, f(ok.last()))
    }
}

/// The statuses are such values.
proof fn lemma_statuses_by_name(ok: Seq<LocationResultView>)
    ensures
        status_values(ok) == by_name(ok, |r: LocationResultView| status_value(r)),
    decreases ok.len(),
{
    if ok.len() > 0 {
        lemma_statuses_by_name(ok.drop_last());
    }
}

/// So is what was sent for a header.
proof fn lemma_headers_by_name(ok: Seq<LocationResultView>, key: Seq<char>)
    ensures
        header_values(ok, key) == by_name(
            ok,
            |r: LocationResultView| order::lookup(r.headers, key),
        ),
    decreases ok.len(),
{
    if ok.len() > 0 {
        lemma_headers_by_name(ok.drop_last(), key);
    }
}

/// Where no two locations share a name, the entries are those of the locations.
proof fn lemma_by_name<X>(ok: Seq<LocationResultView>, f: spec_fn(LocationResultView) -> X)
    requires
        names_distinct(ok),
    ensures
        order::keys_ordered(by_name(ok, f)),
        forall|i: int|
            0 <= i < ok.len() ==> order::lookup(by_name(ok, f), (#[trigger] ok[i]).name) == Some(
                f(ok[i]),
            ),
        forall|j: int|
            0 <= j < by_name(ok, f).len() ==> exists|i: int|
                0 <= i < ok.len() && #[trigger] by_name(ok, f)[j] == (
                    (#[trigger] ok[i]).name,
                    f(ok[i]),
                ),
    decreases ok.len(),
{
    if ok.len() > 0 {
        let t = ok.drop_last();
        assert forall|i: int, j: int| 0 <= i < j < t.len() implies (#[trigger] t[i]).name != (
        #[trigger] t[j]).name by {
            assert(t[i] == ok[i] && t[j] == ok[j]);
        }
        lemma_by_name(t, f);
        let before = by_name(t, f);
        let value = f(ok.last());
        order::lemma_put(before, ok.last().name, value);
        let after = by_name(ok, f);
        assert forall|i: int| 0 <= i < ok.len() implies order::lookup(
            after,
            (#[trigger] ok[i]).name,
        ) == Some(f(ok[i])) by {
            if i < t.len() {
                assert(t[i] == ok[i]);
                assert(ok[i].name != ok[ok.len() - 1].name);
            }
        }
        assert forall|j: int| 0 <= j < after.len() implies exists|i: int|
            0 <= i < ok.len() && #[trigger] after[j] == ((#[trigger] ok[i]).name, f(ok[i])) by {
            if after[j] == (ok.last().name, value) {
                assert(after[j] == (ok[ok.len() - 1].name, value));
            } else {
                assert(before.contains(after[j]));
                let m = choose|m: int| 0 <= m < before.len() && before[m] == after[j];
                let i = choose|i: int|
                    0 <= i < t.len() && #[trigger] before[m] == ((#[trigger] t[i]).name, f(t[i]));
                assert(t[i] == ok[i]);
            }
        }
    }
}

/// What lookup finds is an entry.
proof fn lemma_found<X>(m: Seq<(Seq<char>, X)>, key: Seq<char>, value: X)
    requires
        order::lookup(m, key) == Some(value),
    ensures
        m.contains((key, value)),
    decreases m.len(),
{
    if m.last().0 == key {
        assert(m[m.len() - 1] == (key, value));
    } else {
        let t = m.drop_last();
        lemma_found(t, key, value);
        let i = choose|i: int| 0 <= i < t.len() && t[i] == (key, value);
        assert(m[i] == (key, value));
    }
}

/// Every entry of the one list is one of the other.
proof fn lemma_entries<X>(
    a: Seq<LocationResultView>,
    b: Seq<LocationResultView>,
    f: spec_fn(LocationResultView) -> X,
    j: int,
)
    requires
        names_distinct(a),
        names_distinct(b),
        same_locations(a, b),
        0 <= j < by_name(a, f).len(),
    ensures
        by_name(b, f).contains(by_name(a, f)[j]),
{
    lemma_by_name(a, f);
    lemma_by_name(b, f);
    let m = by_name(a, f);
    let i = choose|i: int|
        0 <= i < a.len() && #[trigger] m[j] == ((#[trigger] a[i]).name, f(a[i]));
    assert(a.contains(a[i]));
    assert(b.contains(a[i]));
    let k = choose|k: int| 0 <= k < b.len() && b[k] == a[i];
    assert(order::lookup(by_name(b, f), b[k].name) == Some(f(b[k])));
    lemma_found(by_name(b, f), b[k].name, f(b[k]));
}

/// Two ordered tables with the same entries are the same.
proof fn lemma_tables_unique<X>(a: Seq<(Seq<char>, X)>, b: Seq<(Seq<char>, X)>)
    requires
        order::keys_ordered(a),
        order::keys_ordered(b),
        forall|j: int| 0 <= j < a.len() ==> b.contains(#[trigger] a[j]),
        forall|j: int| 0 <= j < b.len() ==> a.contains(#[trigger] b[j]),
    ensures
        a == b,
{
    let p = a.map_values(|e: (Seq<char>, X)| e.0);
    let q = b.map_values(|e: (Seq<char>, X)| e.0);
    assert forall|y: Seq<char>| #[trigger] p.contains(y) <==> q.contains(y) by {
        if p.contains(y) {
            let i = choose|i: int| 0 <= i < p.len() && p[i] == y;
            assert(b.contains(a[i]));
            let k = choose|k: int| 0 <= k < b.len() && b[k] == a[i];
            assert(q[k] == y);
        }
        if q.contains(y) {
            let i = choose|i: int| 0 <= i < q.len() && q[i] == y;
            assert(a.contains(b[i]));
            let k = choose|k: int| 0 <= k < a.len() && a[k] == b[i];
            assert(p[k] == y);
        }
    }
    assert forall|i: int, j: int| 0 <= i < j < p.len() implies order::text_before(
        #[trigger] p[i],
        #[trigger] p[j],
    ) by {
        assert(order::text_before(a[i].0, a[j].0));
    }
    assert forall|i: int, j: int| 0 <= i < j < q.len() implies order::text_before(
        #[trigger] q[i],
        #[trigger] q[j],
    ) by {
        assert(order::text_before(b[i].0, b[j].0));
    }
    order::lemma_ordered_unique(p, q);
    assert(a.len() == b.len());
    assert forall|i: int| 0 <= i < a.len() implies a[i] == b[i] by {
        assert(b.contains(a[i]));
        let k = choose|k: int| 0 <= k < b.len() && b[k] == a[i];
        assert(p[i] == q[i]);
        assert(b[k].0 == b[i].0);
        order::lemma_text_order(b[i].0, b[i].0, b[i].0);
        if k < i {
            assert(order::text_before(b[k].0, b[i].0));
        } else if i < k {
            assert(order::text_before(b[i].0, b[k].0));
        }
    }
    assert(a =~= b);
}

/// The values do not depend on the order of the locations.
proof fn lemma_same_table<X>(
    a: Seq<LocationResultView>,
    b: Seq<LocationResultView>,
    f: spec_fn(LocationResultView) -> X,
)
    requires
        names_distinct(a),
        names_distinct(b),
        same_locations(a, b),
    ensures
        by_name(a, f) == by_name(b, f),
{
    lemma_by_name(a, f);
    lemma_by_name(b, f);
    let m = by_name(a, f);
    let n = by_name(b, f);
    assert forall|j: int| 0 <= j < m.len() implies n.contains(#[trigger] m[j]) by {
        lemma_entries(a, b, f, j);
    }
    assert forall|j: int| 0 <= j < n.len() implies m.contains(#[trigger] n[j]) by {
        lemma_entries(b, a, f, j);
    }
    lemma_tables_unique(m, n);
}

// ---------------------------------------------------------------------------
// The fields
// ---------------------------------------------------------------------------

/// The header names of all locations.
proof fn lemma_all_names(ok: Seq<LocationResultView>, name: Seq<char>)
    ensures
        all_names(ok).contains(name) <==> exists|i: int|
            0 <= i < ok.len() && names_of((#[trigger] ok[i]).headers).contains(name),
    decreases ok.len(),
{
    if ok.len() > 0 {
        let t = ok.drop_last();
        lemma_all_names(t, name);
        let before = all_names(t);
        let own = names_of(ok.last().headers);
        let all = all_names(ok);
        if all.contains(name) {
            let k = choose|k: int| 0 <= k < all.len() && all[k] == name;
            if k < before.len() {
                assert(before[k] == name);
                let i = choose|i: int|
                    0 <= i < t.len() && names_of((#[trigger] t[i]).headers).contains(name);
                assert(ok[i] == t[i]);
            } else {
                assert(own[k - before.len()] == name);
                assert(names_of(ok[ok.len() - 1].headers).contains(name));
            }
        }
        if exists|i: int| 0 <= i < ok.len() && names_of((#[trigger] ok[i]).headers).contains(name) {
            let i = choose|i: int|
                0 <= i < ok.len() && names_of((#[trigger] ok[i]).headers).contains(name);
            if i < t.len() {
                assert(t[i] == ok[i]);
                assert(before.contains(name));
                let k = choose|k: int| 0 <= k < before.len() && before[k] == name;
                assert(all[k] == name);
            } else {
                let k = choose|k: int| 0 <= k < own.len() && own[k] == name;
                assert(all[before.len() + k] == name);
            }
        }
    }
}

/// A header name of the one list is one of the other.
proof fn lemma_names_carry(
    a: Seq<LocationResultView>,
    b: Seq<LocationResultView>,
    name: Seq<char>,
)
    requires
        same_locations(a, b),
        all_names(a).contains(name),
    ensures
        all_names(b).contains(name),
{
    lemma_all_names(a, name);
    lemma_all_names(b, name);
    let i = choose|i: int| 0 <= i < a.len() && names_of((#[trigger] a[i]).headers).contains(name);
    assert(a.contains(a[i]));
    assert(b.contains(a[i]));
    let k = choose|k: int| 0 <= k < b.len() && b[k] == a[i];
    assert(names_of(b[k].headers).contains(name));
}

/// The headers that differ do not depend on the order of the locations.
proof fn lemma_same_header_diffs(
    a: Seq<LocationResultView>,
    b: Seq<LocationResultView>,
    keys: Seq<Seq<char>>,
)
    requires
        names_distinct(a),
        names_distinct(b),
        same_locations(a, b),
    ensures
        header_diffs(a, keys) == header_diffs(b, keys),
    decreases keys.len(),
{
    if keys.len() > 0 {
        let key = keys.last();
        lemma_same_header_diffs(a, b, keys.drop_last());
        lemma_headers_by_name(a, key);
        lemma_headers_by_name(b, key);
        lemma_same_table(a, b, |r: LocationResultView| order::lookup(r.headers, key));
    }
}

/// Where the statuses of the one list differ, so do those of the other.
proof fn lemma_statuses_carry(a: Seq<LocationResultView>, b: Seq<LocationResultView>)
    requires
        same_locations(a, b),
        statuses_differ(a),
    ensures
        statuses_differ(b),
{
    let i = choose|i: int| 0 <= i < a.len() && (#[trigger] a[i]).status != a[0].status;
    assert(a.contains(a[i]) && a.contains(a[0]));
    assert(b.contains(a[i]) && b.contains(a[0]));
    let k = choose|k: int| 0 <= k < b.len() && b[k] == a[i];
    let m = choose|m: int| 0 <= m < b.len() && b[m] == a[0];
    if b[k].status == b[0].status {
        assert(b[m].status != b[0].status);
    }
}

// ---------------------------------------------------------------------------
// The law
// ---------------------------------------------------------------------------

/// The differences of the same locations in another order are the same, and so
/// are those of the successful locations alone, where no two locations share a
/// name; and of fewer than two successful locations there are none.
pub proof fn law_order_of_locations(a: Seq<LocationResultView>, b: Seq<LocationResultView>)
    requires
        names_distinct(a),
        a.to_multiset() == b.to_multiset(),
    ensures
        differences(a) == differences(b),
        differences(a) == differences(successes(a)),
        successes(a).len() < 2 ==> differences(a).len() == 0,
{
    lemma_permuted(a, b);
    lemma_successes(a);
    lemma_successes(b);
    let p = successes(a);
    let q = successes(b);
    assert(same_locations(p, q)) by {
        assert forall|x: LocationResultView| #[trigger] p.contains(x) <==> q.contains(x) by {
            assert(a.contains(x) <==> b.contains(x));
        }
    }
    lemma_same_len(p, q);
    if p.len() >= 2 {
        if statuses_differ(p) {
            lemma_statuses_carry(p, q);
        }
        if statuses_differ(q) {
            lemma_statuses_carry(q, p);
        }
        lemma_statuses_by_name(p);
        lemma_statuses_by_name(q);
        lemma_same_table(p, q, |r: LocationResultView| status_value(r));
        let m = order::text_set(all_names(p));
        let n = order::text_set(all_names(q));
        order::lemma_text_set(all_names(p));
        order::lemma_text_set(all_names(q));
        assert forall|y: Seq<char>| #[trigger] m.contains(y) <==> n.contains(y) by {
            if all_names(p).contains(y) {
                lemma_names_carry(p, q, y);
            }
            if all_names(q).contains(y) {
                lemma_names_carry(q, p, y);
            }
        }
        order::lemma_ordered_unique(m, n);
        lemma_same_header_diffs(p, q, m);
    }
}

// ---------------------------------------------------------------------------
// What differs
// ---------------------------------------------------------------------------

/// The locations that are compared are those whose fetch succeeded, in order.
pub proof fn law_successes(results: Seq<LocationResultView>)
    ensures
        successes(results) == results.filter(|r: LocationResultView| r.ok),
    decreases results.len(),
{
    reveal(Seq::filter);
    if results.len() > 0 {
        law_successes(results.drop_last());
    }
    assert(successes(results) =~= results.filter(|r: LocationResultView| r.ok));
}

/// Whether two locations sent something different for a header, or one of them nothing.
pub open spec fn disagree(ok: Seq<LocationResultView>, key: Seq<char>) -> bool {
    exists|i: int, j: int|
        0 <= i < ok.len() && 0 <= j < ok.len() && order::lookup((#[trigger] ok[i]).headers, key)
            != order::lookup((#[trigger] ok[j]).headers, key)
}

/// The values of a field differ exactly if two locations disagree on it.
proof fn lemma_values_differ(ok: Seq<LocationResultView>, key: Seq<char>)
    requires
        names_distinct(ok),
    ensures
        values_differ(header_values(ok, key)) <==> disagree(ok, key),
        forall|i: int|
            0 <= i < ok.len() ==> order::lookup(header_values(ok, key), (#[trigger] ok[i]).name)
                == Some(order::lookup(ok[i].headers, key)),
{
    let f = |r: LocationResultView| order::lookup(r.headers, key);
    lemma_headers_by_name(ok, key);
    lemma_by_name(ok, f);
    let m = by_name(ok, f);
    if values_differ(m) {
        let k = choose|k: int| 0 <= k < m.len() && (#[trigger] m[k]).1 != m[0].1;
        let i = choose|i: int|
            0 <= i < ok.len() && #[trigger] m[k] == ((#[trigger] ok[i]).name, f(ok[i]));
        let j = choose|j: int|
            0 <= j < ok.len() && #[trigger] m[0] == ((#[trigger] ok[j]).name, f(ok[j]));
        assert(f(ok[i]) != f(ok[j]));
    }
    if disagree(ok, key) {
        let (i, j) = choose|i: int, j: int|
            0 <= i < ok.len() && 0 <= j < ok.len() && order::lookup(
                (#[trigger] ok[i]).headers,
                key,
            ) != order::lookup((#[trigger] ok[j]).headers, key);
        lemma_found(m, ok[i].name, f(ok[i]));
        lemma_found(m, ok[j].name, f(ok[j]));
        let a = choose|a: int| 0 <= a < m.len() && m[a] == (ok[i].name, f(ok[i]));
        let b = choose|b: int| 0 <= b < m.len() && m[b] == (ok[j].name, f(ok[j]));
        if m[a].1 == m[0].1 {
            assert(m[b].1 != m[0].1);
        }
    }
}

/// What is reported of a header.
pub open spec fn field_diff(ok: Seq<LocationResultView>, key: Seq<char>) -> Option<FieldDiffView> {
    if disagree(ok, key) {
        Some(FieldDiffView { field: key, values: header_values(ok, key) })
    } else {
        None
    }
}

/// Whether the reports are those of the headers, which hold every one on which two
/// locations disagree, in order and once.
pub open spec fn reports_of(
    d: Seq<FieldDiffView>,
    ok: Seq<LocationResultView>,
    keys: Seq<Seq<char>>,
) -> bool {
    &&& order::strictly_ordered(keys)
    &&& forall|key: Seq<char>| #[trigger] disagree(ok, key) ==> keys.contains(key)
    &&& d == keys.filter_map(|key: Seq<char>| field_diff(ok, key))
}

/// Whether the reports are of every header on which two locations disagree and of no
/// other, by name and once.
pub open spec fn reports_headers(d: Seq<FieldDiffView>, ok: Seq<LocationResultView>) -> bool {
    exists|keys: Seq<Seq<char>>| #[trigger] reports_of(d, ok, keys)
}

/// The headers that differ are those among the keys that do.
proof fn lemma_header_diffs(ok: Seq<LocationResultView>, keys: Seq<Seq<char>>)
    requires
        names_distinct(ok),
    ensures
        header_diffs(ok, keys) == keys.filter_map(|key: Seq<char>| field_diff(ok, key)),
    decreases keys.len(),
{
    if keys.len() > 0 {
        lemma_header_diffs(ok, keys.drop_last());
        lemma_values_differ(ok, keys.last());
    }
    assert(header_diffs(ok, keys) =~= keys.filter_map(|key: Seq<char>| field_diff(ok, key)));
}

/// Whether two locations sent different statuses, or one of them none.
pub open spec fn disagree_on_status(ok: Seq<LocationResultView>) -> bool {
    exists|i: int, j: int|
        0 <= i < ok.len() && 0 <= j < ok.len() && (#[trigger] ok[i]).status != (
        #[trigger] ok[j]).status
}

/// Locations disagree on the status exactly if one of them has another than the first.
proof fn lemma_disagree_on_status(ok: Seq<LocationResultView>)
    ensures
        statuses_differ(ok) <==> disagree_on_status(ok),
{
    if disagree_on_status(ok) {
        let (i, j) = choose|i: int, j: int|
            0 <= i < ok.len() && 0 <= j < ok.len() && (#[trigger] ok[i]).status != (
            #[trigger] ok[j]).status;
        if ok[i].status == ok[0].status {
            assert(ok[j].status != ok[0].status);
        }
    }
    if statuses_differ(ok) {
        let i = choose|i: int| 0 <= i < ok.len() && (#[trigger] ok[i]).status != ok[0].status;
        assert(ok[i].status != ok[0].status);
    }
}

/// Every header on which two locations disagree is reported, by name and once, and no
/// other is, behind the status where the locations disagree on that. Of fewer than two
/// locations nothing is reported.
pub proof fn law_differences(results: Seq<LocationResultView>)
    requires
        names_distinct(successes(results)),
    ensures
        ({
            let ok = successes(results);
            let d = differences(results);
            let first = if disagree_on_status(ok) {
                1int
            } else {
                0int
            };
            &&& ok.len() < 2 ==> d.len() == 0
            &&& ok.len() >= 2 ==> first <= d.len() && reports_headers(d.skip(first), ok)
            &&& ok.len() >= 2 && disagree_on_status(ok) ==> d[0].field == "status"@ && d[0].values
                == status_values(ok)
        }),
{
    let ok = successes(results);
    let d = differences(results);
    if ok.len() >= 2 {
        lemma_disagree_on_status(ok);
        let keys = order::text_set(all_names(ok));
        order::lemma_text_set(all_names(ok));
        lemma_header_diffs(ok, keys);
        let first = if disagree_on_status(ok) { 1int } else { 0int };
        assert(d.skip(first) =~= header_diffs(ok, keys));
        assert forall|key: Seq<char>| #[trigger] disagree(ok, key) implies keys.contains(key) by {
            let (i, j) = choose|i: int, j: int|
                0 <= i < ok.len() && 0 <= j < ok.len() && order::lookup(
                    (#[trigger] ok[i]).headers,
                    key,
                ) != order::lookup((#[trigger] ok[j]).headers, key);
            let n = if order::lookup(ok[i].headers, key) is Some { i } else { j };
            let value = order::lookup(ok[n].headers, key)->0;
            lemma_found(ok[n].headers, key, value);
            let k = choose|k: int|
                0 <= k < ok[n].headers.len() && ok[n].headers[k] == (key, value);
            assert(names_of(ok[n].headers)[k] == key);
            assert(names_of(ok[n].headers).contains(key));
            lemma_all_names(ok, key);
        }
        let tail = d.skip(first);
        assert(reports_of(tail, ok, keys));
        assert(reports_headers(tail, ok));
    }
}

/// The entry of a name is that of the last location with it.
proof fn lemma_last_by_name<X>(
    ok: Seq<LocationResultView>,
    f: spec_fn(LocationResultView) -> X,
    i: int,
)
    requires
        0 <= i < ok.len(),
        forall|j: int| i < j < ok.len() ==> (#[trigger] ok[j]).name != ok[i].name,
    ensures
        order::lookup(by_name(ok, f), ok[i].name) == Some(f(ok[i])),
    decreases ok.len(),
{
    let t = ok.drop_last();
    lemma_by_name_ordered(t, f);
    order::lemma_put(by_name(t, f), ok.last().name, f(ok.last()));
    if i < t.len() {
        assert(t[i] == ok[i]);
        assert forall|j: int| i < j < t.len() implies (#[trigger] t[j]).name != t[i].name by {
            assert(t[j] == ok[j]);
        }
        lemma_last_by_name(t, f, i);
        assert(ok[ok.len() - 1].name != ok[i].name);
    }
}

/// The entries stand in the order of the names.
proof fn lemma_by_name_ordered<X>(ok: Seq<LocationResultView>, f: spec_fn(LocationResultView) -> X)
    ensures
        order::keys_ordered(by_name(ok, f)),
    decreases ok.len(),
{
    if ok.len() > 0 {
        lemma_by_name_ordered(ok.drop_last(), f);
        order::lemma_put(by_name(ok.drop_last(), f), ok.last().name, f(ok.last()));
    }
}

/// Of a field the value that every location sent is reported, under its name: its
/// status in digits, or its value of the header; and none where it sent none. (Of
/// locations with the same name the last one counts.)
pub proof fn law_values(ok: Seq<LocationResultView>, key: Seq<char>, i: int)
    requires
        0 <= i < ok.len(),
        forall|j: int| i < j < ok.len() ==> (#[trigger] ok[j]).name != ok[i].name,
    ensures
        order::keys_ordered(status_values(ok)),
        order::keys_ordered(header_values(ok, key)),
        order::lookup(status_values(ok), ok[i].name) == Some(
            match ok[i].status {
                Some(code) => Some(text::number(code as nat)),
                None => None,
            },
        ),
        order::lookup(header_values(ok, key), ok[i].name) == Some(
            order::lookup(ok[i].headers, key),
        ),
{
    let f = |r: LocationResultView| status_value(r);
    let g = |r: LocationResultView| order::lookup(r.headers, key);
    lemma_statuses_by_name(ok);
    lemma_headers_by_name(ok, key);
    lemma_by_name_ordered(ok, f);
    lemma_by_name_ordered(ok, g);
    lemma_last_by_name(ok, f, i);
    lemma_last_by_name(ok, g, i);
}

} // verus!
