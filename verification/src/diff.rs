//! Structural comparison of an HTTP response fetched through many VPN exits.
//!
//! `vpn diff <url>` requests the same URL from every location and reports where
//! the responses differ — the CDN/geo-debugging workflow ("is the São Paulo
//! edge serving stale content? does Australia get a different redirect?") as a
//! single call. This module parses curl's header dump and computes which
//! headers vary across locations.
use vstd::prelude::*;

use crate::order;
use crate::order::TextMap;
use crate::probe::OUTPUT_MARKER;
use crate::text;

verus! {

/// Headers: lower-cased names with their values, in the order of the names.
pub type Headers = Seq<(Seq<char>, Seq<char>)>;

/// The status line and headers captured from one response.
#[derive(Debug, PartialEq, Eq)]
pub struct Head {
    /// HTTP status code, if parsed.
    pub status: Option<u16>,
    /// Response headers, keys lower-cased for stable comparison.
    pub headers: TextMap<String>,
}

/// A [`Head`] with its texts as sequences of characters.
#[verifier::ext_equal]
pub struct HeadView {
    /// HTTP status code, if parsed.
    pub status: Option<u16>,
    /// Response headers.
    pub headers: Headers,
}

impl DeepView for Head {
    type V = HeadView;

    open spec fn deep_view(&self) -> HeadView {
        HeadView { status: self.status, headers: self.headers.deep_view() }
    }
}

/// Whether a line of the header dump is a header line: neither blank nor a
/// status line.
pub open spec fn is_header_line(line: Seq<char>) -> bool {
    line.len() > 0 && text::strip_prefix(line, "HTTP/"@) is None
}

/// The headers after one more line; on a repeated header the last value wins.
pub open spec fn header_step(headers: Headers, raw: Seq<char>) -> Headers {
    let line = text::trim_end(raw);
    if !is_header_line(line) {
        headers
    } else {
        match text::split_once(line, ':') {
            Some((key, value)) => order::put(
                headers,
                text::lower(text::trim(key)),
                text::trim(value),
            ),
            None => headers,
        }
    }
}

/// The headers of the lines of a header dump.
pub open spec fn headers_of(lines: Seq<Seq<char>>) -> Headers
    decreases lines.len(),
{
    if lines.len() == 0 {
        Seq::empty()
    } else {
        header_step(headers_of(lines.drop_last()), lines.last())
    }
}

/// The response head in curl's output: a header dump, the output marker, and
/// the status code. Without a marker there is no status.
pub open spec fn head(stdout: Seq<char>) -> HeadView {
    let (dump, status) = match text::rsplit_text(stdout, OUTPUT_MARKER@) {
        Some((dump, status)) => (dump, status),
        None => (stdout, Seq::empty()),
    };
    HeadView {
        status: match text::parse_number(text::trim(status), 65535) {
            Some(code) => Some(code as u16),
            None => None,
        },
        headers: headers_of(text::lines(dump)),
    }
}

/// Take in one line of the header dump.
fn read_header(headers: &mut TextMap<String>, raw: &str)
    ensures
        final(headers).deep_view() == header_step(old(headers).deep_view(), raw@),
        order::keys_ordered(old(headers).deep_view()) ==> order::keys_ordered(
            final(headers).deep_view(),
        ),
{
    let line = text::text_trim_end(raw);
    if line.as_str().is_empty() {
        return;
    }
    if text::text_strip_prefix(&line, "HTTP/").is_some() {
        return;
    }
    match text::text_split_once(&line, ':') {
        Some((key, value)) => {
            let name = text::text_trim(&key);
            let lowered = text::text_lower(&name);
            let content = text::text_trim(&value);
            headers.insert(lowered, content);
        },
        None => {},
    }
}

/// Parse curl output of the form `<header dump>` + [`OUTPUT_MARKER`] +
/// `%{http_code}`. The header dump is what `curl -D -` writes: an HTTP status
/// line followed by `Key: Value` lines. Header keys are lower-cased; on a
/// repeated header (or a redirect chain) the last value wins.
pub fn parse_head(stdout: &str) -> (r: Head)
    ensures
        r.deep_view() == head(stdout@),
        order::keys_ordered(r.headers.deep_view()),
{
    let (dump, code) = match text::text_rsplit_text(stdout, OUTPUT_MARKER) {
        Some((dump, code)) => (dump, code),
        None => (stdout.to_owned(), String::new()),
    };
    let digits = text::text_trim(&code);
    let status: Option<u16> = match text::text_parse(&digits, 65535) {
        Some(c) => Some(c as u16),
        None => None,
    };
    let lines = text::text_lines(&dump);
    let ghost l = lines.deep_view();
    let mut headers: TextMap<String> = TextMap::new();
    let mut i: usize = 0;
    proof {
        assert(l.take(0) =~= Seq::<Seq<char>>::empty());
    }
    while i < lines.len()
        invariant
            l == lines.deep_view(),
            i <= lines@.len(),
            headers.deep_view() == headers_of(l.take(i as int)),
            order::keys_ordered(headers.deep_view()),
        decreases lines@.len() - i,
    {
        proof {
            assert(l.take(i + 1).drop_last() =~= l.take(i as int));
            assert(l.take(i + 1).last() == lines@[i as int]@);
        }
        read_header(&mut headers, &lines[i]);
        i = i + 1;
    }
    proof {
        assert(l.take(l.len() as int) =~= l);
    }
    Head { status, headers }
}

/// One location's fetch result, ready to compare and serialize.
#[derive(Debug, PartialEq, Eq)]
pub struct LocationResult {
    /// Tunnel name.
    pub name: String,
    /// Whether the fetch succeeded.
    pub ok: bool,
    /// HTTP status, when the fetch succeeded.
    pub status: Option<u16>,
    /// Response headers, when the fetch succeeded.
    pub headers: TextMap<String>,
    /// Exit IP the request appeared to come from (proof of egress), if known.
    pub exit_ip: Option<String>,
    /// Failure message, when the fetch failed.
    pub error: Option<String>,
}

/// A [`LocationResult`] with its texts as sequences of characters.
#[verifier::ext_equal]
pub struct LocationResultView {
    /// Tunnel name.
    pub name: Seq<char>,
    /// Whether the fetch succeeded.
    pub ok: bool,
    /// HTTP status.
    pub status: Option<u16>,
    /// Response headers.
    pub headers: Headers,
    /// Exit IP.
    pub exit_ip: Option<Seq<char>>,
    /// Failure message.
    pub error: Option<Seq<char>>,
}

impl DeepView for LocationResult {
    type V = LocationResultView;

    open spec fn deep_view(&self) -> LocationResultView {
        LocationResultView {
            name: self.name@,
            ok: self.ok,
            status: self.status,
            headers: self.headers.deep_view(),
            exit_ip: self.exit_ip.deep_view(),
            error: self.error.deep_view(),
        }
    }
}

/// One header (or the status) whose value is not identical across all
/// successful locations.
#[derive(Debug, PartialEq, Eq)]
pub struct FieldDiff {
    /// Field name (`status`, or a lower-cased header name).
    pub field: String,
    /// Per-location value; `None` where that location did not send the field.
    pub values: TextMap<Option<String>>,
}

/// The values of a field: location names with what each sent, in the order of
/// the names.
pub type FieldValues = Seq<(Seq<char>, Option<Seq<char>>)>;

/// A [`FieldDiff`] with its texts as sequences of characters.
#[verifier::ext_equal]
pub struct FieldDiffView {
    /// Field name.
    pub field: Seq<char>,
    /// Per-location value.
    pub values: FieldValues,
}

impl DeepView for FieldDiff {
    type V = FieldDiffView;

    open spec fn deep_view(&self) -> FieldDiffView {
        FieldDiffView { field: self.field@, values: self.values.deep_view() }
    }
}

/// The locations whose fetch succeeded.
pub open spec fn successes(results: Seq<LocationResultView>) -> Seq<LocationResultView>
    decreases results.len(),
{
    if results.len() == 0 {
        Seq::empty()
    } else if results.last().ok {
        successes(results.drop_last()).push(results.last())
    } else {
        successes(results.drop_last())
    }
}

/// The status that a location sent, as text.
pub open spec fn status_value(r: LocationResultView) -> Option<Seq<char>> {
    match r.status {
        Some(code) => Some(text::number(code as nat)),
        None => None,
    }
}

/// The statuses of the locations.
pub open spec fn status_values(ok: Seq<LocationResultView>) -> FieldValues
    decreases ok.len(),
{
    if ok.len() == 0 {
        Seq::empty()
    } else {
        order::put(status_values(ok.drop_last()), ok.last().name, status_value(ok.last()))
    }
}

/// What the locations sent for a header.
pub open spec fn header_values(ok: Seq<LocationResultView>, key: Seq<char>) -> FieldValues
    decreases ok.len(),
{
    if ok.len() == 0 {
        Seq::empty()
    } else {
        order::put(
            header_values(ok.drop_last(), key),
            ok.last().name,
            order::lookup(ok.last().headers, key),
        )
    }
}

/// Whether the locations do not all have the same status.
pub open spec fn statuses_differ(ok: Seq<LocationResultView>) -> bool {
    exists|i: int| 0 <= i < ok.len() && (#[trigger] ok[i]).status != ok[0].status
}

/// Whether the values of a field are not all the same.
pub open spec fn values_differ(values: FieldValues) -> bool {
    exists|i: int| 0 <= i < values.len() && (#[trigger] values[i]).1 != values[0].1
}

/// The header names of one location.
pub open spec fn names_of(headers: Headers) -> Seq<Seq<char>> {
    headers.map_values(|e: (Seq<char>, Seq<char>)| e.0)
}

/// The header names of all locations.
pub open spec fn all_names(ok: Seq<LocationResultView>) -> Seq<Seq<char>>
    decreases ok.len(),
{
    if ok.len() == 0 {
        Seq::empty()
    } else {
        all_names(ok.drop_last()) + names_of(ok.last().headers)
    }
}

/// The headers among `keys` that differ.
pub open spec fn header_diffs(ok: Seq<LocationResultView>, keys: Seq<Seq<char>>) -> Seq<
    FieldDiffView,
>
    decreases keys.len(),
{
    if keys.len() == 0 {
        Seq::empty()
    } else {
        let before = header_diffs(ok, keys.drop_last());
        let values = header_values(ok, keys.last());
        if values_differ(values) {
            before.push(FieldDiffView { field: keys.last(), values })
        } else {
            before
        }
    }
}

/// The status, where it differs.
pub open spec fn status_diff(ok: Seq<LocationResultView>) -> Seq<FieldDiffView> {
    if statuses_differ(ok) {
        seq![FieldDiffView { field: "status"@, values: status_values(ok) }]
    } else {
        Seq::empty()
    }
}

/// The fields that differ across the successful locations: the status first,
/// then the headers by name.
pub open spec fn differences(results: Seq<LocationResultView>) -> Seq<FieldDiffView> {
    let ok = successes(results);
    if ok.len() < 2 {
        Seq::empty()
    } else {
        status_diff(ok) + header_diffs(ok, order::text_set(all_names(ok)))
    }
}

/// The indices of the locations whose fetch succeeded.
fn find_successes(results: &Vec<LocationResult>) -> (r: Vec<usize>)
    ensures
        r@.len() == successes(results.deep_view()).len(),
        forall|i: int|
            0 <= i < r@.len() ==> #[trigger] r@[i] < results@.len()
                && results@[r@[i] as int].deep_view() == successes(results.deep_view())[i],
{
    let ghost v = results.deep_view();
    let mut out: Vec<usize> = Vec::new();
    let mut i: usize = 0;
    proof {
        assert(v.take(0) =~= Seq::<LocationResultView>::empty());
    }
    while i < results.len()
        invariant
            v == results.deep_view(),
            i <= results@.len(),
            out@.len() == successes(v.take(i as int)).len(),
            forall|j: int|
                0 <= j < out@.len() ==> #[trigger] out@[j] < results@.len()
                    && results@[out@[j] as int].deep_view() == successes(v.take(i as int))[j],
        decreases results@.len() - i,
    {
        proof {
            assert(v.take(i + 1).drop_last() =~= v.take(i as int));
            assert(v.take(i + 1).last() == results@[i as int].deep_view());
        }
        if results[i].ok {
            out.push(i);
        }
        i = i + 1;
    }
    proof {
        assert(v.take(v.len() as int) =~= v);
    }
    out
}

/// Whether two optional texts are the same.
fn same_option(a: &Option<String>, b: &Option<String>) -> (r: bool)
    ensures
        r == (a.deep_view() == b.deep_view()),
{
    match (a, b) {
        (Some(x), Some(y)) => text::same(x, y),
        (None, None) => true,
        _ => false,
    }
}

/// Whether the values of a field are not all the same.
fn find_difference(values: &TextMap<Option<String>>) -> (r: bool)
    ensures
        r == values_differ(values.deep_view()),
{
    let ghost v = values.deep_view();
    let entries = values.entries();
    let mut i: usize = 0;
    while i < entries.len()
        invariant
            v == values.deep_view(),
            v == entries.deep_view(),
            i <= entries@.len(),
            forall|j: int| 0 <= j < i ==> (#[trigger] v[j]).1 == v[0].1,
        decreases entries@.len() - i,
    {
        proof {
            assert(v[i as int] == entries@[i as int].deep_view());
            assert(v[0] == entries@[0].deep_view());
        }
        if !same_option(&entries[i].1, &entries[0].1) {
            proof {
                assert(v[i as int].1 != v[0].1);
            }
            return true;
        }
        i = i + 1;
    }
    false
}

/// The locations that `picked` points at.
pub open spec fn picks(
    results: Seq<LocationResult>,
    picked: Seq<usize>,
    ok: Seq<LocationResultView>,
) -> bool {
    &&& picked.len() == ok.len()
    &&& forall|i: int|
        0 <= i < picked.len() ==> #[trigger] picked[i] < results.len()
            && results[picked[i] as int].deep_view() == ok[i]
}

/// The statuses of the locations.
fn collect_statuses(
    results: &Vec<LocationResult>,
    picked: &Vec<usize>,
    Ghost(ok): Ghost<Seq<LocationResultView>>,
) -> (r: TextMap<Option<String>>)
    requires
        picks(results@, picked@, ok),
    ensures
        r.deep_view() == status_values(ok),
        order::keys_ordered(r.deep_view()),
{
    let mut values: TextMap<Option<String>> = TextMap::new();
    let mut i: usize = 0;
    proof {
        assert(ok.take(0) =~= Seq::<LocationResultView>::empty());
    }
    while i < picked.len()
        invariant
            picks(results@, picked@, ok),
            i <= picked@.len(),
            values.deep_view() == status_values(ok.take(i as int)),
            order::keys_ordered(values.deep_view()),
        decreases picked@.len() - i,
    {
        proof {
            assert(ok.take(i + 1).drop_last() =~= ok.take(i as int));
            assert(picked@[i as int] < results@.len());
        }
        let r = &results[picked[i]];
        let value = match r.status {
            Some(code) => Some(text::text_number(code as u64)),
            None => None,
        };
        values.insert(r.name.clone(), value);
        i = i + 1;
    }
    proof {
        assert(ok.take(ok.len() as int) =~= ok);
    }
    values
}

/// What the locations sent for a header.
fn collect_header(
    results: &Vec<LocationResult>,
    picked: &Vec<usize>,
    key: &str,
    Ghost(ok): Ghost<Seq<LocationResultView>>,
) -> (r: TextMap<Option<String>>)
    requires
        picks(results@, picked@, ok),
    ensures
        r.deep_view() == header_values(ok, key@),
        order::keys_ordered(r.deep_view()),
{
    let mut values: TextMap<Option<String>> = TextMap::new();
    let mut i: usize = 0;
    proof {
        assert(ok.take(0) =~= Seq::<LocationResultView>::empty());
    }
    while i < picked.len()
        invariant
            picks(results@, picked@, ok),
            i <= picked@.len(),
            values.deep_view() == header_values(ok.take(i as int), key@),
            order::keys_ordered(values.deep_view()),
        decreases picked@.len() - i,
    {
        proof {
            assert(ok.take(i + 1).drop_last() =~= ok.take(i as int));
            assert(picked@[i as int] < results@.len());
        }
        let r = &results[picked[i]];
        let value = match r.headers.get(key) {
            Some(v) => Some(v.clone()),
            None => None,
        };
        values.insert(r.name.clone(), value);
        i = i + 1;
    }
    proof {
        assert(ok.take(ok.len() as int) =~= ok);
    }
    values
}

/// The set after adding more texts.
proof fn lemma_text_set_push(a: Seq<Seq<char>>, x: Seq<char>)
    ensures
        order::text_set(a.push(x)) == order::with_text(order::text_set(a), x),
{
    assert(a.push(x).drop_last() =~= a);
}

/// The header names of all locations, in order, each once.
fn collect_names(
    results: &Vec<LocationResult>,
    picked: &Vec<usize>,
    Ghost(ok): Ghost<Seq<LocationResultView>>,
) -> (r: Vec<String>)
    requires
        picks(results@, picked@, ok),
    ensures
        r.deep_view() == order::text_set(all_names(ok)),
{
    let mut names: Vec<String> = Vec::new();
    let mut i: usize = 0;
    proof {
        assert(ok.take(0) =~= Seq::<LocationResultView>::empty());
        assert(names.deep_view() =~= Seq::<Seq<char>>::empty());
    }
    while i < picked.len()
        invariant
            picks(results@, picked@, ok),
            i <= picked@.len(),
            names.deep_view() == order::text_set(all_names(ok.take(i as int))),
        decreases picked@.len() - i,
    {
        let ghost so_far = all_names(ok.take(i as int));
        proof {
            assert(ok.take(i + 1).drop_last() =~= ok.take(i as int));
            assert(picked@[i as int] < results@.len());
        }
        let r = &results[picked[i]];
        let ghost own = names_of(r.headers.deep_view());
        let entries = r.headers.entries();
        let mut k: usize = 0;
        proof {
            assert(so_far + own.take(0) =~= so_far);
        }
        while k < entries.len()
            invariant
                own == names_of(entries.deep_view()),
                k <= entries@.len(),
                names.deep_view() == order::text_set(so_far + own.take(k as int)),
            decreases entries@.len() - k,
        {
            let name = entries[k].0.clone();
            proof {
                assert(own[k as int] == name@);
                assert(so_far + own.take(k + 1) =~= (so_far + own.take(k as int)).push(name@));
                lemma_text_set_push(so_far + own.take(k as int), name@);
            }
            order::add_text(&mut names, name);
            k = k + 1;
        }
        proof {
            assert(own.take(own.len() as int) =~= own);
        }
        i = i + 1;
    }
    proof {
        assert(ok.take(ok.len() as int) =~= ok);
    }
    names
}

/// Whether the locations do not all have the same status.
fn find_status_difference(
    results: &Vec<LocationResult>,
    picked: &Vec<usize>,
    Ghost(ok): Ghost<Seq<LocationResultView>>,
) -> (r: bool)
    requires
        picks(results@, picked@, ok),
    ensures
        r == statuses_differ(ok),
{
    let mut i: usize = 0;
    while i < picked.len()
        invariant
            picks(results@, picked@, ok),
            i <= picked@.len(),
            forall|j: int| 0 <= j < i ==> (#[trigger] ok[j]).status == ok[0].status,
        decreases picked@.len() - i,
    {
        proof {
            assert(picked@[i as int] < results@.len());
            assert(picked@[0] < results@.len());
        }
        let a = results[picked[i]].status;
        let b = results[picked[0]].status;
        let same = match (a, b) {
            (Some(x), Some(y)) => x == y,
            (None, None) => true,
            _ => false,
        };
        if !same {
            proof {
                assert(ok[i as int].status != ok[0].status);
            }
            return true;
        }
        i = i + 1;
    }
    false
}

/// Compute the fields (status + headers) that differ across the successful
/// locations. A field is included iff at least two locations disagree on its
/// value (treating "absent" as its own value). Locations that failed are
/// ignored. Returns an empty list when every location agreed.
pub fn diff_fields(results: &Vec<LocationResult>) -> (r: Vec<FieldDiff>)
    ensures
        r.deep_view() == differences(results.deep_view()),
        forall|i: int|
            0 <= i < r@.len() ==> order::keys_ordered((#[trigger] r@[i]).values.deep_view()),
{
    let picked = find_successes(results);
    let ghost ok = successes(results.deep_view());
    let mut diffs: Vec<FieldDiff> = Vec::new();
    proof {
        assert(diffs.deep_view() =~= Seq::<FieldDiffView>::empty());
    }
    if picked.len() < 2 {
        return diffs;
    }
    if find_status_difference(results, &picked, Ghost(ok)) {
        let values = collect_statuses(results, &picked, Ghost(ok));
        diffs.push(FieldDiff { field: "status".to_owned(), values });
    }
    proof {
        assert(diffs.deep_view() =~= status_diff(ok));
    }
    let keys = collect_names(results, &picked, Ghost(ok));
    let ghost k = keys.deep_view();
    let mut i: usize = 0;
    proof {
        assert(k.take(0) =~= Seq::<Seq<char>>::empty());
        assert(status_diff(ok) + header_diffs(ok, k.take(0)) =~= status_diff(ok));
    }
    while i < keys.len()
        invariant
            picks(results@, picked@, ok),
            k == keys.deep_view(),
            i <= keys@.len(),
            diffs.deep_view() == status_diff(ok) + header_diffs(ok, k.take(i as int)),
            forall|j: int|
                0 <= j < diffs@.len() ==> order::keys_ordered(
                    (#[trigger] diffs@[j]).values.deep_view(),
                ),
        decreases keys@.len() - i,
    {
        let ghost before = diffs.deep_view();
        proof {
            assert(k.take(i + 1).drop_last() =~= k.take(i as int));
            assert(k.take(i + 1).last() == keys@[i as int]@);
        }
        let values = collect_header(results, &picked, &keys[i], Ghost(ok));
        if find_difference(&values) {
            let d = FieldDiff { field: keys[i].clone(), values };
            let ghost v = d.deep_view();
            diffs.push(d);
            proof {
                assert(diffs.deep_view() =~= before.push(v));
                assert(before.push(v) =~= status_diff(ok) + header_diffs(
                    ok,
                    k.take(i as int),
                ).push(v));
            }
        }
        i = i + 1;
    }
    proof {
        assert(k.take(k.len() as int) =~= k);
    }
    diffs
}

// ---------------------------------------------------------------------------
// Laws
// ---------------------------------------------------------------------------

/// Whether no two locations share a name.
pub open spec fn names_distinct(ok: Seq<LocationResultView>) -> bool {
    forall|i: int, j: int|
        0 <= i < j < ok.len() ==> (#[trigger] ok[i]).name != (#[trigger] ok[j]).name
}

/// Where no two locations share a name, the values of a header are what each
/// location sent.
proof fn lemma_header_values(ok: Seq<LocationResultView>, key: Seq<char>)
    requires
        names_distinct(ok),
    ensures
        order::keys_ordered(header_values(ok, key)),
        forall|i: int|
            0 <= i < ok.len() ==> order::lookup(header_values(ok, key), (#[trigger] ok[i]).name)
                == Some(order::lookup(ok[i].headers, key)),
        forall|j: int|
            0 <= j < header_values(ok, key).len() ==> exists|i: int|
                0 <= i < ok.len() && #[trigger] header_values(ok, key)[j] == (
                    (#[trigger] ok[i]).name,
                    order::lookup(ok[i].headers, key),
                ),
        header_values(ok, key).len() == 0 <==> ok.len() == 0,
    decreases ok.len(),
{
    if ok.len() > 0 {
        let t = ok.drop_last();
        assert forall|i: int, j: int| 0 <= i < j < t.len() implies (#[trigger] t[i]).name != (
        #[trigger] t[j]).name by {
            assert(t[i] == ok[i] && t[j] == ok[j]);
        }
        lemma_header_values(t, key);
        let before = header_values(t, key);
        let value = order::lookup(ok.last().headers, key);
        order::lemma_put(before, ok.last().name, value);
        let after = header_values(ok, key);
        assert forall|i: int| 0 <= i < ok.len() implies order::lookup(after, (#[trigger] ok[i]).name)
            == Some(order::lookup(ok[i].headers, key)) by {
            if i < t.len() {
                assert(t[i] == ok[i]);
                assert(ok[i].name != ok[ok.len() - 1].name);
            }
        }
        assert forall|j: int| 0 <= j < after.len() implies exists|i: int|
            0 <= i < ok.len() && #[trigger] after[j] == (
                (#[trigger] ok[i]).name,
                order::lookup(ok[i].headers, key),
            ) by {
            if after[j] == (ok.last().name, value) {
                assert(after[j] == (ok[ok.len() - 1].name, value));
            } else {
                assert(before.contains(after[j]));
                let m = choose|m: int| 0 <= m < before.len() && before[m] == after[j];
                let i = choose|i: int|
                    0 <= i < t.len() && #[trigger] before[m] == (
                        (#[trigger] t[i]).name,
                        order::lookup(t[i].headers, key),
                    );
                assert(t[i] == ok[i]);
            }
        }
        if after.len() == 0 {
            assert(order::lookup(after, ok.last().name) is None);
        }
    }
}

/// A value that lookup finds is one of the entries.
proof fn lemma_lookup_entry<X>(m: Seq<(Seq<char>, X)>, key: Seq<char>)
    ensures
        order::lookup(m, key) matches Some(v) ==> exists|i: int|
            0 <= i < m.len() && #[trigger] m[i] == (key, v),
    decreases m.len(),
{
    if m.len() > 0 {
        if m.last().0 == key {
            assert(m[m.len() - 1] == (key, m.last().1));
        } else {
            lemma_lookup_entry(m.drop_last(), key);
            if let Some(v) = order::lookup(m.drop_last(), key) {
                let i = choose|i: int| 0 <= i < m.drop_last().len() && #[trigger] m.drop_last()[i] == (key, v);
                assert(m[i] == (key, v));
            }
        }
    }
}

/// Where no two locations share a name, a header differs exactly if two of the
/// locations disagree on it, a header that was not sent being a value of its
/// own.
pub proof fn law_header_differs(ok: Seq<LocationResultView>, key: Seq<char>)
    requires
        names_distinct(ok),
    ensures
        values_differ(header_values(ok, key)) <==> exists|i: int, j: int|
            0 <= i < ok.len() && 0 <= j < ok.len() && order::lookup(
                (#[trigger] ok[i]).headers,
                key,
            ) != order::lookup((#[trigger] ok[j]).headers, key),
{
    lemma_header_values(ok, key);
    let values = header_values(ok, key);
    if values_differ(values) {
        let a = choose|a: int| 0 <= a < values.len() && (#[trigger] values[a]).1 != values[0].1;
        let i = choose|i: int|
            0 <= i < ok.len() && #[trigger] values[a] == (
                (#[trigger] ok[i]).name,
                order::lookup(ok[i].headers, key),
            );
        let j = choose|j: int|
            0 <= j < ok.len() && #[trigger] values[0] == (
                (#[trigger] ok[j]).name,
                order::lookup(ok[j].headers, key),
            );
        assert(order::lookup(ok[i].headers, key) != order::lookup(ok[j].headers, key));
    }
    if exists|i: int, j: int|
        0 <= i < ok.len() && 0 <= j < ok.len() && order::lookup((#[trigger] ok[i]).headers, key)
            != order::lookup((#[trigger] ok[j]).headers, key) {
        let (i, j) = choose|i: int, j: int|
            0 <= i < ok.len() && 0 <= j < ok.len() && order::lookup(
                (#[trigger] ok[i]).headers,
                key,
            ) != order::lookup((#[trigger] ok[j]).headers, key);
        lemma_lookup_entry(values, ok[i].name);
        lemma_lookup_entry(values, ok[j].name);
        let x = order::lookup(ok[i].headers, key);
        let y = order::lookup(ok[j].headers, key);
        let a = choose|a: int| 0 <= a < values.len() && #[trigger] values[a] == (ok[i].name, x);
        let b = choose|b: int| 0 <= b < values.len() && #[trigger] values[b] == (ok[j].name, y);
        assert(values[a].1 != values[b].1);
        if values[a].1 == values[0].1 {
            assert(values[b].1 != values[0].1);
        }
    }
}

/// A field of a response is reported exactly if it differs: a header that
/// occurs anywhere, and the status; and nothing is reported of fewer than two
/// successful locations.
pub proof fn law_reported_iff_different(results: Seq<LocationResultView>, d: FieldDiffView)
    ensures
        successes(results).len() < 2 ==> differences(results).len() == 0,
        successes(results).len() >= 2 ==> (differences(results).contains(d) <==> {
            ||| statuses_differ(successes(results)) && d == (FieldDiffView {
                field: "status"@,
                values: status_values(successes(results)),
            })
            ||| all_names(successes(results)).contains(d.field) && d.values == header_values(
                successes(results),
                d.field,
            ) && values_differ(d.values)
        }),
{
    let ok = successes(results);
    if ok.len() >= 2 {
        let keys = order::text_set(all_names(ok));
        order::lemma_text_set(all_names(ok));
        lemma_header_diffs(ok, keys, d);
        let a = status_diff(ok);
        let b = header_diffs(ok, keys);
        let all = differences(results);
        assert(all == a + b);
        assert(keys.contains(d.field) <==> all_names(ok).contains(d.field));
        if all.contains(d) {
            let i = choose|i: int| 0 <= i < all.len() && all[i] == d;
            if i < a.len() {
                assert(a[i] == d);
            } else {
                assert(b[i - a.len()] == d);
                assert(b.contains(d));
            }
        }
        if a.contains(d) {
            let i = choose|i: int| 0 <= i < a.len() && a[i] == d;
            assert(all[i] == d);
        }
        if statuses_differ(ok) && d == (FieldDiffView { field: "status"@, values: status_values(ok) }) {
            assert(a[0] == d);
            assert(all[0] == d);
        }
        if b.contains(d) {
            let i = choose|i: int| 0 <= i < b.len() && b[i] == d;
            assert(all[i + a.len()] == d);
        }
    }
}

/// Which headers are reported.
proof fn lemma_header_diffs(ok: Seq<LocationResultView>, keys: Seq<Seq<char>>, d: FieldDiffView)
    ensures
        header_diffs(ok, keys).contains(d) <==> keys.contains(d.field) && d.values == header_values(
            ok,
            d.field,
        ) && values_differ(d.values),
    decreases keys.len(),
{
    if keys.len() > 0 {
        let t = keys.drop_last();
        lemma_header_diffs(ok, t, d);
        let before = header_diffs(ok, t);
        let values = header_values(ok, keys.last());
        let after = header_diffs(ok, keys);
        if t.contains(d.field) {
            let i = choose|i: int| 0 <= i < t.len() && t[i] == d.field;
            assert(keys[i] == d.field);
        }
        if keys.contains(d.field) && keys.last() != d.field {
            let i = choose|i: int| 0 <= i < keys.len() && keys[i] == d.field;
            assert(t[i] == d.field);
        }
        assert(keys[keys.len() - 1] == keys.last());
        if before.contains(d) {
            let i = choose|i: int| 0 <= i < before.len() && before[i] == d;
            assert(after[i] == d);
        }
        if after.contains(d) {
            let i = choose|i: int| 0 <= i < after.len() && after[i] == d;
            if i < before.len() {
                assert(before[i] == d);
            }
        }
        if values_differ(values) && d == (FieldDiffView { field: keys.last(), values }) {
            assert(after[before.len() as int] == d);
        }
    }
}

} // verus!
