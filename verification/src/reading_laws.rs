//! What is read of the output of programs: of `wg show all dump`, of a header dump,
//! and of `networksetup`; and how texts are ordered.
use vstd::prelude::*;

use crate::config_laws;
use crate::diff::{head, header_step, headers_of, Headers};
use crate::dns::{servers_in, service_name, services, without};
use crate::order::{
    keys_ordered, lemma_put, lemma_text_set, lookup, strictly_ordered, text_before,
};
use crate::probe_laws;
use crate::status::{all_dump, cleaned, comma_list, counter, dump_row, dump_rows, normalized};
use crate::status::{DumpPeerView, PeerView};
use crate::text;
use crate::text_laws;

verus! {

// ---------------------------------------------------------------------------
// Order
// ---------------------------------------------------------------------------

/// Whether the texts are the same up to a place, where the first one ends or has the
/// smaller character.
pub open spec fn smaller_at(a: Seq<char>, b: Seq<char>, i: int) -> bool {
    &&& 0 <= i <= a.len() && i < b.len()
    &&& forall|j: int| 0 <= j < i ==> #[trigger] a[j] == b[j]
    &&& i == a.len() || a[i] < b[i]
}

/// Texts are ordered by the first character in which they differ; a text stands
/// before every longer one that begins with it.
pub proof fn law_text_before(a: Seq<char>, b: Seq<char>)
    ensures
        text_before(a, b) <==> exists|i: int| #[trigger] smaller_at(a, b, i),
    decreases b.len(),
{
    if b.len() > 0 {
        if a.len() == 0 || a[0] < b[0] {
            assert(smaller_at(a, b, 0));
        } else if a[0] == b[0] {
            let (x, y) = (a.skip(1), b.skip(1));
            law_text_before(x, y);
            if text_before(x, y) {
                let i = choose|i: int| #[trigger] smaller_at(x, y, i);
                assert forall|j: int| 0 <= j < i + 1 implies #[trigger] a[j] == b[j] by {
                    if j > 0 {
                        assert(x[j - 1] == y[j - 1]);
                    }
                }
                assert(smaller_at(a, b, i + 1));
            }
            if exists|i: int| #[trigger] smaller_at(a, b, i) {
                let i = choose|i: int| #[trigger] smaller_at(a, b, i);
                assert(i > 0);
                assert forall|j: int| 0 <= j < i - 1 implies #[trigger] x[j] == y[j] by {
                    assert(a[j + 1] == b[j + 1]);
                }
                assert(smaller_at(x, y, i - 1));
            }
        } else {
            assert forall|i: int| !#[trigger] smaller_at(a, b, i) by {
                if smaller_at(a, b, i) && i > 0 {
                    assert(a[0] == b[0]);
                }
            }
        }
    }
}

/// In a table a key has the value that it stands there with, and none exactly where
/// it does not stand there.
pub proof fn law_lookup<X>(m: Seq<(Seq<char>, X)>, key: Seq<char>, value: X)
    requires
        keys_ordered(m),
    ensures
        lookup(m, key) == Some(value) <==> m.contains((key, value)),
        lookup(m, key) is None <==> forall|i: int| 0 <= i < m.len() ==> (#[trigger] m[i]).0 != key,
    decreases m.len(),
{
    if m.len() > 0 {
        let t = m.drop_last();
        assert forall|i: int, j: int| 0 <= i < j < t.len() implies text_before(
            #[trigger] t[i].0,
            #[trigger] t[j].0,
        ) by {
            assert(t[i] == m[i] && t[j] == m[j]);
        }
        law_lookup(t, key, value);
        assert(m[m.len() - 1] == m.last());
        if m.contains((key, value)) {
            let i = choose|i: int| 0 <= i < m.len() && m[i] == (key, value);
            if i < t.len() {
                assert(t[i] == m[i]);
                assert(text_before(m[i].0, m[m.len() - 1].0));
                crate::order::lemma_text_order(key, key, key);
            }
        }
        if t.contains((key, value)) {
            let i = choose|i: int| 0 <= i < t.len() && t[i] == (key, value);
            assert(m[i] == t[i]);
        }
        if lookup(m, key) is None {
            assert forall|i: int| 0 <= i < m.len() implies (#[trigger] m[i]).0 != key by {
                if i < t.len() {
                    assert(t[i] == m[i]);
                }
            }
        }
        if forall|i: int| 0 <= i < m.len() ==> (#[trigger] m[i]).0 != key {
            assert forall|i: int| 0 <= i < t.len() implies (#[trigger] t[i]).0 != key by {
                assert(m[i] == t[i]);
            }
        }
    }
}

// ---------------------------------------------------------------------------
// The dump of live peers
// ---------------------------------------------------------------------------

/// A counter is read back from how it is written, over the whole range; what is no
/// number counts as zero.
pub proof fn law_counter(n: u64, field: Seq<char>)
    ensures
        counter(text::number(n as nat)) == n,
        text::parse_number(field, u64::MAX as nat) is None ==> counter(field) == 0,
{
    text_laws::law_read_number(n as nat, u64::MAX as nat);
}

/// A list is cut at its commas, and its items are trimmed.
pub proof fn law_comma_list(a: Seq<char>, b: Seq<char>)
    requires
        !a.contains(','),
    ensures
        comma_list(a) == seq![text::trim(a)],
        comma_list(a + seq![','] + b) == seq![text::trim(a)] + comma_list(b),
{
    text_laws::law_split(a, ',', b);
    assert(comma_list(a) =~= seq![text::trim(a)]);
    assert(comma_list(a + seq![','] + b) =~= seq![text::trim(a)] + comma_list(b));
}

/// A line of nine fields between tabs reports a peer: the interface first, the key
/// behind it, and in the fourth to eighth field the endpoint, the allowed IPs, the
/// handshake, and the bytes received and sent. A line with another number of fields
/// reports none.
pub proof fn law_dump_row(f: Seq<Seq<char>>)
    requires
        f.len() > 0,
        forall|i: int| 0 <= i < f.len() ==> !(#[trigger] f[i]).contains('\t'),
    ensures
        f.len() != 9 ==> dump_row(text::join(f, seq!['\t'])) is None,
        f.len() == 9 ==> dump_row(text::join(f, seq!['\t'])) == Some(
            DumpPeerView {
                interface: f[0],
                peer: PeerView {
                    public_key: f[1],
                    endpoint: if f[3] == "(none)"@ {
                        None
                    } else {
                        Some(f[3])
                    },
                    latest_handshake: if counter(f[5]) == 0 {
                        None
                    } else {
                        Some(counter(f[5]))
                    },
                    transfer_rx: counter(f[6]),
                    transfer_tx: counter(f[7]),
                    allowed_ips: if f[4] == "(none)"@ {
                        Seq::empty()
                    } else {
                        comma_list(f[4])
                    },
                },
            },
        ),
{
    probe_laws::lemma_pieces(f, '\t');
}

/// A dump reports the peers of its lines, all of them, in order.
pub proof fn law_dump(dump: Seq<char>)
    ensures
        all_dump(dump) == text::lines(dump).filter_map(|line: Seq<char>| dump_row(line)),
{
    lemma_dump_rows(text::lines(dump));
}

proof fn lemma_dump_rows(lines: Seq<Seq<char>>)
    ensures
        dump_rows(lines) == lines.filter_map(|line: Seq<char>| dump_row(line)),
    decreases lines.len(),
{
    if lines.len() > 0 {
        lemma_dump_rows(lines.drop_last());
    }
    assert(dump_rows(lines) =~= lines.filter_map(|line: Seq<char>| dump_row(line)));
}

/// The normal form of a list of allowed IPs holds every item of the list, trimmed and
/// in lower case, and nothing else, in order and once; but no empty item.
pub proof fn law_normal_form(items: Seq<Seq<char>>, e: Seq<char>)
    ensures
        strictly_ordered(normalized(items)),
        normalized(items).contains(e) <==> e.len() > 0 && exists|i: int|
            0 <= i < items.len() && e == text::lower(text::trim(#[trigger] items[i])),
{
    lemma_text_set(cleaned(items));
    lemma_cleaned(items, e);
}

proof fn lemma_cleaned(items: Seq<Seq<char>>, e: Seq<char>)
    ensures
        cleaned(items).contains(e) <==> e.len() > 0 && exists|i: int|
            0 <= i < items.len() && e == text::lower(text::trim(#[trigger] items[i])),
    decreases items.len(),
{
    if items.len() > 0 {
        let t = items.drop_last();
        lemma_cleaned(t, e);
        let before = cleaned(t);
        let after = cleaned(items);
        let entry = text::lower(text::trim(items.last()));
        assert(items[items.len() - 1] == items.last());
        if exists|i: int| 0 <= i < t.len() && e == text::lower(text::trim(#[trigger] t[i])) {
            let i = choose|i: int|
                0 <= i < t.len() && e == text::lower(text::trim(#[trigger] t[i]));
            assert(items[i] == t[i]);
        }
        if exists|i: int|
            0 <= i < items.len() && e == text::lower(text::trim(#[trigger] items[i])) && e
                != entry {
            let i = choose|i: int|
                0 <= i < items.len() && e == text::lower(text::trim(#[trigger] items[i])) && e
                    != entry;
            assert(t[i] == items[i]);
        }
        if before.contains(e) {
            let k = choose|k: int| 0 <= k < before.len() && before[k] == e;
            assert(after[k] == e);
        }
        if entry.len() > 0 {
            assert(after[before.len() as int] == entry);
        }
        if after.contains(e) && e != entry {
            let k = choose|k: int| 0 <= k < after.len() && after[k] == e;
            assert(before[k] == e);
        }
    }
}

// ---------------------------------------------------------------------------
// The head of a response
// ---------------------------------------------------------------------------

/// Behind a header dump stand the output marker and the status code; every code that
/// the protocol has room for is read back as it is written, and the headers are those
/// of the dump.
pub proof fn law_head(dump: Seq<char>, code: nat)
    ensures
        ({
            let out = head(dump + "<<<VPNPROBE>>>"@ + text::number(code));
            &&& code <= 65535 ==> out.status == Some(code as u16)
            &&& code > 65535 ==> out.status is None
            &&& out.headers == headers_of(text::lines(dump))
        }),
{
    let p = "<<<VPNPROBE>>>"@;
    reveal_strlit("<<<VPNPROBE>>>");
    let d = text::number(code);
    let s = dump + p + d;
    text::lemma_number(code);
    text_laws::law_rsplit_text(s, p);
    assert(text::rsplit_text(s, p) is Some);
    let (a, b) = text::rsplit_text(s, p)->0;
    assert(dump.len() <= a.len());
    if a.len() > dump.len() {
        // The last character of the marker would stand among the digits.
        let k = a.len() + p.len() - 1;
        assert((a + p + b)[k] == p[p.len() - 1]);
        assert(s[k] == d[k - dump.len() - p.len()]);
        assert(text::is_digit(d[k - dump.len() - p.len()]));
    }
    assert(a =~= s.take(dump.len() as int));
    assert(s.take(dump.len() as int) =~= dump);
    assert(b =~= (a + p + b).skip(a.len() as int + p.len()));
    assert(d =~= s.skip(dump.len() as int + p.len()));
    assert(forall|i: int| 0 <= i < d.len() ==> text::is_digit(#[trigger] d[i]));
    text_laws::law_white_space(d[0]);
    text_laws::law_white_space(d.last());
    text::lemma_trim_fixed(d);
    text_laws::law_read_number(code, 65535);
}

/// Without the marker there is no status, and all of the output is the header dump.
pub proof fn law_head_without_marker(stdout: Seq<char>)
    requires
        !text::contains_text(stdout, "<<<VPNPROBE>>>"@),
    ensures
        head(stdout).status is None,
        head(stdout).headers == headers_of(text::lines(stdout)),
{
    let p = "<<<VPNPROBE>>>"@;
    text_laws::law_contains_text(stdout, p);
    text_laws::law_rsplit_text(stdout, p);
    text::lemma_trim_fixed(Seq::empty());
    text_laws::law_read_digits(Seq::empty(), 0, 65535);
}

/// The header that a line gives: lines that are blank or begin with `HTTP/`, and lines
/// without a colon, give none; of the others what stands before the first colon is
/// the name, in lower case, and what stands behind it the value.
pub open spec fn header_in(raw: Seq<char>, key: Seq<char>, value: Seq<char>) -> bool {
    let line = text::trim_end(raw);
    &&& line.len() > 0
    &&& forall|rest: Seq<char>| line != #[trigger] ("HTTP/"@ + rest)
    &&& exists|k: Seq<char>, v: Seq<char>|
        line == #[trigger] (k + seq![':'] + v) && !k.contains(':') && key == text::lower(
            text::trim(k),
        ) && value == text::trim(v)
}

/// One line changes the header that it gives and no other.
proof fn lemma_header_step(headers: Headers, raw: Seq<char>)
    requires
        keys_ordered(headers),
    ensures
        keys_ordered(header_step(headers, raw)),
        forall|key: Seq<char>, value: Seq<char>| #[trigger]
            header_in(raw, key, value) ==> lookup(header_step(headers, raw), key) == Some(value),
        forall|key: Seq<char>|
            (forall|value: Seq<char>| !#[trigger] header_in(raw, key, value)) ==> #[trigger] lookup(
                header_step(headers, raw),
                key,
            ) == lookup(headers, key),
{
    let line = text::trim_end(raw);
    let p = "HTTP/"@;
    let after = header_step(headers, raw);
    if forall|rest: Seq<char>| line != #[trigger] (p + rest) {
        if let Some(rest) = text::strip_prefix(line, p) {
            text_laws::law_strip_prefix(line, p, rest);
        }
    } else {
        let rest = choose|rest: Seq<char>| line == #[trigger] (p + rest);
        text_laws::law_strip_prefix(line, p, rest);
    }
    if line.len() > 0 && text::strip_prefix(line, p) is None {
        assert forall|rest: Seq<char>| line != #[trigger] (p + rest) by {
            text_laws::law_strip_prefix(line, p, rest);
        }
    }
    assert forall|key: Seq<char>, value: Seq<char>| #[trigger]
        header_in(raw, key, value) implies lookup(after, key) == Some(value) by {
        let (k, v) = choose|k: Seq<char>, v: Seq<char>|
            line == #[trigger] (k + seq![':'] + v) && !k.contains(':') && key == text::lower(
                text::trim(k),
            ) && value == text::trim(v);
        text_laws::law_split_once(k, ':', v);
        lemma_put(headers, key, value);
    }
    if line.len() > 0 && text::strip_prefix(line, p) is None {
        if let Some((k, v)) = text::split_once(line, ':') {
            let key = text::lower(text::trim(k));
            let value = text::trim(v);
            text::lemma_find(line, ':');
            let i = text::find(line, ':')->0;
            assert(line =~= line.take(i) + seq![':'] + line.skip(i + 1));
            assert(line == k + seq![':'] + v);
            assert(!k.contains(':'));
            assert(header_in(raw, key, value));
            lemma_put(headers, key, value);
        }
    }
}

/// A header has the value of the last line that gives it; and it is there exactly if
/// some line gives it.
pub proof fn law_headers(lines: Seq<Seq<char>>, key: Seq<char>)
    ensures
        keys_ordered(headers_of(lines)),
        match lookup(headers_of(lines), key) {
            Some(value) => exists|i: int|
                #![trigger lines[i]]
                {
                    &&& 0 <= i < lines.len()
                    &&& header_in(lines[i], key, value)
                    &&& forall|j: int, v: Seq<char>|
                        i < j < lines.len() ==> !#[trigger] header_in(lines[j], key, v)
                },
            None => forall|j: int, v: Seq<char>|
                0 <= j < lines.len() ==> !#[trigger] header_in(lines[j], key, v),
        },
    decreases lines.len(),
{
    if lines.len() > 0 {
        let t = lines.drop_last();
        let n = lines.len() - 1;
        law_headers(t, key);
        let before = headers_of(t);
        lemma_header_step(before, lines.last());
        assert(lines[n] == lines.last());
        assert(forall|i: int| 0 <= i < n ==> #[trigger] t[i] == lines[i]);
        if exists|v: Seq<char>| header_in(lines[n], key, v) {
            let v = choose|v: Seq<char>| header_in(lines[n], key, v);
            assert(header_in(lines.last(), key, v));
            assert(lookup(headers_of(lines), key) == Some(v));
        } else {
            assert(forall|v: Seq<char>| !#[trigger] header_in(lines.last(), key, v));
            assert(lookup(headers_of(lines), key) == lookup(before, key));
            if let Some(value) = lookup(before, key) {
                let i = choose|i: int|
                    #![trigger t[i]]
                    {
                        &&& 0 <= i < t.len()
                        &&& header_in(t[i], key, value)
                        &&& forall|j: int, v: Seq<char>|
                            i < j < t.len() ==> !#[trigger] header_in(t[j], key, v)
                    };
                assert(lines[i] == t[i]);
                assert forall|j: int, v: Seq<char>|
                    i < j < lines.len() implies !#[trigger] header_in(lines[j], key, v) by {
                    if j < n {
                        assert(!header_in(t[j], key, v));
                    }
                }
            } else {
                assert forall|j: int, v: Seq<char>|
                    0 <= j < lines.len() implies !#[trigger] header_in(lines[j], key, v) by {
                    if j < n {
                        assert(!header_in(t[j], key, v));
                    }
                }
            }
        }
    } else {
        assert(lookup(headers_of(lines), key) is None);
    }
}

// ---------------------------------------------------------------------------
// Network services and their servers
// ---------------------------------------------------------------------------

/// A service is listed by its name; stars before the name mark it as disabled.
pub proof fn law_service_name(
    a: Seq<char>,
    stars: nat,
    b: Seq<char>,
    name: Seq<char>,
    c: Seq<char>,
)
    requires
        text_laws::blank(a),
        text_laws::blank(b),
        text_laws::blank(c),
        text_laws::tight(name),
        name.len() > 0,
        name[0] != '*',
    ensures
        stars > 0 ==> service_name(a + Seq::new(stars, |i: int| '*') + b + name + c) == name,
        service_name(a + name + c) == name,
{
    let none = Seq::<char>::empty();
    let marks = Seq::new(stars, |i: int| '*');
    text_laws::law_trim(a, name, c);
    text_laws::law_trim_start_of(0, '*', name);
    assert(Seq::new(0, |i: int| '*') + name =~= name);
    text_laws::law_trim(none, name, none);
    assert(none + name + none =~= name);
    if stars > 0 {
        let m = marks + b + name;
        text_laws::law_white_space('*');
        assert(m[0] == '*');
        assert(m.last() == name.last());
        text_laws::law_trim(a, m, c);
        assert(a + marks + b + name + c =~= a + m + c);
        if b.len() > 0 {
            assert((b + name)[0] == b[0]);
            text_laws::law_white_space(b[0]);
        } else {
            assert((b + name)[0] == name[0]);
        }
        text_laws::law_trim_start_of(stars, '*', b + name);
        assert(m =~= marks + (b + name));
        text_laws::law_trim(b, name, none);
        assert(b + name + none =~= b + name);
    }
}

/// Every line of the list of services but the first, which is a legend, names a
/// service, unless it names nothing.
pub proof fn law_services(stdout: Seq<char>, legend: Seq<char>, rest: Seq<Seq<char>>)
    ensures
        text::lines(stdout) == seq![legend] + rest ==> services(stdout) == rest.map_values(
            |raw: Seq<char>| service_name(raw),
        ).filter(|x: Seq<char>| x.len() > 0),
        text::lines(stdout).len() == 0 ==> services(stdout).len() == 0,
{
    if text::lines(stdout) == seq![legend] + rest {
        assert((seq![legend] + rest).skip(1) =~= rest);
        config_laws::law_nonempty(rest.map_values(|raw: Seq<char>| service_name(raw)));
    }
}

/// The server that a line names: a line without white space but around it, and with
/// something besides.
pub open spec fn server_in(line: Seq<char>) -> Option<Seq<char>> {
    if text::trim(line).len() > 0 && !text::has_space(text::trim(line)) {
        Some(text::trim(line))
    } else {
        None
    }
}

/// The servers of a service are the lines that name one, every one of them, in their
/// order.
pub proof fn law_servers(lines: Seq<Seq<char>>)
    ensures
        servers_in(lines) == lines.filter_map(|line: Seq<char>| server_in(line)),
        forall|i: int|
            0 <= i < lines.len() && server_in(#[trigger] lines[i]) is Some ==> servers_in(
                lines,
            ).contains(text::trim(lines[i])),
    decreases lines.len(),
{
    if lines.len() > 0 {
        let t = lines.drop_last();
        law_servers(t);
        let before = servers_in(t);
        let after = servers_in(lines);
        assert forall|i: int|
            0 <= i < lines.len() && server_in(#[trigger] lines[i]) is Some implies after.contains(
            text::trim(lines[i]),
        ) by {
            if i < t.len() {
                assert(t[i] == lines[i]);
                let k = choose|k: int| 0 <= k < before.len() && before[k] == text::trim(t[i]);
                assert(after[k] == before[k]);
            } else {
                assert(after[before.len() as int] == text::trim(lines[i]));
            }
        }
    }
    assert(servers_in(lines) =~= lines.filter_map(|line: Seq<char>| server_in(line)));
}

/// Two outputs, one behind the other, name the servers of both.
pub proof fn law_servers_in_parts(a: Seq<Seq<char>>, b: Seq<Seq<char>>)
    ensures
        servers_in(a + b) == servers_in(a) + servers_in(b),
    decreases b.len(),
{
    if b.len() == 0 {
        assert(a + b =~= a);
    } else {
        law_servers_in_parts(a, b.drop_last());
        assert((a + b).drop_last() =~= a + b.drop_last());
    }
    assert(servers_in(a + b) =~= servers_in(a) + servers_in(b));
}

/// Of a list of servers those of the tunnel are left out, and no others.
pub proof fn law_without(servers: Seq<Seq<char>>, tunnel_dns: Seq<Seq<char>>)
    ensures
        without(servers, tunnel_dns) == servers.filter(|x: Seq<char>| !tunnel_dns.contains(x)),
    decreases servers.len(),
{
    reveal(Seq::filter);
    if servers.len() > 0 {
        law_without(servers.drop_last(), tunnel_dns);
    }
    assert(without(servers, tunnel_dns) =~= servers.filter(
        |x: Seq<char>| !tunnel_dns.contains(x),
    ));
}

} // verus!
